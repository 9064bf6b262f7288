//! Errors of the daemon and their messages.
use vstd::prelude::*;
use vstd::string::*;
use crate::number::{decimal, format_u64};

verus! {

/// Where in a file a parse failed, counted from one.
#[derive(Debug, Clone, Copy, PartialEq, Eq, Structural)]
pub struct Location {
    pub line: u64,
    pub column: u64,
}

/// Why a configuration file could not be read as a configuration.
#[derive(Debug)]
pub struct ParseFailure {
    /// The path of the field that failed, empty at the root.
    pub field: String,
    pub location: Option<Location>,
    pub message: String,
}

/// Errors of the daemon.
#[derive(Debug)]
pub enum DaemonError {
    Config(String),
    ConfigParse { path: String, failure: ParseFailure },
    ConfigNotFound(String),
    ServiceNotFound(String),
    DependencyCycle(String),
    MissingDependency { service: String, dependency: String },
    ProcessSpawn { service: String, source: String },
    ProcessKill { service: String, pid: u32, source: String },
    HookFailed { service: String, hook: String, message: String },
    EnvFileNotFound(String),
    EnvFileParse { path: String, source: String },
    Watcher(String),
    Internal(String),
    UserNotFound(String),
    GroupNotFound(String),
    ConfigCopy(String),
    LuaError { path: String, message: String },
}

/// The message of a parse failure: the field's path if there is one, then the place if it is
/// known, then what is wrong.
pub open spec fn parse_failure_text(f: ParseFailure) -> Seq<char> {
    let located = match f.location {
        Some(at) => "Line "@ + decimal(at.line as nat) + ", Column "@ + decimal(at.column as nat)
            + ": "@ + f.message@,
        None => f.message@,
    };
    if f.field@.len() == 0 {
        located
    } else {
        f.field@ + ": "@ + located
    }
}

/// The message of an error.
pub open spec fn error_text(e: DaemonError) -> Seq<char> {
    match e {
        DaemonError::Config(m) => "Configuration error: "@ + m@,
        DaemonError::ConfigParse { path, failure } => "Failed to parse config file '"@ + path@
            + "':\n  "@ + parse_failure_text(failure),
        DaemonError::ConfigNotFound(p) => "Config file not found: "@ + p@,
        DaemonError::ServiceNotFound(s) => "Service not found: "@ + s@,
        DaemonError::DependencyCycle(m) => "Dependency cycle detected: "@ + m@,
        DaemonError::MissingDependency { service, dependency } => "Missing dependency for service "@
            + service@ + ": "@ + dependency@,
        DaemonError::ProcessSpawn { service, source } => "Failed to spawn process for service "@
            + service@ + ": "@ + source@,
        DaemonError::ProcessKill { service, pid, source } => "Failed to kill process "@ + decimal(
            pid as nat,
        ) + " for service "@ + service@ + ": "@ + source@,
        DaemonError::HookFailed { service, hook, message } => service@ + " "@ + hook@
            + " hook failed ("@ + message@ + ")"@,
        DaemonError::EnvFileNotFound(p) => "Environment file not found: "@ + p@,
        DaemonError::EnvFileParse { path, source } => "Failed to parse environment file "@ + path@
            + ": "@ + source@,
        DaemonError::Watcher(m) => "File watcher error: "@ + m@,
        DaemonError::Internal(m) => "Internal error: "@ + m@,
        DaemonError::UserNotFound(u) => "User not found: "@ + u@,
        DaemonError::GroupNotFound(g) => "Group not found: "@ + g@,
        DaemonError::ConfigCopy(m) => "Failed to copy config file to secure location: "@ + m@,
        DaemonError::LuaError { path, message } => "Lua error in config '"@ + path@ + "': "@
            + message@,
    }
}

impl ParseFailure {
    /// The message of the failure.
    pub fn message(&self) -> (r: String)
        ensures
            r@ == parse_failure_text(*self),
    {
        let mut out: String = self.field.clone();
        if !self.field.as_str().is_empty() {
            out.append(": ");
        }
        match self.location {
            Some(at) => {
                out.append("Line ");
                out.append(format_u64(at.line).as_str());
                out.append(", Column ");
                out.append(format_u64(at.column).as_str());
                out.append(": ");
            },
            None => {},
        }
        out.append(self.message.as_str());
        assert(out@ == parse_failure_text(*self));
        out
    }
}

impl DaemonError {
    /// The message of the error.
    pub fn message(&self) -> (r: String)
        ensures
            r@ == error_text(*self),
    {
        let mut out: String = String::new();
        match self {
            DaemonError::Config(m) => {
                out.append("Configuration error: ");
                out.append(m.as_str());
            },
            DaemonError::ConfigParse { path, failure } => {
                out.append("Failed to parse config file '");
                out.append(path.as_str());
                out.append("':\n  ");
                out.append(failure.message().as_str());
            },
            DaemonError::ConfigNotFound(p) => {
                out.append("Config file not found: ");
                out.append(p.as_str());
            },
            DaemonError::ServiceNotFound(s) => {
                out.append("Service not found: ");
                out.append(s.as_str());
            },
            DaemonError::DependencyCycle(m) => {
                out.append("Dependency cycle detected: ");
                out.append(m.as_str());
            },
            DaemonError::MissingDependency { service, dependency } => {
                out.append("Missing dependency for service ");
                out.append(service.as_str());
                out.append(": ");
                out.append(dependency.as_str());
            },
            DaemonError::ProcessSpawn { service, source } => {
                out.append("Failed to spawn process for service ");
                out.append(service.as_str());
                out.append(": ");
                out.append(source.as_str());
            },
            DaemonError::ProcessKill { service, pid, source } => {
                out.append("Failed to kill process ");
                out.append(format_u64(*pid as u64).as_str());
                out.append(" for service ");
                out.append(service.as_str());
                out.append(": ");
                out.append(source.as_str());
            },
            DaemonError::HookFailed { service, hook, message } => {
                out.append(service.as_str());
                out.append(" ");
                out.append(hook.as_str());
                out.append(" hook failed (");
                out.append(message.as_str());
                out.append(")");
            },
            DaemonError::EnvFileNotFound(p) => {
                out.append("Environment file not found: ");
                out.append(p.as_str());
            },
            DaemonError::EnvFileParse { path, source } => {
                out.append("Failed to parse environment file ");
                out.append(path.as_str());
                out.append(": ");
                out.append(source.as_str());
            },
            DaemonError::Watcher(m) => {
                out.append("File watcher error: ");
                out.append(m.as_str());
            },
            DaemonError::Internal(m) => {
                out.append("Internal error: ");
                out.append(m.as_str());
            },
            DaemonError::UserNotFound(u) => {
                out.append("User not found: ");
                out.append(u.as_str());
            },
            DaemonError::GroupNotFound(g) => {
                out.append("Group not found: ");
                out.append(g.as_str());
            },
            DaemonError::ConfigCopy(m) => {
                out.append("Failed to copy config file to secure location: ");
                out.append(m.as_str());
            },
            DaemonError::LuaError { path, message } => {
                out.append("Lua error in config '");
                out.append(path.as_str());
                out.append("': ");
                out.append(message.as_str());
            },
        }
        assert(out@ == error_text(*self));
        out
    }
}

/// The message of an error says what went wrong and names what it went wrong with.
pub proof fn law_messages_name_what_went_wrong(e: DaemonError, m: String)
    requires
        call_ensures(DaemonError::message, (&e,), m),
    ensures
        match e {
            DaemonError::Config(t) => m@ == "Configuration error: "@ + t@,
            DaemonError::ConfigNotFound(p) => m@ == "Config file not found: "@ + p@,
            DaemonError::ServiceNotFound(s) => m@ == "Service not found: "@ + s@,
            DaemonError::DependencyCycle(t) => m@ == "Dependency cycle detected: "@ + t@,
            DaemonError::MissingDependency { service, dependency } => m@
                == "Missing dependency for service "@ + service@ + ": "@ + dependency@,
            DaemonError::ProcessSpawn { service, source } => m@
                == "Failed to spawn process for service "@ + service@ + ": "@ + source@,
            DaemonError::ProcessKill { service, pid, source } => m@ == "Failed to kill process "@
                + decimal(pid as nat) + " for service "@ + service@ + ": "@ + source@,
            DaemonError::HookFailed { service, hook, message } => m@ == service@ + " "@ + hook@
                + " hook failed ("@ + message@ + ")"@,
            DaemonError::EnvFileNotFound(p) => m@ == "Environment file not found: "@ + p@,
            DaemonError::EnvFileParse { path, source } => m@
                == "Failed to parse environment file "@ + path@ + ": "@ + source@,
            DaemonError::Watcher(t) => m@ == "File watcher error: "@ + t@,
            DaemonError::Internal(t) => m@ == "Internal error: "@ + t@,
            DaemonError::UserNotFound(u) => m@ == "User not found: "@ + u@,
            DaemonError::GroupNotFound(g) => m@ == "Group not found: "@ + g@,
            DaemonError::ConfigCopy(t) => m@ == "Failed to copy config file to secure location: "@
                + t@,
            DaemonError::LuaError { path, message } => m@ == "Lua error in config '"@ + path@
                + "': "@ + message@,
            DaemonError::ConfigParse { .. } => true,
        },
{
}

/// A parse failure names the file, then the field unless it is the root, then the place if it is
/// known, then what is wrong.
pub proof fn law_parse_failure_names_the_place(
    path: String,
    failure: ParseFailure,
    m: String,
)
    requires
        call_ensures(DaemonError::message, (&DaemonError::ConfigParse { path, failure },), m),
    ensures
        ({
            let head = "Failed to parse config file '"@ + path@ + "':\n  "@;
            let field = if failure.field@.len() == 0 {
                seq![]
            } else {
                failure.field@ + ": "@
            };
            let place = match failure.location {
                Some(at) => "Line "@ + decimal(at.line as nat) + ", Column "@ + decimal(
                    at.column as nat,
                ) + ": "@,
                None => seq![],
            };
            m@ == head + field + place + failure.message@
        }),
{
    let head = "Failed to parse config file '"@ + path@ + "':\n  "@;
    let field = if failure.field@.len() == 0 {
        seq![]
    } else {
        failure.field@ + ": "@
    };
    let place = match failure.location {
        Some(at) => "Line "@ + decimal(at.line as nat) + ", Column "@ + decimal(at.column as nat)
            + ": "@,
        None => seq![],
    };
    assert(m@ =~= head + field + place + failure.message@);
}

} // verus!
