//! The configuration, with shell variables filled in when it is loaded.
use vstd::prelude::*;
use vstd::string::*;
use crate::config::duration::Duration;
use crate::config::logs::{first_given, LogRetention, LogStoreConfig};
use crate::config::resources::ResourceLimits;
use crate::config::service::{
    about, dependency_faults, message_about, name_fault, push_message, validate_service_name,
    with_fault,
};
use crate::eager::expand::{
    expand_all, expand_entries, expand_opt, expanded_all, expanded_entries, expanded_opt, fill_text,
    filled, overlay,
};
use crate::eager::restart::RestartConfig;
use crate::env::texts;
use crate::errors::DaemonError;
use crate::name_map::NameMap;
use crate::text::{concat3, join, joined, opt_view, views};

verus! {

/// A hook: a script for a shell, or a command as a list of words.
#[derive(Debug)]
pub enum HookCommand {
    Script {
        run: String,
        user: Option<String>,
        group: Option<String>,
        working_dir: Option<String>,
        environment: Vec<String>,
        env_file: Option<String>,
    },
    Command {
        command: Vec<String>,
        user: Option<String>,
        group: Option<String>,
        working_dir: Option<String>,
        environment: Vec<String>,
        env_file: Option<String>,
    },
}

/// The model of a hook.
#[verifier::ext_equal]
pub struct Hook {
    pub script: Option<Seq<char>>,
    pub command: Seq<Seq<char>>,
    pub user: Option<Seq<char>>,
    pub group: Option<Seq<char>>,
    pub working_dir: Option<Seq<char>>,
    pub environment: Seq<Seq<char>>,
    pub env_file: Option<Seq<char>>,
}

impl View for HookCommand {
    type V = Hook;

    open spec fn view(&self) -> Hook {
        match *self {
            HookCommand::Script { run, user, group, working_dir, environment, env_file } => Hook {
                script: Some(run@),
                command: seq![],
                user: opt_view(user),
                group: opt_view(group),
                working_dir: opt_view(working_dir),
                environment: views(environment@),
                env_file: opt_view(env_file),
            },
            HookCommand::Command { command, user, group, working_dir, environment, env_file } =>
                Hook {
                script: None,
                command: views(command@),
                user: opt_view(user),
                group: opt_view(group),
                working_dir: opt_view(working_dir),
                environment: views(environment@),
                env_file: opt_view(env_file),
            },
        }
    }
}

/// A hook with its variables filled in. Its script or command is left to the shell.
pub open spec fn expanded_hook(h: Hook, vars: Map<Seq<char>, Seq<char>>) -> Hook {
    Hook {
        user: expanded_opt(h.user, vars),
        group: expanded_opt(h.group, vars),
        working_dir: expanded_opt(h.working_dir, vars),
        environment: expanded_all(h.environment, vars),
        env_file: expanded_opt(h.env_file, vars),
        ..h
    }
}

/// The model of an optional hook.
pub open spec fn hook_view(h: Option<HookCommand>) -> Option<Hook> {
    match h {
        Some(c) => Some(c@),
        None => None,
    }
}

/// An optional hook with its variables filled in.
pub open spec fn expanded_opt_hook(h: Option<Hook>, vars: Map<Seq<char>, Seq<char>>) -> Option<
    Hook,
> {
    match h {
        Some(c) => Some(expanded_hook(c, vars)),
        None => None,
    }
}

impl HookCommand {
    /// The user that runs the hook.
    pub fn user(&self) -> (r: Option<&str>)
        ensures
            match r {
                Some(s) => self@.user == Some(s@),
                None => self@.user is None,
            },
    {
        let field = match self {
            HookCommand::Script { user, .. } => user,
            HookCommand::Command { user, .. } => user,
        };
        match field {
            Some(s) => Some(s.as_str()),
            None => None,
        }
    }

    /// The group that runs the hook.
    pub fn group(&self) -> (r: Option<&str>)
        ensures
            match r {
                Some(s) => self@.group == Some(s@),
                None => self@.group is None,
            },
    {
        let field = match self {
            HookCommand::Script { group, .. } => group,
            HookCommand::Command { group, .. } => group,
        };
        match field {
            Some(s) => Some(s.as_str()),
            None => None,
        }
    }

    /// The directory of the hook.
    pub fn working_dir(&self) -> (r: Option<&str>)
        ensures
            match r {
                Some(s) => self@.working_dir == Some(s@),
                None => self@.working_dir is None,
            },
    {
        let field = match self {
            HookCommand::Script { working_dir, .. } => working_dir,
            HookCommand::Command { working_dir, .. } => working_dir,
        };
        match field {
            Some(s) => Some(s.as_str()),
            None => None,
        }
    }

    /// The environment file of the hook.
    pub fn env_file(&self) -> (r: Option<&str>)
        ensures
            match r {
                Some(s) => self@.env_file == Some(s@),
                None => self@.env_file is None,
            },
    {
        let field = match self {
            HookCommand::Script { env_file, .. } => env_file,
            HookCommand::Command { env_file, .. } => env_file,
        };
        match field {
            Some(s) => Some(s.as_str()),
            None => None,
        }
    }

    /// The environment entries of the hook.
    pub fn environment(&self) -> (r: &Vec<String>)
        ensures
            views(r@) == self@.environment,
    {
        match self {
            HookCommand::Script { environment, .. } => environment,
            HookCommand::Command { environment, .. } => environment,
        }
    }
}

/// Fills in the variables of a hook.
pub fn expand_hook_command(hook: &mut HookCommand, vars: &NameMap<String>)
    ensures
        final(hook)@ == expanded_hook(old(hook)@, texts(vars@)),
{
    match hook {
        HookCommand::Script { run: _, user, group, working_dir, environment, env_file } => {
            expand_opt(user, vars);
            expand_opt(group, vars);
            expand_opt(working_dir, vars);
            expand_opt(env_file, vars);
            expand_all(environment, vars);
        },
        HookCommand::Command { command: _, user, group, working_dir, environment, env_file } => {
            expand_opt(user, vars);
            expand_opt(group, vars);
            expand_opt(working_dir, vars);
            expand_opt(env_file, vars);
            expand_all(environment, vars);
        },
    }
}

/// Fills in the variables of an optional hook.
fn expand_opt_hook(hook: &mut Option<HookCommand>, vars: &NameMap<String>)
    ensures
        hook_view(*final(hook)) == expanded_opt_hook(hook_view(*old(hook)), texts(vars@)),
{
    if let Some(h) = hook {
        expand_hook_command(h, vars);
    }
}

/// Hooks of the whole configuration.
#[derive(Debug)]
pub struct GlobalHooks {
    pub on_init: Option<HookCommand>,
    pub on_start: Option<HookCommand>,
    pub on_stop: Option<HookCommand>,
    pub on_cleanup: Option<HookCommand>,
}

impl Default for GlobalHooks {
    fn default() -> (r: Self)
        ensures
            r.on_init is None,
            r.on_start is None,
            r.on_stop is None,
            r.on_cleanup is None,
    {
        GlobalHooks {
            on_init: None,
            on_start: None,
            on_stop: None,
            on_cleanup: None,
        }
    }
}

/// Fills in the variables of hooks.
pub fn expand_global_hooks(hooks: &mut GlobalHooks, vars: &NameMap<String>)
    ensures
        hook_view(final(hooks).on_init) == expanded_opt_hook(
            hook_view(old(hooks).on_init),
            texts(vars@),
        ),
        hook_view(final(hooks).on_start) == expanded_opt_hook(
            hook_view(old(hooks).on_start),
            texts(vars@),
        ),
        hook_view(final(hooks).on_stop) == expanded_opt_hook(
            hook_view(old(hooks).on_stop),
            texts(vars@),
        ),
        hook_view(final(hooks).on_cleanup) == expanded_opt_hook(
            hook_view(old(hooks).on_cleanup),
            texts(vars@),
        ),
{
    expand_opt_hook(&mut hooks.on_init, vars);
    expand_opt_hook(&mut hooks.on_start, vars);
    expand_opt_hook(&mut hooks.on_stop, vars);
    expand_opt_hook(&mut hooks.on_cleanup, vars);
}

/// Hooks of a service.
#[derive(Debug)]
pub struct ServiceHooks {
    pub on_init: Option<HookCommand>,
    pub on_start: Option<HookCommand>,
    pub on_stop: Option<HookCommand>,
    pub on_restart: Option<HookCommand>,
    pub on_exit: Option<HookCommand>,
    pub on_healthcheck_success: Option<HookCommand>,
    pub on_healthcheck_fail: Option<HookCommand>,
}

impl Default for ServiceHooks {
    fn default() -> (r: Self)
        ensures
            r.on_init is None,
            r.on_start is None,
            r.on_stop is None,
            r.on_restart is None,
            r.on_exit is None,
            r.on_healthcheck_success is None,
            r.on_healthcheck_fail is None,
    {
        ServiceHooks {
            on_init: None,
            on_start: None,
            on_stop: None,
            on_restart: None,
            on_exit: None,
            on_healthcheck_success: None,
            on_healthcheck_fail: None,
        }
    }
}

/// Fills in the variables of hooks.
pub fn expand_service_hooks(hooks: &mut ServiceHooks, vars: &NameMap<String>)
    ensures
        hook_view(final(hooks).on_init) == expanded_opt_hook(
            hook_view(old(hooks).on_init),
            texts(vars@),
        ),
        hook_view(final(hooks).on_start) == expanded_opt_hook(
            hook_view(old(hooks).on_start),
            texts(vars@),
        ),
        hook_view(final(hooks).on_stop) == expanded_opt_hook(
            hook_view(old(hooks).on_stop),
            texts(vars@),
        ),
        hook_view(final(hooks).on_restart) == expanded_opt_hook(
            hook_view(old(hooks).on_restart),
            texts(vars@),
        ),
        hook_view(final(hooks).on_exit) == expanded_opt_hook(
            hook_view(old(hooks).on_exit),
            texts(vars@),
        ),
        hook_view(final(hooks).on_healthcheck_success) == expanded_opt_hook(
            hook_view(old(hooks).on_healthcheck_success),
            texts(vars@),
        ),
        hook_view(final(hooks).on_healthcheck_fail) == expanded_opt_hook(
            hook_view(old(hooks).on_healthcheck_fail),
            texts(vars@),
        ),
{
    expand_opt_hook(&mut hooks.on_init, vars);
    expand_opt_hook(&mut hooks.on_start, vars);
    expand_opt_hook(&mut hooks.on_stop, vars);
    expand_opt_hook(&mut hooks.on_restart, vars);
    expand_opt_hook(&mut hooks.on_exit, vars);
    expand_opt_hook(&mut hooks.on_healthcheck_success, vars);
    expand_opt_hook(&mut hooks.on_healthcheck_fail, vars);
}

/// How the health of a service is checked.
#[derive(Debug)]
pub struct HealthCheck {
    pub test: Vec<String>,
    pub interval: Duration,
    pub timeout: Duration,
    pub retries: u32,
    pub start_period: Duration,
}

impl HealthCheck {
    /// A check with the default times and number of failures.
    pub fn with_defaults(test: Vec<String>) -> (r: Self)
        ensures
            r.test == test,
            r.interval.millis == 30000,
            r.timeout.millis == 30000,
            r.retries == 3,
            r.start_period.millis == 0,
    {
        HealthCheck {
            test,
            interval: Duration::from_secs(30),
            timeout: Duration::from_secs(30),
            retries: 3,
            start_period: Duration::from_secs(0),
        }
    }
}

/// What happens to logs on an occasion.
#[derive(Debug, Clone, Copy, PartialEq, Eq, Structural)]
pub struct LogRetentionConfig {
    pub on_stop: Option<LogRetention>,
    pub on_start: Option<LogRetention>,
    pub on_restart: Option<LogRetention>,
    pub on_exit: Option<LogRetention>,
}

/// What is kept of the output of a service.
#[derive(Debug, Clone, Copy, PartialEq, Eq, Structural)]
pub struct LogConfig {
    pub timestamp: Option<bool>,
    pub store: Option<LogStoreConfig>,
    pub retention: Option<LogRetentionConfig>,
}

impl LogConfig {
    /// What happens to logs on a stop.
    pub fn get_on_stop(&self) -> (r: Option<LogRetention>)
        ensures
            r == match self.retention {
                Some(c) => c.on_stop,
                None => None,
            },
    {
        match self.retention {
            Some(c) => c.on_stop,
            None => None,
        }
    }

    /// What happens to logs on a start.
    pub fn get_on_start(&self) -> (r: Option<LogRetention>)
        ensures
            r == match self.retention {
                Some(c) => c.on_start,
                None => None,
            },
    {
        match self.retention {
            Some(c) => c.on_start,
            None => None,
        }
    }

    /// What happens to logs on a restart.
    pub fn get_on_restart(&self) -> (r: Option<LogRetention>)
        ensures
            r == match self.retention {
                Some(c) => c.on_restart,
                None => None,
            },
    {
        match self.retention {
            Some(c) => c.on_restart,
            None => None,
        }
    }

    /// What happens to logs on a exit.
    pub fn get_on_exit(&self) -> (r: Option<LogRetention>)
        ensures
            r == match self.retention {
                Some(c) => c.on_exit,
                None => None,
            },
    {
        match self.retention {
            Some(c) => c.on_exit,
            None => None,
        }
    }
}

/// What happens to logs on an occasion: the setting of the service comes before the global one,
/// and that one before the default. `get_field` reads the setting for the occasion.
pub fn resolve_log_retention<F: Fn(&LogConfig) -> Option<LogRetention>>(
    service_logs: Option<&LogConfig>,
    global_logs: Option<&LogConfig>,
    get_field: F,
    default: LogRetention,
) -> (r: LogRetention)
    requires
        forall|l: &LogConfig| call_requires(get_field, (l,)),
    ensures
        exists|s: Option<LogRetention>, g: Option<LogRetention>|
            #![trigger first_given(s, g, default)]
            {
                &&& r == first_given(s, g, default)
                &&& match service_logs {
                    Some(l) => call_ensures(get_field, (l,), s),
                    None => s is None,
                }
                &&& s is None ==> match global_logs {
                    Some(l) => call_ensures(get_field, (l,), g),
                    None => g is None,
                }
            },
{
    if let Some(l) = service_logs {
        let s = get_field(l);
        if let Some(v) = s {
            assert(v == first_given(s, None, default));
            return v;
        }
    }
    let g: Option<LogRetention> = match global_logs {
        Some(l) => get_field(l),
        None => None,
    };
    let ghost none: Option<LogRetention> = None;
    let r = match g {
        Some(v) => v,
        None => default,
    };
    assert(r == first_given(none, g, default));
    r
}

/// The setting of the streams that are stored: that of the service, else the global one.
pub open spec fn store_setting(
    service_logs: Option<&LogConfig>,
    global_logs: Option<&LogConfig>,
) -> Option<LogStoreConfig> {
    match service_logs {
        Some(LogConfig { store: Some(c), .. }) => Some(*c),
        _ => match global_logs {
            Some(l) => l.store,
            None => None,
        },
    }
}

/// Whether standard output and standard error are stored. Without a setting both are.
pub fn resolve_log_store(
    service_logs: Option<&LogConfig>,
    global_logs: Option<&LogConfig>,
) -> (r: (bool, bool))
    ensures
        r == match store_setting(service_logs, global_logs) {
            Some(LogStoreConfig::Simple(b)) => (b, b),
            Some(LogStoreConfig::Extended { stdout, stderr }) => (stdout, stderr),
            None => (true, true),
        },
{
    if let Some(l) = service_logs {
        if let Some(c) = l.store {
            return (c.store_stdout(), c.store_stderr());
        }
    }
    if let Some(l) = global_logs {
        if let Some(c) = l.store {
            return (c.store_stdout(), c.store_stderr());
        }
    }
    (true, true)
}

/// The configuration of a service.
#[derive(Debug)]
pub struct ServiceConfig {
    pub command: Vec<String>,
    pub working_dir: Option<String>,
    pub environment: Vec<String>,
    pub env_file: Option<String>,
    pub restart: RestartConfig,
    pub depends_on: Vec<String>,
    pub healthcheck: Option<HealthCheck>,
    pub hooks: Option<ServiceHooks>,
    pub logs: Option<LogConfig>,
    pub user: Option<String>,
    pub group: Option<String>,
    pub limits: Option<ResourceLimits>,
}

/// Whether the hooks of a service are filled in.
pub open spec fn hooks_expanded(
    before: Option<ServiceHooks>,
    after: Option<ServiceHooks>,
    vars: Map<Seq<char>, Seq<char>>,
) -> bool {
    match (before, after) {
        (None, None) => true,
        (Some(a), Some(b)) => {
            &&& hook_view(b.on_init) == expanded_opt_hook(hook_view(a.on_init), vars)
            &&& hook_view(b.on_start) == expanded_opt_hook(hook_view(a.on_start), vars)
            &&& hook_view(b.on_stop) == expanded_opt_hook(hook_view(a.on_stop), vars)
            &&& hook_view(b.on_restart) == expanded_opt_hook(hook_view(a.on_restart), vars)
            &&& hook_view(b.on_exit) == expanded_opt_hook(hook_view(a.on_exit), vars)
            &&& hook_view(b.on_healthcheck_success) == expanded_opt_hook(hook_view(a.on_healthcheck_success), vars)
            &&& hook_view(b.on_healthcheck_fail) == expanded_opt_hook(hook_view(a.on_healthcheck_fail), vars)
        },
        _ => false,
    }
}

/// Whether the restart setting is filled in.
pub open spec fn restart_expanded(
    before: RestartConfig,
    after: RestartConfig,
    vars: Map<Seq<char>, Seq<char>>,
) -> bool {
    match (before, after) {
        (RestartConfig::Simple(a), RestartConfig::Simple(b)) => a == b,
        (
            RestartConfig::Extended { policy: a, watch: v },
            RestartConfig::Extended { policy: b, watch: w },
        ) => a == b && views(w@) == expanded_all(views(v@), vars),
        _ => false,
    }
}

/// Whether the limits are filled in.
pub open spec fn limits_expanded(
    before: Option<ResourceLimits>,
    after: Option<ResourceLimits>,
    vars: Map<Seq<char>, Seq<char>>,
) -> bool {
    match (before, after) {
        (None, None) => true,
        (Some(a), Some(b)) => {
            &&& opt_view(b.memory) == expanded_opt(opt_view(a.memory), vars)
            &&& b.cpu_time == a.cpu_time
            &&& b.max_fds == a.max_fds
        },
        _ => false,
    }
}

/// Whether a service is filled in. Its directory, user and group see `vars`; its environment
/// entries see `vars` and the entries before them; all the rest sees `vars` and the whole
/// environment. Its command and its health check are left to the shell.
pub open spec fn service_expanded(
    before: ServiceConfig,
    after: ServiceConfig,
    vars: Map<Seq<char>, Seq<char>>,
) -> bool {
    let entries = expanded_entries(views(before.environment@), before.environment@.len(), vars);
    &&& after.command == before.command
    &&& opt_view(after.working_dir) == expanded_opt(opt_view(before.working_dir), vars)
    &&& views(after.environment@) == entries.0
    &&& after.env_file == before.env_file
    &&& restart_expanded(before.restart, after.restart, entries.1)
    &&& views(after.depends_on@) == expanded_all(views(before.depends_on@), entries.1)
    &&& after.healthcheck == before.healthcheck
    &&& hooks_expanded(before.hooks, after.hooks, entries.1)
    &&& after.logs == before.logs
    &&& opt_view(after.user) == expanded_opt(opt_view(before.user), vars)
    &&& opt_view(after.group) == expanded_opt(opt_view(before.group), vars)
    &&& limits_expanded(before.limits, after.limits, entries.1)
}

/// Fills in the variables of a service. `vars` are the variables before its own environment.
pub fn expand_service_config(service: &mut ServiceConfig, vars: NameMap<String>)
    ensures
        service_expanded(*old(service), *final(service), texts(vars@)),
{
    let mut seen = vars;
    expand_opt(&mut service.working_dir, &seen);
    expand_opt(&mut service.user, &seen);
    expand_opt(&mut service.group, &seen);
    expand_entries(&mut service.environment, &mut seen);
    expand_all(&mut service.depends_on, &seen);
    if let Some(limits) = &mut service.limits {
        expand_opt(&mut limits.memory, &seen);
    }
    if let RestartConfig::Extended { watch, .. } = &mut service.restart {
        expand_all(watch, &seen);
    }
    if let Some(hooks) = &mut service.hooks {
        expand_service_hooks(hooks, &seen);
    }
}

/// A configuration.
#[derive(Debug)]
pub struct KeplerConfig {
    /// Code that the scripts may use.
    pub lua: Option<String>,
    /// Files with more such code.
    pub lua_import: Vec<String>,
    pub hooks: Option<GlobalHooks>,
    pub logs: Option<LogConfig>,
    pub services: NameMap<ServiceConfig>,
}

/// Whether a service differs only in the path of its environment file, which is filled in.
pub open spec fn file_expanded(
    before: ServiceConfig,
    after: ServiceConfig,
    vars: Map<Seq<char>, Seq<char>>,
) -> bool {
    &&& after == ServiceConfig { env_file: after.env_file, ..before }
    &&& match (before.env_file, after.env_file) {
        (Some(a), Some(b)) => b@ == filled(a@, vars),
        (None, None) => true,
        _ => false,
    }
}

/// The variables of a service before its own environment: those of the system under those of its
/// environment file.
pub open spec fn service_vars(
    sys_env: Map<Seq<char>, Seq<char>>,
    files: NameMap<NameMap<String>>,
    name: Seq<char>,
) -> Map<Seq<char>, Seq<char>> {
    if files@.contains_key(name) {
        sys_env.union_prefer_right(texts(files@[name]@))
    } else {
        sys_env
    }
}

/// Whether the global hooks are filled in.
pub open spec fn global_hooks_expanded(
    before: Option<GlobalHooks>,
    after: Option<GlobalHooks>,
    vars: Map<Seq<char>, Seq<char>>,
) -> bool {
    match (before, after) {
        (None, None) => true,
        (Some(a), Some(b)) => {
            &&& hook_view(b.on_init) == expanded_opt_hook(hook_view(a.on_init), vars)
            &&& hook_view(b.on_start) == expanded_opt_hook(hook_view(a.on_start), vars)
            &&& hook_view(b.on_stop) == expanded_opt_hook(hook_view(a.on_stop), vars)
            &&& hook_view(b.on_cleanup) == expanded_opt_hook(hook_view(a.on_cleanup), vars)
        },
        _ => false,
    }
}

/// Whether the paths of the environment files are filled in.
pub open spec fn env_files_expanded(
    before: KeplerConfig,
    after: KeplerConfig,
    vars: Map<Seq<char>, Seq<char>>,
) -> bool {
    &&& after == (KeplerConfig { services: after.services, ..before })
    &&& after.services.keys() == before.services.keys()
    &&& after.services.values().len() == before.services.values().len()
    &&& forall|i: int|
        0 <= i < before.services.values().len() ==> file_expanded(
            #[trigger] before.services.values()[i],
            after.services.values()[i],
            vars,
        )
}

/// Whether the variables of the services and of the global hooks are filled in.
pub open spec fn environment_resolved(
    before: KeplerConfig,
    after: KeplerConfig,
    sys_env: Map<Seq<char>, Seq<char>>,
    files: NameMap<NameMap<String>>,
) -> bool {
    &&& after.lua == before.lua
    &&& after.lua_import == before.lua_import
    &&& after.logs == before.logs
    &&& global_hooks_expanded(before.hooks, after.hooks, sys_env)
    &&& after.services.keys() == before.services.keys()
    &&& after.services.values().len() == before.services.values().len()
    &&& forall|i: int|
        0 <= i < before.services.values().len() ==> service_expanded(
            #[trigger] before.services.values()[i],
            after.services.values()[i],
            service_vars(sys_env, files, before.services.keys()[i]),
        )
}

/// Whether a configuration in which something is wrong is refused, with all messages, and any
/// other one is given.
pub open spec fn validated(
    config: KeplerConfig,
    path: Seq<char>,
    out: Result<KeplerConfig, DaemonError>,
) -> bool {
    match out {
        Ok(c) => c == config && config.faults().len() == 0,
        Err(e) => config.faults().len() > 0 && (e matches DaemonError::Config(m) && m@
            == "Configuration errors in "@ + path + ":\n  - "@ + joined(
            config.faults(),
            "\n  - "@,
        )),
    }
}

/// The message on a service without a command.
pub open spec fn command_fault(name: Seq<char>, service: ServiceConfig) -> Option<Seq<char>> {
    if service.command@.len() == 0 {
        Some(about(name, "'command' is required and must be a non-empty array"@))
    } else {
        None
    }
}

/// The message on a restart setting.
pub open spec fn restart_fault(name: Seq<char>, service: ServiceConfig) -> Option<Seq<char>> {
    match service.restart.fault() {
        Some(m) => Some(about(name, m)),
        None => None,
    }
}

/// All messages on one service.
pub open spec fn service_faults(
    name: Seq<char>,
    service: ServiceConfig,
    services: Seq<Seq<char>>,
) -> Seq<Seq<char>> {
    let l1 = with_fault(seq![], name_fault(name));
    let l2 = with_fault(l1, command_fault(name, service));
    let l3 = l2 + dependency_faults(name, views(service.depends_on@), services);
    with_fault(l3, restart_fault(name, service))
}

/// All messages on the first `n` services.
pub open spec fn config_faults(services: NameMap<ServiceConfig>, n: nat) -> Seq<Seq<char>>
    decreases n,
{
    if n == 0 {
        seq![]
    } else {
        config_faults(services, (n - 1) as nat) + service_faults(
            services.keys()[n - 1],
            services.values()[n - 1],
            services.keys(),
        )
    }
}

/// All messages on one service.
fn check_service(
    name: &str,
    service: &ServiceConfig,
    services: &NameMap<ServiceConfig>,
) -> (r: Vec<String>)
    ensures
        views(r@) == service_faults(name@, *service, services.keys()),
{
    let mut errors: Vec<String> = Vec::new();
    assert(views(errors@) == Seq::<Seq<char>>::empty());
    if let Err(e) = validate_service_name(name) {
        push_message(&mut errors, e);
    }
    if service.command.len() == 0 {
        push_message(
            &mut errors,
            message_about(name, "'command' is required and must be a non-empty array"),
        );
    }
    let ghost l2 = views(errors@);
    let ghost deps = views(service.depends_on@);
    let mut i: usize = 0;
    assert(deps.take(0) == Seq::<Seq<char>>::empty());
    assert(l2 + Seq::<Seq<char>>::empty() =~= l2);
    while i < service.depends_on.len()
        invariant
            i <= service.depends_on@.len(),
            deps == views(service.depends_on@),
            views(errors@) == l2 + dependency_faults(name@, deps.take(i as int), services.keys()),
        decreases service.depends_on@.len() - i,
    {
        assert(deps.take(i + 1).drop_last() == deps.take(i as int));
        assert(deps.take(i + 1).last() == service.depends_on@[i as int]@);
        let ghost before = views(errors@);
        if !services.contains_key(service.depends_on[i].as_str()) {
            let m = concat3(
                "depends on '",
                service.depends_on[i].as_str(),
                "' which is not defined",
            );
            push_message(&mut errors, message_about(name, m.as_str()));
        }
        assert(views(errors@) =~= l2 + dependency_faults(
            name@,
            deps.take(i + 1),
            services.keys(),
        ));
        i += 1;
    }
    assert(deps.take(i as int) == deps);
    if let Err(m) = service.restart.validate() {
        push_message(&mut errors, message_about(name, m.as_str()));
    }
    errors
}

impl KeplerConfig {
    /// All messages on the configuration.
    pub open spec fn faults(self) -> Seq<Seq<char>> {
        config_faults(self.services, self.services.keys().len())
    }

    /// Fills in the paths of the environment files, with the variables of the system.
    pub fn expand_env_files(&mut self, sys_env: &NameMap<String>)
        ensures
            env_files_expanded(*old(self), *final(self), texts(sys_env@)),
    {
        let ghost before = *self;
        let n: usize = self.services.len();
        let mut i: usize = 0;
        while i < n
            invariant
                i <= n,
                n == before.services.keys().len(),
                before.services.well_formed(),
                *self == (KeplerConfig { services: self.services, ..before }),
                self.services.keys() == before.services.keys(),
                self.services.values().len() == before.services.values().len(),
                forall|j: int|
                    0 <= j < i ==> file_expanded(
                        #[trigger] before.services.values()[j],
                        self.services.values()[j],
                        texts(sys_env@),
                    ),
                forall|j: int|
                    i <= j < before.services.values().len() ==> #[trigger] self.services.values()[j]
                        == before.services.values()[j],
            decreases n - i,
        {
            let service = self.services.value_at_mut(i);
            if let Some(path) = &mut service.env_file {
                *path = fill_text(path.as_str(), sys_env);
            }
            i += 1;
        }
    }

    /// Fills in the variables of the services and of the global hooks. `files` holds the variables
    /// of the environment files of the services that have one.
    pub fn resolve_environment(
        &mut self,
        sys_env: &NameMap<String>,
        files: &NameMap<NameMap<String>>,
    )
        ensures
            environment_resolved(*old(self), *final(self), texts(sys_env@), *files),
    {
        let ghost before = *self;
        let n: usize = self.services.len();
        let mut i: usize = 0;
        while i < n
            invariant
                i <= n,
                n == before.services.keys().len(),
                before.services.well_formed(),
                *self == (KeplerConfig { services: self.services, ..before }),
                self.services.keys() == before.services.keys(),
                self.services.values().len() == before.services.values().len(),
                forall|j: int|
                    0 <= j < i ==> service_expanded(
                        #[trigger] before.services.values()[j],
                        self.services.values()[j],
                        service_vars(texts(sys_env@), *files, before.services.keys()[j]),
                    ),
                forall|j: int|
                    i <= j < before.services.values().len() ==> #[trigger] self.services.values()[j]
                        == before.services.values()[j],
            decreases n - i,
        {
            let none: NameMap<String> = NameMap::new();
            let vars = match files.get(self.services.key_at(i).as_str()) {
                Some(file) => overlay(sys_env, file),
                None => overlay(sys_env, &none),
            };
            assert(texts(none@) =~= Map::<Seq<char>, Seq<char>>::empty());
            assert(texts(sys_env@).union_prefer_right(Map::empty()) =~= texts(sys_env@));
            assert(texts(vars@) == service_vars(
                texts(sys_env@),
                *files,
                before.services.keys()[i as int],
            ));
            let service = self.services.value_at_mut(i);
            expand_service_config(service, vars);
            i += 1;
        }
        if let Some(hooks) = &mut self.hooks {
            expand_global_hooks(hooks, sys_env);
        }
    }

    /// Checks the configuration; the error lists all messages.
    pub fn validate(&self, path: &str) -> (r: Result<(), DaemonError>)
        ensures
            match r {
                Ok(_) => self.faults().len() == 0,
                Err(e) => self.faults().len() > 0 && (e matches DaemonError::Config(m) && m@
                    == "Configuration errors in "@ + path@ + ":\n  - "@ + joined(
                    self.faults(),
                    "\n  - "@,
                )),
            },
    {
        let mut errors: Vec<String> = Vec::new();
        let n: usize = self.services.len();
        let mut i: usize = 0;
        assert(views(errors@) == Seq::<Seq<char>>::empty());
        while i < n
            invariant
                i <= n,
                n == self.services.keys().len(),
                self.services.keys().len() == self.services.values().len(),
                views(errors@) == config_faults(self.services, i as nat),
            decreases n - i,
        {
            let ghost before = views(errors@);
            let mut found = check_service(
                self.services.key_at(i).as_str(),
                self.services.value_at(i),
                &self.services,
            );
            let ghost more = views(found@);
            errors.append(&mut found);
            assert(views(errors@) == before + more);
            i += 1;
        }
        if errors.len() > 0 {
            assert(views(errors@).len() > 0);
            let mut m = concat3("Configuration errors in ", path, ":\n  - ");
            m.append(join(&errors, "\n  - ").as_str());
            return Err(DaemonError::Config(m));
        }
        assert(views(errors@).len() == 0);
        Ok(())
    }
}

} // verus!
