//! The configuration of services and of the daemon.
use vstd::prelude::*;
use vstd::string::*;
use crate::config::config_value::{static_value, ConfigValue};
use crate::config::deps::{pair_views, DependencyCondition, DependencyRule, DependsOn};
use crate::config::duration::Duration;
use crate::config::environment::EnvironmentEntries;
use crate::config::health::{
    command_given, is_command_given, is_option_given, option_given, HealthCheck,
};
use crate::config::hooks::ServiceHooks;
use crate::config::logs::LogConfig;
use crate::config::resources::{parse_memory_limit, read_memory, ResourceLimits};
use crate::config::restart::RestartConfig;
use crate::errors::DaemonError;
use crate::hardening::{read_level, HardeningLevel};
use crate::name_map::NameMap;
use crate::number::{decimal, format_u64};
use crate::text::{chars_of, concat, concat3, concat5, join, joined, views};

verus! {

/// When the variables of a user's account are put into the environment of a process.
#[derive(Debug, Clone, Copy, PartialEq, Eq, Structural)]
pub enum InjectUserEnv {
    /// First, so that the configuration overrides them.
    Before,
    /// Last, so that they override the configuration.
    After,
    /// Not at all.
    Disabled,
}

/// The greatest size of captured output by default: one mebibyte.
pub const DEFAULT_OUTPUT_MAX_SIZE: usize = 1048576;

/// The shell for scripts: the value of `SHELL` unless it is empty, else bash if it is there,
/// else `sh`.
pub open spec fn shell_for(shell: Option<Seq<char>>, bash_exists: bool) -> Seq<char> {
    if shell is Some && shell->0.len() > 0 {
        shell->0
    } else if bash_exists {
        "/bin/bash"@
    } else {
        "sh"@
    }
}

/// The text of a name, if the map has it.
pub open spec fn text_of(env: NameMap<String>, name: Seq<char>) -> Option<Seq<char>> {
    if env@.contains_key(name) {
        Some(env@[name]@)
    } else {
        None
    }
}

/// The shell for scripts.
pub fn resolve_shell(env: &NameMap<String>, bash_exists: bool) -> (r: String)
    ensures
        r@ == shell_for(text_of(*env, "SHELL"@), bash_exists),
{
    if let Some(shell) = env.get("SHELL") {
        if !shell.as_str().is_empty() {
            return shell.clone();
        }
    }
    if bash_exists {
        return "/bin/bash".to_owned();
    }
    "sh".to_owned()
}

/// What a process of a service may ask of the daemon.
#[derive(Debug)]
pub struct ServicePermissions {
    /// The rights, by name.
    pub allow: Vec<String>,
    /// The name of the least restrictive level that the process may ask for.
    pub hardening: Option<String>,
}

/// The configuration of a service as it is read. Fields that hold an expression are computed
/// when the service starts.
#[derive(Debug)]
pub struct RawServiceConfig {
    pub condition: ConfigValue<Option<bool>>,
    pub command: ConfigValue<Vec<ConfigValue<String>>>,
    pub run: ConfigValue<Option<String>>,
    pub working_dir: ConfigValue<Option<String>>,
    pub environment: ConfigValue<EnvironmentEntries>,
    pub env_file: ConfigValue<Option<String>>,
    pub inherit_env: Option<bool>,
    pub restart: ConfigValue<RestartConfig>,
    pub depends_on: DependsOn,
    pub healthcheck: ConfigValue<Option<HealthCheck>>,
    pub hooks: Option<ServiceHooks>,
    pub logs: ConfigValue<Option<LogConfig>>,
    pub user: ConfigValue<Option<String>>,
    pub groups: ConfigValue<Vec<ConfigValue<String>>>,
    pub limits: ConfigValue<Option<ResourceLimits>>,
    pub output: ConfigValue<Option<bool>>,
    pub outputs: ConfigValue<Option<NameMap<ConfigValue<String>>>>,
    pub inject_user_env: Option<InjectUserEnv>,
    pub permissions: Option<ServicePermissions>,
}

impl Default for RawServiceConfig {
    fn default() -> (r: Self)
        ensures
            r.condition == ConfigValue::Static(None::<bool>),
            r.command matches ConfigValue::Static(v) && v@.len() == 0,
            r.run == ConfigValue::Static(None::<String>),
            r.working_dir == ConfigValue::Static(None::<String>),
            r.environment matches ConfigValue::Static(e) && e.0@.len() == 0,
            r.env_file == ConfigValue::Static(None::<String>),
            r.inherit_env is None,
            r.restart matches ConfigValue::Static(RestartConfig::Simple(p)) && p.flags() == 0,
            r.depends_on.0@.len() == 0,
            r.healthcheck == ConfigValue::Static(None::<HealthCheck>),
            r.hooks is None,
            r.logs == ConfigValue::Static(None::<LogConfig>),
            r.user == ConfigValue::Static(None::<String>),
            r.groups matches ConfigValue::Static(v) && v@.len() == 0,
            r.limits == ConfigValue::Static(None::<ResourceLimits>),
            r.output == ConfigValue::Static(None::<bool>),
            r.outputs matches ConfigValue::Static(None),
            r.inject_user_env is None,
            r.permissions is None,
    {
        RawServiceConfig {
            condition: ConfigValue::Static(None),
            command: ConfigValue::Static(Vec::new()),
            run: ConfigValue::Static(None),
            working_dir: ConfigValue::Static(None),
            environment: ConfigValue::Static(EnvironmentEntries(Vec::new())),
            env_file: ConfigValue::Static(None),
            inherit_env: None,
            restart: ConfigValue::Static(RestartConfig::default()),
            depends_on: DependsOn::default(),
            healthcheck: ConfigValue::Static(None),
            hooks: None,
            logs: ConfigValue::Static(None),
            user: ConfigValue::Static(None),
            groups: ConfigValue::Static(Vec::new()),
            limits: ConfigValue::Static(None),
            output: ConfigValue::Static(None),
            outputs: ConfigValue::Static(None),
            inject_user_env: None,
            permissions: None,
        }
    }
}

impl RawServiceConfig {
    /// Whether a health check is given; a computed one counts as given.
    pub fn has_healthcheck(&self) -> (r: bool)
        ensures
            r == option_given(self.healthcheck),
    {
        is_option_given(&self.healthcheck)
    }

    /// Whether a command is given; a computed one counts as given.
    pub fn has_command(&self) -> (r: bool)
        ensures
            r == command_given(self.command),
    {
        is_command_given(&self.command)
    }

    /// Whether a script is given; a computed one counts as given.
    pub fn has_run(&self) -> (r: bool)
        ensures
            r == option_given(self.run),
    {
        is_option_given(&self.run)
    }
}

/// The configuration of a service with all fields computed.
#[derive(Debug)]
pub struct ServiceConfig {
    /// The service is skipped if this is false.
    pub condition: Option<bool>,
    pub command: Vec<String>,
    pub working_dir: Option<String>,
    pub environment: Vec<String>,
    pub env_file: Option<String>,
    pub inherit_env: Option<bool>,
    pub restart: RestartConfig,
    pub depends_on: DependsOn,
    pub healthcheck: Option<HealthCheck>,
    pub hooks: Option<ServiceHooks>,
    pub logs: Option<LogConfig>,
    pub user: Option<String>,
    pub groups: Vec<String>,
    pub limits: Option<ResourceLimits>,
    pub output: Option<bool>,
    pub outputs: Option<NameMap<String>>,
    pub inject_user_env: Option<InjectUserEnv>,
}

/// Whether the services of a configuration start with the daemon.
#[derive(Debug)]
pub enum AutostartConfig {
    Disabled,
    Enabled,
    WithEnvironment { environment: ConfigValue<EnvironmentEntries> },
}

impl Default for AutostartConfig {
    fn default() -> (r: Self)
        ensures
            r is Disabled,
    {
        AutostartConfig::Disabled
    }
}

impl AutostartConfig {
    /// Whether the services start with the daemon.
    pub fn is_enabled(&self) -> (r: bool)
        ensures
            r == !(self is Disabled),
    {
        match self {
            AutostartConfig::Disabled => false,
            _ => true,
        }
    }

    /// The environment for such a start.
    pub fn environment(&self) -> (r: Option<&ConfigValue<EnvironmentEntries>>)
        ensures
            match r {
                Some(e) => *self == (AutostartConfig::WithEnvironment { environment: *e }),
                None => !(self is WithEnvironment),
            },
    {
        match self {
            AutostartConfig::WithEnvironment { environment } => Some(environment),
            _ => None,
        }
    }
}

/// What a user or a group may do.
#[derive(Debug)]
pub struct AclRule {
    /// The rights, by name or alias.
    pub allow: Vec<String>,
    /// Code that decides on each request.
    pub authorize: Option<String>,
}

/// What users and groups other than the owner may do.
#[derive(Debug)]
pub struct AclConfig {
    /// Code that the deciding code may use.
    pub lua: Option<String>,
    /// Names for lists of rights.
    pub aliases: NameMap<Vec<String>>,
    /// Rules by name or number of a user.
    pub users: NameMap<AclRule>,
    /// Rules by name or number of a group.
    pub groups: NameMap<AclRule>,
}

/// Settings for all services.
#[derive(Debug)]
pub struct KeplerGlobalConfig {
    pub default_inherit_env: Option<bool>,
    pub logs: Option<LogConfig>,
    /// The time to wait for a dependency that sets none.
    pub timeout: Option<Duration>,
    /// The greatest size of captured output, such as `1mb`.
    pub output_max_size: Option<String>,
    pub autostart: AutostartConfig,
    pub acl: Option<AclConfig>,
}

impl Default for KeplerGlobalConfig {
    fn default() -> (r: Self)
        ensures
            r.default_inherit_env is None,
            r.logs is None,
            r.timeout is None,
            r.output_max_size is None,
            r.autostart is Disabled,
            r.acl is None,
    {
        KeplerGlobalConfig {
            default_inherit_env: None,
            logs: None,
            timeout: None,
            output_max_size: None,
            autostart: AutostartConfig::Disabled,
            acl: None,
        }
    }
}

/// A configuration.
#[derive(Debug)]
pub struct KeplerConfig {
    /// Code that the expressions may use.
    pub lua: Option<String>,
    pub kepler: Option<KeplerGlobalConfig>,
    pub services: NameMap<RawServiceConfig>,
}

// ---------------------------------------------------------------------------------------------
// Validation
// ---------------------------------------------------------------------------------------------

/// Whether a character may stand in the name of a service.
pub open spec fn name_char(c: char) -> bool {
    'a' <= c <= 'z' || '0' <= c <= '9' || c == '_' || c == '-'
}

/// The message on a name that no service may have.
pub open spec fn name_fault(name: Seq<char>) -> Option<Seq<char>> {
    if name.len() == 0 {
        Some("Service name cannot be empty"@)
    } else if forall|i: int| 0 <= i < name.len() ==> name_char(#[trigger] name[i]) {
        None
    } else {
        Some(
            "Service name '"@ + name
                + "' contains invalid characters. Only lowercase letters (a-z), digits (0-9), underscores (_), and hyphens (-) are allowed."@,
        )
    }
}

/// The name of a service is made of lower case letters, digits, underscores and hyphens.
pub fn validate_service_name(name: &str) -> (r: Result<(), String>)
    ensures
        match r {
            Ok(_) => name_fault(name@) is None,
            Err(e) => name_fault(name@) == Some(e@),
        },
{
    if name.is_empty() {
        return Err("Service name cannot be empty".to_owned());
    }
    let chars = chars_of(name);
    let mut i: usize = 0;
    while i < chars.len()
        invariant
            i <= chars@.len(),
            chars@ == name@,
            name@.len() > 0,
            forall|j: int| 0 <= j < i ==> name_char(#[trigger] name@[j]),
        decreases chars@.len() - i,
    {
        let c = chars[i];
        if !(('a' <= c && c <= 'z') || ('0' <= c && c <= '9') || c == '_' || c == '-') {
            assert(!name_char(name@[i as int]));
            return Err(
                concat3(
                    "Service name '",
                    name,
                    "' contains invalid characters. Only lowercase letters (a-z), digits (0-9), underscores (_), and hyphens (-) are allowed.",
                ),
            );
        }
        i += 1;
    }
    Ok(())
}

/// A list with a message at the end, if there is one.
pub open spec fn with_fault(list: Seq<Seq<char>>, fault: Option<Seq<char>>) -> Seq<Seq<char>> {
    match fault {
        Some(m) => list.push(m),
        None => list,
    }
}

/// A message about a service.
pub open spec fn about(name: Seq<char>, what: Seq<char>) -> Seq<char> {
    "Service '"@ + name + "': "@ + what
}

/// Exactly one of command and script has to be given.
pub open spec fn command_fault(name: Seq<char>, raw: RawServiceConfig) -> Option<Seq<char>> {
    if command_given(raw.command) && option_given(raw.run) {
        Some(about(name, "'command' and 'run' are mutually exclusive"@))
    } else if !command_given(raw.command) && !option_given(raw.run) {
        Some(about(name, "either 'command' or 'run' is required"@))
    } else {
        None
    }
}

/// Every dependency has to be a service.
pub open spec fn dependency_faults(
    name: Seq<char>,
    deps: Seq<Seq<char>>,
    services: Seq<Seq<char>>,
) -> Seq<Seq<char>>
    decreases deps.len(),
{
    if deps.len() == 0 {
        seq![]
    } else {
        with_fault(
            dependency_faults(name, deps.drop_last(), services),
            if services.contains(deps.last()) {
                None
            } else {
                Some(about(name, "depends on '"@ + deps.last() + "' which is not defined"@))
            },
        )
    }
}

/// The restart settings, if they are known, have to fit together.
pub open spec fn restart_fault(name: Seq<char>, raw: RawServiceConfig) -> Option<Seq<char>> {
    match static_value(raw.restart) {
        Some(r) => match r.fault() {
            Some(m) => Some(about(name, m)),
            None => None,
        },
        None => None,
    }
}

/// Whether the known policy is `no`; a computed one counts as `no`.
pub open spec fn never_restarts(raw: RawServiceConfig) -> bool {
    match static_value(raw.restart) {
        Some(r) => r.the_policy().flags() == 0,
        None => true,
    }
}

/// Output is captured only of services that never restart.
pub open spec fn output_fault(name: Seq<char>, raw: RawServiceConfig) -> Option<Seq<char>> {
    if raw.output == ConfigValue::Static(Some(true)) && !never_restarts(raw) {
        Some(
            about(name, "'output: true' is only allowed on services with 'restart: no'"@),
        )
    } else {
        None
    }
}

/// Outputs are declared only for services that never restart.
pub open spec fn outputs_fault(name: Seq<char>, raw: RawServiceConfig) -> Option<Seq<char>> {
    if (raw.outputs matches ConfigValue::Static(Some(_))) && !never_restarts(raw) {
        Some(about(name, "'outputs' is only allowed on services with 'restart: no'"@))
    } else {
        None
    }
}

/// A known health check has exactly one of command and script.
pub open spec fn healthcheck_fault(name: Seq<char>, raw: RawServiceConfig) -> Option<Seq<char>> {
    match raw.healthcheck {
        ConfigValue::Static(Some(hc)) => if command_given(hc.command) && option_given(hc.run) {
            Some(about(name, "healthcheck 'command' and 'run' are mutually exclusive"@))
        } else if !command_given(hc.command) && !option_given(hc.run) {
            Some(about(name, "healthcheck requires either 'command' or 'run'"@))
        } else {
            None
        },
        _ => None,
    }
}

/// A level of restriction that is named has to be one.
pub open spec fn hardening_fault(name: Seq<char>, raw: RawServiceConfig) -> Option<Seq<char>> {
    match raw.permissions {
        Some(ServicePermissions { allow: _, hardening: Some(h) }) => match read_level(h@) {
            Err(m) => Some(about(name, m)),
            Ok(_) => None,
        },
        _ => None,
    }
}

/// All messages on one service.
pub open spec fn service_faults(
    name: Seq<char>,
    raw: RawServiceConfig,
    services: Seq<Seq<char>>,
) -> Seq<Seq<char>> {
    let l1 = with_fault(seq![], name_fault(name));
    let l2 = with_fault(l1, command_fault(name, raw));
    let l3 = l2 + dependency_faults(name, raw.depends_on.dep_names(), services);
    let l4 = with_fault(l3, restart_fault(name, raw));
    let l5 = with_fault(l4, output_fault(name, raw));
    let l6 = with_fault(l5, outputs_fault(name, raw));
    let l7 = with_fault(l6, healthcheck_fault(name, raw));
    with_fault(l7, hardening_fault(name, raw))
}

/// All messages on the first `n` services.
pub open spec fn config_faults(services: NameMap<RawServiceConfig>, n: nat) -> Seq<Seq<char>>
    decreases n,
{
    if n == 0 {
        seq![]
    } else {
        config_faults(services, (n - 1) as nat) + service_faults(
            services.keys()[n - 1],
            services.values()[n - 1],
            services.keys(),
        )
    }
}

/// The name of a condition.
pub open spec fn condition_name(c: DependencyCondition) -> Seq<char> {
    match c {
        DependencyCondition::ServiceStarted => "ServiceStarted"@,
        DependencyCondition::ServiceHealthy => "ServiceHealthy"@,
        DependencyCondition::ServiceCompletedSuccessfully => "ServiceCompletedSuccessfully"@,
        DependencyCondition::ServiceUnhealthy => "ServiceUnhealthy"@,
        DependencyCondition::ServiceFailed => "ServiceFailed"@,
        DependencyCondition::ServiceStopped => "ServiceStopped"@,
    }
}

/// The name of a condition.
fn name_of_condition(c: &DependencyCondition) -> (r: String)
    ensures
        r@ == condition_name(*c),
{
    match c {
        DependencyCondition::ServiceStarted => "ServiceStarted".to_owned(),
        DependencyCondition::ServiceHealthy => "ServiceHealthy".to_owned(),
        DependencyCondition::ServiceCompletedSuccessfully =>
            "ServiceCompletedSuccessfully".to_owned(),
        DependencyCondition::ServiceUnhealthy => "ServiceUnhealthy".to_owned(),
        DependencyCondition::ServiceFailed => "ServiceFailed".to_owned(),
        DependencyCondition::ServiceStopped => "ServiceStopped".to_owned(),
    }
}

/// What is said of a rule whose exit codes count for nothing: only conditions on a failure or an
/// end look at them.
pub open spec fn idle_codes(name: Seq<char>, rule: (Seq<char>, DependencyRule)) -> Option<Seq<char>> {
    if rule.1.exit_code.len() > 0 && rule.1.condition != DependencyCondition::ServiceFailed
        && rule.1.condition != DependencyCondition::ServiceStopped {
        Some(
            about(
                name,
                "exit_code filter on dependency '"@ + rule.0
                    + "' has no effect with condition '"@ + condition_name(rule.1.condition)
                    + "' (only service_failed and service_stopped support exit_code filtering)"@,
            ),
        )
    } else {
        None
    }
}

/// What is said of the first `k` rules of a service.
pub open spec fn service_warnings(
    name: Seq<char>,
    rules: Seq<(Seq<char>, DependencyRule)>,
    k: nat,
) -> Seq<Seq<char>>
    decreases k,
{
    if k == 0 {
        seq![]
    } else {
        with_fault(
            service_warnings(name, rules, (k - 1) as nat),
            idle_codes(name, rules[k - 1]),
        )
    }
}

/// What is said of the first `n` services.
pub open spec fn config_warnings(services: NameMap<RawServiceConfig>, n: nat) -> Seq<Seq<char>>
    decreases n,
{
    if n == 0 {
        seq![]
    } else {
        let rules = services.values()[n - 1].depends_on.rules();
        config_warnings(services, (n - 1) as nat) + service_warnings(
            services.keys()[n - 1],
            rules,
            rules.len(),
        )
    }
}

/// What is said of the rules of a service.
fn warn_of_service(name: &str, raw: &RawServiceConfig) -> (r: Vec<String>)
    ensures
        views(r@) == service_warnings(
            name@,
            raw.depends_on.rules(),
            raw.depends_on.rules().len(),
        ),
{
    let rules = raw.depends_on.iter();
    let ghost all = raw.depends_on.rules();
    let mut out: Vec<String> = Vec::new();
    let mut i: usize = 0;
    assert(views(out@) == Seq::<Seq<char>>::empty());
    while i < rules.len()
        invariant
            i <= rules@.len(),
            all == pair_views(rules@),
            views(out@) == service_warnings(name@, all, i as nat),
        decreases rules@.len() - i,
    {
        assert(all[i as int] == (rules@[i as int].0@, rules@[i as int].1@));
        let rule = &rules[i].1;
        if !rule.exit_code.is_empty() && rule.condition != DependencyCondition::ServiceFailed
            && rule.condition != DependencyCondition::ServiceStopped {
            let what = concat5(
                "exit_code filter on dependency '",
                rules[i].0.as_str(),
                "' has no effect with condition '",
                name_of_condition(&rule.condition).as_str(),
                "' (only service_failed and service_stopped support exit_code filtering)",
            );
            push_message(&mut out, message_about(name, what.as_str()));
        }
        i += 1;
    }
    out
}

/// The text of a message about a service.
pub(crate) fn message_about(name: &str, what: &str) -> (r: String)
    ensures
        r@ == about(name@, what@),
{
    let r = concat3("Service '", name, "': ");
    concat(r.as_str(), what)
}

/// Puts a message at the end of a list.
pub(crate) fn push_message(list: &mut Vec<String>, message: String)
    ensures
        views(final(list)@) == views(old(list)@).push(message@),
{
    let ghost before = views(list@);
    list.push(message);
    assert(views(list@) == before.push(message@));
}

/// All messages on one service.
fn check_service(name: &str, raw: &RawServiceConfig, services: &NameMap<RawServiceConfig>) -> (r: Vec<
    String,
>)
    ensures
        views(r@) == service_faults(name@, *raw, services.keys()),
{
    let mut errors: Vec<String> = Vec::new();
    assert(views(errors@) == Seq::<Seq<char>>::empty());
    if let Err(e) = validate_service_name(name) {
        push_message(&mut errors, e);
    }
    let has_command: bool = raw.has_command();
    let has_run: bool = raw.has_run();
    if has_command && has_run {
        push_message(
            &mut errors,
            message_about(name, "'command' and 'run' are mutually exclusive"),
        );
    } else if !has_command && !has_run {
        push_message(&mut errors, message_about(name, "either 'command' or 'run' is required"));
    }
    let deps = raw.depends_on.names();
    let ghost l2 = views(errors@);
    let ghost all = views(deps@);
    let mut i: usize = 0;
    assert(l2 + dependency_faults(name@, all.take(0), services.keys()) == l2);
    while i < deps.len()
        invariant
            i <= deps@.len(),
            all == views(deps@),
            views(errors@) == l2 + dependency_faults(name@, all.take(i as int), services.keys()),
        decreases deps@.len() - i,
    {
        let ghost done = dependency_faults(name@, all.take(i as int), services.keys());
        assert(all.take(i + 1).drop_last() == all.take(i as int));
        assert(all.take(i + 1).last() == deps@[i as int]@);
        if !services.contains_key(deps[i].as_str()) {
            let what = concat3("depends on '", deps[i].as_str(), "' which is not defined");
            push_message(&mut errors, message_about(name, what.as_str()));
            assert(l2 + done.push(about(name@, what@)) == (l2 + done).push(about(name@, what@)));
        }
        i += 1;
    }
    assert(all.take(i as int) == all);
    let mut is_restart_no: bool = true;
    match &raw.restart {
        ConfigValue::Static(r) => {
            is_restart_no = r.policy().is_no();
            if let Err(e) = r.validate() {
                push_message(&mut errors, message_about(name, e.as_str()));
            }
        },
        ConfigValue::Dynamic(_) => {},
    }
    let captures: bool = match &raw.output {
        ConfigValue::Static(Some(b)) => *b,
        _ => false,
    };
    if captures && !is_restart_no {
        push_message(
            &mut errors,
            message_about(name, "'output: true' is only allowed on services with 'restart: no'"),
        );
    }
    let declares: bool = match &raw.outputs {
        ConfigValue::Static(Some(_)) => true,
        _ => false,
    };
    if declares && !is_restart_no {
        push_message(
            &mut errors,
            message_about(name, "'outputs' is only allowed on services with 'restart: no'"),
        );
    }
    if let ConfigValue::Static(Some(hc)) = &raw.healthcheck {
        let has_command: bool = hc.has_command();
        let has_run: bool = hc.has_run();
        if has_command && has_run {
            push_message(
                &mut errors,
                message_about(name, "healthcheck 'command' and 'run' are mutually exclusive"),
            );
        } else if !has_command && !has_run {
            push_message(
                &mut errors,
                message_about(name, "healthcheck requires either 'command' or 'run'"),
            );
        }
    }
    if let Some(permissions) = &raw.permissions {
        if let Some(level) = &permissions.hardening {
            if let Err(e) = HardeningLevel::parse(level.as_str()) {
                push_message(&mut errors, message_about(name, e.as_str()));
            }
        }
    }
    errors
}

impl KeplerConfig {
    /// All messages on the configuration.
    pub open spec fn faults(self) -> Seq<Seq<char>> {
        config_faults(self.services, self.services.keys().len())
    }

    /// Checks the configuration; the error lists all messages.
    pub fn validate(&self, path: &str) -> (r: Result<(), DaemonError>)
        ensures
            match r {
                Ok(_) => self.faults().len() == 0,
                Err(e) => self.faults().len() > 0 && (e matches DaemonError::Config(m) && m@
                    == "Configuration errors in "@ + path@ + ":\n  - "@ + joined(
                    self.faults(),
                    "\n  - "@,
                )),
            },
    {
        let mut errors: Vec<String> = Vec::new();
        let n: usize = self.services.len();
        let mut i: usize = 0;
        assert(views(errors@) == Seq::<Seq<char>>::empty());
        while i < n
            invariant
                i <= n,
                n == self.services.keys().len(),
                self.services.keys().len() == self.services.values().len(),
                views(errors@) == config_faults(self.services, i as nat),
            decreases n - i,
        {
            let ghost before = views(errors@);
            let mut found = check_service(
                self.services.key_at(i).as_str(),
                self.services.value_at(i),
                &self.services,
            );
            let ghost more = views(found@);
            errors.append(&mut found);
            assert(views(errors@) == before + more);
            i += 1;
        }
        if errors.len() > 0 {
            assert(views(errors@).len() > 0);
            let mut m = concat3("Configuration errors in ", path, ":\n  - ");
            m.append(join(&errors, "\n  - ").as_str());
            return Err(DaemonError::Config(m));
        }
        assert(views(errors@).len() == 0);
        Ok(())
    }

    /// What is said of the configuration though it is right: exit codes that count for nothing.
    pub fn warnings(&self) -> (r: Vec<String>)
        ensures
            views(r@) == config_warnings(self.services, self.services.keys().len()),
    {
        let mut out: Vec<String> = Vec::new();
        let n: usize = self.services.len();
        let mut i: usize = 0;
        assert(views(out@) == Seq::<Seq<char>>::empty());
        while i < n
            invariant
                i <= n,
                n == self.services.keys().len(),
                self.services.keys().len() == self.services.values().len(),
                views(out@) == config_warnings(self.services, i as nat),
            decreases n - i,
        {
            let ghost before = views(out@);
            let mut found = warn_of_service(
                self.services.key_at(i).as_str(),
                self.services.value_at(i),
            );
            let ghost more = views(found@);
            out.append(&mut found);
            assert(views(out@) == before + more);
            i += 1;
        }
        out
    }

    /// Gives every service without a user the user that loaded the configuration, unless that
    /// is root.
    pub fn resolve_default_user(&mut self, uid: u32, gid: u32)
        ensures
            final(self).lua == old(self).lua,
            final(self).kepler == old(self).kepler,
            final(self).services.keys() == old(self).services.keys(),
            final(self).services.values().len() == old(self).services.values().len(),
            forall|i: int|
                0 <= i < old(self).services.values().len() ==> user_baked(
                    #[trigger] old(self).services.values()[i],
                    final(self).services.values()[i],
                    uid,
                    gid,
                ),
    {
        let ghost before = *self;
        let n: usize = self.services.len();
        if uid == 0 {
            return;
        }
        let user = concat3(
            format_u64(uid as u64).as_str(),
            ":",
            format_u64(gid as u64).as_str(),
        );
        let mut i: usize = 0;
        while i < n
            invariant
                i <= n,
                uid != 0,
                before == *old(self),
                n == before.services.keys().len(),
                before.services.well_formed(),
                self.lua == before.lua,
                self.kepler == before.kepler,
                self.services.keys() == before.services.keys(),
                self.services.values().len() == before.services.values().len(),
                user@ == decimal(uid as nat) + ":"@ + decimal(gid as nat),
                forall|j: int|
                    0 <= j < i ==> user_baked(
                        #[trigger] before.services.values()[j],
                        self.services.values()[j],
                        uid,
                        gid,
                    ),
                forall|j: int|
                    i <= j < n ==> #[trigger] before.services.values()[j]
                        == self.services.values()[j],
            decreases n - i,
        {
            let raw = self.services.value_at_mut(i);
            let absent: bool = raw.user.is_static_none();
            if absent {
                raw.user = ConfigValue::Static(Some(user.clone()));
            }
            i += 1;
        }
    }
}

/// Whether a service got the given user where it had none, and is otherwise unchanged.
pub open spec fn user_baked(was: RawServiceConfig, now: RawServiceConfig, uid: u32, gid: u32) -> bool {
    if uid != 0 && was.user == ConfigValue::Static(None::<String>) {
        &&& now.user matches ConfigValue::Static(Some(u)) && u@ == decimal(uid as nat) + ":"@
            + decimal(gid as nat)
        &&& now == (RawServiceConfig { user: now.user, ..was })
    } else {
        now == was
    }
}

impl KeplerConfig {
    /// The global log settings.
    pub fn global_logs(&self) -> (r: Option<&LogConfig>)
        ensures
            match r {
                Some(l) => self.kepler matches Some(k) && k.logs == Some(*l),
                None => self.kepler matches Some(k) ==> k.logs is None,
            },
    {
        match &self.kepler {
            Some(k) => match &k.logs {
                Some(l) => Some(l),
                None => None,
            },
            None => None,
        }
    }

    /// The global setting for inheriting the environment.
    pub fn global_default_inherit_env(&self) -> (r: Option<bool>)
        ensures
            r == match self.kepler {
                Some(k) => k.default_inherit_env,
                None => None,
            },
    {
        match &self.kepler {
            Some(k) => k.default_inherit_env,
            None => None,
        }
    }

    /// Whether the services start with the daemon.
    pub open spec fn autostarts(self) -> bool {
        self.kepler matches Some(k) && !(k.autostart is Disabled)
    }

    /// Whether the services start with the daemon.
    pub fn global_autostart(&self) -> (r: bool)
        ensures
            r == self.autostarts(),
    {
        match &self.kepler {
            Some(k) => k.autostart.is_enabled(),
            None => false,
        }
    }

    /// The environment for a start with the daemon.
    pub fn autostart_environment(&self) -> (r: Option<&ConfigValue<EnvironmentEntries>>)
        ensures
            match r {
                Some(e) => self.kepler matches Some(k) && k.autostart
                    == (AutostartConfig::WithEnvironment { environment: *e }),
                None => self.kepler matches Some(k) ==> !(k.autostart is WithEnvironment),
            },
    {
        match &self.kepler {
            Some(k) => k.autostart.environment(),
            None => None,
        }
    }

    /// Whether the environment of the caller may not be used: the services start with the
    /// daemon, and no environment for that is given.
    pub fn is_kepler_env_denied(&self) -> (r: bool)
        ensures
            r == (self.kepler matches Some(k) && k.autostart is Enabled),
    {
        self.global_autostart() && self.autostart_environment().is_none()
    }

    /// The names of the services.
    pub fn service_names(&self) -> (r: Vec<String>)
        ensures
            views(r@) == self.services.keys(),
    {
        let n: usize = self.services.len();
        let mut out: Vec<String> = Vec::new();
        let mut i: usize = 0;
        while i < n
            invariant
                i <= n,
                n == self.services.keys().len(),
                views(out@) == self.services.keys().take(i as int),
            decreases n - i,
        {
            let ghost before = views(out@);
            let name = self.services.key_at(i).clone();
            out.push(name);
            assert(views(out@) == before.push(name@));
            assert(self.services.keys().take(i + 1) == self.services.keys().take(i as int).push(
                self.services.keys()[i as int],
            ));
            i += 1;
        }
        assert(self.services.keys().take(i as int) == self.services.keys());
        out
    }

    /// The configured greatest size of captured output, if it reads as a size.
    pub open spec fn output_limit(self) -> Option<nat> {
        match self.kepler {
            Some(k) => match k.output_max_size {
                Some(s) => match read_memory(s@) {
                    Ok(n) => Some(n),
                    Err(_) => None,
                },
                None => None,
            },
            None => None,
        }
    }

    /// The greatest size of captured output in bytes.
    pub fn output_max_size(&self) -> (r: usize)
        ensures
            r == match self.output_limit() {
                Some(n) => n as u64 as usize,
                None => DEFAULT_OUTPUT_MAX_SIZE,
            },
    {
        if let Some(k) = &self.kepler {
            if let Some(s) = &k.output_max_size {
                if let Ok(n) = parse_memory_limit(s.as_str()) {
                    return n as usize;
                }
            }
        }
        DEFAULT_OUTPUT_MAX_SIZE
    }
}

// ---------------------------------------------------------------------------------------------
// What holds of a valid configuration
// ---------------------------------------------------------------------------------------------

/// Whether a process is given by exactly one of a command and a script. What is computed counts as
/// given.
pub open spec fn one_of(
    command: ConfigValue<Vec<ConfigValue<String>>>,
    run: ConfigValue<Option<String>>,
) -> bool {
    let has_command = command matches ConfigValue::Static(words) ==> words@.len() > 0;
    let has_run = run matches ConfigValue::Static(script) ==> script is Some;
    has_command != has_run
}

/// Whether a service can be run as it is configured.
pub open spec fn sound_service(
    name: Seq<char>,
    raw: RawServiceConfig,
    services: Seq<Seq<char>>,
) -> bool {
    let restarts = raw.restart matches ConfigValue::Static(r) && r.the_policy().flags() != 0;
    &&& name.len() > 0
    &&& forall|i: int|
        0 <= i < name.len() ==> {
            ||| 'a' <= (#[trigger] name[i]) <= 'z'
            ||| '0' <= name[i] <= '9'
            ||| name[i] == '_'
            ||| name[i] == '-'
        }
    &&& one_of(raw.command, raw.run)
    &&& forall|k: int|
        0 <= k < raw.depends_on.rules().len() ==> services.contains(
            (#[trigger] raw.depends_on.rules()[k]).0,
        )
    &&& raw.restart matches ConfigValue::Static(r) ==> r.patterns().len() > 0 ==> restarts
    &&& raw.output == ConfigValue::Static(Some(true)) ==> !restarts
    &&& raw.outputs matches ConfigValue::Static(Some(_)) ==> !restarts
    &&& raw.healthcheck matches ConfigValue::Static(Some(hc)) ==> one_of(hc.command, hc.run)
    &&& raw.permissions matches Some(p) ==> (p.hardening matches Some(h) ==> h@ == "none"@ || h@
        == "no-root"@ || h@ == "strict"@)
}

/// Messages come of dependencies exactly if one is not among the services.
proof fn lemma_dependency_faults(
    name: Seq<char>,
    deps: Seq<Seq<char>>,
    services: Seq<Seq<char>>,
)
    ensures
        dependency_faults(name, deps, services).len() == 0 <==> forall|k: int|
            0 <= k < deps.len() ==> services.contains(#[trigger] deps[k]),
    decreases deps.len(),
{
    if deps.len() > 0 {
        let front = deps.drop_last();
        lemma_dependency_faults(name, front, services);
        if forall|k: int| 0 <= k < deps.len() ==> services.contains(#[trigger] deps[k]) {
            assert forall|k: int| 0 <= k < front.len() implies services.contains(
                #[trigger] front[k],
            ) by {
                assert(services.contains(deps[k]));
            }
            assert(services.contains(deps[deps.len() - 1]));
        }
        if dependency_faults(name, deps, services).len() == 0 {
            assert forall|k: int| 0 <= k < deps.len() implies services.contains(
                #[trigger] deps[k],
            ) by {
                if k < front.len() {
                    assert(services.contains(front[k]));
                }
            }
        }
    }
}

/// There is no message on a service exactly if it is sound.
proof fn lemma_service_faults(name: Seq<char>, raw: RawServiceConfig, services: Seq<Seq<char>>)
    ensures
        service_faults(name, raw, services).len() == 0 <==> sound_service(name, raw, services),
{
    let names = raw.depends_on.dep_names();
    let rules = raw.depends_on.rules();
    lemma_dependency_faults(name, names, services);
    assert(names.len() == rules.len());
    assert(forall|k: int| 0 <= k < rules.len() ==> #[trigger] names[k] == rules[k].0);
    assert((forall|k: int| 0 <= k < names.len() ==> services.contains(#[trigger] names[k]))
        <==> (forall|k: int| 0 <= k < rules.len() ==> services.contains((#[trigger] rules[k]).0)))
        by {
        if forall|k: int| 0 <= k < names.len() ==> services.contains(#[trigger] names[k]) {
            assert forall|k: int| 0 <= k < rules.len() implies services.contains(
                (#[trigger] rules[k]).0,
            ) by {
                assert(services.contains(names[k]));
            }
        }
        if forall|k: int| 0 <= k < rules.len() ==> services.contains((#[trigger] rules[k]).0) {
            assert forall|k: int| 0 <= k < names.len() implies services.contains(
                #[trigger] names[k],
            ) by {
                assert(services.contains(rules[k].0));
            }
        }
    }
    assert((forall|i: int| 0 <= i < name.len() ==> name_char(#[trigger] name[i])) <==> (forall|
        i: int,
    |
        0 <= i < name.len() ==> {
            ||| 'a' <= (#[trigger] name[i]) <= 'z'
            ||| '0' <= name[i] <= '9'
            ||| name[i] == '_'
            ||| name[i] == '-'
        }));
    let l1 = with_fault(seq![], name_fault(name));
    let l2 = with_fault(l1, command_fault(name, raw));
    let l3 = l2 + dependency_faults(name, names, services);
    let l4 = with_fault(l3, restart_fault(name, raw));
    let l5 = with_fault(l4, output_fault(name, raw));
    let l6 = with_fault(l5, outputs_fault(name, raw));
    let l7 = with_fault(l6, healthcheck_fault(name, raw));
    assert(service_faults(name, raw, services).len() == 0 <==> name_fault(name) is None
        && command_fault(name, raw) is None && dependency_faults(name, names, services).len() == 0
        && restart_fault(name, raw) is None && output_fault(name, raw) is None && outputs_fault(
        name,
        raw,
    ) is None && healthcheck_fault(name, raw) is None && hardening_fault(name, raw) is None);
    assert(command_fault(name, raw) is None <==> one_of(raw.command, raw.run));
}

/// There is no message on the first services exactly if each of them is sound.
proof fn lemma_config_faults(services: NameMap<RawServiceConfig>, n: nat)
    ensures
        config_faults(services, n).len() == 0 <==> forall|i: int|
            0 <= i < n ==> sound_service(
                services.keys()[i],
                #[trigger] services.values()[i],
                services.keys(),
            ),
    decreases n,
{
    if n > 0 {
        lemma_config_faults(services, (n - 1) as nat);
        lemma_service_faults(services.keys()[n - 1], services.values()[n - 1], services.keys());
        if forall|i: int|
            0 <= i < n ==> sound_service(
                services.keys()[i],
                #[trigger] services.values()[i],
                services.keys(),
            ) {
            assert(sound_service(
                services.keys()[n - 1],
                services.values()[n - 1],
                services.keys(),
            ));
        }
    }
}

/// A configuration is accepted exactly if every service in it is sound: its name is made of lower
/// case letters, digits, underscores and hyphens; it has either a command or a script, and so has
/// its health check; it depends on services of the configuration only; it watches files only if it
/// restarts, and has outputs only if it does not; and its level of restriction is known.
pub proof fn law_valid_means_every_service_is_sound(
    config: KeplerConfig,
    path: &str,
    r: Result<(), DaemonError>,
)
    requires
        call_ensures(KeplerConfig::validate, (&config, path), r),
    ensures
        r is Ok <==> forall|i: int|
            0 <= i < config.services.keys().len() ==> sound_service(
                config.services.keys()[i],
                #[trigger] config.services.values()[i],
                config.services.keys(),
            ),
        r matches Err(e) ==> e is Config,
{
    lemma_config_faults(config.services, config.services.keys().len());
}

/// A name is accepted exactly if it is not empty and made of lower case letters, digits,
/// underscores and hyphens.
pub proof fn law_service_names(name: &str, r: Result<(), String>)
    requires
        call_ensures(validate_service_name, (name,), r),
    ensures
        name@.len() == 0 ==> r is Err,
        r is Ok ==> forall|i: int|
            0 <= i < name@.len() ==> {
                ||| 'a' <= (#[trigger] name@[i]) <= 'z'
                ||| '0' <= name@[i] <= '9'
                ||| name@[i] == '_'
                ||| name@[i] == '-'
            },
        r is Err && name@.len() > 0 ==> exists|i: int|
            0 <= i < name@.len() && !('a' <= (#[trigger] name@[i]) <= 'z') && !('0' <= name@[i]
                <= '9') && name@[i] != '_' && name@[i] != '-',
{
    if r is Err && name@.len() > 0 {
        let i = choose|i: int| 0 <= i < name@.len() && !name_char(#[trigger] name@[i]);
        assert(!('a' <= name@[i] <= 'z'));
    }
}

/// Codes that are asked for are warned of exactly if the condition does not look at them.
pub proof fn law_idle_codes_are_warned_of(name: Seq<char>, of: Seq<char>, rule: DependencyRule)
    ensures
        rule.exit_code.len() == 0 ==> service_warnings(name, seq![(of, rule)], 1).len() == 0,
        rule.condition == DependencyCondition::ServiceFailed || rule.condition
            == DependencyCondition::ServiceStopped ==> service_warnings(
            name,
            seq![(of, rule)],
            1,
        ).len() == 0,
        rule.exit_code.len() > 0 && (rule.condition == DependencyCondition::ServiceStarted
            || rule.condition == DependencyCondition::ServiceHealthy || rule.condition
            == DependencyCondition::ServiceUnhealthy || rule.condition
            == DependencyCondition::ServiceCompletedSuccessfully) ==> service_warnings(
            name,
            seq![(of, rule)],
            1,
        ).len() == 1,
{
    reveal_with_fuel(service_warnings, 2);
}

/// The user that loads a configuration runs the services that name no user, by both numbers, and
/// no others; root gives its user to none.
pub proof fn law_loader_runs_services_without_a_user(
    was: RawServiceConfig,
    now: RawServiceConfig,
    uid: u32,
    gid: u32,
)
    requires
        user_baked(was, now, uid, gid),
    ensures
        uid == 0 ==> now == was,
        !(was.user matches ConfigValue::Static(None)) ==> now == was,
        uid != 0 && (was.user matches ConfigValue::Static(None)) ==> (
        now.user matches ConfigValue::Static(Some(u)) && u@ == decimal(uid as nat) + ":"@ + decimal(
            gid as nat,
        )),
        now == (RawServiceConfig { user: now.user, ..was }),
{
}

/// Services start with the daemon unless that is disabled, which it is by default. The environment
/// of the caller is denied only where they do and no environment is given for it.
pub proof fn law_autostart(
    config: KeplerConfig,
    starts: bool,
    denied: bool,
    environment: Option<&ConfigValue<EnvironmentEntries>>,
)
    requires
        call_ensures(KeplerConfig::global_autostart, (&config,), starts),
        call_ensures(KeplerConfig::is_kepler_env_denied, (&config,), denied),
        call_ensures(KeplerConfig::autostart_environment, (&config,), environment),
    ensures
        config.kepler is None ==> !starts && !denied && environment is None,
        config.kepler matches Some(k) ==> match k.autostart {
            AutostartConfig::Disabled => !starts && !denied && environment is None,
            AutostartConfig::Enabled => starts && denied && environment is None,
            AutostartConfig::WithEnvironment { environment: e } => starts && !denied
                && environment == Some(&e),
        },
{
}

/// Scripts run in the shell that the environment names, unless that is empty; else in bash where
/// there is one, and in `sh` where there is none.
pub proof fn law_shell_of_the_environment(
    env: NameMap<String>,
    bash_exists: bool,
    shell: String,
)
    requires
        call_ensures(resolve_shell, (&env, bash_exists), shell),
    ensures
        env@.contains_key("SHELL"@) && env@["SHELL"@]@.len() > 0 ==> shell@ == env@["SHELL"@]@,
        !env@.contains_key("SHELL"@) && bash_exists ==> shell@ == "/bin/bash"@,
        !env@.contains_key("SHELL"@) && !bash_exists ==> shell@ == "sh"@,
        env@.contains_key("SHELL"@) && env@["SHELL"@]@.len() == 0 ==> shell@ == if bash_exists {
            "/bin/bash"@
        } else {
            "sh"@
        },
{
}

/// Captured output is limited to what is configured, where that reads as a size, and else to one
/// mebibyte.
pub proof fn law_output_is_limited(
    config: KeplerConfig,
    text: &str,
    read: Result<u64, String>,
    r: usize,
)
    requires
        call_ensures(KeplerConfig::output_max_size, (&config,), r),
        call_ensures(parse_memory_limit, (text,), read),
        config.kepler matches Some(k) ==> (k.output_max_size matches Some(s) ==> s@ == text@),
    ensures
        config.kepler is None ==> r == 1024 * 1024,
        config.kepler matches Some(k) ==> {
            &&& k.output_max_size is None ==> r == 1024 * 1024
            &&& k.output_max_size is Some && read is Err ==> r == 1024 * 1024
            &&& k.output_max_size is Some && read is Ok ==> r == read->Ok_0 as usize
        },
{
}

/// A health check, a command or a script counts as given if it is known and there, or computed.
pub proof fn law_given_parts(raw: RawServiceConfig, health: bool, command: bool, run: bool)
    requires
        call_ensures(RawServiceConfig::has_healthcheck, (&raw,), health),
        call_ensures(RawServiceConfig::has_command, (&raw,), command),
        call_ensures(RawServiceConfig::has_run, (&raw,), run),
    ensures
        health <==> (raw.healthcheck is Dynamic || (raw.healthcheck matches ConfigValue::Static(
            Some(_),
        ))),
        command <==> (raw.command is Dynamic || (raw.command matches ConfigValue::Static(words)
            && words@.len() > 0)),
        run <==> (raw.run is Dynamic || (raw.run matches ConfigValue::Static(Some(_)))),
{
}

/// What is said of a service is among what is said of the configuration.
proof fn lemma_message_listed(
    services: NameMap<RawServiceConfig>,
    n: nat,
    i: int,
    message: Seq<char>,
)
    requires
        0 <= i < n,
        service_faults(services.keys()[i], services.values()[i], services.keys()).contains(message),
    ensures
        config_faults(services, n).contains(message),
    decreases n,
{
    let front = config_faults(services, (n - 1) as nat);
    let last = service_faults(services.keys()[n - 1], services.values()[n - 1], services.keys());
    let all = front + last;
    if i < n - 1 {
        lemma_message_listed(services, (n - 1) as nat, i, message);
        assert(all[front.index_of(message)] == message);
    } else {
        assert(all[front.len() + last.index_of(message)] == message);
    }
}

/// A list with a message holds it, and what it held.
proof fn lemma_with_fault(list: Seq<Seq<char>>, fault: Option<Seq<char>>, x: Seq<char>)
    ensures
        fault == Some(x) ==> with_fault(list, fault).contains(x),
        list.contains(x) ==> with_fault(list, fault).contains(x),
{
    let all = with_fault(list, fault);
    if fault == Some(x) {
        assert(all[list.len() as int] == x);
    } else if list.contains(x) {
        assert(all[list.index_of(x)] == x);
    }
}

/// Each fault of a service is among what is said of it.
proof fn lemma_fault_listed(
    name: Seq<char>,
    raw: RawServiceConfig,
    services: Seq<Seq<char>>,
    x: Seq<char>,
)
    requires
        command_fault(name, raw) == Some(x) || restart_fault(name, raw) == Some(x) || output_fault(
            name,
            raw,
        ) == Some(x) || outputs_fault(name, raw) == Some(x) || healthcheck_fault(name, raw) == Some(
            x,
        ) || hardening_fault(name, raw) == Some(x),
    ensures
        service_faults(name, raw, services).contains(x),
{
    let l1 = with_fault(seq![], name_fault(name));
    let l2 = with_fault(l1, command_fault(name, raw));
    let deps = dependency_faults(name, raw.depends_on.dep_names(), services);
    let l3 = l2 + deps;
    let l4 = with_fault(l3, restart_fault(name, raw));
    let l5 = with_fault(l4, output_fault(name, raw));
    let l6 = with_fault(l5, outputs_fault(name, raw));
    let l7 = with_fault(l6, healthcheck_fault(name, raw));
    lemma_with_fault(l1, command_fault(name, raw), x);
    if l2.contains(x) {
        assert(l3[l2.index_of(x)] == x);
    }
    lemma_with_fault(l3, restart_fault(name, raw), x);
    lemma_with_fault(l4, output_fault(name, raw), x);
    lemma_with_fault(l5, outputs_fault(name, raw), x);
    lemma_with_fault(l6, healthcheck_fault(name, raw), x);
    lemma_with_fault(l7, hardening_fault(name, raw), x);
}

/// What is wrong with a service is said by its name: that it has both a command and a script or
/// neither, that it keeps output though it restarts, and the same of its health check.
pub proof fn law_faults_are_named(config: KeplerConfig, i: int)
    requires
        0 <= i < config.services.keys().len(),
    ensures
        ({
            let name = config.services.keys()[i];
            let raw = config.services.values()[i];
            let head = "Service '"@ + name + "': "@;
            let restarts = raw.restart matches ConfigValue::Static(r) && r.the_policy().flags()
                != 0;
            &&& raw.run == ConfigValue::Static(None::<String>) && (
            raw.command matches ConfigValue::Static(words) && words@.len() == 0)
                ==> config.faults().contains(head + "either 'command' or 'run' is required"@)
            &&& (raw.run matches ConfigValue::Static(Some(_))) && (
            raw.command matches ConfigValue::Static(words) && words@.len() > 0)
                ==> config.faults().contains(head + "'command' and 'run' are mutually exclusive"@)
            &&& raw.output == ConfigValue::Static(Some(true)) && restarts
                ==> config.faults().contains(
                head + "'output: true' is only allowed on services with 'restart: no'"@,
            )
            &&& (raw.outputs matches ConfigValue::Static(Some(_))) && restarts
                ==> config.faults().contains(
                head + "'outputs' is only allowed on services with 'restart: no'"@,
            )
            &&& raw.healthcheck matches ConfigValue::Static(Some(hc)) ==> {
                &&& hc.run == ConfigValue::Static(None::<String>) && (
                hc.command matches ConfigValue::Static(words) && words@.len() == 0)
                    ==> config.faults().contains(
                    head + "healthcheck requires either 'command' or 'run'"@,
                )
                &&& (hc.run matches ConfigValue::Static(Some(_))) && (
                hc.command matches ConfigValue::Static(words) && words@.len() > 0)
                    ==> config.faults().contains(
                    head + "healthcheck 'command' and 'run' are mutually exclusive"@,
                )
            }
        }),
{
    let name = config.services.keys()[i];
    let raw = config.services.values()[i];
    let keys = config.services.keys();
    let n = keys.len();
    if let Some(x) = command_fault(name, raw) {
        lemma_fault_listed(name, raw, keys, x);
        lemma_message_listed(config.services, n, i, x);
    }
    if let Some(x) = output_fault(name, raw) {
        lemma_fault_listed(name, raw, keys, x);
        lemma_message_listed(config.services, n, i, x);
    }
    if let Some(x) = outputs_fault(name, raw) {
        lemma_fault_listed(name, raw, keys, x);
        lemma_message_listed(config.services, n, i, x);
    }
    if let Some(x) = healthcheck_fault(name, raw) {
        lemma_fault_listed(name, raw, keys, x);
        lemma_message_listed(config.services, n, i, x);
    }
}

/// Every service without a user gets that of the one who loads the configuration, by number and
/// with the number of the group, unless that is root; nothing else changes.
pub proof fn law_default_user_is_filled_in(
    config: &mut KeplerConfig,
    uid: u32,
    gid: u32,
    i: int,
)
    requires
        call_ensures(KeplerConfig::resolve_default_user, (config, uid, gid), ()),
        0 <= i < old(config).services.values().len(),
    ensures
        ({
            let was = old(config).services.values()[i];
            let now = final(config).services.values()[i];
            &&& now == (RawServiceConfig { user: now.user, ..was })
            &&& uid == 0 || was.user != ConfigValue::Static(None::<String>) ==> now.user == was.user
            &&& uid != 0 && was.user == ConfigValue::Static(None::<String>) ==> (
            now.user matches ConfigValue::Static(Some(u)) && u@ == decimal(uid as nat) + ":"@
                + decimal(gid as nat))
        }),
        final(config).services.keys() == old(config).services.keys(),
        final(config).kepler == old(config).kepler,
        final(config).lua == old(config).lua,
{
}

} // verus!
