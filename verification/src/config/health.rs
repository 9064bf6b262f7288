//! Health checks.
use vstd::prelude::*;
use crate::config::config_value::ConfigValue;
use crate::config::duration::Duration;

verus! {

/// How the health of a service is checked.
#[derive(Debug)]
pub struct HealthCheck {
    /// The command to run, as a list of words.
    pub command: ConfigValue<Vec<ConfigValue<String>>>,
    /// The script to run in a shell.
    pub run: ConfigValue<Option<String>>,
    /// The time between two checks.
    pub interval: Duration,
    /// The longest time that a check may take.
    pub timeout: Duration,
    /// The number of failures in a row after which the service counts as unhealthy.
    pub retries: u32,
    /// The time before the first check.
    pub start_period: Duration,
    pub user: ConfigValue<Option<String>>,
    pub groups: ConfigValue<Vec<ConfigValue<String>>>,
    pub user_identity: Option<bool>,
}

/// Whether a command is given; a computed one counts as given.
pub open spec fn command_given(command: ConfigValue<Vec<ConfigValue<String>>>) -> bool {
    match command {
        ConfigValue::Static(v) => v@.len() > 0,
        ConfigValue::Dynamic(_) => true,
    }
}

/// Whether an optional field is given; a computed one counts as given.
pub open spec fn option_given<T>(field: ConfigValue<Option<T>>) -> bool {
    match field {
        ConfigValue::Static(v) => v is Some,
        ConfigValue::Dynamic(_) => true,
    }
}

/// Whether a command is given.
pub fn is_command_given(command: &ConfigValue<Vec<ConfigValue<String>>>) -> (r: bool)
    ensures
        r == command_given(*command),
{
    match command {
        ConfigValue::Static(v) => v.len() > 0,
        ConfigValue::Dynamic(_) => true,
    }
}

/// Whether an optional field is given.
pub fn is_option_given<T>(field: &ConfigValue<Option<T>>) -> (r: bool)
    ensures
        r == option_given(*field),
{
    match field {
        ConfigValue::Static(v) => v.is_some(),
        ConfigValue::Dynamic(_) => true,
    }
}

impl Clone for HealthCheck {
    fn clone(&self) -> (r: Self)
        ensures
            cloned(self.command, r.command),
            cloned(self.run, r.run),
            r.interval == self.interval,
            r.timeout == self.timeout,
            r.retries == self.retries,
            r.start_period == self.start_period,
            cloned(self.user, r.user),
            cloned(self.groups, r.groups),
            r.user_identity == self.user_identity,
    {
        HealthCheck {
            command: self.command.clone(),
            run: self.run.clone(),
            interval: self.interval,
            timeout: self.timeout,
            retries: self.retries,
            start_period: self.start_period,
            user: self.user.clone(),
            groups: self.groups.clone(),
            user_identity: self.user_identity,
        }
    }
}

impl HealthCheck {
    /// A check with the default times and number of failures.
    pub fn with_defaults(
        command: ConfigValue<Vec<ConfigValue<String>>>,
        run: ConfigValue<Option<String>>,
    ) -> (r: HealthCheck)
        ensures
            r.command == command,
            r.run == run,
            r.interval.millis == 30000,
            r.timeout.millis == 30000,
            r.retries == 3,
            r.start_period.millis == 0,
            r.user == ConfigValue::Static(None::<String>),
            r.groups matches ConfigValue::Static(g) && g@.len() == 0,
            r.user_identity is None,
    {
        HealthCheck {
            command,
            run,
            interval: Duration::from_secs(30),
            timeout: Duration::from_secs(30),
            retries: 3,
            start_period: Duration::from_secs(0),
            user: ConfigValue::Static(None),
            groups: ConfigValue::Static(Vec::new()),
            user_identity: None,
        }
    }

    /// Whether a command is given; a computed one counts as given.
    pub fn has_command(&self) -> (r: bool)
        ensures
            r == command_given(self.command),
    {
        is_command_given(&self.command)
    }

    /// Whether a script is given; a computed one counts as given.
    pub fn has_run(&self) -> (r: bool)
        ensures
            r == option_given(self.run),
    {
        is_option_given(&self.run)
    }
}

/// A health check without settings runs every thirty seconds, for at most thirty seconds, counts
/// from the start, and gives up after three failures.
pub proof fn law_default_health_check(
    command: ConfigValue<Vec<ConfigValue<String>>>,
    run: ConfigValue<Option<String>>,
    c: HealthCheck,
)
    requires
        call_ensures(HealthCheck::with_defaults, (command, run), c),
    ensures
        c.interval.millis == 30 * 1000,
        c.timeout.millis == 30 * 1000,
        c.start_period.millis == 0,
        c.retries == 3,
        c.command == command,
        c.run == run,
{
}

} // verus!
