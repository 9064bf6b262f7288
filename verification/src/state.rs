//! What the daemon knows of a running service.
use vstd::prelude::*;
use crate::name_map::NameMap;

verus! {

/// Where a service stands in its life.
#[derive(Debug, Clone, Copy, PartialEq, Eq, Structural)]
pub enum ServiceStatus {
    /// Waits for its dependencies.
    Waiting,
    Starting,
    Running,
    Stopping,
    /// Not started, or stopped on request.
    Stopped,
    Failed,
    /// Ended by itself.
    Exited,
    /// Ended by a signal.
    Killed,
    Healthy,
    Unhealthy,
    /// Not started because its condition did not hold.
    Skipped,
}

impl ServiceStatus {
    /// Whether the process runs.
    pub open spec fn running(self) -> bool {
        self == ServiceStatus::Running || self == ServiceStatus::Healthy || self
            == ServiceStatus::Unhealthy
    }

    /// Whether the process runs.
    pub fn is_running(&self) -> (r: bool)
        ensures
            r == self.running(),
    {
        match self {
            ServiceStatus::Running | ServiceStatus::Healthy | ServiceStatus::Unhealthy => true,
            _ => false,
        }
    }

    /// Whether the service waits, starts, runs or stops.
    pub open spec fn active(self) -> bool {
        self.running() || self == ServiceStatus::Waiting || self == ServiceStatus::Starting || self
            == ServiceStatus::Stopping
    }

    /// Whether the service waits, starts, runs or stops.
    pub fn is_active(&self) -> (r: bool)
        ensures
            r == self.active(),
    {
        match self {
            ServiceStatus::Waiting
            | ServiceStatus::Starting
            | ServiceStatus::Running
            | ServiceStatus::Stopping
            | ServiceStatus::Healthy
            | ServiceStatus::Unhealthy => true,
            _ => false,
        }
    }

    /// Whether the service ended: it was stopped, it exited, it failed or it was killed.
    pub open spec fn ended(self) -> bool {
        self == ServiceStatus::Stopped || self == ServiceStatus::Exited || self
            == ServiceStatus::Failed || self == ServiceStatus::Killed
    }

    /// Whether the service ended.
    pub fn is_ended(&self) -> (r: bool)
        ensures
            r == self.ended(),
    {
        match self {
            ServiceStatus::Stopped
            | ServiceStatus::Exited
            | ServiceStatus::Failed
            | ServiceStatus::Killed => true,
            _ => false,
        }
    }
}

/// The state of a service. Times are milliseconds since the epoch.
#[derive(Debug)]
pub struct ServiceState {
    pub status: ServiceStatus,
    pub pid: Option<u32>,
    pub started_at: Option<i64>,
    pub stopped_at: Option<i64>,
    pub exit_code: Option<i32>,
    pub signal: Option<i32>,
    /// Whether the service was healthy since it was started.
    pub was_healthy: bool,
    pub health_check_failures: u32,
    pub restart_count: u32,
    /// Whether the hooks for the first start have run.
    pub initialized: bool,
    pub skip_reason: Option<String>,
    pub fail_reason: Option<String>,
    /// The environment of the process.
    pub computed_env: NameMap<String>,
    pub working_dir: String,
    /// The variables of the environment file.
    pub env_file_vars: NameMap<String>,
}

impl ServiceState {
    /// The state of a service that was never started.
    pub open spec fn fresh(self) -> bool {
        &&& self.status == ServiceStatus::Stopped
        &&& self.pid is None
        &&& self.started_at is None
        &&& self.stopped_at is None
        &&& self.exit_code is None
        &&& self.signal is None
        &&& !self.was_healthy
        &&& self.health_check_failures == 0
        &&& self.restart_count == 0
        &&& !self.initialized
        &&& self.skip_reason is None
        &&& self.fail_reason is None
    }

    /// The state of a service that was never started, with an environment and a directory.
    pub fn with_env(computed_env: NameMap<String>, working_dir: String) -> (r: Self)
        ensures
            r.fresh(),
            r.computed_env == computed_env,
            r.working_dir == working_dir,
            r.env_file_vars.keys().len() == 0,
    {
        ServiceState {
            status: ServiceStatus::Stopped,
            pid: None,
            started_at: None,
            stopped_at: None,
            exit_code: None,
            signal: None,
            was_healthy: false,
            health_check_failures: 0,
            restart_count: 0,
            initialized: false,
            skip_reason: None,
            fail_reason: None,
            computed_env,
            working_dir,
            env_file_vars: NameMap::new(),
        }
    }
}

impl Default for ServiceState {
    fn default() -> (r: Self)
        ensures
            r.fresh(),
            r.computed_env.keys().len() == 0,
            r.working_dir@.len() == 0,
            r.env_file_vars.keys().len() == 0,
    {
        ServiceState::with_env(NameMap::new(), String::new())
    }
}

/// The process of a service and the tasks that read its output, by number.
#[derive(Debug, Clone, Copy, PartialEq, Eq, Structural)]
pub struct ProcessHandle {
    pub process: u64,
    pub stdout_task: Option<u64>,
    pub stderr_task: Option<u64>,
}

/// The part of the state of a service that is kept on disk.
#[derive(Debug)]
pub struct PersistedServiceState {
    pub status: ServiceStatus,
    pub pid: Option<u32>,
    pub started_at: Option<i64>,
    pub stopped_at: Option<i64>,
    pub exit_code: Option<i32>,
    pub signal: Option<i32>,
    pub was_healthy: bool,
    pub health_check_failures: u32,
    pub restart_count: u32,
    pub initialized: bool,
    pub skip_reason: Option<String>,
    pub fail_reason: Option<String>,
}

impl PersistedServiceState {
    /// Whether this is what is kept of a state.
    pub open spec fn keeps(self, state: ServiceState) -> bool {
        &&& self.status == state.status
        &&& self.pid == state.pid
        &&& self.started_at == state.started_at
        &&& self.stopped_at == state.stopped_at
        &&& self.exit_code == state.exit_code
        &&& self.signal == state.signal
        &&& self.was_healthy == state.was_healthy
        &&& self.health_check_failures == state.health_check_failures
        &&& self.restart_count == state.restart_count
        &&& self.initialized == state.initialized
        &&& self.skip_reason == state.skip_reason
        &&& self.fail_reason == state.fail_reason
    }

    /// What is kept of a state.
    pub fn from_state(state: &ServiceState) -> (r: Self)
        ensures
            r.keeps(*state),
    {
        PersistedServiceState {
            status: state.status,
            pid: state.pid,
            started_at: state.started_at,
            stopped_at: state.stopped_at,
            exit_code: state.exit_code,
            signal: state.signal,
            was_healthy: state.was_healthy,
            health_check_failures: state.health_check_failures,
            restart_count: state.restart_count,
            initialized: state.initialized,
            skip_reason: state.skip_reason.clone(),
            fail_reason: state.fail_reason.clone(),
        }
    }

    /// The state of which this was kept, with an environment and a directory.
    pub fn to_service_state(&self, computed_env: NameMap<String>, working_dir: String) -> (r:
        ServiceState)
        ensures
            self.keeps(r),
            r.computed_env == computed_env,
            r.working_dir == working_dir,
            r.env_file_vars.keys().len() == 0,
    {
        ServiceState {
            status: self.status,
            pid: self.pid,
            started_at: self.started_at,
            stopped_at: self.stopped_at,
            exit_code: self.exit_code,
            signal: self.signal,
            was_healthy: self.was_healthy,
            health_check_failures: self.health_check_failures,
            restart_count: self.restart_count,
            initialized: self.initialized,
            skip_reason: self.skip_reason.clone(),
            fail_reason: self.fail_reason.clone(),
            computed_env,
            working_dir,
            env_file_vars: NameMap::new(),
        }
    }
}

/// What is kept on disk of a configuration.
#[derive(Debug)]
pub struct PersistedConfigState {
    pub services: NameMap<PersistedServiceState>,
    pub config_initialized: bool,
    /// When it was written, in seconds since the epoch.
    pub snapshot_time: i64,
}

/// The process runs exactly with these statuses, the service is active with these and while it
/// waits, starts or stops, and it ended with these four. Every service that is neither active nor
/// ended was skipped.
pub proof fn law_statuses_fall_apart(s: ServiceStatus, runs: bool, active: bool, ended: bool)
    requires
        call_ensures(ServiceStatus::is_running, (&s,), runs),
        call_ensures(ServiceStatus::is_active, (&s,), active),
        call_ensures(ServiceStatus::is_ended, (&s,), ended),
    ensures
        runs <==> s == ServiceStatus::Running || s == ServiceStatus::Healthy || s
            == ServiceStatus::Unhealthy,
        active <==> runs || s == ServiceStatus::Waiting || s == ServiceStatus::Starting || s
            == ServiceStatus::Stopping,
        ended <==> s == ServiceStatus::Stopped || s == ServiceStatus::Exited || s
            == ServiceStatus::Failed || s == ServiceStatus::Killed,
        !(active && ended),
        active || ended || s == ServiceStatus::Skipped,
{
}

/// What is kept of a state gives the state back, but for what is computed at every start.
pub proof fn law_state_survives_keeping(
    state: ServiceState,
    kept: PersistedServiceState,
    env: NameMap<String>,
    dir: String,
    back: ServiceState,
)
    requires
        call_ensures(PersistedServiceState::from_state, (&state,), kept),
        call_ensures(PersistedServiceState::to_service_state, (&kept, env, dir), back),
    ensures
        back == (ServiceState {
            computed_env: env,
            working_dir: dir,
            env_file_vars: back.env_file_vars,
            ..state
        }),
        back.env_file_vars.keys().len() == 0,
{
}

/// A service that was never started is stopped, has no process, no times, no exit and no reasons,
/// and nothing was counted.
pub proof fn law_new_service_is_stopped(
    env: NameMap<String>,
    dir: String,
    state: ServiceState,
)
    requires
        call_ensures(ServiceState::with_env, (env, dir), state),
    ensures
        state.status == ServiceStatus::Stopped,
        state.pid is None && state.started_at is None && state.stopped_at is None,
        state.exit_code is None && state.signal is None,
        !state.was_healthy && !state.initialized,
        state.health_check_failures == 0 && state.restart_count == 0,
        state.skip_reason is None && state.fail_reason is None,
        state.computed_env == env && state.working_dir == dir,
{
}

} // verus!
