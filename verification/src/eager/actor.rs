//! The state of a configuration that is computed when it is loaded.
use vstd::prelude::*;
use vstd::utf8::encode_utf8;
use crate::config_actor::context::{HealthCheckUpdate, TaskHandleType};
use crate::config_actor::create::{is_kept, keep_states, kept_of, push_tasks, SnapshotStep};
use crate::config_actor::process::found;
use crate::digest::{config_hash, hex_text, sha256};
use crate::eager::config::{KeplerConfig, LogConfig, ServiceConfig};
use crate::errors::DaemonError;
use crate::logs::LogRead;
use crate::name_map::NameMap;
use crate::state::{
    PersistedConfigState, PersistedServiceState, ProcessHandle, ServiceState, ServiceStatus,
};

verus! {

/// The state of a loaded configuration.
#[derive(Debug)]
pub struct ConfigActor {
    pub config_path: String,
    pub config_hash: String,
    pub config: KeplerConfig,
    pub config_dir: String,
    pub state_dir: String,
    pub services: NameMap<ServiceState>,
    pub initialized: bool,
    pub processes: NameMap<ProcessHandle>,
    pub watchers: NameMap<u64>,
    pub health_checks: NameMap<u64>,
    pub snapshot_taken: bool,
    pub restored_from_snapshot: bool,
}

/// A command to the state of a configuration. Tasks are named by numbers.
#[derive(Debug)]
pub enum ConfigCommand {
    GetServiceContext { service_name: String },
    GetServiceStatus { service: Option<String> },
    GetLogs { lines: usize },
    GetLogsBounded { lines: usize, max_bytes: Option<usize> },
    GetLogsPaginated { offset: usize, limit: usize },
    GetServiceConfig { service_name: String },
    GetConfig,
    GetConfigDir,
    GetGlobalLogConfig,
    IsServiceRunning { service_name: String },
    IsConfigInitialized,
    IsServiceInitialized { service_name: String },
    GetServiceState { service_name: String },
    GetConfigHash,
    GetConfigPath,
    AllServicesStopped,
    /// The configuration was loaded again, with the environments of its services, or could not
    /// be.
    ReloadConfig { loaded: Result<(KeplerConfig, NameMap<NameMap<String>>), DaemonError> },
    SetServiceStatus { service_name: String, status: ServiceStatus },
    SetServicePid { service_name: String, pid: Option<u32>, started_at: Option<i64> },
    RecordProcessExit { service_name: String, exit_code: Option<i32> },
    UpdateHealthCheck { service_name: String, passed: bool, retries: u32 },
    MarkConfigInitialized,
    MarkServiceInitialized { service_name: String },
    IncrementRestartCount { service_name: String },
    ClearServiceLogs { service_name: String },
    ClearServiceLogsPrefix { prefix: String },
    StoreProcessHandle { service_name: String, process: ProcessHandle },
    RemoveProcessHandle { service_name: String },
    StoreTaskHandle { service_name: String, handle_type: TaskHandleType, handle: u64 },
    CancelTaskHandle { service_name: String, handle_type: TaskHandleType },
    Shutdown,
    /// The snapshot was removed from disk, or could not be.
    ClearSnapshot { cleared: Result<(), DaemonError> },
    IsRestoredFromSnapshot,
}

/// What is needed to start a service.
#[derive(Debug)]
pub struct ServiceContext<'a> {
    pub service_config: &'a ServiceConfig,
    pub config_dir: &'a String,
    pub global_log_config: Option<&'a LogConfig>,
    pub env: &'a NameMap<String>,
    pub working_dir: &'a String,
}

/// The reply to a command.
#[derive(Debug)]
pub enum ConfigReply<'a> {
    Nothing,
    Context(Option<ServiceContext<'a>>),
    /// The states of these services, with their names.
    Status(Result<Vec<(&'a String, &'a ServiceState)>, DaemonError>),
    ReadLogs(LogRead),
    ServiceConfig(Option<&'a ServiceConfig>),
    Config(&'a KeplerConfig),
    Text(&'a String),
    GlobalLogs(Option<&'a LogConfig>),
    Flag(bool),
    State(Option<&'a ServiceState>),
    Done(Result<(), DaemonError>),
    Health(Result<HealthCheckUpdate, DaemonError>),
    Process(Option<ProcessHandle>),
}

/// The state of a service after a health check.
pub open spec fn checked(state: ServiceState, passed: bool, retries: u32) -> ServiceState {
    if passed {
        if state.status == ServiceStatus::Running || state.status == ServiceStatus::Unhealthy {
            ServiceState {
                health_check_failures: 0,
                status: ServiceStatus::Healthy,
                ..state
            }
        } else {
            ServiceState { health_check_failures: 0, ..state }
        }
    } else {
        let failures = (state.health_check_failures + 1) as u32;
        if failures >= retries {
            ServiceState {
                health_check_failures: failures,
                status: ServiceStatus::Unhealthy,
                ..state
            }
        } else {
            ServiceState { health_check_failures: failures, ..state }
        }
    }
}

/// Whether a result says that there is no such service.
pub open spec fn not_found<T>(r: Result<T, DaemonError>, name: Seq<char>) -> bool {
    r matches Err(DaemonError::ServiceNotFound(n)) && n@ == name
}

/// The directory of a service: its own, or that of the configuration.
pub open spec fn directory(service: ServiceConfig, config_dir: String) -> String {
    match service.working_dir {
        Some(d) => d,
        None => config_dir,
    }
}

/// Whether a state is that of a service that was never started, with its environment and
/// directory. Of its environment the names are kept and the texts.
pub open spec fn begins(
    state: ServiceState,
    service: ServiceConfig,
    env: Option<NameMap<String>>,
    config_dir: String,
) -> bool {
    &&& (ServiceState { initialized: false, ..state }).fresh()
    &&& state.working_dir == directory(service, config_dir)
    &&& match env {
        Some(e) => cloned(e, state.computed_env),
        None => state.computed_env.keys().len() == 0,
    }
}

/// Whether a service was there before, initialized.
pub open spec fn was_initialized(before: Option<NameMap<ServiceState>>, name: Seq<char>) -> bool {
    before matches Some(b) && b@.contains_key(name) && b@[name].initialized
}

/// Whether the services of a configuration begin with their environments; those that were there
/// before keep whether they are initialized.
pub open spec fn all_begin(
    services: NameMap<ServiceState>,
    config: KeplerConfig,
    envs: NameMap<NameMap<String>>,
    config_dir: String,
    before: Option<NameMap<ServiceState>>,
) -> bool {
    &&& services.keys() == config.services.keys()
    &&& services.values().len() == config.services.values().len()
    &&& forall|i: int|
        0 <= i < services.values().len() ==> begins(
            #[trigger] services.values()[i],
            config.services.values()[i],
            found(envs@, services.keys()[i]),
            config_dir,
        ) && services.values()[i].initialized == was_initialized(before, services.keys()[i])
}

/// The states of the services of a configuration.
fn begin_all(
    config: &KeplerConfig,
    envs: &NameMap<NameMap<String>>,
    config_dir: &String,
    before: Option<&NameMap<ServiceState>>,
) -> (r: NameMap<ServiceState>)
    ensures
        all_begin(
            r,
            *config,
            *envs,
            *config_dir,
            match before {
                Some(b) => Some(*b),
                None => None,
            },
        ),
{
    let n: usize = config.services.len();
    let ghost keys = config.services.keys();
    let ghost was = match before {
        Some(b) => Some(*b),
        None => None,
    };
    let mut out: NameMap<ServiceState> = NameMap::new();
    let mut i: usize = 0;
    while i < n
        invariant
            i <= n,
            n == keys.len(),
            keys == config.services.keys(),
            config.services.well_formed(),
            was == (match before {
                Some(b) => Some(*b),
                None => None,
            }),
            out.keys() == keys.take(i as int),
            out.values().len() == i,
            forall|j: int|
                0 <= j < i ==> begins(
                    #[trigger] out.values()[j],
                    config.services.values()[j],
                    found(envs@, keys[j]),
                    *config_dir,
                ) && out.values()[j].initialized == was_initialized(was, keys[j]),
        decreases n - i,
    {
        let name = config.services.key_at(i).clone();
        let service = config.services.value_at(i);
        let working_dir = match &service.working_dir {
            Some(d) => d.clone(),
            None => config_dir.clone(),
        };
        let env = match envs.get(name.as_str()) {
            Some(e) => e.clone(),
            None => NameMap::new(),
        };
        let mut state = ServiceState::with_env(env, working_dir);
        if let Some(b) = before {
            if let Some(old_state) = b.get(name.as_str()) {
                state.initialized = old_state.initialized;
            }
        }
        let ghost names = out.keys();
        assert(!names.contains(keys[i as int])) by {
            if names.contains(keys[i as int]) {
                let j = names.index_of(keys[i as int]);
                assert(keys[j] == keys[i as int]);
            }
        }
        out.insert(name, state);
        assert(out.keys() == keys.take(i + 1));
        i += 1;
    }
    assert(keys.take(i as int) == keys);
    out
}

/// A configuration as it was kept when its services were first started, with the environments
/// and directories of its services.
#[derive(Debug)]
pub struct ExpandedConfigSnapshot {
    pub config: KeplerConfig,
    pub service_envs: NameMap<NameMap<String>>,
    pub service_working_dirs: NameMap<String>,
    pub config_dir: String,
    /// When it was taken, in seconds since the epoch.
    pub snapshot_time: i64,
}

/// Where a configuration comes from.
#[derive(Debug)]
pub enum Source {
    /// From a snapshot, with the states that were kept.
    Snapshot { snapshot: ExpandedConfigSnapshot, persisted: Option<PersistedConfigState> },
    /// From its file.
    Fresh {
        config: Result<KeplerConfig, DaemonError>,
        /// The directory of the file.
        parent: Option<String>,
        /// The environments of the services; one that could not be built is left out.
        envs: NameMap<NameMap<String>>,
    },
}

/// The state of a service from what was kept: its environment and directory from the snapshot,
/// the rest from the states, or as of a service that was never started.
pub open spec fn restored(
    state: ServiceState,
    env: Option<NameMap<String>>,
    dir: Option<String>,
    config_dir: String,
    kept: Option<PersistedServiceState>,
) -> bool {
    &&& match env {
        Some(e) => cloned(e, state.computed_env),
        None => state.computed_env.keys().len() == 0,
    }
    &&& state.working_dir == match dir {
        Some(d) => d,
        None => config_dir,
    }
    &&& state.env_file_vars.keys().len() == 0
    &&& match kept {
        Some(p) => p.keeps(state),
        None => state.fresh(),
    }
}

/// The states of the services from what was kept.
pub open spec fn all_restored(
    services: NameMap<ServiceState>,
    snapshot: ExpandedConfigSnapshot,
    persisted: Option<PersistedConfigState>,
) -> bool {
    &&& services.keys() == snapshot.config.services.keys()
    &&& services.values().len() == services.keys().len()
    &&& forall|i: int|
        0 <= i < services.values().len() ==> restored(
            #[trigger] services.values()[i],
            found(snapshot.service_envs@, services.keys()[i]),
            found(snapshot.service_working_dirs@, services.keys()[i]),
            snapshot.config_dir,
            kept_of(persisted, services.keys()[i]),
        )
}

fn restore_all(
    snapshot: &ExpandedConfigSnapshot,
    persisted: &Option<PersistedConfigState>,
) -> (r: NameMap<ServiceState>)
    ensures
        all_restored(r, *snapshot, *persisted),
{
    let services = &snapshot.config.services;
    let n: usize = services.len();
    let ghost keys = services.keys();
    let mut out: NameMap<ServiceState> = NameMap::new();
    let mut i: usize = 0;
    while i < n
        invariant
            i <= n,
            n == keys.len(),
            keys == services.keys(),
            keys.no_duplicates(),
            out.keys() == keys.take(i as int),
            out.values().len() == i,
            forall|j: int|
                0 <= j < i ==> restored(
                    #[trigger] out.values()[j],
                    found(snapshot.service_envs@, keys[j]),
                    found(snapshot.service_working_dirs@, keys[j]),
                    snapshot.config_dir,
                    kept_of(*persisted, keys[j]),
                ),
        decreases n - i,
    {
        let name = services.key_at(i).clone();
        let ghost names = out.keys();
        assert(!names.contains(keys[i as int])) by {
            if names.contains(keys[i as int]) {
                let j = names.index_of(keys[i as int]);
                assert(keys[j] == keys[i as int]);
            }
        }
        let env = match snapshot.service_envs.get(name.as_str()) {
            Some(e) => e.clone(),
            None => NameMap::new(),
        };
        let dir = match snapshot.service_working_dirs.get(name.as_str()) {
            Some(d) => d.clone(),
            None => snapshot.config_dir.clone(),
        };
        let kept: Option<&PersistedServiceState> = match persisted {
            Some(p) => p.services.get(name.as_str()),
            None => None,
        };
        let state = match kept {
            Some(p) => p.to_service_state(env, dir),
            None => ServiceState::with_env(env, dir),
        };
        out.insert(name, state);
        assert(out.keys() == keys.take(i + 1));
        i += 1;
    }
    assert(keys.take(i as int) == keys);
    out
}

impl ConfigActor {
    /// Whether `next` differs only in the state of the service `name`, which is `state`.
    pub open spec fn with_state(self, next: ConfigActor, name: Seq<char>, state: ServiceState) -> bool {
        &&& next == ConfigActor { services: next.services, ..self }
        &&& next.services.keys() == self.services.keys()
        &&& next.services@ == self.services@.insert(name, state)
    }

    /// The state of a configuration that is loaded from a path: from its snapshot, with the
    /// states that were kept, or from its file.
    pub fn create(config_path: String, state_dir: String, source: Source) -> (r: Result<
        Self,
        DaemonError,
    >)
        ensures
            match r {
                Ok(a) => {
                    &&& a.config_path == config_path
                    &&& a.config_hash@ == hex_text(sha256(encode_utf8(config_path@)))
                    &&& a.state_dir == state_dir
                    &&& a.processes.keys().len() == 0
                    &&& a.watchers.keys().len() == 0
                    &&& a.health_checks.keys().len() == 0
                    &&& match source {
                        Source::Snapshot { snapshot, persisted } => {
                            &&& a.config == snapshot.config
                            &&& a.config_dir == snapshot.config_dir
                            &&& all_restored(a.services, snapshot, persisted)
                            &&& a.initialized == (persisted matches Some(p) && p.config_initialized)
                            &&& a.snapshot_taken
                            &&& a.restored_from_snapshot
                        },
                        Source::Fresh { config, parent, envs } => {
                            &&& config == Ok::<KeplerConfig, DaemonError>(a.config)
                            &&& match parent {
                                Some(p) => a.config_dir == p,
                                None => a.config_dir@ == "."@,
                            }
                            &&& all_begin(a.services, a.config, envs, a.config_dir, None)
                            &&& !a.initialized
                            &&& !a.snapshot_taken
                            &&& !a.restored_from_snapshot
                        },
                    }
                },
                Err(e) => source matches Source::Fresh { config: Err(c), .. } && e == c,
            },
    {
        let config_hash = config_hash(config_path.as_str());
        match source {
            Source::Snapshot { snapshot, persisted } => {
                let services = restore_all(&snapshot, &persisted);
                let initialized: bool = match &persisted {
                    Some(p) => p.config_initialized,
                    None => false,
                };
                Ok(
                    ConfigActor {
                        config_path,
                        config_hash,
                        config: snapshot.config,
                        config_dir: snapshot.config_dir,
                        state_dir,
                        services,
                        initialized,
                        processes: NameMap::new(),
                        watchers: NameMap::new(),
                        health_checks: NameMap::new(),
                        snapshot_taken: true,
                        restored_from_snapshot: true,
                    },
                )
            },
            Source::Fresh { config, parent, envs } => {
                let config = match config {
                    Ok(c) => c,
                    Err(e) => {
                        return Err(e);
                    },
                };
                let config_dir = match parent {
                    Some(p) => p,
                    None => ".".to_owned(),
                };
                let services = begin_all(&config, &envs, &config_dir, None);
                Ok(
                    ConfigActor {
                        config_path,
                        config_hash,
                        config,
                        config_dir,
                        state_dir,
                        services,
                        initialized: false,
                        processes: NameMap::new(),
                        watchers: NameMap::new(),
                        health_checks: NameMap::new(),
                        snapshot_taken: false,
                        restored_from_snapshot: false,
                    },
                )
            },
        }
    }

    /// What is needed to start a service.
    pub fn build_service_context(&self, service_name: &str) -> (r: Option<ServiceContext<'_>>)
        ensures
            self.tells_context(service_name@, r),
    {
        match self.config.services.get(service_name) {
            Some(service_config) => match self.services.get(service_name) {
                Some(state) => Some(
                    ServiceContext {
                        service_config,
                        config_dir: &self.config_dir,
                        global_log_config: self.config.logs.as_ref(),
                        env: &state.computed_env,
                        working_dir: &state.working_dir,
                    },
                ),
                None => None,
            },
            None => None,
        }
    }

    /// Whether this is what is needed to start a service.
    pub open spec fn tells_context(self, name: Seq<char>, c: Option<ServiceContext<'_>>) -> bool {
        match c {
            Some(x) => {
                &&& self.config.services@.contains_key(name)
                &&& self.services@.contains_key(name)
                &&& *x.service_config == self.config.services@[name]
                &&& *x.config_dir == self.config_dir
                &&& match (x.global_log_config, self.config.logs) {
                    (Some(a), Some(b)) => *a == b,
                    (None, None) => true,
                    _ => false,
                }
                &&& *x.env == self.services@[name].computed_env
                &&& *x.working_dir == self.services@[name].working_dir
            },
            None => !self.config.services@.contains_key(name) || !self.services@.contains_key(
                name,
            ),
        }
    }

    /// Whether these are the states that are asked for.
    pub open spec fn tells_status(
        self,
        service: Option<Seq<char>>,
        r: Result<Vec<(&String, &ServiceState)>, DaemonError>,
    ) -> bool {
        match service {
            Some(name) => if self.services@.contains_key(name) {
                r matches Ok(list) && list@.len() == 1 && list@[0].0@ == name && *list@[0].1
                    == self.services@[name]
            } else {
                not_found(r, name)
            },
            None => r matches Ok(list) && list@.len() == self.services.keys().len() && forall|i: int|
                0 <= i < list@.len() ==> (#[trigger] list@[i]).0@ == self.services.keys()[i]
                    && *list@[i].1 == self.services.values()[i],
        }
    }

    /// The state of a service, or of all services.
    pub fn get_service_status(&self, service: Option<&str>) -> (r: Result<
        Vec<(&String, &ServiceState)>,
        DaemonError,
    >)
        ensures
            self.tells_status(
                match service {
                    Some(name) => Some(name@),
                    None => None,
                },
                r,
            ),
    {
        match service {
            Some(name) => match self.services.position(name) {
                Some(i) => {
                    let mut out: Vec<(&String, &ServiceState)> = Vec::new();
                    out.push((self.services.key_at(i), self.services.value_at(i)));
                    Ok(out)
                },
                None => Err(DaemonError::ServiceNotFound(name.to_owned())),
            },
            None => {
                let n: usize = self.services.len();
                let mut out: Vec<(&String, &ServiceState)> = Vec::new();
                let mut i: usize = 0;
                while i < n
                    invariant
                        i <= n,
                        n == self.services.keys().len(),
                        self.services.well_formed(),
                        out@.len() == i,
                        forall|j: int|
                            0 <= j < i ==> (#[trigger] out@[j]).0@ == self.services.keys()[j]
                                && *out@[j].1 == self.services.values()[j],
                    decreases n - i,
                {
                    out.push((self.services.key_at(i), self.services.value_at(i)));
                    i += 1;
                }
                Ok(out)
            },
        }
    }

    /// Whether no service runs.
    pub open spec fn none_running(self) -> bool {
        forall|i: int|
            0 <= i < self.services.values().len() ==> !(#[trigger] self.services.values()[i]).status.running()
    }

    /// Whether no service runs.
    pub fn all_services_stopped(&self) -> (r: bool)
        ensures
            r == self.none_running(),
    {
        let n: usize = self.services.len();
        let mut i: usize = 0;
        while i < n
            invariant
                i <= n,
                n == self.services.keys().len(),
                self.services.well_formed(),
                forall|j: int|
                    0 <= j < i ==> !(#[trigger] self.services.values()[j]).status.running(),
            decreases n - i,
        {
            if self.services.value_at(i).status.is_running() {
                return false;
            }
            i += 1;
        }
        true
    }

    /// Takes over a configuration that was loaded again. Services that were there before keep
    /// whether they are initialized; everything else of them begins anew.
    pub fn reload_config(
        &mut self,
        loaded: Result<(KeplerConfig, NameMap<NameMap<String>>), DaemonError>,
    ) -> (r: Result<(), DaemonError>)
        ensures
            match loaded {
                Ok((config, envs)) => r is Ok && *final(self) == (ConfigActor {
                    config,
                    services: final(self).services,
                    ..*old(self)
                }) && all_begin(
                    final(self).services,
                    config,
                    envs,
                    old(self).config_dir,
                    Some(old(self).services),
                ),
                Err(e) => *final(self) == *old(self) && r == Err::<(), DaemonError>(e),
            },
    {
        match loaded {
            Ok((config, envs)) => {
                let services = begin_all(&config, &envs, &self.config_dir, Some(&self.services));
                self.services = services;
                self.config = config;
                Ok(())
            },
            Err(e) => Err(e),
        }
    }

    /// Gives a service a status.
    pub fn set_service_status(&mut self, service_name: &str, status: ServiceStatus) -> (r: Result<
        (),
        DaemonError,
    >)
        ensures
            if old(self).services@.contains_key(service_name@) {
                r is Ok && old(self).with_state(
                    *final(self),
                    service_name@,
                    ServiceState { status, ..old(self).services@[service_name@] },
                )
            } else {
                *final(self) == *old(self) && not_found(r, service_name@)
            },
    {
        match self.services.get_mut(service_name) {
            Some(state) => {
                state.status = status;
                Ok(())
            },
            None => Err(DaemonError::ServiceNotFound(service_name.to_owned())),
        }
    }

    /// Keeps the process number of a service and when it was started.
    pub fn set_service_pid(
        &mut self,
        service_name: &str,
        pid: Option<u32>,
        started_at: Option<i64>,
    ) -> (r: Result<(), DaemonError>)
        ensures
            if old(self).services@.contains_key(service_name@) {
                r is Ok && old(self).with_state(
                    *final(self),
                    service_name@,
                    ServiceState { pid, started_at, ..old(self).services@[service_name@] },
                )
            } else {
                *final(self) == *old(self) && not_found(r, service_name@)
            },
    {
        match self.services.get_mut(service_name) {
            Some(state) => {
                state.pid = pid;
                state.started_at = started_at;
                Ok(())
            },
            None => Err(DaemonError::ServiceNotFound(service_name.to_owned())),
        }
    }

    /// Keeps that the process of a service ended. Its process is forgotten in any case.
    pub fn record_process_exit(&mut self, service_name: &str, exit_code: Option<i32>) -> (r: Result<
        (),
        DaemonError,
    >)
        ensures
            final(self).processes@ == old(self).processes@.remove(service_name@),
            *final(self) == (ConfigActor {
                processes: final(self).processes,
                services: final(self).services,
                ..*old(self)
            }),
            if old(self).services@.contains_key(service_name@) {
                r is Ok && final(self).services.keys() == old(self).services.keys()
                    && final(self).services@ == old(self).services@.insert(
                    service_name@,
                    ServiceState { exit_code, pid: None, ..old(self).services@[service_name@] },
                )
            } else {
                final(self).services == old(self).services && not_found(r, service_name@)
            },
    {
        let _ = self.processes.remove(service_name);
        match self.services.get_mut(service_name) {
            Some(state) => {
                state.exit_code = exit_code;
                state.pid = None;
                Ok(())
            },
            None => Err(DaemonError::ServiceNotFound(service_name.to_owned())),
        }
    }

    /// Counts a health check of a service. A check that passes makes a running service healthy;
    /// enough checks in a row that fail make it unhealthy.
    pub fn update_health_check(&mut self, service_name: &str, passed: bool, retries: u32) -> (r: Result<
        HealthCheckUpdate,
        DaemonError,
    >)
        requires
            old(self).services@.contains_key(service_name@) && !passed ==> old(
                self,
            ).services@[service_name@].health_check_failures < u32::MAX,
        ensures
            if old(self).services@.contains_key(service_name@) {
                let before = old(self).services@[service_name@];
                let after = checked(before, passed, retries);
                &&& old(self).with_state(*final(self), service_name@, after)
                &&& r == Ok::<HealthCheckUpdate, DaemonError>(
                    HealthCheckUpdate {
                        previous_status: before.status,
                        new_status: after.status,
                        failures: after.health_check_failures,
                    },
                )
            } else {
                *final(self) == *old(self) && not_found(r, service_name@)
            },
    {
        match self.services.get_mut(service_name) {
            Some(state) => {
                let previous_status = state.status;
                if passed {
                    state.health_check_failures = 0;
                    if state.status == ServiceStatus::Running || state.status
                        == ServiceStatus::Unhealthy {
                        state.status = ServiceStatus::Healthy;
                    }
                } else {
                    state.health_check_failures = state.health_check_failures + 1;
                    if state.health_check_failures >= retries {
                        state.status = ServiceStatus::Unhealthy;
                    }
                }
                Ok(
                    HealthCheckUpdate {
                        previous_status,
                        new_status: state.status,
                        failures: state.health_check_failures,
                    },
                )
            },
            None => Err(DaemonError::ServiceNotFound(service_name.to_owned())),
        }
    }

    /// Keeps that the hooks for the first start of a service have run.
    pub fn mark_service_initialized(&mut self, service_name: &str) -> (r: Result<(), DaemonError>)
        ensures
            if old(self).services@.contains_key(service_name@) {
                r is Ok && old(self).with_state(
                    *final(self),
                    service_name@,
                    ServiceState { initialized: true, ..old(self).services@[service_name@] },
                )
            } else {
                *final(self) == *old(self) && not_found(r, service_name@)
            },
    {
        match self.services.get_mut(service_name) {
            Some(state) => {
                state.initialized = true;
                Ok(())
            },
            None => Err(DaemonError::ServiceNotFound(service_name.to_owned())),
        }
    }

    /// Counts a restart of a service.
    pub fn increment_restart_count(&mut self, service_name: &str) -> (r: Result<(), DaemonError>)
        requires
            old(self).services@.contains_key(service_name@) ==> old(
                self,
            ).services@[service_name@].restart_count < u32::MAX,
        ensures
            if old(self).services@.contains_key(service_name@) {
                r is Ok && old(self).with_state(
                    *final(self),
                    service_name@,
                    ServiceState {
                        restart_count: (old(self).services@[service_name@].restart_count
                            + 1) as u32,
                        ..old(self).services@[service_name@]
                    },
                )
            } else {
                *final(self) == *old(self) && not_found(r, service_name@)
            },
    {
        match self.services.get_mut(service_name) {
            Some(state) => {
                state.restart_count = state.restart_count + 1;
                Ok(())
            },
            None => Err(DaemonError::ServiceNotFound(service_name.to_owned())),
        }
    }

    /// The first step in taking a snapshot; there is nothing to do if it was taken.
    pub fn take_snapshot_if_needed(&self) -> (r: SnapshotStep)
        ensures
            r == if self.snapshot_taken {
                SnapshotStep::Done(Ok(false))
            } else {
                SnapshotStep::CopyEnvFiles
            },
    {
        if self.snapshot_taken {
            SnapshotStep::Done(Ok(false))
        } else {
            SnapshotStep::CopyEnvFiles
        }
    }

    /// The step after one that ended so. The snapshot counts as taken once it was written.
    pub fn next_snapshot_step(&mut self, step: SnapshotStep, outcome: Result<(), DaemonError>) -> (r:
        SnapshotStep)
        ensures
            *final(self) == (ConfigActor {
                snapshot_taken: old(self).snapshot_taken || (step is SaveSnapshot && outcome is Ok),
                ..*old(self)
            }),
            r == match (step, outcome) {
                (SnapshotStep::Done(d), _) => SnapshotStep::Done(d),
                (_, Err(e)) => SnapshotStep::Done(Err(e)),
                (SnapshotStep::CopyEnvFiles, Ok(_)) => SnapshotStep::SaveSnapshot,
                (SnapshotStep::SaveSnapshot, Ok(_)) => SnapshotStep::SaveState,
                (SnapshotStep::SaveState, Ok(_)) => SnapshotStep::Done(Ok(true)),
            },
    {
        match step {
            SnapshotStep::Done(d) => SnapshotStep::Done(d),
            SnapshotStep::CopyEnvFiles => match outcome {
                Ok(_) => SnapshotStep::SaveSnapshot,
                Err(e) => SnapshotStep::Done(Err(e)),
            },
            SnapshotStep::SaveSnapshot => match outcome {
                Ok(_) => {
                    self.snapshot_taken = true;
                    SnapshotStep::SaveState
                },
                Err(e) => SnapshotStep::Done(Err(e)),
            },
            SnapshotStep::SaveState => match outcome {
                Ok(_) => SnapshotStep::Done(Ok(true)),
                Err(e) => SnapshotStep::Done(Err(e)),
            },
        }
    }

    /// Whether these are the environments and directories of the services.
    pub open spec fn tells_services(
        self,
        envs: NameMap<NameMap<String>>,
        dirs: NameMap<String>,
    ) -> bool {
        &&& envs.keys() == self.services.keys()
        &&& envs.values().len() == self.services.values().len()
        &&& dirs.keys() == self.services.keys()
        &&& dirs.values().len() == self.services.values().len()
        &&& forall|i: int|
            0 <= i < self.services.values().len() ==> cloned(
                (#[trigger] self.services.values()[i]).computed_env,
                envs.values()[i],
            ) && dirs.values()[i] == self.services.values()[i].working_dir
    }

    /// The environments and directories of the services, as a snapshot holds them.
    pub fn service_parts(&self) -> (r: (NameMap<NameMap<String>>, NameMap<String>))
        ensures
            self.tells_services(r.0, r.1),
    {
        let n: usize = self.services.len();
        let ghost keys = self.services.keys();
        let mut envs: NameMap<NameMap<String>> = NameMap::new();
        let mut dirs: NameMap<String> = NameMap::new();
        let mut i: usize = 0;
        while i < n
            invariant
                i <= n,
                n == keys.len(),
                keys == self.services.keys(),
                self.services.well_formed(),
                envs.keys() == keys.take(i as int),
                envs.values().len() == i,
                dirs.keys() == keys.take(i as int),
                dirs.values().len() == i,
                forall|j: int|
                    0 <= j < i ==> cloned(
                        (#[trigger] self.services.values()[j]).computed_env,
                        envs.values()[j],
                    ) && dirs.values()[j] == self.services.values()[j].working_dir,
            decreases n - i,
        {
            let name = self.services.key_at(i);
            let ghost names = envs.keys();
            assert(!names.contains(keys[i as int])) by {
                if names.contains(keys[i as int]) {
                    let j = names.index_of(keys[i as int]);
                    assert(keys[j] == keys[i as int]);
                }
            }
            let state = self.services.value_at(i);
            envs.insert(name.clone(), state.computed_env.clone());
            dirs.insert(name.clone(), state.working_dir.clone());
            assert(envs.keys() == keys.take(i + 1));
            assert(dirs.keys() == keys.take(i + 1));
            i += 1;
        }
        assert(keys.take(i as int) == keys);
        (envs, dirs)
    }

    /// What is kept on disk of the states.
    pub fn persisted_state(&self, now: i64) -> (r: PersistedConfigState)
        ensures
            is_kept(self.services, self.initialized, now, r),
    {
        keep_states(&self.services, self.initialized, now)
    }

    /// Lets go of all resources. The result lists the tasks that have to be ended: health
    /// checks, then watchers.
    pub fn cleanup(&mut self) -> (r: Vec<u64>)
        ensures
            r@ == old(self).health_checks.values() + old(self).watchers.values(),
            *final(self) == (ConfigActor {
                health_checks: final(self).health_checks,
                watchers: final(self).watchers,
                processes: final(self).processes,
                ..*old(self)
            }),
            final(self).health_checks.keys().len() == 0,
            final(self).watchers.keys().len() == 0,
            final(self).processes.keys().len() == 0,
    {
        let mut tasks: Vec<u64> = Vec::new();
        push_tasks(&mut tasks, &self.health_checks);
        push_tasks(&mut tasks, &self.watchers);
        self.health_checks = NameMap::new();
        self.watchers = NameMap::new();
        self.processes = NameMap::new();
        tasks
    }
}

} // verus!
