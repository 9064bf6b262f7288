//! How the state of a configuration begins and ends, and what of it is kept on disk.
use vstd::prelude::*;
use vstd::utf8::encode_utf8;
use crate::config::config_value::ConfigValue;
use crate::config::logs::{
    buffer_size_of, max_size_of, resolve_log_buffer_size, resolve_log_max_size, LogConfig,
};
use crate::config::service::{user_baked, KeplerConfig, RawServiceConfig};
use crate::config_actor::actor::ConfigActor;
use crate::digest::{config_hash, hex_text, sha256};
use crate::errors::DaemonError;
use crate::logs::{LogWriterConfig, DEFAULT_BUFFER_SIZE};
use crate::name_map::NameMap;
use crate::number::decimal;
use crate::state::{
    PersistedConfigState, PersistedServiceState, ProcessHandle, ServiceState, ServiceStatus,
};

verus! {

/// A configuration as it was kept when its services were first started.
#[derive(Debug)]
pub struct ExpandedConfigSnapshot {
    pub config: KeplerConfig,
    pub config_dir: String,
    /// When it was taken, in seconds since the epoch.
    pub snapshot_time: i64,
    pub sys_env: NameMap<String>,
    pub owner_uid: Option<u32>,
    pub owner_gid: Option<u32>,
}

/// Where a configuration comes from.
#[derive(Debug)]
pub enum Source {
    /// From a snapshot, with the states that were kept.
    Snapshot { snapshot: ExpandedConfigSnapshot, persisted: Option<PersistedConfigState> },
    /// From its file.
    Fresh {
        config: Result<KeplerConfig, DaemonError>,
        /// The directory of the file.
        parent: Option<String>,
        sys_env: Option<NameMap<String>>,
        /// Who loads it.
        owner: Option<(u32, u32)>,
    },
}

/// The state that a service begins with: what was kept of it, or a fresh one; in any case
/// without an environment, in the directory of the configuration.
pub open spec fn begins(
    state: ServiceState,
    kept: Option<PersistedServiceState>,
    config_dir: String,
) -> bool {
    &&& state.computed_env.keys().len() == 0
    &&& state.env_file_vars.keys().len() == 0
    &&& state.working_dir == config_dir
    &&& match kept {
        Some(p) => p.keeps(state),
        None => state.fresh(),
    }
}

/// What was kept of a service.
pub open spec fn kept_of(persisted: Option<PersistedConfigState>, name: Seq<char>) -> Option<
    PersistedServiceState,
> {
    match persisted {
        Some(p) => if p.services@.contains_key(name) {
            Some(p.services@[name])
        } else {
            None
        },
        None => None,
    }
}

/// The states that the services of a configuration begin with.
pub open spec fn all_begin(
    services: NameMap<ServiceState>,
    config: KeplerConfig,
    persisted: Option<PersistedConfigState>,
    config_dir: String,
) -> bool {
    &&& services.keys() == config.services.keys()
    &&& services.values().len() == services.keys().len()
    &&& forall|i: int|
        0 <= i < services.values().len() ==> begins(
            #[trigger] services.values()[i],
            kept_of(persisted, services.keys()[i]),
            config_dir,
        )
}

fn begin_services(
    config: &KeplerConfig,
    persisted: &Option<PersistedConfigState>,
    config_dir: &String,
) -> (r: NameMap<ServiceState>)
    ensures
        all_begin(r, *config, *persisted, *config_dir),
{
    let n: usize = config.services.len();
    let ghost keys = config.services.keys();
    let mut out: NameMap<ServiceState> = NameMap::new();
    let mut i: usize = 0;
    while i < n
        invariant
            i <= n,
            n == keys.len(),
            keys == config.services.keys(),
            keys.no_duplicates(),
            out.keys() == keys.take(i as int),
            out.values().len() == i,
            forall|j: int|
                0 <= j < i ==> begins(
                    #[trigger] out.values()[j],
                    kept_of(*persisted, keys[j]),
                    *config_dir,
                ),
        decreases n - i,
    {
        let ghost before = out.values();
        let name = config.services.key_at(i).clone();
        assert(!out.keys().contains(name@)) by {
            if out.keys().contains(name@) {
                let j = out.keys().index_of(name@);
                assert(keys[j] == keys[i as int]);
            }
        }
        let kept: Option<&PersistedServiceState> = match persisted {
            Some(p) => p.services.get(name.as_str()),
            None => None,
        };
        let state = match kept {
            Some(p) => p.to_service_state(NameMap::new(), config_dir.clone()),
            None => ServiceState::with_env(NameMap::new(), config_dir.clone()),
        };
        out.insert(name, state);
        assert(keys.take(i + 1) == keys.take(i as int).push(keys[i as int]));
        assert forall|j: int| 0 <= j < i + 1 implies begins(
            #[trigger] out.values()[j],
            kept_of(*persisted, keys[j]),
            *config_dir,
        ) by {
            if j < i {
                assert(out.values()[j] == before[j]);
            }
        }
        i += 1;
    }
    assert(keys.take(i as int) == keys);
    out
}

/// How logs of a configuration are written.
pub open spec fn log_settings(config: KeplerConfig, logs_dir: String, l: LogWriterConfig) -> bool {
    let global: Option<&LogConfig> = match config.kepler {
        Some(k) => match k.logs {
            Some(g) => Some(&g),
            None => None,
        },
        None => None,
    };
    &&& l.logs_dir == logs_dir
    &&& match l.max_size {
        Some(n) => max_size_of(global) == Some(n as nat),
        None => max_size_of(global) is None,
    }
    &&& l.buffer_size == match buffer_size_of(global) {
        Some(n) => n,
        None => DEFAULT_BUFFER_SIZE,
    }
}

/// Whether the services of a configuration got the given user where they had none.
pub open spec fn owned_by(was: KeplerConfig, now: KeplerConfig, owner: Option<(u32, u32)>) -> bool {
    match owner {
        Some((uid, gid)) => {
            &&& now.lua == was.lua
            &&& now.kepler == was.kepler
            &&& now.services.keys() == was.services.keys()
            &&& now.services.values().len() == was.services.values().len()
            &&& forall|i: int|
                0 <= i < was.services.values().len() ==> user_baked(
                    #[trigger] was.services.values()[i],
                    now.services.values()[i],
                    uid,
                    gid,
                )
        },
        None => now == was,
    }
}

/// An error on the copy of a file, as one on the file itself.
pub open spec fn error_on(path: String, e: DaemonError) -> DaemonError {
    match e {
        DaemonError::ConfigParse { path: _, failure } => DaemonError::ConfigParse { path, failure },
        other => other,
    }
}

impl ConfigActor {
    /// A state in which nothing was done yet.
    pub open spec fn idle(self) -> bool {
        &&& self.resolved_configs.keys().len() == 0
        &&& self.processes.keys().len() == 0
        &&& self.watchers.keys().len() == 0
        &&& self.health_checks.keys().len() == 0
        &&& self.event_senders.keys().len() == 0
        &&& !self.event_handler_spawned
        &&& self.event_handler_task is None
        &&& self.event_forwarder_tasks@.len() == 0
        &&& !self.last_ready
        &&& !self.last_quiescent
        &&& !self.startup_in_progress
        &&& self.cached_topo_order is None
    }

    /// How logs are written.
    pub fn create_log_config(logs_dir: String, config: &KeplerConfig) -> (r: LogWriterConfig)
        ensures
            log_settings(*config, logs_dir, r),
    {
        let global_logs = config.global_logs();
        let max_size = resolve_log_max_size(None, global_logs);
        let buffer_size: usize = resolve_log_buffer_size(None, global_logs, DEFAULT_BUFFER_SIZE);
        LogWriterConfig::with_options(logs_dir, max_size, buffer_size)
    }

    /// The state of a configuration that is loaded from a path. A snapshot is taken as it is,
    /// with the states that were kept; a file is taken with the user who loads it.
    pub fn create(config_path: String, state_dir: String, logs_dir: String, source: Source) -> (r:
        Result<ConfigActor, DaemonError>)
        ensures
            match r {
                Ok(a) => {
                    &&& a.well_formed()
                    &&& a.idle()
                    &&& a.config_path == config_path
                    &&& a.config_hash@ == hex_text(sha256(encode_utf8(config_path@)))
                    &&& a.state_dir == state_dir
                    &&& log_settings(a.config, logs_dir, a.log_config)
                    &&& match source {
                        Source::Snapshot { snapshot, persisted } => {
                            &&& a.config == snapshot.config
                            &&& a.config_dir == snapshot.config_dir
                            &&& a.sys_env == snapshot.sys_env
                            &&& a.owner_uid == snapshot.owner_uid
                            &&& a.owner_gid == snapshot.owner_gid
                            &&& a.snapshot_taken
                            &&& a.restored_from_snapshot
                            &&& a.initialized == (persisted matches Some(p) && p.config_initialized)
                            &&& all_begin(a.services, a.config, persisted, a.config_dir)
                        },
                        Source::Fresh { config, parent, sys_env, owner } => {
                            &&& config matches Ok(c) && owned_by(c, a.config, owner)
                            &&& match parent {
                                Some(p) => a.config_dir == p,
                                None => a.config_dir@ == "."@,
                            }
                            &&& match sys_env {
                                Some(e) => a.sys_env == e,
                                None => a.sys_env.keys().len() == 0,
                            }
                            &&& a.owner_uid == (match owner {
                                Some((u, _)) => Some(u),
                                None => None,
                            })
                            &&& a.owner_gid == (match owner {
                                Some((_, g)) => Some(g),
                                None => None,
                            })
                            &&& !a.snapshot_taken
                            &&& !a.restored_from_snapshot
                            &&& !a.initialized
                            &&& all_begin(a.services, a.config, None, a.config_dir)
                        },
                    }
                },
                Err(e) => source matches Source::Fresh { config, .. } && (config matches Err(c)
                    && e == error_on(config_path, c)),
            },
    {
        let config_hash = config_hash(config_path.as_str());
        match source {
            Source::Snapshot { snapshot, persisted } => {
                let services = begin_services(&snapshot.config, &persisted, &snapshot.config_dir);
                let initialized: bool = match &persisted {
                    Some(p) => p.config_initialized,
                    None => false,
                };
                let log_config = ConfigActor::create_log_config(logs_dir, &snapshot.config);
                Ok(
                    ConfigActor {
                        config_path,
                        config_hash,
                        config: snapshot.config,
                        config_dir: snapshot.config_dir,
                        state_dir,
                        services,
                        log_config,
                        initialized,
                        resolved_configs: NameMap::new(),
                        processes: NameMap::new(),
                        watchers: NameMap::new(),
                        health_checks: NameMap::new(),
                        event_senders: NameMap::new(),
                        snapshot_taken: true,
                        restored_from_snapshot: true,
                        event_handler_spawned: false,
                        sys_env: snapshot.sys_env,
                        owner_uid: snapshot.owner_uid,
                        owner_gid: snapshot.owner_gid,
                        event_handler_task: None,
                        event_forwarder_tasks: Vec::new(),
                        last_ready: false,
                        last_quiescent: false,
                        startup_in_progress: false,
                        cached_topo_order: None,
                    },
                )
            },
            Source::Fresh { config, parent, sys_env, owner } => {
                let mut config = match config {
                    Ok(c) => c,
                    Err(DaemonError::ConfigParse { path: _, failure }) => {
                        return Err(DaemonError::ConfigParse { path: config_path, failure });
                    },
                    Err(e) => {
                        return Err(e);
                    },
                };
                let mut owner_uid: Option<u32> = None;
                let mut owner_gid: Option<u32> = None;
                if let Some((uid, gid)) = owner {
                    config.resolve_default_user(uid, gid);
                    owner_uid = Some(uid);
                    owner_gid = Some(gid);
                }
                let config_dir = match parent {
                    Some(p) => p,
                    None => ".".to_owned(),
                };
                let sys_env = match sys_env {
                    Some(e) => e,
                    None => NameMap::new(),
                };
                let services = begin_services(&config, &None, &config_dir);
                let log_config = ConfigActor::create_log_config(logs_dir, &config);
                Ok(
                    ConfigActor {
                        config_path,
                        config_hash,
                        config,
                        config_dir,
                        state_dir,
                        services,
                        log_config,
                        initialized: false,
                        resolved_configs: NameMap::new(),
                        processes: NameMap::new(),
                        watchers: NameMap::new(),
                        health_checks: NameMap::new(),
                        event_senders: NameMap::new(),
                        snapshot_taken: false,
                        restored_from_snapshot: false,
                        event_handler_spawned: false,
                        sys_env,
                        owner_uid,
                        owner_gid,
                        event_handler_task: None,
                        event_forwarder_tasks: Vec::new(),
                        last_ready: false,
                        last_quiescent: false,
                        startup_in_progress: false,
                        cached_topo_order: None,
                    },
                )
            },
        }
    }
}

/// The next step in taking a snapshot.
#[derive(Debug)]
pub enum SnapshotStep {
    /// Copy the environment files to the directory of the state.
    CopyEnvFiles,
    /// Write the snapshot.
    SaveSnapshot,
    /// Write the states.
    SaveState,
    /// Nothing is left to do: the snapshot was taken, it was there already, or a step failed.
    Done(Result<bool, DaemonError>),
}

impl ConfigActor {
    /// The first step in taking a snapshot; there is nothing to do if it was taken.
    pub fn take_snapshot_if_needed(&self) -> (r: SnapshotStep)
        ensures
            r == if self.snapshot_taken {
                SnapshotStep::Done(Ok(false))
            } else {
                SnapshotStep::CopyEnvFiles
            },
    {
        if self.snapshot_taken {
            SnapshotStep::Done(Ok(false))
        } else {
            SnapshotStep::CopyEnvFiles
        }
    }

    /// The step after one that ended so. The snapshot counts as taken once it was written.
    pub fn next_snapshot_step(&mut self, step: SnapshotStep, outcome: Result<(), DaemonError>) -> (r:
        SnapshotStep)
        ensures
            *final(self) == (ConfigActor {
                snapshot_taken: old(self).snapshot_taken || (step is SaveSnapshot && outcome is Ok),
                ..*old(self)
            }),
            r == match (step, outcome) {
                (SnapshotStep::Done(d), _) => SnapshotStep::Done(d),
                (_, Err(e)) => SnapshotStep::Done(Err(e)),
                (SnapshotStep::CopyEnvFiles, Ok(_)) => SnapshotStep::SaveSnapshot,
                (SnapshotStep::SaveSnapshot, Ok(_)) => SnapshotStep::SaveState,
                (SnapshotStep::SaveState, Ok(_)) => SnapshotStep::Done(Ok(true)),
            },
    {
        match step {
            SnapshotStep::Done(d) => SnapshotStep::Done(d),
            SnapshotStep::CopyEnvFiles => match outcome {
                Ok(_) => SnapshotStep::SaveSnapshot,
                Err(e) => SnapshotStep::Done(Err(e)),
            },
            SnapshotStep::SaveSnapshot => match outcome {
                Ok(_) => {
                    self.snapshot_taken = true;
                    SnapshotStep::SaveState
                },
                Err(e) => SnapshotStep::Done(Err(e)),
            },
            SnapshotStep::SaveState => match outcome {
                Ok(_) => SnapshotStep::Done(Ok(true)),
                Err(e) => SnapshotStep::Done(Err(e)),
            },
        }
    }

    /// What is kept on disk of the states.
    pub fn persisted_state(&self, now: i64) -> (r: PersistedConfigState)
        ensures
            is_kept(self.services, self.initialized, now, r),
    {
        keep_states(&self.services, self.initialized, now)
    }
}

/// Whether this is what is kept of states at a time.
pub open spec fn is_kept(
    services: NameMap<ServiceState>,
    initialized: bool,
    now: i64,
    r: PersistedConfigState,
) -> bool {
    &&& r.config_initialized == initialized
    &&& r.snapshot_time == now
    &&& r.services.keys() == services.keys()
    &&& r.services.values().len() == services.values().len()
    &&& forall|i: int|
        0 <= i < services.values().len() ==> (#[trigger] r.services.values()[i]).keeps(
            services.values()[i],
        )
}

/// What is kept on disk of states.
pub fn keep_states(services: &NameMap<ServiceState>, initialized: bool, now: i64) -> (r:
    PersistedConfigState)
    ensures
        is_kept(*services, initialized, now, r),
{
    let n: usize = services.len();
    let ghost keys = services.keys();
    let mut out: NameMap<PersistedServiceState> = NameMap::new();
    let mut i: usize = 0;
    while i < n
        invariant
            i <= n,
            n == keys.len(),
            keys == services.keys(),
            services.well_formed(),
            out.keys() == keys.take(i as int),
            out.values().len() == i,
            forall|j: int|
                0 <= j < i ==> (#[trigger] out.values()[j]).keeps(services.values()[j]),
        decreases n - i,
    {
        let ghost before = out.values();
        let name = services.key_at(i).clone();
        assert(!out.keys().contains(name@)) by {
            if out.keys().contains(name@) {
                let j = out.keys().index_of(name@);
                assert(keys[j] == keys[i as int]);
            }
        }
        let kept = PersistedServiceState::from_state(services.value_at(i));
        out.insert(name, kept);
        assert(keys.take(i + 1) == keys.take(i as int).push(keys[i as int]));
        assert forall|j: int| 0 <= j < i + 1 implies (#[trigger] out.values()[j]).keeps(
            services.values()[j],
        ) by {
            if j < i {
                assert(out.values()[j] == before[j]);
            }
        }
        i += 1;
    }
    assert(keys.take(i as int) == keys);
    PersistedConfigState { services: out, config_initialized: initialized, snapshot_time: now }
}

/// The tasks that read the output of processes.
pub open spec fn output_tasks(processes: Seq<ProcessHandle>) -> Seq<u64>
    decreases processes.len(),
{
    if processes.len() == 0 {
        seq![]
    } else {
        output_tasks(processes.drop_last()) + task_list(processes.last().stdout_task) + task_list(
            processes.last().stderr_task,
        )
    }
}

/// A task as a list.
pub open spec fn task_list(task: Option<u64>) -> Seq<u64> {
    match task {
        Some(t) => seq![t],
        None => seq![],
    }
}

/// Puts a task at the end of a list, if there is one.
fn push_task(tasks: &mut Vec<u64>, task: Option<u64>)
    ensures
        final(tasks)@ == old(tasks)@ + task_list(task),
{
    if let Some(t) = task {
        tasks.push(t);
    }
    assert(tasks@ == old(tasks)@ + task_list(task));
}

/// Puts all tasks of a map at the end of a list.
pub fn push_tasks(tasks: &mut Vec<u64>, map: &NameMap<u64>)
    ensures
        final(tasks)@ == old(tasks)@ + map.values(),
{
    let n: usize = map.len();
    let ghost before = tasks@;
    let mut i: usize = 0;
    assert(before + map.values().take(0) == before);
    while i < n
        invariant
            i <= n,
            n == map.keys().len(),
            map.well_formed(),
            before == old(tasks)@,
            tasks@ == before + map.values().take(i as int),
        decreases n - i,
    {
        tasks.push(*map.value_at(i));
        assert(before + map.values().take(i + 1) == (before + map.values().take(i as int)).push(
            map.values()[i as int],
        ));
        i += 1;
    }
    assert(map.values().take(i as int) == map.values());
}

impl ConfigActor {
    /// Lets go of all resources. The result lists the tasks that have to be ended: health
    /// checks, watchers, readers of output, then the handler of events and what forwards to it.
    pub fn cleanup(&mut self) -> (r: Vec<u64>)
        ensures
            r@ == old(self).health_checks.values() + old(self).watchers.values() + output_tasks(
                old(self).processes.values(),
            ) + task_list(old(self).event_handler_task) + old(self).event_forwarder_tasks@,
            *final(self) == (ConfigActor {
                health_checks: final(self).health_checks,
                watchers: final(self).watchers,
                processes: final(self).processes,
                event_senders: final(self).event_senders,
                event_handler_task: None,
                event_forwarder_tasks: final(self).event_forwarder_tasks,
                ..*old(self)
            }),
            final(self).health_checks.keys().len() == 0,
            final(self).watchers.keys().len() == 0,
            final(self).processes.keys().len() == 0,
            final(self).event_senders.keys().len() == 0,
            final(self).event_forwarder_tasks@.len() == 0,
    {
        let ghost before = *self;
        let mut tasks: Vec<u64> = Vec::new();
        push_tasks(&mut tasks, &self.health_checks);
        push_tasks(&mut tasks, &self.watchers);
        let ghost so_far = tasks@;
        let ghost handles = self.processes.values();
        let n: usize = self.processes.len();
        let mut i: usize = 0;
        assert(so_far + output_tasks(handles.take(0)) == so_far);
        while i < n
            invariant
                i <= n,
                *self == before,
                n == self.processes.keys().len(),
                self.processes.well_formed(),
                handles == self.processes.values(),
                tasks@ == so_far + output_tasks(handles.take(i as int)),
            decreases n - i,
        {
            let handle = *self.processes.value_at(i);
            push_task(&mut tasks, handle.stdout_task);
            push_task(&mut tasks, handle.stderr_task);
            proof {
                assert(handles.take(i + 1).drop_last() == handles.take(i as int));
                assert(tasks@ == so_far + output_tasks(handles.take(i + 1)));
            }
            i += 1;
        }
        assert(handles.take(i as int) == handles);
        push_task(&mut tasks, self.event_handler_task);
        let mut forwarders: Vec<u64> = Vec::new();
        std::mem::swap(&mut forwarders, &mut self.event_forwarder_tasks);
        tasks.append(&mut forwarders);
        self.event_handler_task = None;
        self.health_checks = NameMap::new();
        self.watchers = NameMap::new();
        self.processes = NameMap::new();
        self.event_senders = NameMap::new();
        assert(tasks@ == before.health_checks.values() + before.watchers.values() + output_tasks(
            before.processes.values(),
        ) + task_list(before.event_handler_task) + before.event_forwarder_tasks@);
        tasks
    }
}

/// A configuration that is restored with the states that were kept has its services in these
/// states, without what is computed at a start.
pub proof fn law_restored_as_kept(
    was: NameMap<ServiceState>,
    initialized: bool,
    config: KeplerConfig,
    persisted: PersistedConfigState,
    config_dir: String,
    services: NameMap<ServiceState>,
)
    requires
        was.well_formed(),
        services.well_formed(),
        persisted.services.well_formed(),
        was.keys() == config.services.keys(),
        is_kept(was, initialized, persisted.snapshot_time, persisted),
        all_begin(services, config, Some(persisted), config_dir),
    ensures
        services.keys() == was.keys(),
        forall|i: int|
            0 <= i < services.values().len() ==> {
                let now = #[trigger] services.values()[i];
                now == (ServiceState {
                    computed_env: now.computed_env,
                    working_dir: config_dir,
                    env_file_vars: now.env_file_vars,
                    ..was.values()[i]
                })
            },
{
    let keys = services.keys();
    assert forall|i: int| 0 <= i < services.values().len() implies {
        let now = #[trigger] services.values()[i];
        now == (ServiceState {
            computed_env: now.computed_env,
            working_dir: config_dir,
            env_file_vars: now.env_file_vars,
            ..was.values()[i]
        })
    } by {
        assert(keys.index_of(keys[i]) == i);
        assert(persisted.services@[keys[i]] == persisted.services.values()[i]);
        assert(persisted.services.values()[i].keeps(was.values()[i]));
    }
}

/// A configuration that is loaded anew has every service stopped and never started, is not
/// initialized, was not restored, and belongs to whoever loads it. Nothing was computed or begun.
pub proof fn law_fresh_configuration(
    path: String,
    state_dir: String,
    logs_dir: String,
    config: Result<KeplerConfig, DaemonError>,
    parent: Option<String>,
    sys_env: Option<NameMap<String>>,
    owner: Option<(u32, u32)>,
    r: Result<ConfigActor, DaemonError>,
    i: int,
)
    requires
        call_ensures(
            ConfigActor::create,
            (path, state_dir, logs_dir, Source::Fresh { config, parent, sys_env, owner }),
            r,
        ),
    ensures
        r is Ok <==> config is Ok,
        r matches Ok(a) ==> {
            &&& a.services.keys() == config->Ok_0.services.keys()
            &&& 0 <= i < a.services.values().len() ==> {
                let s = a.services.values()[i];
                &&& s.status == ServiceStatus::Stopped
                &&& s.pid is None && s.started_at is None && s.stopped_at is None
                &&& s.exit_code is None && s.signal is None
                &&& s.restart_count == 0 && s.health_check_failures == 0
                &&& !s.was_healthy && !s.initialized
                &&& s.skip_reason is None && s.fail_reason is None
                &&& s.working_dir == a.config_dir
            }
            &&& !a.initialized && !a.snapshot_taken && !a.restored_from_snapshot
            &&& !a.last_ready && !a.last_quiescent && !a.startup_in_progress
            &&& a.resolved_configs.keys().len() == 0
            &&& a.processes.keys().len() == 0
            &&& owner is None ==> a.owner_uid is None && a.owner_gid is None
            &&& owner matches Some((u, g)) ==> a.owner_uid == Some(u) && a.owner_gid == Some(g)
            &&& parent matches Some(dir) ==> a.config_dir == dir
            &&& parent is None ==> a.config_dir@ == "."@
            &&& sys_env matches Some(e) ==> a.sys_env == e
            &&& a.config_path == path
            &&& a.state_dir == state_dir
            &&& a.log_config.logs_dir == logs_dir
        },
{
}

/// Services without a user get that of the one who loads the configuration, unless it is root; all
/// else of the configuration is kept.
pub proof fn law_fresh_configuration_gets_its_owner(
    path: String,
    state_dir: String,
    logs_dir: String,
    config: KeplerConfig,
    parent: Option<String>,
    sys_env: Option<NameMap<String>>,
    uid: u32,
    gid: u32,
    a: ConfigActor,
    i: int,
)
    requires
        call_ensures(
            ConfigActor::create,
            (
                path,
                state_dir,
                logs_dir,
                Source::Fresh { config: Ok(config), parent, sys_env, owner: Some((uid, gid)) },
            ),
            Ok::<ConfigActor, DaemonError>(a),
        ),
        0 <= i < config.services.values().len(),
    ensures
        ({
            let was = config.services.values()[i];
            let now = a.config.services.values()[i];
            &&& now == (RawServiceConfig { user: now.user, ..was })
            &&& uid == 0 ==> now.user == was.user
            &&& was.user != ConfigValue::Static(None::<String>) ==> now.user == was.user
            &&& uid != 0 && was.user == ConfigValue::Static(None::<String>) ==> (
            now.user matches ConfigValue::Static(Some(u)) && u@ == decimal(uid as nat) + ":"@
                + decimal(gid as nat))
        }),
        a.config.lua == config.lua,
        a.config.kepler == config.kepler,
{
}

/// A configuration that is restored is the one of the snapshot, with its environment, its owner
/// and its directory, and counts as restored; its services are in the states that were kept, and
/// those of which nothing was kept were never started.
pub proof fn law_restored_configuration(
    path: String,
    state_dir: String,
    logs_dir: String,
    snapshot: ExpandedConfigSnapshot,
    persisted: Option<PersistedConfigState>,
    r: Result<ConfigActor, DaemonError>,
    i: int,
)
    requires
        call_ensures(
            ConfigActor::create,
            (path, state_dir, logs_dir, Source::Snapshot { snapshot, persisted }),
            r,
        ),
    ensures
        r is Ok,
        ({
            let a = r->Ok_0;
            &&& a.config == snapshot.config
            &&& a.config_dir == snapshot.config_dir
            &&& a.sys_env == snapshot.sys_env
            &&& a.owner_uid == snapshot.owner_uid
            &&& a.owner_gid == snapshot.owner_gid
            &&& a.snapshot_taken && a.restored_from_snapshot
            &&& persisted is None ==> !a.initialized
            &&& persisted matches Some(p) ==> a.initialized == p.config_initialized
            &&& 0 <= i < a.services.values().len() ==> {
                let s = a.services.values()[i];
                let name = a.services.keys()[i];
                &&& persisted is None ==> s.status == ServiceStatus::Stopped && s.pid is None
                    && s.restart_count == 0
                &&& persisted matches Some(p) ==> if p.services@.contains_key(name) {
                    let kept = p.services@[name];
                    &&& s.status == kept.status
                    &&& s.pid == kept.pid
                    &&& s.started_at == kept.started_at
                    &&& s.exit_code == kept.exit_code
                    &&& s.restart_count == kept.restart_count
                    &&& s.initialized == kept.initialized
                } else {
                    s.status == ServiceStatus::Stopped && s.pid is None && s.restart_count == 0
                }
            }
        }),
{
}

/// A snapshot is taken once: the environment files are copied, then it is written, then the
/// states. It counts as taken as soon as it was written, and the first fault ends it.
pub proof fn law_snapshot_is_taken_in_steps(
    a: &mut ConfigActor,
    begin: SnapshotStep,
    step: SnapshotStep,
    outcome: Result<(), DaemonError>,
    next: SnapshotStep,
)
    requires
        call_ensures(ConfigActor::take_snapshot_if_needed, (&*old(a),), begin),
        call_ensures(ConfigActor::next_snapshot_step, (a, step, outcome), next),
    ensures
        old(a).snapshot_taken ==> begin == SnapshotStep::Done(Ok(false)),
        !old(a).snapshot_taken ==> begin is CopyEnvFiles,
        outcome is Ok && step is CopyEnvFiles ==> next is SaveSnapshot,
        outcome is Ok && step is SaveSnapshot ==> next is SaveState && final(a).snapshot_taken,
        outcome is Ok && step is SaveState ==> next == SnapshotStep::Done(Ok(true)),
        outcome is Err && !(step is Done) ==> next == SnapshotStep::Done(Err(outcome->Err_0)),
        outcome is Err || !(step is SaveSnapshot) ==> final(a).snapshot_taken == old(a).snapshot_taken,
        final(a).services == old(a).services,
{
}

/// The tasks that read the output of a process are among those of all processes.
proof fn lemma_output_task(processes: Seq<ProcessHandle>, i: int, t: u64)
    requires
        0 <= i < processes.len(),
        processes[i].stdout_task == Some(t) || processes[i].stderr_task == Some(t),
    ensures
        output_tasks(processes).contains(t),
    decreases processes.len(),
{
    let front = output_tasks(processes.drop_last());
    let one = task_list(processes.last().stdout_task);
    let two = task_list(processes.last().stderr_task);
    let all = front + one + two;
    if i < processes.len() - 1 {
        lemma_output_task(processes.drop_last(), i, t);
        assert(all[front.index_of(t)] == t);
    } else if processes[i].stdout_task == Some(t) {
        assert(one[0] == t);
        assert(all[front.len() as int] == t);
    } else {
        assert(two[0] == t);
        assert(all[(front.len() + one.len()) as int] == t);
    }
}

/// When a configuration is let go of, every task of it has to be ended: those that check health,
/// watch files, read output, handle events and forward them. The states stay.
pub proof fn law_cleanup_ends_every_task(
    a: &mut ConfigActor,
    tasks: Vec<u64>,
    i: int,
    t: u64,
)
    requires
        call_ensures(ConfigActor::cleanup, (a,), tasks),
    ensures
        0 <= i < old(a).health_checks.values().len() && old(a).health_checks.values()[i] == t
            ==> tasks@.contains(t),
        0 <= i < old(a).watchers.values().len() && old(a).watchers.values()[i] == t
            ==> tasks@.contains(t),
        0 <= i < old(a).processes.values().len() && (old(a).processes.values()[i].stdout_task
            == Some(t) || old(a).processes.values()[i].stderr_task == Some(t)) ==> tasks@.contains(t),
        old(a).event_handler_task == Some(t) ==> tasks@.contains(t),
        old(a).event_forwarder_tasks@.contains(t) ==> tasks@.contains(t),
        final(a).services == old(a).services,
        final(a).processes.keys().len() == 0,
        final(a).health_checks.keys().len() == 0,
        final(a).watchers.keys().len() == 0,
        final(a).event_handler_task is None,
{
    let h = old(a).health_checks.values();
    let w = old(a).watchers.values();
    let o = output_tasks(old(a).processes.values());
    let e = task_list(old(a).event_handler_task);
    let f = old(a).event_forwarder_tasks@;
    assert(tasks@ == h + w + o + e + f);
    if 0 <= i < h.len() && h[i] == t {
        assert(tasks@[i] == t);
    }
    if 0 <= i < w.len() && w[i] == t {
        assert(tasks@[h.len() + i] == t);
    }
    if 0 <= i < old(a).processes.values().len() && (old(a).processes.values()[i].stdout_task
        == Some(t) || old(a).processes.values()[i].stderr_task == Some(t)) {
        lemma_output_task(old(a).processes.values(), i, t);
        assert(tasks@[h.len() + w.len() + o.index_of(t)] == t);
    }
    if old(a).event_handler_task == Some(t) {
        assert(e[0] == t);
        assert(tasks@[(h.len() + w.len() + o.len()) as int] == t);
    }
    if f.contains(t) {
        assert(tasks@[h.len() + w.len() + o.len() + e.len() + f.index_of(t)] == t);
    }
}

/// What is kept of a configuration is when it was kept, whether it is initialized, and the states
/// of its services.
pub proof fn law_what_is_kept(a: ConfigActor, now: i64, r: PersistedConfigState, i: int)
    requires
        call_ensures(ConfigActor::persisted_state, (&a, now), r),
        0 <= i < a.services.values().len(),
    ensures
        r.snapshot_time == now,
        r.config_initialized == a.initialized,
        r.services.keys() == a.services.keys(),
        ({
            let state = a.services.values()[i];
            let kept = r.services.values()[i];
            &&& kept.status == state.status
            &&& kept.pid == state.pid
            &&& kept.started_at == state.started_at
            &&& kept.stopped_at == state.stopped_at
            &&& kept.exit_code == state.exit_code
            &&& kept.signal == state.signal
            &&& kept.was_healthy == state.was_healthy
            &&& kept.health_check_failures == state.health_check_failures
            &&& kept.restart_count == state.restart_count
            &&& kept.initialized == state.initialized
            &&& kept.skip_reason == state.skip_reason
            &&& kept.fail_reason == state.fail_reason
        }),
{
}

/// Logs are written into the directory given, with the sizes of the general settings; without
/// them there is no limit, and the buffer has eight kibibytes.
pub proof fn law_how_logs_are_written(
    dir: String,
    config: KeplerConfig,
    r: LogWriterConfig,
    size: Option<u64>,
)
    requires
        call_ensures(ConfigActor::create_log_config, (dir, &config), r),
        config.kepler matches Some(k) ==> (k.logs matches Some(l) ==> call_ensures(
            LogConfig::max_size_bytes,
            (&l,),
            size,
        )),
    ensures
        r.logs_dir == dir,
        config.kepler is None ==> r.max_size is None && r.buffer_size == 8 * 1024,
        config.kepler matches Some(k) ==> {
            &&& k.logs is None ==> r.max_size is None && r.buffer_size == 8 * 1024
            &&& k.logs matches Some(l) ==> {
                &&& r.max_size == size
                &&& l.buffer_size matches ConfigValue::Static(Some(n)) ==> r.buffer_size == n
                &&& l.buffer_size == ConfigValue::Static(None::<usize>) ==> r.buffer_size == 8 * 1024
            }
        },
{
}

} // verus!
