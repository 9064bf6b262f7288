//! What each command does to the state of a configuration that is computed when it is loaded.
use vstd::prelude::*;
use crate::config_actor::context::{deeds, push_effect, Deed, Effect, TaskHandleType};
use crate::config_actor::process::{abort_if, found};
use crate::eager::actor::{
    all_begin, all_restored, checked, not_found, ConfigActor, ConfigCommand, ConfigReply,
    ExpandedConfigSnapshot,
};
use crate::config_actor::create::is_kept;
use crate::logs::LogRead;
use crate::name_map::NameMap;
use crate::state::{PersistedConfigState, ServiceState};

verus! {

/// What a command leads to.
#[derive(Debug)]
pub struct Outcome<'a> {
    pub reply: ConfigReply<'a>,
    /// Whether the configuration is to be shut down.
    pub shutdown: bool,
}

/// Whether the counters that a command raises have room.
pub open spec fn counts_fit(actor: ConfigActor, cmd: ConfigCommand) -> bool {
    match cmd {
        ConfigCommand::UpdateHealthCheck { service_name, passed, .. } =>
            actor.services@.contains_key(service_name@) && !passed
            ==> actor.services@[service_name@].health_check_failures < u32::MAX,
        ConfigCommand::IncrementRestartCount { service_name } => actor.services@.contains_key(
            service_name@,
        ) ==> actor.services@[service_name@].restart_count < u32::MAX,
        _ => true,
    }
}

impl ConfigCommand {
    /// Whether the command only asks.
    pub open spec fn asks(self) -> bool {
        match self {
            ConfigCommand::GetServiceContext { .. }
            | ConfigCommand::GetServiceStatus { .. }
            | ConfigCommand::GetLogs { .. }
            | ConfigCommand::GetLogsBounded { .. }
            | ConfigCommand::GetLogsPaginated { .. }
            | ConfigCommand::GetServiceConfig { .. }
            | ConfigCommand::GetConfig
            | ConfigCommand::GetConfigDir
            | ConfigCommand::GetGlobalLogConfig
            | ConfigCommand::IsServiceRunning { .. }
            | ConfigCommand::IsConfigInitialized
            | ConfigCommand::IsServiceInitialized { .. }
            | ConfigCommand::GetServiceState { .. }
            | ConfigCommand::GetConfigHash
            | ConfigCommand::GetConfigPath
            | ConfigCommand::AllServicesStopped
            | ConfigCommand::IsRestoredFromSnapshot => true,
            _ => false,
        }
    }

    /// Whether the command only asks.
    fn is_question(&self) -> (r: bool)
        ensures
            r == self.asks(),
    {
        match self {
            ConfigCommand::GetServiceContext { .. }
            | ConfigCommand::GetServiceStatus { .. }
            | ConfigCommand::GetLogs { .. }
            | ConfigCommand::GetLogsBounded { .. }
            | ConfigCommand::GetLogsPaginated { .. }
            | ConfigCommand::GetServiceConfig { .. }
            | ConfigCommand::GetConfig
            | ConfigCommand::GetConfigDir
            | ConfigCommand::GetGlobalLogConfig
            | ConfigCommand::IsServiceRunning { .. }
            | ConfigCommand::IsConfigInitialized
            | ConfigCommand::IsServiceInitialized { .. }
            | ConfigCommand::GetServiceState { .. }
            | ConfigCommand::GetConfigHash
            | ConfigCommand::GetConfigPath
            | ConfigCommand::AllServicesStopped
            | ConfigCommand::IsRestoredFromSnapshot => true,
            _ => false,
        }
    }
}

/// Whether a reference is to the value that is there, or there is none.
pub open spec fn points<V>(r: Option<&V>, v: Option<V>) -> bool {
    match r {
        Some(x) => v == Some(*x),
        None => v is None,
    }
}

/// The answer to a question.
pub open spec fn answers(actor: ConfigActor, cmd: ConfigCommand, reply: ConfigReply) -> bool {
    match cmd {
        ConfigCommand::GetServiceContext { service_name } => reply matches ConfigReply::Context(c)
            && actor.tells_context(service_name@, c),
        ConfigCommand::GetServiceStatus { service } => reply matches ConfigReply::Status(r)
            && actor.tells_status(
            match service {
                Some(name) => Some(name@),
                None => None,
            },
            r,
        ),
        ConfigCommand::GetLogs { lines } => reply == ConfigReply::ReadLogs(LogRead::Tail { lines }),
        ConfigCommand::GetLogsBounded { lines, max_bytes } => reply == ConfigReply::ReadLogs(
            LogRead::TailBounded { lines, max_bytes },
        ),
        ConfigCommand::GetLogsPaginated { offset, limit } => reply == ConfigReply::ReadLogs(
            LogRead::Page { offset, limit },
        ),
        ConfigCommand::GetServiceConfig { service_name } => reply matches
            ConfigReply::ServiceConfig(c) && points(
            c,
            found(actor.config.services@, service_name@),
        ),
        ConfigCommand::GetConfig => reply matches ConfigReply::Config(c) && *c == actor.config,
        ConfigCommand::GetConfigDir => reply matches ConfigReply::Text(t) && *t == actor.config_dir,
        ConfigCommand::GetGlobalLogConfig => reply matches ConfigReply::GlobalLogs(l) && points(
            l,
            actor.config.logs,
        ),
        ConfigCommand::IsServiceRunning { service_name } => reply == ConfigReply::Flag(
            actor.services@.contains_key(service_name@)
                && actor.services@[service_name@].status.running(),
        ),
        ConfigCommand::IsConfigInitialized => reply == ConfigReply::Flag(actor.initialized),
        ConfigCommand::IsServiceInitialized { service_name } => reply == ConfigReply::Flag(
            actor.services@.contains_key(service_name@) && actor.services@[service_name@].initialized,
        ),
        ConfigCommand::GetServiceState { service_name } => reply matches ConfigReply::State(s)
            && points(s, found(actor.services@, service_name@)),
        ConfigCommand::GetConfigHash => reply matches ConfigReply::Text(t) && *t
            == actor.config_hash,
        ConfigCommand::GetConfigPath => reply matches ConfigReply::Text(t) && *t
            == actor.config_path,
        ConfigCommand::AllServicesStopped => reply == ConfigReply::Flag(actor.none_running()),
        ConfigCommand::IsRestoredFromSnapshot => reply == ConfigReply::Flag(
            actor.restored_from_snapshot,
        ),
        _ => false,
    }
}

/// Whether a command on the state of a service did what it should: the state is `state` and all
/// is well, or there is no such service and nothing changed.
pub open spec fn on_service(
    prev: ConfigActor,
    next: ConfigActor,
    name: Seq<char>,
    state: ServiceState,
    reply: ConfigReply,
) -> bool {
    if prev.services@.contains_key(name) {
        prev.with_state(next, name, state) && (reply matches ConfigReply::Done(Ok(_)))
    } else {
        next == prev && (reply matches ConfigReply::Done(r) && not_found(r, name))
    }
}

/// The tasks of a kind.
pub open spec fn tasks_of(actor: ConfigActor, kind: TaskHandleType) -> Map<Seq<char>, u64> {
    match kind {
        TaskHandleType::HealthCheck => actor.health_checks@,
        TaskHandleType::FileWatcher => actor.watchers@,
    }
}

/// Whether only the tasks of a kind changed.
pub open spec fn same_but_tasks(prev: ConfigActor, next: ConfigActor, kind: TaskHandleType) -> bool {
    match kind {
        TaskHandleType::HealthCheck => next == (ConfigActor {
            health_checks: next.health_checks,
            ..prev
        }),
        TaskHandleType::FileWatcher => next == (ConfigActor { watchers: next.watchers, ..prev }),
    }
}

/// What a command does that does not only ask, without what has to be done outside.
pub open spec fn serves(
    prev: ConfigActor,
    next: ConfigActor,
    cmd: ConfigCommand,
    reply: ConfigReply,
) -> bool {
    match cmd {
        ConfigCommand::ReloadConfig { loaded: Ok((config, envs)) } => {
            &&& (reply matches ConfigReply::Done(Ok(_)))
            &&& next == (ConfigActor { config, services: next.services, ..prev })
            &&& all_begin(next.services, config, envs, prev.config_dir, Some(prev.services))
        },
        ConfigCommand::ReloadConfig { loaded: Err(e) } => next == prev && reply
            == ConfigReply::Done(Err(e)),
        ConfigCommand::SetServiceStatus { service_name, status } => on_service(
            prev,
            next,
            service_name@,
            ServiceState { status, ..prev.services@[service_name@] },
            reply,
        ),
        ConfigCommand::SetServicePid { service_name, pid, started_at } => on_service(
            prev,
            next,
            service_name@,
            ServiceState { pid, started_at, ..prev.services@[service_name@] },
            reply,
        ),
        ConfigCommand::RecordProcessExit { service_name, exit_code } => {
            let mid = ConfigActor { processes: next.processes, ..prev };
            &&& next.processes@ == prev.processes@.remove(service_name@)
            &&& on_service(
                mid,
                next,
                service_name@,
                ServiceState { exit_code, pid: None, ..prev.services@[service_name@] },
                reply,
            )
        },
        ConfigCommand::UpdateHealthCheck { service_name, passed, retries } => if prev.services@.contains_key(
            service_name@,
        ) {
            let state = checked(prev.services@[service_name@], passed, retries);
            &&& prev.with_state(next, service_name@, state)
            &&& reply matches ConfigReply::Health(Ok(u)) && u.previous_status
                == prev.services@[service_name@].status && u.new_status == state.status
                && u.failures == state.health_check_failures
        } else {
            next == prev && (reply matches ConfigReply::Health(r) && not_found(r, service_name@))
        },
        ConfigCommand::MarkConfigInitialized => {
            &&& next == (ConfigActor { initialized: true, ..prev })
            &&& (reply matches ConfigReply::Done(Ok(_)))
        },
        ConfigCommand::MarkServiceInitialized { service_name } => on_service(
            prev,
            next,
            service_name@,
            ServiceState { initialized: true, ..prev.services@[service_name@] },
            reply,
        ),
        ConfigCommand::IncrementRestartCount { service_name } => on_service(
            prev,
            next,
            service_name@,
            ServiceState {
                restart_count: (prev.services@[service_name@].restart_count + 1) as u32,
                ..prev.services@[service_name@]
            },
            reply,
        ),
        ConfigCommand::StoreProcessHandle { service_name, process } => {
            &&& next == (ConfigActor { processes: next.processes, ..prev })
            &&& next.processes@ == prev.processes@.insert(service_name@, process)
            &&& reply is Nothing
        },
        ConfigCommand::RemoveProcessHandle { service_name } => {
            &&& next == (ConfigActor { processes: next.processes, ..prev })
            &&& next.processes@ == prev.processes@.remove(service_name@)
            &&& reply == ConfigReply::Process(found(prev.processes@, service_name@))
        },
        ConfigCommand::StoreTaskHandle { service_name, handle_type, handle } => {
            &&& same_but_tasks(prev, next, handle_type)
            &&& tasks_of(next, handle_type) == tasks_of(prev, handle_type).insert(
                service_name@,
                handle,
            )
            &&& reply is Nothing
        },
        ConfigCommand::CancelTaskHandle { service_name, handle_type } => {
            &&& same_but_tasks(prev, next, handle_type)
            &&& tasks_of(next, handle_type) == tasks_of(prev, handle_type).remove(service_name@)
            &&& reply is Nothing
        },
        ConfigCommand::ClearSnapshot { cleared } => {
            &&& reply == ConfigReply::Done(cleared)
            &&& next == if cleared is Ok {
                ConfigActor { snapshot_taken: false, restored_from_snapshot: false, ..prev }
            } else {
                prev
            }
        },
        _ => next == prev && reply is Nothing,
    }
}

/// What a command leaves to be done outside.
pub open spec fn leaves(prev: ConfigActor, cmd: ConfigCommand) -> Seq<Deed> {
    match cmd {
        ConfigCommand::ClearServiceLogs { service_name } => seq![Deed::ClearLogs(service_name@)],
        ConfigCommand::ClearServiceLogsPrefix { prefix } => seq![Deed::ClearLogsPrefix(prefix@)],
        ConfigCommand::CancelTaskHandle { service_name, handle_type } => abort_if(
            found(tasks_of(prev, handle_type), service_name@),
        ),
        ConfigCommand::Shutdown => seq![Deed::SaveState],
        _ => seq![],
    }
}

impl ConfigActor {
    /// The answer to a question.
    fn answer(&self, cmd: &ConfigCommand) -> (r: ConfigReply<'_>)
        ensures
            cmd.asks() ==> answers(*self, *cmd, r),
    {
        match cmd {
            ConfigCommand::GetServiceContext { service_name } => ConfigReply::Context(
                self.build_service_context(service_name.as_str()),
            ),
            ConfigCommand::GetServiceStatus { service } => ConfigReply::Status(
                match service {
                    Some(name) => self.get_service_status(Some(name.as_str())),
                    None => self.get_service_status(None),
                },
            ),
            ConfigCommand::GetLogs { lines } => ConfigReply::ReadLogs(
                LogRead::Tail { lines: *lines },
            ),
            ConfigCommand::GetLogsBounded { lines, max_bytes } => ConfigReply::ReadLogs(
                LogRead::TailBounded { lines: *lines, max_bytes: *max_bytes },
            ),
            ConfigCommand::GetLogsPaginated { offset, limit } => ConfigReply::ReadLogs(
                LogRead::Page { offset: *offset, limit: *limit },
            ),
            ConfigCommand::GetServiceConfig { service_name } => ConfigReply::ServiceConfig(
                self.config.services.get(service_name.as_str()),
            ),
            ConfigCommand::GetConfig => ConfigReply::Config(&self.config),
            ConfigCommand::GetConfigDir => ConfigReply::Text(&self.config_dir),
            ConfigCommand::GetGlobalLogConfig => ConfigReply::GlobalLogs(self.config.logs.as_ref()),
            ConfigCommand::IsServiceRunning { service_name } => ConfigReply::Flag(
                match self.services.get(service_name.as_str()) {
                    Some(s) => s.status.is_running(),
                    None => false,
                },
            ),
            ConfigCommand::IsConfigInitialized => ConfigReply::Flag(self.initialized),
            ConfigCommand::IsServiceInitialized { service_name } => ConfigReply::Flag(
                match self.services.get(service_name.as_str()) {
                    Some(s) => s.initialized,
                    None => false,
                },
            ),
            ConfigCommand::GetServiceState { service_name } => ConfigReply::State(
                self.services.get(service_name.as_str()),
            ),
            ConfigCommand::GetConfigHash => ConfigReply::Text(&self.config_hash),
            ConfigCommand::GetConfigPath => ConfigReply::Text(&self.config_path),
            ConfigCommand::AllServicesStopped => ConfigReply::Flag(self.all_services_stopped()),
            ConfigCommand::IsRestoredFromSnapshot => ConfigReply::Flag(self.restored_from_snapshot),
            _ => ConfigReply::Nothing,
        }
    }

    /// Ends a task of a service, if there is one.
    fn cancel(&mut self, service_name: &str, kind: TaskHandleType, effects: &mut Vec<Effect>)
        ensures
            same_but_tasks(*old(self), *final(self), kind),
            tasks_of(*final(self), kind) == tasks_of(*old(self), kind).remove(service_name@),
            deeds(final(effects)@) == deeds(old(effects)@) + abort_if(
                found(tasks_of(*old(self), kind), service_name@),
            ),
    {
        let ghost before = deeds(effects@);
        let removed = match kind {
            TaskHandleType::HealthCheck => self.health_checks.remove(service_name),
            TaskHandleType::FileWatcher => self.watchers.remove(service_name),
        };
        if let Some(task) = removed {
            push_effect(effects, Effect::Abort(task));
        }
        assert(deeds(effects@) == before + abort_if(
            found(tasks_of(*old(self), kind), service_name@),
        ));
    }

    /// Does what a command asks for that does not only ask.
    fn serve(&mut self, cmd: ConfigCommand, effects: &mut Vec<Effect>) -> (r: ConfigReply<'static>)
        requires
            !cmd.asks(),
            counts_fit(*old(self), cmd),
        ensures
            serves(*old(self), *final(self), cmd, r),
            deeds(final(effects)@) == deeds(old(effects)@) + leaves(*old(self), cmd),
    {
        let ghost before = deeds(effects@);
        assert(before + Seq::<Deed>::empty() == before);
        match cmd {
            ConfigCommand::ReloadConfig { loaded } => ConfigReply::Done(self.reload_config(loaded)),
            ConfigCommand::SetServiceStatus { service_name, status } => ConfigReply::Done(
                self.set_service_status(service_name.as_str(), status),
            ),
            ConfigCommand::SetServicePid { service_name, pid, started_at } => ConfigReply::Done(
                self.set_service_pid(service_name.as_str(), pid, started_at),
            ),
            ConfigCommand::RecordProcessExit { service_name, exit_code } => ConfigReply::Done(
                self.record_process_exit(service_name.as_str(), exit_code),
            ),
            ConfigCommand::UpdateHealthCheck { service_name, passed, retries } =>
                ConfigReply::Health(
                self.update_health_check(service_name.as_str(), passed, retries),
            ),
            ConfigCommand::MarkConfigInitialized => {
                self.initialized = true;
                ConfigReply::Done(Ok(()))
            },
            ConfigCommand::MarkServiceInitialized { service_name } => ConfigReply::Done(
                self.mark_service_initialized(service_name.as_str()),
            ),
            ConfigCommand::IncrementRestartCount { service_name } => ConfigReply::Done(
                self.increment_restart_count(service_name.as_str()),
            ),
            ConfigCommand::ClearServiceLogs { service_name } => {
                push_effect(effects, Effect::ClearLogs(service_name));
                assert(deeds(effects@) == before + leaves(*old(self), cmd));
                ConfigReply::Nothing
            },
            ConfigCommand::ClearServiceLogsPrefix { prefix } => {
                push_effect(effects, Effect::ClearLogsPrefix(prefix));
                assert(deeds(effects@) == before + leaves(*old(self), cmd));
                ConfigReply::Nothing
            },
            ConfigCommand::StoreProcessHandle { service_name, process } => {
                self.processes.insert(service_name, process);
                ConfigReply::Nothing
            },
            ConfigCommand::RemoveProcessHandle { service_name } => ConfigReply::Process(
                self.processes.remove(service_name.as_str()),
            ),
            ConfigCommand::StoreTaskHandle { service_name, handle_type, handle } => {
                match handle_type {
                    TaskHandleType::HealthCheck => self.health_checks.insert(service_name, handle),
                    TaskHandleType::FileWatcher => self.watchers.insert(service_name, handle),
                }
                ConfigReply::Nothing
            },
            ConfigCommand::CancelTaskHandle { service_name, handle_type } => {
                self.cancel(service_name.as_str(), handle_type, effects);
                ConfigReply::Nothing
            },
            ConfigCommand::Shutdown => {
                push_effect(effects, Effect::SaveState);
                assert(deeds(effects@) == before + leaves(*old(self), cmd));
                ConfigReply::Nothing
            },
            ConfigCommand::ClearSnapshot { cleared } => {
                if cleared.is_ok() {
                    self.snapshot_taken = false;
                    self.restored_from_snapshot = false;
                }
                ConfigReply::Done(cleared)
            },
            _ => ConfigReply::Nothing,
        }
    }

    /// Does what a command asks for. A question changes nothing. What has to be done outside is
    /// put at the end of `effects`.
    pub fn process_command<'a>(
        &'a mut self,
        cmd: ConfigCommand,
        effects: &mut Vec<Effect>,
    ) -> (r: Outcome<'a>)
        requires
            counts_fit(*old(self), cmd),
        ensures
            r.shutdown == (cmd is Shutdown),
            if cmd.asks() {
                &&& *final(self) == *old(self)
                &&& answers(*old(self), cmd, r.reply)
                &&& deeds(final(effects)@) == deeds(old(effects)@)
            } else {
                &&& serves(*old(self), *final(self), cmd, r.reply)
                &&& deeds(final(effects)@) == deeds(old(effects)@) + leaves(*old(self), cmd)
            },
    {
        let shutdown = match &cmd {
            ConfigCommand::Shutdown => true,
            _ => false,
        };
        if cmd.is_question() {
            let reply = self.answer(&cmd);
            Outcome { reply, shutdown }
        } else {
            let reply = self.serve(cmd, effects);
            Outcome { reply, shutdown }
        }
    }
}

/// A configuration that is restored from its snapshot has the services that it had, in the states
/// that were kept, in their directories and with copies of their environments. The snapshot is of
/// the configuration `was`, with what `service_parts` and `persisted_state` gave.
pub proof fn law_restored_as_kept(
    was: ConfigActor,
    snapshot: ExpandedConfigSnapshot,
    persisted: PersistedConfigState,
    services: NameMap<ServiceState>,
)
    requires
        was.services.well_formed(),
        services.well_formed(),
        snapshot.service_envs.well_formed(),
        snapshot.service_working_dirs.well_formed(),
        persisted.services.well_formed(),
        was.services.keys() == snapshot.config.services.keys(),
        was.tells_services(snapshot.service_envs, snapshot.service_working_dirs),
        is_kept(was.services, was.initialized, persisted.snapshot_time, persisted),
        all_restored(services, snapshot, Some(persisted)),
    ensures
        services.keys() == was.services.keys(),
        forall|i: int|
            0 <= i < services.values().len() ==> {
                let now = #[trigger] services.values()[i];
                let then = was.services.values()[i];
                &&& now == (ServiceState {
                    computed_env: now.computed_env,
                    env_file_vars: now.env_file_vars,
                    ..then
                })
                &&& exists|kept: NameMap<String>| #[trigger]
                    cloned(then.computed_env, kept) && cloned(kept, now.computed_env)
            },
{
    let keys = services.keys();
    assert forall|i: int| 0 <= i < services.values().len() implies {
        let now = #[trigger] services.values()[i];
        let then = was.services.values()[i];
        &&& now == (ServiceState {
            computed_env: now.computed_env,
            env_file_vars: now.env_file_vars,
            ..then
        })
        &&& exists|kept: NameMap<String>| #[trigger]
            cloned(then.computed_env, kept) && cloned(kept, now.computed_env)
    } by {
        let name = keys[i];
        assert(keys.index_of(name) == i);
        let then = was.services.values()[i];
        let kept = snapshot.service_envs.values()[i];
        assert(found(snapshot.service_envs@, name) == Some(kept));
        assert(found(snapshot.service_working_dirs@, name) == Some(
            snapshot.service_working_dirs.values()[i],
        ));
        assert(persisted.services@[name] == persisted.services.values()[i]);
        assert(persisted.services.values()[i].keeps(then));
        assert(cloned(then.computed_env, kept));
    }
}

/// Only reading the file again changes a configuration: every other command leaves the
/// configuration, its place and the services that it knows as they are.
pub proof fn law_only_reload_changes_configuration(
    prev: ConfigActor,
    next: ConfigActor,
    cmd: ConfigCommand,
    reply: ConfigReply,
)
    requires
        !cmd.asks(),
        serves(prev, next, cmd, reply),
        !(cmd is ReloadConfig),
    ensures
        next.config == prev.config,
        next.config_path == prev.config_path,
        next.config_hash == prev.config_hash,
        next.config_dir == prev.config_dir,
        next.state_dir == prev.state_dir,
        next.services.keys() == prev.services.keys(),
{
}

} // verus!
