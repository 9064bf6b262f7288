//! What each command does to the state of a configuration.
use vstd::prelude::*;
use vstd::string::*;
use crate::config::logs::LogConfig;
use crate::config_actor::actor::{checked, entered, ConfigActor};
use crate::config_actor::command::{ConfigCommand, ConfigReply, Outcome};
use crate::config_actor::context::{
    deeds, push_effect, Deed, DiagnosticCounts, Effect, ServiceContext, TaskHandleType,
};
use crate::errors::DaemonError;
use crate::logs::LogRead;
use crate::name_map::NameMap;
use crate::state::{ProcessHandle, ServiceState, ServiceStatus};
use crate::text::views;

verus! {

/// The value of a name, if it has one.
pub open spec fn found<V>(map: Map<Seq<char>, V>, name: Seq<char>) -> Option<V> {
    if map.contains_key(name) {
        Some(map[name])
    } else {
        None
    }
}

/// The names of the running services among the first `n`.
pub open spec fn running_names(services: NameMap<ServiceState>, n: nat) -> Seq<Seq<char>>
    decreases n,
{
    if n == 0 {
        seq![]
    } else {
        let rest = running_names(services, (n - 1) as nat);
        if services.values()[n - 1].status.running() {
            rest.push(services.keys()[n - 1])
        } else {
            rest
        }
    }
}

/// Those of the first `n` services that have no event channel.
pub open spec fn unheard_names(
    services: Seq<Seq<char>>,
    channels: Map<Seq<char>, ()>,
    n: nat,
) -> Seq<Seq<char>>
    decreases n,
{
    if n == 0 {
        seq![]
    } else {
        let rest = unheard_names(services, channels, (n - 1) as nat);
        if channels.contains_key(services[n - 1]) {
            rest
        } else {
            rest.push(services[n - 1])
        }
    }
}

/// The end of a task, if there was one.
pub open spec fn abort_if(task: Option<u64>) -> Seq<Deed> {
    match task {
        Some(t) => seq![Deed::Abort(t)],
        None => seq![],
    }
}

/// The end of all tasks of a list.
pub open spec fn abort_all(tasks: Seq<u64>) -> Seq<Deed> {
    tasks.map_values(|t: u64| Deed::Abort(t))
}

/// The global log settings.
pub open spec fn global_logs_of(actor: ConfigActor) -> Option<LogConfig> {
    match actor.config.kepler {
        Some(k) => k.logs,
        None => None,
    }
}

/// A state with the reasons that are given.
pub open spec fn with_reasons(
    state: ServiceState,
    skip_reason: Option<String>,
    fail_reason: Option<String>,
) -> ServiceState {
    ServiceState {
        skip_reason: if skip_reason is Some {
            skip_reason
        } else {
            state.skip_reason
        },
        fail_reason: if fail_reason is Some {
            fail_reason
        } else {
            state.fail_reason
        },
        ..state
    }
}

/// Whether the counters that a command raises have room.
pub open spec fn counts_fit(actor: ConfigActor, cmd: ConfigCommand) -> bool {
    match cmd {
        ConfigCommand::UpdateHealthCheck { service_name, passed, .. } =>
            actor.services@.contains_key(service_name@) && !passed
            ==> actor.services@[service_name@].health_check_failures < u32::MAX,
        ConfigCommand::IncrementRestartCount { service_name } => actor.services@.contains_key(
            service_name@,
        ) ==> actor.services@[service_name@].restart_count < u32::MAX,
        _ => true,
    }
}

/// Whether a result says that the service is not known.
pub open spec fn not_found(result: Result<(), DaemonError>, name: Seq<char>) -> bool {
    result matches Err(DaemonError::ServiceNotFound(n)) && n@ == name
}

impl ConfigActor {
    /// What the state tells for a start of a service: nothing, unless the service is configured
    /// and has a state.
    pub open spec fn tells_context(self, name: Seq<char>, c: Option<ServiceContext>) -> bool {
        match c {
            Some(c) => {
                &&& self.config.services@.contains_key(name)
                &&& self.services@.contains_key(name)
                &&& *c.service_config == self.config.services@[name]
                &&& match c.resolved_config {
                    Some(r) => found(self.resolved_configs@, name) == Some(*r),
                    None => !self.resolved_configs@.contains_key(name),
                }
                &&& *c.config_dir == self.config_dir
                &&& *c.state_dir == self.state_dir
                &&& *c.log_config == self.log_config
                &&& match c.global_log_config {
                    Some(l) => global_logs_of(self) == Some(*l),
                    None => global_logs_of(self) is None,
                }
                &&& *c.env == self.services@[name].computed_env
                &&& *c.working_dir == self.services@[name].working_dir
                &&& *c.env_file_vars == self.services@[name].env_file_vars
            },
            None => !self.config.services@.contains_key(name) || !self.services@.contains_key(name),
        }
    }

    /// What the state tells for a start of a service.
    pub fn build_service_context(&self, service_name: &str) -> (r: Option<ServiceContext<'_>>)
        ensures
            self.tells_context(service_name@, r),
    {
        let service_config = match self.config.services.get(service_name) {
            Some(c) => c,
            None => {
                return None;
            },
        };
        let state = match self.services.get(service_name) {
            Some(s) => s,
            None => {
                return None;
            },
        };
        Some(
            ServiceContext {
                service_config,
                resolved_config: self.resolved_configs.get(service_name),
                config_dir: &self.config_dir,
                state_dir: &self.state_dir,
                log_config: &self.log_config,
                global_log_config: self.config.global_logs(),
                env: &state.computed_env,
                working_dir: &state.working_dir,
                env_file_vars: &state.env_file_vars,
            },
        )
    }

    /// The places of the services whose states are asked for.
    pub fn get_service_status(&self, service: Option<&str>) -> (r: Result<Vec<usize>, DaemonError>)
        ensures
            match (service, r) {
                (Some(name), Ok(list)) => list@.len() == 1 && list@[0] < self.services.keys().len()
                    && self.services.keys()[list@[0] as int] == name@,
                (Some(name), Err(e)) => !self.services@.contains_key(name@) && (e matches
                    DaemonError::ServiceNotFound(n) && n@ == name@),
                (None, Ok(list)) => list@ == Seq::new(
                    self.services.keys().len(),
                    |i: int| i as usize,
                ),
                (None, Err(_)) => false,
            },
    {
        let mut list: Vec<usize> = Vec::new();
        match service {
            Some(name) => match self.services.position(name) {
                Some(i) => {
                    list.push(i);
                    Ok(list)
                },
                None => Err(DaemonError::ServiceNotFound(name.to_owned())),
            },
            None => {
                let n: usize = self.services.len();
                let mut i: usize = 0;
                while i < n
                    invariant
                        i <= n,
                        n == self.services.keys().len(),
                        list@ == Seq::new(i as nat, |j: int| j as usize),
                    decreases n - i,
                {
                    list.push(i);
                    assert(list@ == Seq::new((i + 1) as nat, |j: int| j as usize));
                    i += 1;
                }
                Ok(list)
            },
        }
    }

    /// The names of the running services.
    pub fn get_running_services(&self) -> (r: Vec<String>)
        ensures
            views(r@) == running_names(self.services, self.services.keys().len()),
    {
        let n: usize = self.services.len();
        let mut out: Vec<String> = Vec::new();
        let mut i: usize = 0;
        assert(views(out@) == Seq::<Seq<char>>::empty());
        while i < n
            invariant
                i <= n,
                n == self.services.keys().len(),
                self.services.well_formed(),
                views(out@) == running_names(self.services, i as nat),
            decreases n - i,
        {
            let ghost before = views(out@);
            if self.services.value_at(i).status.is_running() {
                out.push(self.services.key_at(i).clone());
                assert(views(out@) == before.push(self.services.keys()[i as int]));
            }
            i += 1;
        }
        out
    }

    /// Whether no service runs.
    pub fn all_services_stopped(&self) -> (r: bool)
        ensures
            r == forall|a: Seq<char>| #[trigger]
                self.services@.contains_key(a) ==> !self.services@[a].status.running(),
    {
        let n: usize = self.services.len();
        let ghost keys = self.services.keys();
        let mut i: usize = 0;
        while i < n
            invariant
                i <= n,
                n == self.services.keys().len(),
                self.services.well_formed(),
                keys == self.services.keys(),
                forall|j: int|
                    0 <= j < i ==> !(#[trigger] self.services.values()[j]).status.running(),
            decreases n - i,
        {
            if self.services.value_at(i).status.is_running() {
                assert(keys.index_of(keys[i as int]) == i);
                assert(self.services@.contains_key(keys[i as int]));
                return false;
            }
            i += 1;
        }
        assert forall|a: Seq<char>| #[trigger] self.services@.contains_key(a) implies !self.services@[a].status.running() by {
            let j = keys.index_of(a);
            assert(self.services@[a] == self.services.values()[j]);
        }
        true
    }

    /// Forgets what was told, and tells again what holds.
    pub fn recheck(&mut self, effects: &mut Vec<Effect>)
        requires
            old(self).well_formed(),
        ensures
            final(self).well_formed(),
            old(self).tells_again(
                *final(self),
                false,
                false,
                deeds(old(effects)@),
                deeds(final(effects)@),
            ),
            final(self).startup_in_progress == old(self).startup_in_progress,
    {
        self.last_ready = false;
        self.last_quiescent = false;
        self.check_and_notify_ready(effects);
        self.check_and_notify_quiescent(effects);
    }

    /// Whether readiness and quiescence are told, if they hold, a start is not in progress, and
    /// they do not count as told.
    pub open spec fn tells_again(
        self,
        next: ConfigActor,
        was_ready: bool,
        was_quiet: bool,
        before: Seq<Deed>,
        after: Seq<Deed>,
    ) -> bool {
        let tell_ready = !next.startup_in_progress && !was_ready && self.picture().all_ready();
        let tell_quiet = !next.startup_in_progress && !was_quiet && self.picture().quiet();
        let d1 = if tell_ready {
            before.push(Deed::NotifyReady)
        } else {
            before
        };
        &&& next == (ConfigActor {
            startup_in_progress: next.startup_in_progress,
            last_ready: was_ready || tell_ready,
            last_quiescent: was_quiet || tell_quiet,
            cached_topo_order: next.cached_topo_order,
            ..self
        })
        &&& after == if tell_quiet {
            d1.push(Deed::NotifyQuiescent)
        } else {
            d1
        }
    }

    /// Claims a service for a start: a service that waits is claimed as it is, one that is not
    /// active waits from now on, and one that is active is not claimed.
    pub fn claim_service_start(&mut self, service_name: &str, now: i64, effects: &mut Vec<Effect>) -> (r:
        bool)
        requires
            old(self).well_formed(),
        ensures
            final(self).well_formed(),
            old(self).claims(
                *final(self),
                service_name@,
                now,
                r,
                deeds(old(effects)@),
                deeds(final(effects)@),
            ),
    {
        let status = match self.services.get(service_name) {
            Some(s) => s.status,
            None => {
                return false;
            },
        };
        if status == ServiceStatus::Waiting {
            return true;
        }
        if status.is_active() {
            return false;
        }
        let _ = self.set_service_status(service_name, ServiceStatus::Waiting, now, effects);
        true
    }

    /// What a claim does.
    pub open spec fn claims(
        self,
        next: ConfigActor,
        name: Seq<char>,
        now: i64,
        claimed: bool,
        before: Seq<Deed>,
        after: Seq<Deed>,
    ) -> bool {
        if self.services@.contains_key(name) && !self.services@[name].status.active() {
            &&& claimed
            &&& self.enters(next, name, self.services@[name], ServiceStatus::Waiting, now)
            &&& after == self.deeds_of_status(next, name, ServiceStatus::Waiting, before)
        } else {
            &&& claimed == (self.services@.contains_key(name) && self.services@[name].status
                == ServiceStatus::Waiting)
            &&& next == self
            &&& after == before
        }
    }

    /// Whether a service entered a status from a state.
    pub open spec fn enters(
        self,
        next: ConfigActor,
        name: Seq<char>,
        state: ServiceState,
        status: ServiceStatus,
        now: i64,
    ) -> bool {
        self.with_state(next, name, entered(state, status, now)) && self.told_after_status(
            next,
            status,
        )
    }

    /// Sets the reasons that are given, then the status.
    pub fn set_service_status_with_reason(
        &mut self,
        service_name: &str,
        status: ServiceStatus,
        skip_reason: Option<String>,
        fail_reason: Option<String>,
        now: i64,
        effects: &mut Vec<Effect>,
    ) -> (r: Result<(), DaemonError>)
        requires
            old(self).well_formed(),
        ensures
            final(self).well_formed(),
            match r {
                Ok(_) => {
                    &&& old(self).services@.contains_key(service_name@)
                    &&& old(self).enters(
                        *final(self),
                        service_name@,
                        with_reasons(
                            old(self).services@[service_name@],
                            skip_reason,
                            fail_reason,
                        ),
                        status,
                        now,
                    )
                    &&& deeds(final(effects)@) == old(self).deeds_of_status(
                        *final(self),
                        service_name@,
                        status,
                        deeds(old(effects)@),
                    )
                },
                Err(_) => {
                    &&& !old(self).services@.contains_key(service_name@)
                    &&& not_found(r, service_name@)
                    &&& *final(self) == *old(self)
                    &&& *final(effects) == *old(effects)
                },
            },
    {
        if !self.services.contains_key(service_name) {
            return Err(DaemonError::ServiceNotFound(service_name.to_owned()));
        }
        let ghost before = *self;
        let ghost given = with_reasons(
            before.services@[service_name@],
            skip_reason,
            fail_reason,
        );
        if let Some(state) = self.services.get_mut(service_name) {
            if let Some(reason) = skip_reason {
                state.skip_reason = Some(reason);
            }
            if let Some(reason) = fail_reason {
                state.fail_reason = Some(reason);
            }
        }
        assert(self.services@[service_name@] == given);
        let r = self.set_service_status(service_name, status, now, effects);
        proof {
            assert(self.services@ =~= before.services@.insert(
                service_name@,
                entered(given, status, now),
            ));
        }
        r
    }

    /// Ends the tasks of a list.
    fn push_aborts(tasks: &Vec<u64>, effects: &mut Vec<Effect>)
        ensures
            deeds(final(effects)@) == deeds(old(effects)@) + abort_all(tasks@),
    {
        let ghost before = deeds(effects@);
        let mut i: usize = 0;
        assert(before + abort_all(tasks@.take(0)) == before);
        while i < tasks.len()
            invariant
                i <= tasks@.len(),
                before == deeds(old(effects)@),
                deeds(effects@) == before + abort_all(tasks@.take(i as int)),
            decreases tasks@.len() - i,
        {
            push_effect(effects, Effect::Abort(tasks[i]));
            assert(abort_all(tasks@.take(i + 1)) == abort_all(tasks@.take(i as int)).push(
                Deed::Abort(tasks@[i as int]),
            ));
            assert(before + abort_all(tasks@.take(i + 1)) == (before + abort_all(
                tasks@.take(i as int),
            )).push(Deed::Abort(tasks@[i as int])));
            i += 1;
        }
        assert(tasks@.take(i as int) == tasks@);
    }

    /// Ends a task, if there is one.
    fn push_abort(task: Option<u64>, effects: &mut Vec<Effect>)
        ensures
            deeds(final(effects)@) == deeds(old(effects)@) + abort_if(task),
    {
        let ghost before = deeds(effects@);
        match task {
            Some(t) => {
                push_effect(effects, Effect::Abort(t));
                assert(before + seq![Deed::Abort(t)] == before.push(Deed::Abort(t)));
            },
            None => {
                assert(before + Seq::<Deed>::empty() == before);
            },
        }
    }

    /// Takes the numbers of the tasks that read the output of a service.
    pub fn take_output_tasks(&mut self, service_name: &str) -> (r: (Option<u64>, Option<u64>))
        ensures
            *final(self) == (ConfigActor { processes: final(self).processes, ..*old(self) }),
            final(self).processes.keys() == old(self).processes.keys(),
            match found(old(self).processes@, service_name@) {
                Some(h) => r == (h.stdout_task, h.stderr_task) && final(self).processes@ == old(
                    self,
                ).processes@.insert(
                    service_name@,
                    ProcessHandle { stdout_task: None, stderr_task: None, ..h },
                ),
                None => r == (None::<u64>, None::<u64>) && final(self).processes@ == old(
                    self,
                ).processes@,
            },
    {
        match self.processes.get_mut(service_name) {
            Some(h) => {
                let out = h.stdout_task;
                let err = h.stderr_task;
                h.stdout_task = None;
                h.stderr_task = None;
                (out, err)
            },
            None => (None, None),
        }
    }

    /// Opens an event channel for each service that has none.
    pub fn open_event_channels(&mut self) -> (r: Vec<String>)
        ensures
            *final(self) == (ConfigActor { event_senders: final(self).event_senders, ..*old(self) }),
            views(r@) == unheard_names(
                old(self).services.keys(),
                old(self).event_senders@,
                old(self).services.keys().len(),
            ),
            forall|a: Seq<char>| #[trigger]
                final(self).event_senders@.contains_key(a) <==> old(
                    self,
                ).event_senders@.contains_key(a) || old(self).services.keys().contains(a),
    {
        let n: usize = self.services.len();
        let ghost keys = self.services.keys();
        let ghost channels = self.event_senders@;
        let mut out: Vec<String> = Vec::new();
        let mut i: usize = 0;
        assert(views(out@) == Seq::<Seq<char>>::empty());
        while i < n
            invariant
                i <= n,
                n == keys.len(),
                keys.no_duplicates(),
                keys == old(self).services.keys(),
                channels == old(self).event_senders@,
                *self == (ConfigActor { event_senders: self.event_senders, ..*old(self) }),
                views(out@) == unheard_names(keys, channels, i as nat),
                forall|a: Seq<char>| #[trigger]
                    self.event_senders@.contains_key(a) <==> channels.contains_key(a)
                        || keys.take(i as int).contains(a),
            decreases n - i,
        {
            let ghost before = views(out@);
            let ghost was = self.event_senders@;
            let ghost key = keys[i as int];
            proof {
                let t0 = keys.take(i as int);
                let t1 = keys.take(i + 1);
                assert forall|a: Seq<char>| t1.contains(a) <==> t0.contains(a) || a == key by {
                    if t1.contains(a) && a != key {
                        assert(t0[t1.index_of(a)] == a);
                    }
                    if t0.contains(a) {
                        assert(t1[t0.index_of(a)] == a);
                    }
                    assert(t1[i as int] == key);
                }
                if t0.contains(key) {
                    assert(keys[t0.index_of(key)] == keys[i as int]);
                }
            }
            let name = self.services.key_at(i).clone();
            if !self.event_senders.contains_key(name.as_str()) {
                self.event_senders.insert(name.clone(), ());
                out.push(name);
                assert(views(out@) == before.push(key));
            }
            i += 1;
        }
        assert(keys.take(i as int) == keys);
        out
    }

    /// Adds variables to the environment of the caller.
    pub fn merge_sys_env(&mut self, overrides: &NameMap<String>)
        ensures
            final(self).sys_env@ == old(self).sys_env@.union_prefer_right(overrides@),
            *final(self) == (ConfigActor { sys_env: final(self).sys_env, ..*old(self) }),
    {
        let n: usize = overrides.len();
        let ghost keys = overrides.keys();
        let ghost was = self.sys_env@;
        let mut i: usize = 0;
        while i < n
            invariant
                i <= n,
                n == keys.len(),
                keys == overrides.keys(),
                overrides.well_formed(),
                was == old(self).sys_env@,
                *self == (ConfigActor { sys_env: self.sys_env, ..*old(self) }),
                forall|a: Seq<char>| #[trigger]
                    self.sys_env@.contains_key(a) <==> was.contains_key(a) || keys.take(
                        i as int,
                    ).contains(a),
                forall|a: Seq<char>| #[trigger]
                    self.sys_env@.contains_key(a) ==> self.sys_env@[a] == if keys.take(
                        i as int,
                    ).contains(a) {
                        overrides@[a]
                    } else {
                        was[a]
                    },
            decreases n - i,
        {
            let ghost before = self.sys_env@;
            let ghost key = keys[i as int];
            proof {
                let t0 = keys.take(i as int);
                let t1 = keys.take(i + 1);
                assert forall|a: Seq<char>| t1.contains(a) <==> t0.contains(a) || a == key by {
                    if t1.contains(a) && a != key {
                        assert(t0[t1.index_of(a)] == a);
                    }
                    if t0.contains(a) {
                        assert(t1[t0.index_of(a)] == a);
                    }
                    assert(t1[i as int] == key);
                }
                assert(keys.index_of(key) == i);
                assert(overrides@[key] == overrides.values()[i as int]);
            }
            let name = overrides.key_at(i).clone();
            let value = overrides.value_at(i).clone();
            self.sys_env.insert(name, value);
            assert(self.sys_env@ == before.insert(key, overrides@[key]));
            i += 1;
        }
        proof {
            assert(keys.take(i as int) == keys);
            assert forall|a: Seq<char>| overrides@.contains_key(a) <==> keys.contains(a) by {}
            assert(self.sys_env@ =~= was.union_prefer_right(overrides@));
        }
    }
}

/// The result of a command that changes one service, and the deeds after it: the states are
/// written if the service is known.
pub open spec fn saved_if_done(
    done: bool,
    name: Seq<char>,
    reply: ConfigReply,
    before: Seq<Deed>,
    after: Seq<Deed>,
) -> bool {
    if done {
        reply matches ConfigReply::Done(Ok(_)) && after == before.push(Deed::SaveState)
    } else {
        (reply matches ConfigReply::Done(r) && not_found(r, name)) && after == before
    }
}

/// The tasks of one kind after a command on them.
pub open spec fn task_map(actor: ConfigActor, kind: TaskHandleType) -> Map<Seq<char>, u64> {
    match kind {
        TaskHandleType::HealthCheck => actor.health_checks@,
        TaskHandleType::FileWatcher => actor.watchers@,
    }
}

/// Whether only the tasks of one kind may differ.
pub open spec fn same_but_tasks(prev: ConfigActor, next: ConfigActor, kind: TaskHandleType) -> bool {
    match kind {
        TaskHandleType::HealthCheck => next == (ConfigActor {
            health_checks: next.health_checks,
            ..prev
        }),
        TaskHandleType::FileWatcher => next == (ConfigActor { watchers: next.watchers, ..prev }),
    }
}

/// The reply to a question.
pub open spec fn answers(prev: ConfigActor, cmd: ConfigCommand, reply: ConfigReply) -> bool {
    let states = prev.services@;
    match cmd {
        ConfigCommand::GetServiceContext { service_name } => (
        reply matches ConfigReply::Context(c) && prev.tells_context(service_name@, c)),
        ConfigCommand::GetServiceStatus { service } => (
        reply matches ConfigReply::Status(r) && match (service, r) {
            (Some(name), Ok(list)) => list@.len() == 1 && list@[0] < prev.services.keys().len()
                && prev.services.keys()[list@[0] as int] == name@,
            (Some(name), Err(e)) => !states.contains_key(name@) && (e matches
                DaemonError::ServiceNotFound(n) && n@ == name@),
            (None, Ok(list)) => list@ == Seq::new(prev.services.keys().len(), |i: int| i as usize),
            (None, Err(_)) => false,
        }),
        ConfigCommand::GetLogs { lines } => reply
            == ConfigReply::ReadLogs(LogRead::Tail { lines }),
        ConfigCommand::GetLogsBounded { lines, max_bytes } => reply == ConfigReply::ReadLogs(LogRead::TailBounded { lines, max_bytes }),
        ConfigCommand::GetLogsWithMode { lines, max_bytes, mode } => reply == ConfigReply::ReadLogs(mode.read_as(lines, max_bytes)),
        ConfigCommand::GetLogsPaginated { offset, limit } => reply == ConfigReply::ReadLogs(LogRead::Page { offset, limit }),
        ConfigCommand::GetServiceConfig { service_name } => (
        reply matches ConfigReply::ServiceConfig(c) && match c {
            Some(c) => found(prev.config.services@, service_name@) == Some(*c),
            None => !prev.config.services@.contains_key(service_name@),
        }),
        ConfigCommand::GetConfig => reply
            == ConfigReply::Config(&prev.config),
        ConfigCommand::GetConfigDir => reply
            == ConfigReply::Text(&prev.config_dir),
        ConfigCommand::GetStateDir => reply
            == ConfigReply::Text(&prev.state_dir),
        ConfigCommand::GetLogConfig => reply
            == ConfigReply::LogConfig(&prev.log_config),
        ConfigCommand::GetGlobalLogConfig => (reply matches
            ConfigReply::GlobalLogs(l) && match l {
            Some(l) => global_logs_of(prev) == Some(*l),
            None => global_logs_of(prev) is None,
        }),
        ConfigCommand::GetDefaultInheritEnv => reply
            == ConfigReply::Setting(
            match prev.config.kepler {
                Some(k) => k.default_inherit_env,
                None => None,
            },
        ),
        ConfigCommand::GetSysEnv => reply == ConfigReply::Env(
            &prev.sys_env,
        ),
        ConfigCommand::IsServiceRunning { service_name } => reply
            == ConfigReply::Flag(
            states.contains_key(service_name@) && states[service_name@].status.running(),
        ),
        ConfigCommand::GetRunningServices => (reply matches
            ConfigReply::Names(l) && views(l@) == running_names(
            prev.services,
            prev.services.keys().len(),
        )),
        ConfigCommand::IsConfigInitialized => reply
            == ConfigReply::Flag(prev.initialized),
        ConfigCommand::IsServiceInitialized { service_name } => reply == ConfigReply::Flag(
            states.contains_key(service_name@) && states[service_name@].initialized,
        ),
        ConfigCommand::GetServiceState { service_name } => (
        reply matches ConfigReply::State(s) && match s {
            Some(s) => found(states, service_name@) == Some(*s),
            None => !states.contains_key(service_name@),
        }),
        ConfigCommand::GetConfigHash => reply
            == ConfigReply::Text(&prev.config_hash),
        ConfigCommand::GetConfigPath => reply
            == ConfigReply::Text(&prev.config_path),
        ConfigCommand::AllServicesStopped => (reply matches
            ConfigReply::Flag(b) && b == forall|a: Seq<char>| #[trigger]
            states.contains_key(a) ==> !states[a].status.running()),
        ConfigCommand::IsRestoredFromSnapshot => reply
            == ConfigReply::Flag(prev.restored_from_snapshot),
        ConfigCommand::HasEventHandler => reply
            == ConfigReply::Flag(prev.event_handler_spawned),
        ConfigCommand::GetDiagnosticCounts => (reply matches
            ConfigReply::Counts(c) && c.process_handles == prev.processes.keys().len()
            && c.health_checks == prev.health_checks.keys().len() && c.file_watchers
            == prev.watchers.keys().len() && c.event_senders == prev.event_senders.keys().len()),
        _ => false,
    }
}

/// What a command on the states of the services does.
pub open spec fn serves(
    prev: ConfigActor,
    cmd: ConfigCommand,
    now: i64,
    next: ConfigActor,
    reply: ConfigReply,
    before: Seq<Deed>,
    after: Seq<Deed>,
) -> bool {
    let states = prev.services@;
    match cmd {
        ConfigCommand::RecheckReadyQuiescent => next.startup_in_progress
            == prev.startup_in_progress && prev.tells_again(next, false, false, before, after)
            && reply == ConfigReply::Nothing,
        ConfigCommand::SetStartupInProgress { in_progress } => reply == ConfigReply::Nothing && if in_progress {
            next == (ConfigActor { startup_in_progress: true, ..prev }) && after == before
        } else {
            !next.startup_in_progress && prev.tells_again(
                next,
                prev.last_ready,
                prev.last_quiescent,
                before,
                after,
            )
        },
        ConfigCommand::SetServiceStatus { service_name, status } => {
            let known = states.contains_key(service_name@);
            let told = if known {
                prev.deeds_of_status(next, service_name@, status, before)
            } else {
                before
            };
            &&& saved_if_done(known, service_name@, reply, told, after)
            &&& if known {
                prev.enters(next, service_name@, states[service_name@], status, now)
            } else {
                next == prev
            }
        },
        ConfigCommand::SetSkipReason { service_name, reason } => {
            &&& reply == ConfigReply::Nothing
            &&& after == before
            &&& if states.contains_key(service_name@) {
                prev.with_state(
                    next,
                    service_name@,
                    ServiceState { skip_reason: Some(reason), ..states[service_name@] },
                ) && next.told_same(prev)
            } else {
                next == prev
            }
        },
        ConfigCommand::SetFailReason { service_name, reason } => {
            &&& reply == ConfigReply::Nothing
            &&& after == before
            &&& if states.contains_key(service_name@) {
                prev.with_state(
                    next,
                    service_name@,
                    ServiceState { fail_reason: Some(reason), ..states[service_name@] },
                ) && next.told_same(prev)
            } else {
                next == prev
            }
        },
        ConfigCommand::ClaimServiceStart { service_name } => reply matches ConfigReply::Flag(b)
            && prev.claims(next, service_name@, now, b, before, after),
        ConfigCommand::SetServiceStatusWithReason {
            service_name,
            status,
            skip_reason,
            fail_reason,
        } => {
            let known = states.contains_key(service_name@);
            let told = if known {
                prev.deeds_of_status(next, service_name@, status, before)
            } else {
                before
            };
            &&& saved_if_done(known, service_name@, reply, told, after)
            &&& if known {
                prev.enters(
                    next,
                    service_name@,
                    with_reasons(states[service_name@], skip_reason, fail_reason),
                    status,
                    now,
                )
            } else {
                next == prev
            }
        },
        ConfigCommand::SetServicePid { service_name, pid, started_at } => {
            let known = states.contains_key(service_name@);
            &&& saved_if_done(known, service_name@, reply, before, after)
            &&& if known {
                prev.with_state(
                    next,
                    service_name@,
                    ServiceState { pid, started_at, ..states[service_name@] },
                ) && next.told_same(prev)
            } else {
                next == prev
            }
        },
        ConfigCommand::RecordProcessExit { service_name, exit_code, signal } => {
            let known = states.contains_key(service_name@);
            let dropped = ConfigActor { processes: next.processes, ..prev };
            &&& saved_if_done(known, service_name@, reply, before, after)
            &&& next.processes@ == prev.processes@.remove(service_name@)
            &&& if known {
                dropped.with_state(
                    next,
                    service_name@,
                    ServiceState { exit_code, signal, pid: None, ..states[service_name@] },
                ) && next.told_same(prev)
            } else {
                next == dropped
            }
        },
        ConfigCommand::UpdateHealthCheck { service_name, passed, retries } => {
            if states.contains_key(service_name@) {
                let was = states[service_name@];
                let state = checked(was, passed, retries);
                let changed = state.status != was.status;
                let tell = changed && !prev.startup_in_progress && !prev.last_ready
                    && next.picture().all_ready();
                let d1 = if changed {
                    before.push(Deed::NotifyWatchers(service_name@, state.status)).push(
                        Deed::NotifyStatus(service_name@, state.status),
                    )
                } else {
                    before
                };
                let d2 = if tell {
                    d1.push(Deed::NotifyReady)
                } else {
                    d1
                };
                &&& prev.with_state(next, service_name@, state)
                &&& next.last_ready == (prev.last_ready || tell)
                &&& next.last_quiescent == prev.last_quiescent
                &&& next.cached_topo_order == prev.cached_topo_order
                &&& after == if changed {
                    d2.push(Deed::SaveState)
                } else {
                    d2
                }
                &&& reply matches ConfigReply::Health(Ok(u)) && u.previous_status == was.status
                    && u.new_status == state.status && u.failures == state.health_check_failures
            } else {
                next == prev && after == before && (reply matches ConfigReply::Health(
                    Err(DaemonError::ServiceNotFound(n)),
                ) && n@ == service_name@)
            }
        },
        ConfigCommand::MarkConfigInitialized => next == (ConfigActor { initialized: true, ..prev })
            && after == before.push(Deed::SaveState) && (reply matches ConfigReply::Done(Ok(_))),
        ConfigCommand::MarkServiceInitialized { service_name } => {
            let known = states.contains_key(service_name@);
            &&& saved_if_done(known, service_name@, reply, before, after)
            &&& if known {
                prev.with_state(
                    next,
                    service_name@,
                    ServiceState { initialized: true, ..states[service_name@] },
                ) && next.told_same(prev)
            } else {
                next == prev
            }
        },
        ConfigCommand::IncrementRestartCount { service_name } => {
            let known = states.contains_key(service_name@);
            &&& saved_if_done(known, service_name@, reply, before, after)
            &&& if known {
                prev.with_state(
                    next,
                    service_name@,
                    ServiceState {
                        restart_count: (states[service_name@].restart_count + 1) as u32,
                        ..states[service_name@]
                    },
                ) && next.told_same(prev)
            } else {
                next == prev
            }
        },
        ConfigCommand::StoreResolvedConfig {
            service_name,
            config,
            computed_env,
            working_dir,
            env_file_vars,
        } => {
            let stored = ConfigActor { resolved_configs: next.resolved_configs, ..prev };
            &&& reply == ConfigReply::Nothing
            &&& after == before
            &&& next.resolved_configs@ == prev.resolved_configs@.insert(service_name@, *config)
            &&& if states.contains_key(service_name@) {
                stored.with_state(
                    next,
                    service_name@,
                    ServiceState { computed_env, working_dir, env_file_vars, ..states[service_name@] },
                ) && next.told_same(prev)
            } else {
                next == stored
            }
        },
        _ => false,
    }
}

/// What a command on the resources of the services does.
pub open spec fn keeps(
    prev: ConfigActor,
    cmd: ConfigCommand,
    next: ConfigActor,
    reply: ConfigReply,
    before: Seq<Deed>,
    after: Seq<Deed>,
) -> bool {
    match cmd {
        ConfigCommand::ClearServiceLogs { service_name } => next == prev && reply
            == ConfigReply::Nothing && after == before.push(Deed::ClearLogs(service_name@)),
        ConfigCommand::ClearServiceLogsPrefix { prefix } => next == prev && reply
            == ConfigReply::Nothing && after == before.push(Deed::ClearLogsPrefix(prefix@)),
        ConfigCommand::StoreProcessHandle { service_name, process } => {
            &&& next == (ConfigActor { processes: next.processes, ..prev })
            &&& next.processes@ == prev.processes@.insert(service_name@, process)
            &&& reply == ConfigReply::Nothing
            &&& after == before
        },
        ConfigCommand::RemoveProcessHandle { service_name } => {
            &&& next == (ConfigActor { processes: next.processes, ..prev })
            &&& next.processes@ == prev.processes@.remove(service_name@)
            &&& reply == ConfigReply::Process(found(prev.processes@, service_name@))
            &&& after == before
        },
        ConfigCommand::TakeOutputTasks { service_name } => {
            &&& next == (ConfigActor { processes: next.processes, ..prev })
            &&& after == before
            &&& match found(prev.processes@, service_name@) {
                Some(h) => reply == ConfigReply::OutputTasks(h.stdout_task, h.stderr_task)
                    && next.processes@ == prev.processes@.insert(
                    service_name@,
                    ProcessHandle { stdout_task: None, stderr_task: None, ..h },
                ),
                None => reply == ConfigReply::OutputTasks(None, None) && next.processes@
                    == prev.processes@,
            }
        },
        ConfigCommand::StoreTaskHandle { service_name, handle_type, handle } => {
            &&& same_but_tasks(prev, next, handle_type)
            &&& task_map(next, handle_type) == task_map(prev, handle_type).insert(
                service_name@,
                handle,
            )
            &&& reply == ConfigReply::Nothing
            &&& after == before + abort_if(found(task_map(prev, handle_type), service_name@))
        },
        ConfigCommand::CancelTaskHandle { service_name, handle_type } => {
            &&& same_but_tasks(prev, next, handle_type)
            &&& task_map(next, handle_type) == task_map(prev, handle_type).remove(service_name@)
            &&& reply == ConfigReply::Nothing
            &&& after == before + abort_if(found(task_map(prev, handle_type), service_name@))
        },
        ConfigCommand::Shutdown => next == prev && after == before.push(Deed::SaveState) && reply
            == ConfigReply::Nothing,
        ConfigCommand::ClearSnapshot { cleared } => {
            &&& reply == ConfigReply::Done(cleared)
            &&& after == before
            &&& if cleared is Ok {
                next == (ConfigActor {
                    snapshot_taken: false,
                    restored_from_snapshot: false,
                    resolved_configs: next.resolved_configs,
                    ..prev
                }) && next.resolved_configs.keys().len() == 0
            } else {
                next == prev
            }
        },
        ConfigCommand::CreateEventChannel { service_name } => {
            &&& next == (ConfigActor { event_senders: next.event_senders, ..prev })
            &&& next.event_senders@ == prev.event_senders@.insert(service_name@, ())
            &&& reply == ConfigReply::Nothing
            &&& after == before
        },
        ConfigCommand::RemoveEventChannel { service_name } => {
            &&& next == (ConfigActor { event_senders: next.event_senders, ..prev })
            &&& next.event_senders@ == prev.event_senders@.remove(service_name@)
            &&& reply == ConfigReply::Nothing
            &&& after == before
        },
        ConfigCommand::EmitEvent { service_name, event } => next == prev && reply
            == ConfigReply::Nothing && after == if prev.event_senders@.contains_key(service_name@) {
            before.push(Deed::Send(service_name@, event))
        } else {
            before
        },
        ConfigCommand::GetAllEventReceivers => {
            &&& next == (ConfigActor { event_senders: next.event_senders, ..prev })
            &&& forall|a: Seq<char>| #[trigger]
                next.event_senders@.contains_key(a) <==> prev.event_senders@.contains_key(a)
                    || prev.services.keys().contains(a)
            &&& reply matches ConfigReply::Names(l) && views(l@) == unheard_names(
                prev.services.keys(),
                prev.event_senders@,
                prev.services.keys().len(),
            )
            &&& after == before
        },
        ConfigCommand::SetEventHandlerSpawned => next == (ConfigActor {
            event_handler_spawned: true,
            ..prev
        }) && after == before && reply == ConfigReply::Nothing,
        ConfigCommand::StoreEventHandlerTasks { handler, forwarders } => next == (ConfigActor {
            event_handler_task: Some(handler),
            event_forwarder_tasks: forwarders,
            ..prev
        }) && reply == ConfigReply::Nothing && after == before + abort_if(prev.event_handler_task)
            + abort_all(prev.event_forwarder_tasks@),
        ConfigCommand::MergeSysEnv { overrides } => {
            &&& next == (ConfigActor {
                sys_env: next.sys_env,
                resolved_configs: next.resolved_configs,
                ..prev
            })
            &&& next.sys_env@ == prev.sys_env@.union_prefer_right(overrides@)
            &&& next.resolved_configs.keys().len() == 0
            &&& reply == ConfigReply::Nothing
            &&& after == if prev.snapshot_taken {
                before.push(Deed::SaveSnapshot)
            } else {
                before
            }
        },
        _ => false,
    }
}

impl ConfigCommand {
    /// Whether a command is a question: it changes nothing.
    pub open spec fn asks(self) -> bool {
        match self {
            ConfigCommand::GetServiceContext { .. }
            | ConfigCommand::GetServiceStatus { .. }
            | ConfigCommand::GetLogs { .. }
            | ConfigCommand::GetLogsBounded { .. }
            | ConfigCommand::GetLogsWithMode { .. }
            | ConfigCommand::GetLogsPaginated { .. }
            | ConfigCommand::GetServiceConfig { .. }
            | ConfigCommand::GetConfig
            | ConfigCommand::GetConfigDir
            | ConfigCommand::GetStateDir
            | ConfigCommand::GetLogConfig
            | ConfigCommand::GetGlobalLogConfig
            | ConfigCommand::GetDefaultInheritEnv
            | ConfigCommand::GetSysEnv
            | ConfigCommand::IsServiceRunning { .. }
            | ConfigCommand::GetRunningServices
            | ConfigCommand::IsConfigInitialized
            | ConfigCommand::IsServiceInitialized { .. }
            | ConfigCommand::GetServiceState { .. }
            | ConfigCommand::GetConfigHash
            | ConfigCommand::GetConfigPath
            | ConfigCommand::AllServicesStopped
            | ConfigCommand::IsRestoredFromSnapshot
            | ConfigCommand::HasEventHandler
            | ConfigCommand::GetDiagnosticCounts => true,
            _ => false,
        }
    }

    /// Whether a command is a question.
    fn is_question(&self) -> (r: bool)
        ensures
            r == self.asks(),
    {
        match self {
            ConfigCommand::GetServiceContext { .. }
            | ConfigCommand::GetServiceStatus { .. }
            | ConfigCommand::GetLogs { .. }
            | ConfigCommand::GetLogsBounded { .. }
            | ConfigCommand::GetLogsWithMode { .. }
            | ConfigCommand::GetLogsPaginated { .. }
            | ConfigCommand::GetServiceConfig { .. }
            | ConfigCommand::GetConfig
            | ConfigCommand::GetConfigDir
            | ConfigCommand::GetStateDir
            | ConfigCommand::GetLogConfig
            | ConfigCommand::GetGlobalLogConfig
            | ConfigCommand::GetDefaultInheritEnv
            | ConfigCommand::GetSysEnv
            | ConfigCommand::IsServiceRunning { .. }
            | ConfigCommand::GetRunningServices
            | ConfigCommand::IsConfigInitialized
            | ConfigCommand::IsServiceInitialized { .. }
            | ConfigCommand::GetServiceState { .. }
            | ConfigCommand::GetConfigHash
            | ConfigCommand::GetConfigPath
            | ConfigCommand::AllServicesStopped
            | ConfigCommand::IsRestoredFromSnapshot
            | ConfigCommand::HasEventHandler
            | ConfigCommand::GetDiagnosticCounts => true,
            _ => false,
        }
    }

    /// Whether a command is on the states of the services.
    pub open spec fn on_states(self) -> bool {
        match self {
            ConfigCommand::RecheckReadyQuiescent
            | ConfigCommand::SetStartupInProgress { .. }
            | ConfigCommand::SetServiceStatus { .. }
            | ConfigCommand::SetSkipReason { .. }
            | ConfigCommand::SetFailReason { .. }
            | ConfigCommand::ClaimServiceStart { .. }
            | ConfigCommand::SetServiceStatusWithReason { .. }
            | ConfigCommand::SetServicePid { .. }
            | ConfigCommand::RecordProcessExit { .. }
            | ConfigCommand::UpdateHealthCheck { .. }
            | ConfigCommand::MarkConfigInitialized
            | ConfigCommand::MarkServiceInitialized { .. }
            | ConfigCommand::IncrementRestartCount { .. }
            | ConfigCommand::StoreResolvedConfig { .. } => true,
            _ => false,
        }
    }

    /// Whether others may be told of a command.
    pub open spec fn tells(self) -> bool {
        match self {
            ConfigCommand::RecheckReadyQuiescent
            | ConfigCommand::SetStartupInProgress { .. }
            | ConfigCommand::SetServiceStatus { .. }
            | ConfigCommand::ClaimServiceStart { .. }
            | ConfigCommand::SetServiceStatusWithReason { .. }
            | ConfigCommand::UpdateHealthCheck { .. } => true,
            _ => false,
        }
    }

    /// Whether others may be told of a command.
    fn is_telling(&self) -> (r: bool)
        ensures
            r == self.tells(),
    {
        match self {
            ConfigCommand::RecheckReadyQuiescent
            | ConfigCommand::SetStartupInProgress { .. }
            | ConfigCommand::SetServiceStatus { .. }
            | ConfigCommand::ClaimServiceStart { .. }
            | ConfigCommand::SetServiceStatusWithReason { .. }
            | ConfigCommand::UpdateHealthCheck { .. } => true,
            _ => false,
        }
    }

    /// Whether a command is on the states of the services.
    fn is_on_states(&self) -> (r: bool)
        ensures
            r == self.on_states(),
    {
        match self {
            ConfigCommand::RecheckReadyQuiescent
            | ConfigCommand::SetStartupInProgress { .. }
            | ConfigCommand::SetServiceStatus { .. }
            | ConfigCommand::SetSkipReason { .. }
            | ConfigCommand::SetFailReason { .. }
            | ConfigCommand::ClaimServiceStart { .. }
            | ConfigCommand::SetServiceStatusWithReason { .. }
            | ConfigCommand::SetServicePid { .. }
            | ConfigCommand::RecordProcessExit { .. }
            | ConfigCommand::UpdateHealthCheck { .. }
            | ConfigCommand::MarkConfigInitialized
            | ConfigCommand::MarkServiceInitialized { .. }
            | ConfigCommand::IncrementRestartCount { .. }
            | ConfigCommand::StoreResolvedConfig { .. } => true,
            _ => false,
        }
    }
}

/// What a command does: the state after it, the reply, and the deeds that it leads to.
pub open spec fn handled(
    prev: ConfigActor,
    cmd: ConfigCommand,
    now: i64,
    next: ConfigActor,
    reply: ConfigReply,
    before: Seq<Deed>,
    after: Seq<Deed>,
) -> bool {
    if cmd.asks() {
        next == prev && after == before && answers(prev, cmd, reply)
    } else if cmd.on_states() {
        serves(prev, cmd, now, next, reply, before, after)
    } else {
        keeps(prev, cmd, next, reply, before, after)
    }
}

impl ConfigActor {
    /// The reply to a question.
    fn answer(&self, cmd: &ConfigCommand) -> (r: ConfigReply<'_>)
        requires
            cmd.asks(),
        ensures
            answers(*self, *cmd, r),
    {
        match cmd {
            ConfigCommand::GetServiceContext { service_name } => ConfigReply::Context(
                self.build_service_context(service_name.as_str()),
            ),
            ConfigCommand::GetServiceStatus { service } => match service {
                Some(name) => ConfigReply::Status(self.get_service_status(Some(name.as_str()))),
                None => ConfigReply::Status(self.get_service_status(None)),
            },
            ConfigCommand::GetLogs { lines } => ConfigReply::ReadLogs(LogRead::Tail { lines: *lines }),
            ConfigCommand::GetLogsBounded { lines, max_bytes } => ConfigReply::ReadLogs(
                LogRead::TailBounded { lines: *lines, max_bytes: *max_bytes },
            ),
            ConfigCommand::GetLogsWithMode { lines, max_bytes, mode } => ConfigReply::ReadLogs(
                mode.read(*lines, *max_bytes),
            ),
            ConfigCommand::GetLogsPaginated { offset, limit } => ConfigReply::ReadLogs(
                LogRead::Page { offset: *offset, limit: *limit },
            ),
            ConfigCommand::GetServiceConfig { service_name } => ConfigReply::ServiceConfig(
                self.config.services.get(service_name.as_str()),
            ),
            ConfigCommand::GetConfig => ConfigReply::Config(&self.config),
            ConfigCommand::GetConfigDir => ConfigReply::Text(&self.config_dir),
            ConfigCommand::GetStateDir => ConfigReply::Text(&self.state_dir),
            ConfigCommand::GetLogConfig => ConfigReply::LogConfig(&self.log_config),
            ConfigCommand::GetGlobalLogConfig => ConfigReply::GlobalLogs(self.config.global_logs()),
            ConfigCommand::GetDefaultInheritEnv => ConfigReply::Setting(
                self.config.global_default_inherit_env(),
            ),
            ConfigCommand::GetSysEnv => ConfigReply::Env(&self.sys_env),
            ConfigCommand::IsServiceRunning { service_name } => {
                let running: bool = match self.services.get(service_name.as_str()) {
                    Some(s) => s.status.is_running(),
                    None => false,
                };
                ConfigReply::Flag(running)
            },
            ConfigCommand::GetRunningServices => ConfigReply::Names(self.get_running_services()),
            ConfigCommand::IsConfigInitialized => ConfigReply::Flag(self.initialized),
            ConfigCommand::IsServiceInitialized { service_name } => {
                let initialized: bool = match self.services.get(service_name.as_str()) {
                    Some(s) => s.initialized,
                    None => false,
                };
                ConfigReply::Flag(initialized)
            },
            ConfigCommand::GetServiceState { service_name } => ConfigReply::State(
                self.services.get(service_name.as_str()),
            ),
            ConfigCommand::GetConfigHash => ConfigReply::Text(&self.config_hash),
            ConfigCommand::GetConfigPath => ConfigReply::Text(&self.config_path),
            ConfigCommand::AllServicesStopped => ConfigReply::Flag(self.all_services_stopped()),
            ConfigCommand::IsRestoredFromSnapshot => ConfigReply::Flag(self.restored_from_snapshot),
            ConfigCommand::HasEventHandler => ConfigReply::Flag(self.event_handler_spawned),
            ConfigCommand::GetDiagnosticCounts => ConfigReply::Counts(
                DiagnosticCounts {
                    process_handles: self.processes.len(),
                    health_checks: self.health_checks.len(),
                    file_watchers: self.watchers.len(),
                    event_senders: self.event_senders.len(),
                },
            ),
            _ => ConfigReply::Nothing,
        }
    }

    /// Carries out a command of which others may be told.
    fn serve_told(&mut self, cmd: ConfigCommand, now: i64, effects: &mut Vec<Effect>) -> (r: ConfigReply<
        'static,
    >)
        requires
            old(self).well_formed(),
            counts_fit(*old(self), cmd),
            cmd.tells(),
        ensures
            final(self).well_formed(),
            serves(
                *old(self),
                cmd,
                now,
                *final(self),
                r,
                deeds(old(effects)@),
                deeds(final(effects)@),
            ),
    {
        match cmd {
            ConfigCommand::RecheckReadyQuiescent => {
                self.recheck(effects);
                ConfigReply::Nothing
            },
            ConfigCommand::SetStartupInProgress { in_progress } => {
                self.startup_in_progress = in_progress;
                if !in_progress {
                    self.check_and_notify_ready(effects);
                    self.check_and_notify_quiescent(effects);
                }
                ConfigReply::Nothing
            },
            ConfigCommand::SetServiceStatus { service_name, status } => {
                let result = self.set_service_status(service_name.as_str(), status, now, effects);
                if result.is_ok() {
                    push_effect(effects, Effect::SaveState);
                }
                ConfigReply::Done(result)
            },
            ConfigCommand::ClaimServiceStart { service_name } => ConfigReply::Flag(
                self.claim_service_start(service_name.as_str(), now, effects),
            ),
            ConfigCommand::SetServiceStatusWithReason {
                service_name,
                status,
                skip_reason,
                fail_reason,
            } => {
                let result = self.set_service_status_with_reason(
                    service_name.as_str(),
                    status,
                    skip_reason,
                    fail_reason,
                    now,
                    effects,
                );
                if result.is_ok() {
                    push_effect(effects, Effect::SaveState);
                }
                ConfigReply::Done(result)
            },
            ConfigCommand::UpdateHealthCheck { service_name, passed, retries } => {
                let result = self.update_health_check(
                    service_name.as_str(),
                    passed,
                    retries,
                    effects,
                );
                if let Ok(update) = &result {
                    if update.previous_status != update.new_status {
                        push_effect(effects, Effect::SaveState);
                    }
                }
                ConfigReply::Health(result)
            },
            _ => ConfigReply::Nothing,
        }
    }

    /// Carries out a command on the states of which nobody is told.
    fn serve_untold(&mut self, cmd: ConfigCommand, now: i64, effects: &mut Vec<Effect>) -> (r: ConfigReply<
        'static,
    >)
        requires
            old(self).well_formed(),
            counts_fit(*old(self), cmd),
            cmd.on_states(),
            !cmd.tells(),
        ensures
            final(self).well_formed(),
            serves(
                *old(self),
                cmd,
                now,
                *final(self),
                r,
                deeds(old(effects)@),
                deeds(final(effects)@),
            ),
    {
        match cmd {
            ConfigCommand::SetSkipReason { service_name, reason } => {
                let _ = self.set_skip_reason(service_name.as_str(), reason);
                ConfigReply::Nothing
            },
            ConfigCommand::SetFailReason { service_name, reason } => {
                let _ = self.set_fail_reason(service_name.as_str(), reason);
                ConfigReply::Nothing
            },
            ConfigCommand::SetServicePid { service_name, pid, started_at } => {
                let result = self.set_service_pid(service_name.as_str(), pid, started_at);
                if result.is_ok() {
                    push_effect(effects, Effect::SaveState);
                }
                ConfigReply::Done(result)
            },
            ConfigCommand::RecordProcessExit { service_name, exit_code, signal } => {
                let result = self.record_process_exit(service_name.as_str(), exit_code, signal);
                if result.is_ok() {
                    push_effect(effects, Effect::SaveState);
                }
                ConfigReply::Done(result)
            },
            ConfigCommand::MarkConfigInitialized => {
                self.initialized = true;
                push_effect(effects, Effect::SaveState);
                ConfigReply::Done(Ok(()))
            },
            ConfigCommand::MarkServiceInitialized { service_name } => {
                if self.mark_service_initialized(service_name.as_str()) {
                    push_effect(effects, Effect::SaveState);
                    ConfigReply::Done(Ok(()))
                } else {
                    ConfigReply::Done(Err(DaemonError::ServiceNotFound(service_name)))
                }
            },
            ConfigCommand::IncrementRestartCount { service_name } => {
                if self.increment_restart_count(service_name.as_str()) {
                    push_effect(effects, Effect::SaveState);
                    ConfigReply::Done(Ok(()))
                } else {
                    ConfigReply::Done(Err(DaemonError::ServiceNotFound(service_name)))
                }
            },
            ConfigCommand::StoreResolvedConfig {
                service_name,
                config,
                computed_env,
                working_dir,
                env_file_vars,
            } => {
                let _ = self.store_environment(
                    service_name.as_str(),
                    computed_env,
                    working_dir,
                    env_file_vars,
                );
                self.resolved_configs.insert(service_name, *config);
                ConfigReply::Nothing
            },
            _ => ConfigReply::Nothing,
        }
    }

    /// Carries out a command on the states of the services.
    fn serve(&mut self, cmd: ConfigCommand, now: i64, effects: &mut Vec<Effect>) -> (r: ConfigReply<
        'static,
    >)
        requires
            old(self).well_formed(),
            counts_fit(*old(self), cmd),
            cmd.on_states(),
        ensures
            final(self).well_formed(),
            serves(
                *old(self),
                cmd,
                now,
                *final(self),
                r,
                deeds(old(effects)@),
                deeds(final(effects)@),
            ),
    {
        if cmd.is_telling() {
            self.serve_told(cmd, now, effects)
        } else {
            self.serve_untold(cmd, now, effects)
        }
    }

    /// Carries out a command on the resources of the services.
    fn keep(&mut self, cmd: ConfigCommand, effects: &mut Vec<Effect>) -> (r: ConfigReply<'static>)
        requires
            old(self).well_formed(),
            !cmd.asks(),
            !cmd.on_states(),
        ensures
            final(self).well_formed(),
            keeps(
                *old(self),
                cmd,
                *final(self),
                r,
                deeds(old(effects)@),
                deeds(final(effects)@),
            ),
    {
        match cmd {
            ConfigCommand::ClearServiceLogs { service_name } => {
                push_effect(effects, Effect::ClearLogs(service_name));
                ConfigReply::Nothing
            },
            ConfigCommand::ClearServiceLogsPrefix { prefix } => {
                push_effect(effects, Effect::ClearLogsPrefix(prefix));
                ConfigReply::Nothing
            },
            ConfigCommand::StoreProcessHandle { service_name, process } => {
                self.processes.insert(service_name, process);
                ConfigReply::Nothing
            },
            ConfigCommand::RemoveProcessHandle { service_name } => ConfigReply::Process(
                self.processes.remove(service_name.as_str()),
            ),
            ConfigCommand::TakeOutputTasks { service_name } => {
                let (out, err) = self.take_output_tasks(service_name.as_str());
                ConfigReply::OutputTasks(out, err)
            },
            ConfigCommand::StoreTaskHandle { service_name, handle_type, handle } => {
                let old: Option<u64> = match handle_type {
                    TaskHandleType::HealthCheck => match self.health_checks.get(
                        service_name.as_str(),
                    ) {
                        Some(t) => Some(*t),
                        None => None,
                    },
                    TaskHandleType::FileWatcher => match self.watchers.get(service_name.as_str()) {
                        Some(t) => Some(*t),
                        None => None,
                    },
                };
                match handle_type {
                    TaskHandleType::HealthCheck => self.health_checks.insert(service_name, handle),
                    TaskHandleType::FileWatcher => self.watchers.insert(service_name, handle),
                }
                Self::push_abort(old, effects);
                ConfigReply::Nothing
            },
            ConfigCommand::CancelTaskHandle { service_name, handle_type } => {
                let old: Option<u64> = match handle_type {
                    TaskHandleType::HealthCheck => self.health_checks.remove(service_name.as_str()),
                    TaskHandleType::FileWatcher => self.watchers.remove(service_name.as_str()),
                };
                Self::push_abort(old, effects);
                ConfigReply::Nothing
            },
            ConfigCommand::Shutdown => {
                push_effect(effects, Effect::SaveState);
                ConfigReply::Nothing
            },
            ConfigCommand::ClearSnapshot { cleared } => {
                if cleared.is_ok() {
                    self.snapshot_taken = false;
                    self.restored_from_snapshot = false;
                    self.resolved_configs = NameMap::new();
                }
                ConfigReply::Done(cleared)
            },
            ConfigCommand::CreateEventChannel { service_name } => {
                self.event_senders.insert(service_name, ());
                ConfigReply::Nothing
            },
            ConfigCommand::RemoveEventChannel { service_name } => {
                let _ = self.event_senders.remove(service_name.as_str());
                ConfigReply::Nothing
            },
            ConfigCommand::EmitEvent { service_name, event } => {
                if self.event_senders.contains_key(service_name.as_str()) {
                    push_effect(effects, Effect::Send { service: service_name, event });
                }
                ConfigReply::Nothing
            },
            ConfigCommand::GetAllEventReceivers => ConfigReply::Names(self.open_event_channels()),
            ConfigCommand::SetEventHandlerSpawned => {
                self.event_handler_spawned = true;
                ConfigReply::Nothing
            },
            ConfigCommand::StoreEventHandlerTasks { handler, forwarders } => {
                Self::push_abort(self.event_handler_task, effects);
                Self::push_aborts(&self.event_forwarder_tasks, effects);
                self.event_handler_task = Some(handler);
                self.event_forwarder_tasks = forwarders;
                ConfigReply::Nothing
            },
            ConfigCommand::MergeSysEnv { overrides } => {
                self.merge_sys_env(&overrides);
                if self.snapshot_taken {
                    push_effect(effects, Effect::SaveSnapshot);
                }
                self.resolved_configs = NameMap::new();
                ConfigReply::Nothing
            },
            _ => ConfigReply::Nothing,
        }
    }

    /// Carries out a command at the given time. What has to be done outside is put at the end
    /// of `effects`.
    pub fn process_command<'a>(
        &'a mut self,
        cmd: ConfigCommand,
        now: i64,
        effects: &mut Vec<Effect>,
    ) -> (r: Outcome<'a>)
        requires
            old(self).well_formed(),
            counts_fit(*old(self), cmd),
        ensures
            final(self).well_formed(),
            r.shutdown == (cmd is Shutdown),
            handled(
                *old(self),
                cmd,
                now,
                *final(self),
                r.reply,
                deeds(old(effects)@),
                deeds(final(effects)@),
            ),
    {
        let shutdown: bool = match &cmd {
            ConfigCommand::Shutdown => true,
            _ => false,
        };
        let reply: ConfigReply<'a> = if cmd.is_question() {
            self.answer(&cmd)
        } else if cmd.is_on_states() {
            self.serve(cmd, now, effects)
        } else {
            self.keep(cmd, effects)
        };
        Outcome { reply, shutdown }
    }
}

} // verus!
