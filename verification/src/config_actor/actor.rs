//! The state of a configuration.
use vstd::prelude::*;
use crate::config::service::{KeplerConfig, ServiceConfig};
use crate::config_actor::context::{
    deeds, push_effect, ConfigEvent, Deed, Effect, HealthCheckUpdate, ServiceStatusChange,
};
use crate::config_actor::picture::{Board, Picture};
use crate::deps::{failure_handled, get_start_order, is_failure_handled, service_plan};
use crate::errors::DaemonError;
use crate::logs::LogWriterConfig;
use crate::name_map::NameMap;
use crate::order::{circular, complete, is_order};
use crate::state::{ProcessHandle, ServiceState, ServiceStatus};
use crate::text::views;

verus! {

/// The state of a loaded configuration.
#[derive(Debug)]
pub struct ConfigActor {
    pub config_path: String,
    pub config_hash: String,
    pub config: KeplerConfig,
    pub config_dir: String,
    pub state_dir: String,
    pub services: NameMap<ServiceState>,
    pub log_config: LogWriterConfig,
    /// Whether the hooks for the first start have run.
    pub initialized: bool,
    /// The computed configurations of the services that were started.
    pub resolved_configs: NameMap<ServiceConfig>,
    pub processes: NameMap<ProcessHandle>,
    pub watchers: NameMap<u64>,
    pub health_checks: NameMap<u64>,
    /// The services with an event channel.
    pub event_senders: NameMap<()>,
    pub snapshot_taken: bool,
    pub restored_from_snapshot: bool,
    pub event_handler_spawned: bool,
    /// The environment of the caller.
    pub sys_env: NameMap<String>,
    pub owner_uid: Option<u32>,
    pub owner_gid: Option<u32>,
    pub event_handler_task: Option<u64>,
    pub event_forwarder_tasks: Vec<u64>,
    /// Whether readiness was told.
    pub last_ready: bool,
    /// Whether quiescence was told.
    pub last_quiescent: bool,
    pub startup_in_progress: bool,
    /// An order of the services, once it was needed.
    pub cached_topo_order: Option<Vec<String>>,
}

/// The state of a service when it enters a status.
pub open spec fn entered(state: ServiceState, status: ServiceStatus, now: i64) -> ServiceState {
    let s1 = if status == ServiceStatus::Waiting || status == ServiceStatus::Starting {
        ServiceState { fail_reason: None, skip_reason: None, ..state }
    } else {
        state
    };
    let s2 = if status == ServiceStatus::Starting || status == ServiceStatus::Running {
        ServiceState {
            was_healthy: false,
            health_check_failures: 0,
            stopped_at: None,
            signal: None,
            exit_code: None,
            ..s1
        }
    } else {
        s1
    };
    let s3 = if status.ended() || status == ServiceStatus::Skipped {
        ServiceState { pid: None, started_at: None, stopped_at: Some(now), ..s2 }
    } else {
        s2
    };
    ServiceState { status, ..s3 }
}

/// The state of a service after a health check.
pub open spec fn checked(state: ServiceState, passed: bool, retries: u32) -> ServiceState {
    if passed {
        if state.status == ServiceStatus::Running || state.status == ServiceStatus::Unhealthy {
            ServiceState {
                health_check_failures: 0,
                status: ServiceStatus::Healthy,
                was_healthy: true,
                ..state
            }
        } else {
            ServiceState { health_check_failures: 0, ..state }
        }
    } else {
        let failures = (state.health_check_failures + 1) as u32;
        if failures >= retries {
            ServiceState {
                health_check_failures: failures,
                status: ServiceStatus::Unhealthy,
                ..state
            }
        } else {
            ServiceState { health_check_failures: failures, ..state }
        }
    }
}

/// A list with an entry at the end, if a condition holds.
pub open spec fn push_if(list: Seq<Deed>, condition: bool, deed: Deed) -> Seq<Deed> {
    if condition {
        list.push(deed)
    } else {
        list
    }
}

impl ConfigActor {
    /// The cached order, if any, is an order of the services.
    pub open spec fn well_formed(self) -> bool {
        self.cached_topo_order matches Some(order) ==> {
            let m = service_plan(self.config.services);
            is_order(m, views(order@)) && complete(m) && !circular(m)
        }
    }

    /// What readiness and quiescence depend on.
    pub open spec fn picture(self) -> Picture {
        Picture {
            configs: self.config.services,
            resolved: self.resolved_configs@,
            states: self.services@,
        }
    }

    /// The same state with another state of one service.
    pub open spec fn with_state(self, next: ConfigActor, name: Seq<char>, state: ServiceState) -> bool {
        &&& next.services@ == self.services@.insert(name, state)
        &&& next.services.keys() == self.services.keys()
        &&& next == (ConfigActor {
            services: next.services,
            last_ready: next.last_ready,
            last_quiescent: next.last_quiescent,
            cached_topo_order: next.cached_topo_order,
            ..self
        })
    }

    fn board(&self) -> (r: Board<'_>)
        ensures
            r.picture() == self.picture(),
            *r.configs == self.config.services,
    {
        Board {
            configs: &self.config.services,
            resolved: &self.resolved_configs,
            states: &self.services,
        }
    }

    /// Whether all services are ready.
    pub fn compute_ready(&self) -> (r: bool)
        ensures
            r == self.picture().all_ready(),
    {
        self.board().compute_ready()
    }

    /// Whether nothing more will change.
    pub fn compute_quiescence(&mut self) -> (r: bool)
        requires
            old(self).well_formed(),
        ensures
            final(self).well_formed(),
            *final(self) == (ConfigActor {
                cached_topo_order: final(self).cached_topo_order,
                ..*old(self)
            }),
            r == old(self).picture().quiet(),
    {
        if self.cached_topo_order.is_none() {
            match get_start_order(&self.config.services) {
                Ok(order) => {
                    self.cached_topo_order = Some(order);
                },
                Err(e) => {
                    proof {
                        reveal(Picture::quiet);
                        let m = service_plan(self.config.services);
                        assert(!(complete(m) && !circular(m))) by {
                            if let DaemonError::MissingDependency { service, dependency } = e {
                                assert(crate::order::needs(m, service@, dependency@));
                            }
                        }
                    }
                    return false;
                },
            }
        }
        let board = self.board();
        match &self.cached_topo_order {
            Some(order) => board.all_settled(order),
            None => false,
        }
    }

    /// Tells of readiness, if it holds and was not told.
    pub fn check_and_notify_ready(&mut self, effects: &mut Vec<Effect>)
        ensures
            ({
                let tell = !old(self).startup_in_progress && !old(self).last_ready && old(
                    self,
                ).picture().all_ready();
                &&& *final(self) == (ConfigActor {
                    last_ready: old(self).last_ready || tell,
                    ..*old(self)
                })
                &&& deeds(final(effects)@) == push_if(
                    deeds(old(effects)@),
                    tell,
                    Deed::NotifyReady,
                )
            }),
    {
        if self.startup_in_progress {
            return;
        }
        let ready = self.compute_ready();
        if ready && !self.last_ready {
            self.last_ready = true;
            push_effect(effects, Effect::Notify(ConfigEvent::Ready));
        }
    }

    /// Tells of quiescence, if it holds and was not told.
    pub fn check_and_notify_quiescent(&mut self, effects: &mut Vec<Effect>)
        requires
            old(self).well_formed(),
        ensures
            final(self).well_formed(),
            ({
                let tell = !old(self).startup_in_progress && !old(self).last_quiescent && old(
                    self,
                ).picture().quiet();
                &&& *final(self) == (ConfigActor {
                    last_quiescent: old(self).last_quiescent || tell,
                    cached_topo_order: final(self).cached_topo_order,
                    ..*old(self)
                })
                &&& deeds(final(effects)@) == push_if(
                    deeds(old(effects)@),
                    tell,
                    Deed::NotifyQuiescent,
                )
            }),
    {
        if self.startup_in_progress {
            return;
        }
        let quiet = self.compute_quiescence();
        if quiet && !self.last_quiescent {
            self.last_quiescent = true;
            push_effect(effects, Effect::Notify(ConfigEvent::Quiescent));
        }
    }

    /// Whether a service has just failed, is not started again, and no other service reacts to
    /// that.
    pub open spec fn unhandled(self, name: Seq<char>) -> bool {
        let state = self.services@[name];
        let failure = state.status == ServiceStatus::Failed || state.status == ServiceStatus::Killed
            || (state.status == ServiceStatus::Exited && state.exit_code is Some && state.exit_code
            != Some(0i32));
        failure && !self.picture().restarts(name, state.exit_code) && !failure_handled(
            name,
            self.config.services,
        )
    }

    /// Whether a status is one of a service that starts, runs or stops.
    pub open spec fn busy(status: ServiceStatus) -> bool {
        status.active() && status != ServiceStatus::Waiting
    }

    /// Whether readiness still counts as told when a service enters a status.
    pub open spec fn still_ready(self, status: ServiceStatus) -> bool {
        self.last_ready && status != ServiceStatus::Starting
    }

    /// Whether quiescence still counts as told when a service enters a status.
    pub open spec fn still_quiet(self, status: ServiceStatus) -> bool {
        self.last_quiescent && !Self::busy(status)
    }

    /// Whether readiness is told when a service enters a status.
    pub open spec fn tells_ready(self, p: Picture, status: ServiceStatus) -> bool {
        !self.startup_in_progress && !self.still_ready(status) && p.all_ready()
    }

    /// Whether quiescence is told when a service enters a status.
    pub open spec fn tells_quiet(self, p: Picture, status: ServiceStatus) -> bool {
        !Self::busy(status) && !self.startup_in_progress && !self.still_quiet(status) && p.quiet()
    }

    /// What is told when a service has entered a status: its new status; an unhandled failure;
    /// readiness, if it holds and was not told since the last start of a service; quiescence,
    /// if it holds and was not told since a service was active.
    pub open spec fn deeds_of_status(
        self,
        next: ConfigActor,
        name: Seq<char>,
        status: ServiceStatus,
        before: Seq<Deed>,
    ) -> Seq<Deed> {
        let d1 = before.push(Deed::NotifyWatchers(name, status)).push(
            Deed::NotifyStatus(name, status),
        );
        let d2 = push_if(
            d1,
            next.unhandled(name),
            Deed::NotifyFailure(name, next.services@[name].exit_code),
        );
        let d3 = push_if(d2, self.tells_ready(next.picture(), status), Deed::NotifyReady);
        push_if(d3, self.tells_quiet(next.picture(), status), Deed::NotifyQuiescent)
    }

    /// What counts as told after a service has entered a status.
    pub open spec fn told_after_status(self, next: ConfigActor, status: ServiceStatus) -> bool {
        &&& next.last_ready == (self.still_ready(status) || self.tells_ready(
            next.picture(),
            status,
        ))
        &&& next.last_quiescent == (self.still_quiet(status) || self.tells_quiet(
            next.picture(),
            status,
        ))
    }

    /// Gives a service a new status.
    pub fn set_service_status(
        &mut self,
        service_name: &str,
        status: ServiceStatus,
        now: i64,
        effects: &mut Vec<Effect>,
    ) -> (r: Result<(), DaemonError>)
        requires
            old(self).well_formed(),
        ensures
            final(self).well_formed(),
            match r {
                Ok(_) => {
                    &&& old(self).services@.contains_key(service_name@)
                    &&& old(self).with_state(
                        *final(self),
                        service_name@,
                        entered(old(self).services@[service_name@], status, now),
                    )
                    &&& old(self).told_after_status(*final(self), status)
                    &&& deeds(final(effects)@) == old(self).deeds_of_status(
                        *final(self),
                        service_name@,
                        status,
                        deeds(old(effects)@),
                    )
                },
                Err(e) => {
                    &&& !old(self).services@.contains_key(service_name@)
                    &&& e matches DaemonError::ServiceNotFound(n) && n@ == service_name@
                    &&& *final(self) == *old(self)
                    &&& *final(effects) == *old(effects)
                },
            },
    {
        if !self.services.contains_key(service_name) {
            return Err(DaemonError::ServiceNotFound(service_name.to_owned()));
        }
        let ghost was = self.services@[service_name@];
        let mut exit_code: Option<i32> = None;
        if let Some(state) = self.services.get_mut(service_name) {
            if status == ServiceStatus::Waiting || status == ServiceStatus::Starting {
                state.fail_reason = None;
                state.skip_reason = None;
            }
            if status == ServiceStatus::Starting || status == ServiceStatus::Running {
                state.was_healthy = false;
                state.health_check_failures = 0;
                state.stopped_at = None;
                state.signal = None;
                state.exit_code = None;
            }
            if status.is_ended() || status == ServiceStatus::Skipped {
                state.pid = None;
                state.started_at = None;
                state.stopped_at = Some(now);
            }
            state.status = status;
            exit_code = state.exit_code;
        }
        assert(self.services@[service_name@] == entered(was, status, now));
        push_effect(
            effects,
            Effect::NotifyWatchers(
                ServiceStatusChange { service: service_name.to_owned(), status },
            ),
        );
        push_effect(
            effects,
            Effect::Notify(
                ConfigEvent::StatusChange(
                    ServiceStatusChange { service: service_name.to_owned(), status },
                ),
            ),
        );
        let is_failure: bool = match status {
            ServiceStatus::Failed | ServiceStatus::Killed => true,
            ServiceStatus::Exited => match exit_code {
                Some(c) => c != 0,
                None => false,
            },
            _ => false,
        };
        if is_failure {
            let would_restart = self.board().would_restart(service_name, exit_code);
            if !would_restart && !is_failure_handled(service_name, &self.config.services) {
                push_effect(
                    effects,
                    Effect::Notify(
                        ConfigEvent::UnhandledFailure {
                            service: service_name.to_owned(),
                            exit_code,
                        },
                    ),
                );
            }
        }
        if status == ServiceStatus::Starting {
            self.last_ready = false;
        }
        if status.is_active() && status != ServiceStatus::Waiting {
            self.last_quiescent = false;
        }
        self.check_and_notify_ready(effects);
        if !status.is_active() || status == ServiceStatus::Waiting {
            self.check_and_notify_quiescent(effects);
        }
        Ok(())
    }

    /// Notes the process of a service.
    pub fn set_service_pid(&mut self, service_name: &str, pid: Option<u32>, started_at: Option<i64>) -> (r:
        Result<(), DaemonError>)
        ensures
            match r {
                Ok(_) => old(self).services@.contains_key(service_name@) && old(self).with_state(
                    *final(self),
                    service_name@,
                    ServiceState { pid, started_at, ..old(self).services@[service_name@] },
                ) && final(self).told_same(*old(self)),
                Err(e) => !old(self).services@.contains_key(service_name@) && (e matches
                    DaemonError::ServiceNotFound(n) && n@ == service_name@) && *final(self) == *old(
                    self,
                ),
            },
    {
        if !self.services.contains_key(service_name) {
            return Err(DaemonError::ServiceNotFound(service_name.to_owned()));
        }
        if let Some(state) = self.services.get_mut(service_name) {
            state.pid = pid;
            state.started_at = started_at;
        }
        Ok(())
    }

    /// Whether nothing was told, and no order was cached, since.
    pub open spec fn told_same(self, before: ConfigActor) -> bool {
        &&& self.last_ready == before.last_ready
        &&& self.last_quiescent == before.last_quiescent
        &&& self.cached_topo_order == before.cached_topo_order
    }

    /// Notes that the process of a service ended. Its handle is dropped in any case.
    pub fn record_process_exit(
        &mut self,
        service_name: &str,
        exit_code: Option<i32>,
        signal: Option<i32>,
    ) -> (r: Result<(), DaemonError>)
        ensures
            final(self).processes@ == old(self).processes@.remove(service_name@),
            match r {
                Ok(_) => old(self).services@.contains_key(service_name@) && (ConfigActor {
                    processes: final(self).processes,
                    ..*old(self)
                }).with_state(
                    *final(self),
                    service_name@,
                    ServiceState {
                        exit_code,
                        signal,
                        pid: None,
                        ..old(self).services@[service_name@]
                    },
                ) && final(self).told_same(*old(self)),
                Err(e) => !old(self).services@.contains_key(service_name@) && (e matches
                    DaemonError::ServiceNotFound(n) && n@ == service_name@) && *final(self) == (
                ConfigActor { processes: final(self).processes, ..*old(self) }),
            },
    {
        let _ = self.processes.remove(service_name);
        if !self.services.contains_key(service_name) {
            return Err(DaemonError::ServiceNotFound(service_name.to_owned()));
        }
        if let Some(state) = self.services.get_mut(service_name) {
            state.exit_code = exit_code;
            state.signal = signal;
            state.pid = None;
        }
        Ok(())
    }

    /// Notes the result of a health check. A service is healthy after a check that passed, and
    /// unhealthy after as many failures in a row as are allowed. Others are told only if the
    /// status changed.
    pub fn update_health_check(
        &mut self,
        service_name: &str,
        passed: bool,
        retries: u32,
        effects: &mut Vec<Effect>,
    ) -> (r: Result<HealthCheckUpdate, DaemonError>)
        requires
            old(self).services@.contains_key(service_name@) && !passed ==> old(
                self,
            ).services@[service_name@].health_check_failures < u32::MAX,
        ensures
            match r {
                Ok(u) => {
                    let was = old(self).services@[service_name@];
                    let now = checked(was, passed, retries);
                    let changed = now.status != was.status;
                    let tell = changed && !old(self).startup_in_progress && !old(self).last_ready
                        && final(self).picture().all_ready();
                    let d1 = deeds(old(effects)@);
                    let d2 = push_if(
                        d1,
                        changed,
                        Deed::NotifyWatchers(service_name@, now.status),
                    );
                    let d3 = push_if(d2, changed, Deed::NotifyStatus(service_name@, now.status));
                    &&& old(self).services@.contains_key(service_name@)
                    &&& old(self).with_state(*final(self), service_name@, now)
                    &&& final(self).last_ready == (old(self).last_ready || tell)
                    &&& final(self).last_quiescent == old(self).last_quiescent
                    &&& final(self).cached_topo_order == old(self).cached_topo_order
                    &&& deeds(final(effects)@) == push_if(d3, tell, Deed::NotifyReady)
                    &&& u.previous_status == was.status
                    &&& u.new_status == now.status
                    &&& u.failures == now.health_check_failures
                },
                Err(e) => {
                    &&& !old(self).services@.contains_key(service_name@)
                    &&& e matches DaemonError::ServiceNotFound(n) && n@ == service_name@
                    &&& *final(self) == *old(self)
                    &&& *final(effects) == *old(effects)
                },
            },
    {
        if !self.services.contains_key(service_name) {
            return Err(DaemonError::ServiceNotFound(service_name.to_owned()));
        }
        let ghost was = self.services@[service_name@];
        let mut update = HealthCheckUpdate {
            previous_status: ServiceStatus::Stopped,
            new_status: ServiceStatus::Stopped,
            failures: 0,
        };
        if let Some(state) = self.services.get_mut(service_name) {
            update.previous_status = state.status;
            if passed {
                state.health_check_failures = 0;
                if state.status == ServiceStatus::Running || state.status
                    == ServiceStatus::Unhealthy {
                    state.status = ServiceStatus::Healthy;
                    state.was_healthy = true;
                }
            } else {
                state.health_check_failures = state.health_check_failures + 1;
                if state.health_check_failures >= retries && state.status
                    != ServiceStatus::Unhealthy {
                    state.status = ServiceStatus::Unhealthy;
                }
            }
            update.new_status = state.status;
            update.failures = state.health_check_failures;
        }
        assert(self.services@[service_name@] == checked(was, passed, retries));
        if update.previous_status != update.new_status {
            push_effect(
                effects,
                Effect::NotifyWatchers(
                    ServiceStatusChange {
                        service: service_name.to_owned(),
                        status: update.new_status,
                    },
                ),
            );
            push_effect(
                effects,
                Effect::Notify(
                    ConfigEvent::StatusChange(
                        ServiceStatusChange {
                            service: service_name.to_owned(),
                            status: update.new_status,
                        },
                    ),
                ),
            );
            self.check_and_notify_ready(effects);
        }
        Ok(update)
    }

    /// Notes why a service was skipped, if it is known.
    pub fn set_skip_reason(&mut self, service_name: &str, reason: String) -> (r: bool)
        ensures
            r == old(self).services@.contains_key(service_name@),
            if r {
                old(self).with_state(
                    *final(self),
                    service_name@,
                    ServiceState { skip_reason: Some(reason), ..old(self).services@[service_name@] },
                ) && final(self).told_same(*old(self))
            } else {
                *final(self) == *old(self)
            },
    {
        match self.services.get_mut(service_name) {
            Some(state) => {
                state.skip_reason = Some(reason);
                true
            },
            None => false,
        }
    }

    /// Notes why a service failed, if it is known.
    pub fn set_fail_reason(&mut self, service_name: &str, reason: String) -> (r: bool)
        ensures
            r == old(self).services@.contains_key(service_name@),
            if r {
                old(self).with_state(
                    *final(self),
                    service_name@,
                    ServiceState { fail_reason: Some(reason), ..old(self).services@[service_name@] },
                ) && final(self).told_same(*old(self))
            } else {
                *final(self) == *old(self)
            },
    {
        match self.services.get_mut(service_name) {
            Some(state) => {
                state.fail_reason = Some(reason);
                true
            },
            None => false,
        }
    }

    /// Notes that the hooks for the first start of a service have run, if it is known.
    pub fn mark_service_initialized(&mut self, service_name: &str) -> (r: bool)
        ensures
            r == old(self).services@.contains_key(service_name@),
            if r {
                old(self).with_state(
                    *final(self),
                    service_name@,
                    ServiceState { initialized: true, ..old(self).services@[service_name@] },
                ) && final(self).told_same(*old(self))
            } else {
                *final(self) == *old(self)
            },
    {
        match self.services.get_mut(service_name) {
            Some(state) => {
                state.initialized = true;
                true
            },
            None => false,
        }
    }

    /// Counts a restart of a service, if it is known.
    pub fn increment_restart_count(&mut self, service_name: &str) -> (r: bool)
        requires
            old(self).services@.contains_key(service_name@) ==> old(
                self,
            ).services@[service_name@].restart_count < u32::MAX,
        ensures
            r == old(self).services@.contains_key(service_name@),
            if r {
                old(self).with_state(
                    *final(self),
                    service_name@,
                    ServiceState { restart_count: (old(self).services@[service_name@].restart_count + 1) as u32, ..old(self).services@[service_name@] },
                ) && final(self).told_same(*old(self))
            } else {
                *final(self) == *old(self)
            },
    {
        match self.services.get_mut(service_name) {
            Some(state) => {
                state.restart_count = state.restart_count + 1;
                true
            },
            None => false,
        }
    }

    /// Notes what a service was started with, if it is known.
    pub fn store_environment(&mut self, service_name: &str,
        computed_env: NameMap<String>,
        working_dir: String,
        env_file_vars: NameMap<String>,
    ) -> (r: bool)
        ensures
            r == old(self).services@.contains_key(service_name@),
            if r {
                old(self).with_state(
                    *final(self),
                    service_name@,
                    ServiceState { computed_env, working_dir, env_file_vars, ..old(self).services@[service_name@] },
                ) && final(self).told_same(*old(self))
            } else {
                *final(self) == *old(self)
            },
    {
        match self.services.get_mut(service_name) {
            Some(state) => {
                state.computed_env = computed_env;
                state.working_dir = working_dir;
                state.env_file_vars = env_file_vars;
                true
            },
            None => false,
        }
    }
}

} // verus!
