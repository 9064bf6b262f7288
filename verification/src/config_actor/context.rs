//! What the state of a configuration tells others.
use vstd::prelude::*;
use crate::config::logs::LogConfig;
use crate::config::service::{RawServiceConfig, ServiceConfig};
use crate::events::ServiceEvent;
use crate::logs::LogWriterConfig;
use crate::name_map::NameMap;
use crate::state::ServiceStatus;

verus! {

/// The kind of a task that belongs to a service.
#[derive(Debug, Clone, Copy, PartialEq, Eq, Hash, Structural)]
pub enum TaskHandleType {
    HealthCheck,
    FileWatcher,
}

/// What is needed to start a service.
#[derive(Debug)]
pub struct ServiceContext<'a> {
    pub service_config: &'a RawServiceConfig,
    /// The computed configuration, once the service was started.
    pub resolved_config: Option<&'a ServiceConfig>,
    pub config_dir: &'a String,
    pub state_dir: &'a String,
    pub log_config: &'a LogWriterConfig,
    pub global_log_config: Option<&'a LogConfig>,
    pub env: &'a NameMap<String>,
    pub working_dir: &'a String,
    pub env_file_vars: &'a NameMap<String>,
}

/// How many resources are held.
#[derive(Debug, Clone, Copy, PartialEq, Eq, Structural)]
pub struct DiagnosticCounts {
    pub process_handles: usize,
    pub health_checks: usize,
    pub file_watchers: usize,
    pub event_senders: usize,
}

impl Default for DiagnosticCounts {
    fn default() -> (r: Self)
        ensures
            r.process_handles == 0,
            r.health_checks == 0,
            r.file_watchers == 0,
            r.event_senders == 0,
    {
        DiagnosticCounts { process_handles: 0, health_checks: 0, file_watchers: 0, event_senders: 0 }
    }
}

/// What a health check changed.
#[derive(Debug, Clone, Copy, PartialEq, Eq, Structural)]
pub struct HealthCheckUpdate {
    pub previous_status: ServiceStatus,
    pub new_status: ServiceStatus,
    pub failures: u32,
}

/// A new status of a service.
#[derive(Debug)]
pub struct ServiceStatusChange {
    pub service: String,
    pub status: ServiceStatus,
}

/// What those who follow a configuration are told.
#[derive(Debug)]
pub enum ConfigEvent {
    /// A service has a new status.
    StatusChange(ServiceStatusChange),
    /// A service failed, is not started again, and no other service reacts to that.
    UnhandledFailure { service: String, exit_code: Option<i32> },
    /// All services are ready.
    Ready,
    /// Nothing more will change.
    Quiescent,
}

/// What has to be done outside after a command.
#[derive(Debug)]
pub enum Effect {
    /// Tell those who wait for the service.
    NotifyWatchers(ServiceStatusChange),
    /// Tell those who follow the configuration.
    Notify(ConfigEvent),
    /// Write the states to disk.
    SaveState,
    /// Write the snapshot to disk.
    SaveSnapshot,
    /// End a task.
    Abort(u64),
    /// Remove the logs of a service.
    ClearLogs(String),
    /// Remove the logs whose names begin so.
    ClearLogsPrefix(String),
    /// Put an event into the channel of a service.
    Send { service: String, event: ServiceEvent },
}

/// The model of an effect.
pub enum Deed {
    NotifyWatchers(Seq<char>, ServiceStatus),
    NotifyStatus(Seq<char>, ServiceStatus),
    NotifyFailure(Seq<char>, Option<i32>),
    NotifyReady,
    NotifyQuiescent,
    SaveState,
    SaveSnapshot,
    Abort(u64),
    ClearLogs(Seq<char>),
    ClearLogsPrefix(Seq<char>),
    Send(Seq<char>, ServiceEvent),
}

impl View for Effect {
    type V = Deed;

    open spec fn view(&self) -> Deed {
        match self {
            Effect::NotifyWatchers(c) => Deed::NotifyWatchers(c.service@, c.status),
            Effect::Notify(ConfigEvent::StatusChange(c)) => Deed::NotifyStatus(
                c.service@,
                c.status,
            ),
            Effect::Notify(ConfigEvent::UnhandledFailure { service, exit_code }) =>
                Deed::NotifyFailure(service@, *exit_code),
            Effect::Notify(ConfigEvent::Ready) => Deed::NotifyReady,
            Effect::Notify(ConfigEvent::Quiescent) => Deed::NotifyQuiescent,
            Effect::SaveState => Deed::SaveState,
            Effect::SaveSnapshot => Deed::SaveSnapshot,
            Effect::Abort(t) => Deed::Abort(*t),
            Effect::ClearLogs(s) => Deed::ClearLogs(s@),
            Effect::ClearLogsPrefix(s) => Deed::ClearLogsPrefix(s@),
            Effect::Send { service, event } => Deed::Send(service@, *event),
        }
    }
}

/// The models of effects.
pub open spec fn deeds(effects: Seq<Effect>) -> Seq<Deed> {
    effects.map_values(|e: Effect| e@)
}

/// Puts an effect at the end of a list.
pub fn push_effect(effects: &mut Vec<Effect>, effect: Effect)
    ensures
        deeds(final(effects)@) == deeds(old(effects)@).push(effect@),
{
    let ghost before = deeds(effects@);
    effects.push(effect);
    assert(deeds(effects@) == before.push(effect@));
}

} // verus!
