//! Events in the life of a service.
use vstd::prelude::*;

verus! {

/// Why a service is started again.
#[derive(Debug, Clone, PartialEq, Eq)]
pub enum RestartReason {
    /// A watched file changed.
    Watch,
    /// The process failed.
    Failure { exit_code: Option<i32> },
    /// On request.
    Manual,
    /// A dependency was started again.
    DependencyRestart { dependency: String },
}

/// The result of a health check.
#[derive(Debug, Clone, Copy, PartialEq, Eq, Structural)]
pub enum HealthStatus {
    Success,
    Failure { consecutive_failures: u32 },
}

/// An event in the life of a service.
#[derive(Debug, Clone, PartialEq, Eq)]
pub enum ServiceEvent {
    Init,
    Start,
    Restart { reason: RestartReason },
    Exit { code: Option<i32> },
    Stop,
    Cleanup,
    Healthcheck { status: HealthStatus },
    Healthy,
    Unhealthy,
}

impl ServiceEvent {
    /// The name of the kind of event.
    pub open spec fn word(self) -> Seq<char> {
        match self {
            ServiceEvent::Init => "init"@,
            ServiceEvent::Start => "start"@,
            ServiceEvent::Restart { .. } => "restart"@,
            ServiceEvent::Exit { .. } => "exit"@,
            ServiceEvent::Stop => "stop"@,
            ServiceEvent::Cleanup => "cleanup"@,
            ServiceEvent::Healthcheck { .. } => "healthcheck"@,
            ServiceEvent::Healthy => "healthy"@,
            ServiceEvent::Unhealthy => "unhealthy"@,
        }
    }

    /// The name of the kind of event.
    pub fn as_str(&self) -> (r: &'static str)
        ensures
            r@ == self.word(),
    {
        match self {
            ServiceEvent::Init => "init",
            ServiceEvent::Start => "start",
            ServiceEvent::Restart { .. } => "restart",
            ServiceEvent::Exit { .. } => "exit",
            ServiceEvent::Stop => "stop",
            ServiceEvent::Cleanup => "cleanup",
            ServiceEvent::Healthcheck { .. } => "healthcheck",
            ServiceEvent::Healthy => "healthy",
            ServiceEvent::Unhealthy => "unhealthy",
        }
    }
}

/// An event with the time at which it occurred, in milliseconds since the epoch.
#[derive(Debug, Clone)]
pub struct ServiceEventMessage {
    pub event: ServiceEvent,
    pub timestamp: i64,
}

impl ServiceEventMessage {
    /// A message about an event that occurred at the given time.
    pub fn new(event: ServiceEvent, timestamp: i64) -> (r: Self)
        ensures
            r.event == event,
            r.timestamp == timestamp,
    {
        ServiceEventMessage { event, timestamp }
    }
}

/// How many events wait in the channel of a service at most.
pub const SERVICE_EVENT_CHANNEL_CAPACITY: usize = 100;

} // verus!
