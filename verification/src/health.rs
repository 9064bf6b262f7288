//! The checking of the health of a service.
use vstd::prelude::*;
use crate::config::duration::Duration;
use crate::config_actor::actor::checked;
use crate::config_actor::context::HealthCheckUpdate;
use crate::events::{HealthStatus, ServiceEvent};
use crate::state::{ServiceState, ServiceStatus};
use crate::text::views;

verus! {

/// A hook that runs when the health of a service changes.
#[derive(Debug, Clone, Copy, PartialEq, Eq, Structural)]
pub enum ServiceHookType {
    PostHealthcheckSuccess,
    PostHealthcheckFail,
}

/// How the health of a service is checked.
#[derive(Debug, Clone, Copy, PartialEq, Eq, Structural)]
pub struct HealthPlan {
    /// How long nothing is checked after the start.
    pub start_period: Duration,
    /// How long to wait between checks.
    pub interval: Duration,
    /// After how many failures in a row the service is unhealthy.
    pub retries: u32,
}

/// What happened last.
#[derive(Debug, Clone, Copy, PartialEq, Eq, Structural)]
pub enum HealthEvent {
    /// The wait is over.
    Waited,
    /// Whether the service runs.
    Running(bool),
    /// Whether what is needed for a check is known.
    Context(bool),
    /// Whether the check passed.
    Checked(bool),
    /// The result was noted, or could not be.
    Noted { passed: bool, update: Option<HealthCheckUpdate> },
    /// All was announced.
    Announced,
}

/// What is announced after a check, in order.
#[derive(Debug, PartialEq, Eq)]
pub struct Announcement {
    /// The result of the check.
    pub status: HealthStatus,
    /// The hook to run, if any.
    pub hook: Option<ServiceHookType>,
    /// Whether the service is now healthy or unhealthy, if that changed.
    pub turned: Option<bool>,
}

/// What to do next.
#[derive(Debug, PartialEq, Eq)]
pub enum HealthAction {
    Wait(Duration),
    AskRunning,
    AskContext,
    Check,
    Note { passed: bool, retries: u32 },
    Announce(Announcement),
    Stop,
}

/// The hook for a change of status.
pub open spec fn change_hook(previous: ServiceStatus, new: ServiceStatus) -> Option<ServiceHookType> {
    if new == ServiceStatus::Healthy && (previous == ServiceStatus::Running || previous
        == ServiceStatus::Unhealthy) {
        Some(ServiceHookType::PostHealthcheckSuccess)
    } else if new == ServiceStatus::Unhealthy && (previous == ServiceStatus::Running || previous
        == ServiceStatus::Healthy) {
        Some(ServiceHookType::PostHealthcheckFail)
    } else {
        None
    }
}

/// The hook for a change of status.
pub fn status_change_hook(previous: ServiceStatus, new: ServiceStatus) -> (r: Option<
    ServiceHookType,
>)
    ensures
        r == change_hook(previous, new),
{
    match new {
        ServiceStatus::Healthy => {
            if previous == ServiceStatus::Running || previous == ServiceStatus::Unhealthy {
                Some(ServiceHookType::PostHealthcheckSuccess)
            } else {
                None
            }
        },
        ServiceStatus::Unhealthy => {
            if previous == ServiceStatus::Running || previous == ServiceStatus::Healthy {
                Some(ServiceHookType::PostHealthcheckFail)
            } else {
                None
            }
        },
        _ => None,
    }
}

/// What is announced after a check.
pub open spec fn announced(passed: bool, update: HealthCheckUpdate) -> Announcement {
    let changed = update.previous_status != update.new_status;
    Announcement {
        status: if passed {
            HealthStatus::Success
        } else {
            HealthStatus::Failure { consecutive_failures: update.failures }
        },
        hook: if changed {
            change_hook(update.previous_status, update.new_status)
        } else {
            None
        },
        turned: if changed && update.new_status == ServiceStatus::Healthy {
            Some(true)
        } else if changed && update.new_status == ServiceStatus::Unhealthy {
            Some(false)
        } else {
            None
        },
    }
}

impl HealthPlan {
    /// The first thing to do: wait for the start period, if there is one.
    pub fn begin(&self) -> (r: HealthAction)
        ensures
            r == if self.start_period.millis == 0 {
                HealthAction::AskRunning
            } else {
                HealthAction::Wait(self.start_period)
            },
    {
        if self.start_period.is_zero() {
            HealthAction::AskRunning
        } else {
            HealthAction::Wait(self.start_period)
        }
    }

    /// What follows on an event.
    pub open spec fn follows(self, event: HealthEvent) -> HealthAction {
        match event {
            HealthEvent::Waited => HealthAction::AskRunning,
            HealthEvent::Running(b) => if b {
                HealthAction::AskContext
            } else {
                HealthAction::Stop
            },
            HealthEvent::Context(b) => if b {
                HealthAction::Check
            } else {
                HealthAction::Stop
            },
            HealthEvent::Checked(passed) => HealthAction::Note { passed, retries: self.retries },
            HealthEvent::Noted { passed, update } => match update {
                Some(u) => HealthAction::Announce(announced(passed, u)),
                None => HealthAction::Wait(self.interval),
            },
            HealthEvent::Announced => HealthAction::Wait(self.interval),
        }
    }

    /// What to do after an event.
    pub fn step(&self, event: HealthEvent) -> (r: HealthAction)
        ensures
            r == self.follows(event),
    {
        match event {
            HealthEvent::Waited => HealthAction::AskRunning,
            HealthEvent::Running(b) => if b {
                HealthAction::AskContext
            } else {
                HealthAction::Stop
            },
            HealthEvent::Context(b) => if b {
                HealthAction::Check
            } else {
                HealthAction::Stop
            },
            HealthEvent::Checked(passed) => HealthAction::Note { passed, retries: self.retries },
            HealthEvent::Noted { passed, update } => match update {
                Some(u) => {
                    let changed: bool = u.previous_status != u.new_status;
                    let status = if passed {
                        HealthStatus::Success
                    } else {
                        HealthStatus::Failure { consecutive_failures: u.failures }
                    };
                    let hook = if changed {
                        status_change_hook(u.previous_status, u.new_status)
                    } else {
                        None
                    };
                    let turned: Option<bool> = if changed && u.new_status == ServiceStatus::Healthy {
                        Some(true)
                    } else if changed && u.new_status == ServiceStatus::Unhealthy {
                        Some(false)
                    } else {
                        None
                    };
                    HealthAction::Announce(Announcement { status, hook, turned })
                },
                None => HealthAction::Wait(self.interval),
            },
            HealthEvent::Announced => HealthAction::Wait(self.interval),
        }
    }
}

impl Announcement {
    /// The events to emit: the result of the check, and after the hook the change, if any.
    pub fn events(&self) -> (r: (ServiceEvent, Option<ServiceEvent>))
        ensures
            r.0 == (ServiceEvent::Healthcheck { status: self.status }),
            r.1 == match self.turned {
                Some(true) => Some(ServiceEvent::Healthy),
                Some(false) => Some(ServiceEvent::Unhealthy),
                None => None,
            },
    {
        let change = match self.turned {
            Some(true) => Some(ServiceEvent::Healthy),
            Some(false) => Some(ServiceEvent::Unhealthy),
            None => None,
        };
        (ServiceEvent::Healthcheck { status: self.status }, change)
    }
}

/// How a command for a check ended.
#[derive(Debug, Clone, Copy, PartialEq, Eq, Structural)]
pub enum CheckOutcome {
    /// It ended in time, with or without success.
    Ended { success: bool },
    /// It could not be run.
    NotRun,
    /// It took too long.
    TimedOut,
}

impl CheckOutcome {
    /// Whether the check passed.
    pub fn passed(&self) -> (r: bool)
        ensures
            r == (*self == CheckOutcome::Ended { success: true }),
    {
        match self {
            CheckOutcome::Ended { success } => *success,
            _ => false,
        }
    }
}

/// The program of a check and its arguments. Without a command there is nothing to run, and the
/// check passes.
pub fn check_command(test: &Vec<String>) -> (r: Option<(String, Vec<String>)>)
    ensures
        match r {
            None => test@.len() == 0,
            Some((program, args)) => test@.len() > 0 && program@ == test@[0]@ && views(args@)
                == views(test@).skip(1),
        },
{
    if test.len() == 0 {
        return None;
    }
    let mut args: Vec<String> = Vec::new();
    let mut i: usize = 1;
    while i < test.len()
        invariant
            1 <= i <= test@.len(),
            args@.len() == i - 1,
            forall|j: int| 0 <= j < i - 1 ==> (#[trigger] args@[j])@ == test@[j + 1]@,
        decreases test@.len() - i,
    {
        args.push(test[i].clone());
        i += 1;
    }
    assert(views(args@) == views(test@).skip(1));
    Some((test[0].clone(), args))
}

/// A hook runs, and a change is announced, only when the status changed.
pub proof fn law_unchanged_health_is_quiet(passed: bool, update: HealthCheckUpdate)
    requires
        update.previous_status == update.new_status,
    ensures
        announced(passed, update).hook is None,
        announced(passed, update).turned is None,
{
}

/// A service that becomes healthy, after its start or after it was unhealthy, runs the hook for
/// success; one that becomes unhealthy, after its start or after it was healthy, runs the hook for
/// failure. No other change runs a hook.
pub proof fn law_hook_follows_health(
    previous: ServiceStatus,
    new: ServiceStatus,
    hook: Option<ServiceHookType>,
)
    requires
        call_ensures(status_change_hook, (previous, new), hook),
    ensures
        new == ServiceStatus::Healthy && (previous == ServiceStatus::Running || previous
            == ServiceStatus::Unhealthy) ==> hook == Some(ServiceHookType::PostHealthcheckSuccess),
        new == ServiceStatus::Unhealthy && (previous == ServiceStatus::Running || previous
            == ServiceStatus::Healthy) ==> hook == Some(ServiceHookType::PostHealthcheckFail),
        hook is Some ==> new == ServiceStatus::Healthy || new == ServiceStatus::Unhealthy,
        hook is Some ==> previous != new && (previous == ServiceStatus::Running || previous
            == ServiceStatus::Healthy || previous == ServiceStatus::Unhealthy),
{
}

/// What is noted of a check of a running service is announced: its result always, and where the
/// check changed the health, the change and the hook for it. A check that passes on a service that
/// was not known to be healthy makes it healthy, and one that fails once too often makes it
/// unhealthy.
pub proof fn law_check_is_announced(
    plan: HealthPlan,
    state: ServiceState,
    passed: bool,
    action: HealthAction,
)
    requires
        state.status == ServiceStatus::Running || state.status == ServiceStatus::Healthy
            || state.status == ServiceStatus::Unhealthy,
        state.health_check_failures < u32::MAX,
        ({
            let next = checked(state, passed, plan.retries);
            let update = HealthCheckUpdate {
                previous_status: state.status,
                new_status: next.status,
                failures: next.health_check_failures,
            };
            call_ensures(
                HealthPlan::step,
                (&plan, HealthEvent::Noted { passed, update: Some(update) }),
                action,
            )
        }),
    ensures
        action is Announce,
        passed ==> action->Announce_0.status == HealthStatus::Success,
        !passed ==> action->Announce_0.status == (HealthStatus::Failure {
            consecutive_failures: (state.health_check_failures + 1) as u32,
        }),
        passed && state.status != ServiceStatus::Healthy ==> action->Announce_0.hook == Some(
            ServiceHookType::PostHealthcheckSuccess,
        ) && action->Announce_0.turned == Some(true),
        passed && state.status == ServiceStatus::Healthy ==> action->Announce_0.hook is None
            && action->Announce_0.turned is None,
        !passed && state.health_check_failures + 1 >= plan.retries && state.status
            != ServiceStatus::Unhealthy ==> action->Announce_0.hook == Some(
            ServiceHookType::PostHealthcheckFail,
        ) && action->Announce_0.turned == Some(false),
        !passed && (state.health_check_failures + 1 < plan.retries || state.status
            == ServiceStatus::Unhealthy) ==> action->Announce_0.hook is None
            && action->Announce_0.turned is None,
{
}

/// Whether one action is what a plan does on an event.
pub open spec fn does(plan: HealthPlan, event: HealthEvent, action: HealthAction) -> bool {
    call_ensures(HealthPlan::step, (&plan, event), action)
}

/// A check follows on a wait only if the service runs and what is needed is known, and otherwise
/// the checks end. The result of a check is noted with the number of failures that the plan allows;
/// after that, and after the announcement if there is one, comes the wait between checks.
pub proof fn law_checks_go_round(plan: HealthPlan, flag: bool, first: HealthAction, a: HealthAction)
    requires
        call_ensures(HealthPlan::begin, (&plan,), first),
    ensures
        plan.start_period.millis > 0 ==> first == HealthAction::Wait(plan.start_period),
        plan.start_period.millis == 0 ==> first == HealthAction::AskRunning,
        does(plan, HealthEvent::Waited, a) ==> a == HealthAction::AskRunning,
        does(plan, HealthEvent::Running(true), a) ==> a == HealthAction::AskContext,
        does(plan, HealthEvent::Running(false), a) ==> a == HealthAction::Stop,
        does(plan, HealthEvent::Context(true), a) ==> a == HealthAction::Check,
        does(plan, HealthEvent::Context(false), a) ==> a == HealthAction::Stop,
        does(plan, HealthEvent::Checked(flag), a) ==> a == (HealthAction::Note {
            passed: flag,
            retries: plan.retries,
        }),
        does(plan, HealthEvent::Noted { passed: flag, update: None }, a) ==> a
            == HealthAction::Wait(plan.interval),
        does(plan, HealthEvent::Announced, a) ==> a == HealthAction::Wait(plan.interval),
{
}

/// The result of a check is always told, and a change of health after it: `Healthy` where the
/// service became healthy, and `Unhealthy` where it became unhealthy.
pub proof fn law_change_is_told(a: Announcement, told: (ServiceEvent, Option<ServiceEvent>))
    requires
        call_ensures(Announcement::events, (&a,), told),
    ensures
        told.0 == (ServiceEvent::Healthcheck { status: a.status }),
        a.turned == Some(true) ==> told.1 == Some(ServiceEvent::Healthy),
        a.turned == Some(false) ==> told.1 == Some(ServiceEvent::Unhealthy),
        a.turned is None ==> told.1 is None,
{
}

/// A check passes only if its command was run, ended in time and succeeded.
pub proof fn law_only_success_passes(outcome: CheckOutcome, passed: bool)
    requires
        call_ensures(CheckOutcome::passed, (&outcome,), passed),
    ensures
        passed ==> outcome is Ended,
        outcome == CheckOutcome::TimedOut || outcome == CheckOutcome::NotRun ==> !passed,
        outcome matches CheckOutcome::Ended { success } ==> passed == success,
{
}

/// The first word of a check is its program, and the others are its arguments in order; without
/// words there is nothing to run.
pub proof fn law_program_and_arguments(
    test: Vec<String>,
    r: Option<(String, Vec<String>)>,
    i: int,
)
    requires
        call_ensures(check_command, (&test,), r),
    ensures
        r is None <==> test@.len() == 0,
        r matches Some((program, args)) ==> program@ == test@[0]@ && args@.len() + 1 == test@.len()
            && (0 <= i < args@.len() ==> args@[i]@ == test@[i + 1]@),
{
    if let Some((program, args)) = r {
        assert(views(args@).len() == args@.len());
        assert(views(test@).len() == test@.len());
        if 0 <= i < args@.len() {
            assert(views(args@)[i] == args@[i]@);
            assert(views(test@).skip(1)[i] == test@[i + 1]@);
        }
    }
}

} // verus!
