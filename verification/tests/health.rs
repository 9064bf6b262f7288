//! Health checks.
use kepler_daemon::config::duration::Duration;
use kepler_daemon::config_actor::context::HealthCheckUpdate;
use kepler_daemon::events::{HealthStatus, ServiceEvent};
use kepler_daemon::health::{
    check_command, status_change_hook, CheckOutcome, HealthAction, HealthEvent, HealthPlan,
    ServiceHookType,
};
use kepler_daemon::state::ServiceStatus;

fn plan(start: u64) -> HealthPlan {
    HealthPlan {
        start_period: Duration::from_secs(start),
        interval: Duration::from_secs(30),
        retries: 3,
    }
}

#[test]
fn checks_go_round() {
    let plan = plan(5);
    assert_eq!(plan.begin(), HealthAction::Wait(Duration::from_secs(5)));
    assert_eq!(plan.step(HealthEvent::Waited), HealthAction::AskRunning);
    assert_eq!(plan.step(HealthEvent::Running(true)), HealthAction::AskContext);
    assert_eq!(plan.step(HealthEvent::Context(true)), HealthAction::Check);
    assert_eq!(
        plan.step(HealthEvent::Checked(false)),
        HealthAction::Note { passed: false, retries: 3 }
    );
    assert_eq!(
        plan.step(HealthEvent::Noted { passed: true, update: None }),
        HealthAction::Wait(Duration::from_secs(30))
    );
    assert_eq!(plan.step(HealthEvent::Announced), HealthAction::Wait(Duration::from_secs(30)));
}

#[test]
fn checks_end_with_the_service() {
    assert_eq!(plan(0).begin(), HealthAction::AskRunning);
    assert_eq!(plan(0).step(HealthEvent::Running(false)), HealthAction::Stop);
    assert_eq!(plan(0).step(HealthEvent::Context(false)), HealthAction::Stop);
}

#[test]
fn changes_are_announced() {
    let update = HealthCheckUpdate {
        previous_status: ServiceStatus::Healthy,
        new_status: ServiceStatus::Unhealthy,
        failures: 3,
    };
    match plan(0).step(HealthEvent::Noted { passed: false, update: Some(update) }) {
        HealthAction::Announce(a) => {
            assert_eq!(a.status, HealthStatus::Failure { consecutive_failures: 3 });
            assert_eq!(a.hook, Some(ServiceHookType::PostHealthcheckFail));
            assert_eq!(a.events().1, Some(ServiceEvent::Unhealthy));
        }
        _ => panic!("expected an announcement"),
    }
}

#[test]
fn unchanged_health_is_quiet() {
    let update = HealthCheckUpdate {
        previous_status: ServiceStatus::Healthy,
        new_status: ServiceStatus::Healthy,
        failures: 0,
    };
    match plan(0).step(HealthEvent::Noted { passed: true, update: Some(update) }) {
        HealthAction::Announce(a) => {
            assert_eq!(a.hook, None);
            assert_eq!(
                a.events(),
                (ServiceEvent::Healthcheck { status: HealthStatus::Success }, None)
            );
        }
        _ => panic!("expected an announcement"),
    }
    assert_eq!(status_change_hook(ServiceStatus::Starting, ServiceStatus::Healthy), None);
    assert_eq!(
        status_change_hook(ServiceStatus::Running, ServiceStatus::Healthy),
        Some(ServiceHookType::PostHealthcheckSuccess)
    );
}

#[test]
fn only_success_passes() {
    assert!(CheckOutcome::Ended { success: true }.passed());
    assert!(!CheckOutcome::Ended { success: false }.passed());
    assert!(!CheckOutcome::NotRun.passed());
    assert!(!CheckOutcome::TimedOut.passed());
}

#[test]
fn commands_of_checks_are_read() {
    let words = |list: &[&str]| list.iter().map(|s| s.to_string()).collect::<Vec<String>>();
    let (program, args) = check_command(&words(&["curl", "-f", "x"])).unwrap();
    assert_eq!(program, "curl");
    assert_eq!(args, words(&["-f", "x"]));
    assert!(check_command(&words(&[])).is_none());
}
