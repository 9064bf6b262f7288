//! The state of a configuration.
use kepler_daemon::config::config_value::ConfigValue;
use kepler_daemon::config::deps::DependsOn;
use kepler_daemon::config::service::{KeplerConfig, RawServiceConfig};
use kepler_daemon::config_actor::actor::ConfigActor;
use kepler_daemon::config_actor::command::{ConfigCommand, ConfigReply};
use kepler_daemon::config_actor::context::{ConfigEvent, Effect, TaskHandleType};
use kepler_daemon::config_actor::create::{ExpandedConfigSnapshot, SnapshotStep, Source};
use kepler_daemon::errors::DaemonError;
use kepler_daemon::logs::{LogMode, LogRead};
use kepler_daemon::name_map::NameMap;
use kepler_daemon::state::{ProcessHandle, ServiceStatus};

fn service(deps: &[&str]) -> RawServiceConfig {
    RawServiceConfig {
        command: ConfigValue::Static(vec!["run".to_string().into()]),
        depends_on: DependsOn::from_names(deps.iter().map(|s| s.to_string()).collect()),
        ..Default::default()
    }
}

fn config() -> KeplerConfig {
    let mut services = NameMap::new();
    services.insert("db".to_string(), service(&[]));
    services.insert("web".to_string(), service(&["db"]));
    KeplerConfig { lua: None, kepler: None, services }
}

fn create(source: Source) -> Result<ConfigActor, DaemonError> {
    ConfigActor::create(
        "/etc/kepler.yaml".to_string(),
        "/state".to_string(),
        "/state/logs".to_string(),
        source,
    )
}

fn fresh() -> ConfigActor {
    create(Source::Fresh {
        config: Ok(config()),
        parent: Some("/etc".to_string()),
        sys_env: None,
        owner: Some((1000, 1000)),
    })
    .unwrap()
}

/// Carries out a command; the effects and the text of the reply.
fn tell(actor: &mut ConfigActor, cmd: ConfigCommand) -> (Vec<Effect>, String) {
    let mut effects = Vec::new();
    let outcome = actor.process_command(cmd, 1_000, &mut effects);
    let reply = format!("{:?}", outcome.reply);
    (effects, reply)
}

fn set(actor: &mut ConfigActor, name: &str, status: ServiceStatus) -> Vec<Effect> {
    tell(actor, ConfigCommand::SetServiceStatus { service_name: name.to_string(), status }).0
}

fn is_ready(e: &Effect) -> bool {
    matches!(e, Effect::Notify(ConfigEvent::Ready))
}

fn is_quiescent(e: &Effect) -> bool {
    matches!(e, Effect::Notify(ConfigEvent::Quiescent))
}

#[test]
fn fresh_configuration_begins_with_its_owner() {
    let actor = fresh();
    assert_eq!(actor.config_dir, "/etc");
    assert!(!actor.snapshot_taken && !actor.restored_from_snapshot && !actor.initialized);
    let web = actor.config.services.get("web").unwrap();
    assert_eq!(web.user.as_static().unwrap(), &Some("1000:1000".to_string()));
    assert_eq!(actor.services.get("db").unwrap().status, ServiceStatus::Stopped);
    assert_eq!(actor.config_hash.len(), 64);
}

#[test]
fn failed_load_is_reported() {
    let source = Source::Fresh {
        config: Err(DaemonError::Internal("no".to_string())),
        parent: None,
        sys_env: None,
        owner: None,
    };
    assert!(matches!(create(source), Err(DaemonError::Internal(m)) if m == "no"));
}

#[test]
fn unknown_services_are_not_found() {
    let mut actor = fresh();
    let cmd = ConfigCommand::SetServiceStatus {
        service_name: "ghost".to_string(),
        status: ServiceStatus::Running,
    };
    let (effects, reply) = tell(&mut actor, cmd);
    assert!(effects.is_empty());
    assert!(reply.contains("ServiceNotFound(\"ghost\")"), "{}", reply);
}

#[test]
fn status_changes_are_told_to_those_who_follow() {
    let mut actor = fresh();
    let effects = set(&mut actor, "db", ServiceStatus::Starting);
    assert!(effects.iter().any(|e| matches!(e, Effect::NotifyWatchers(c)
        if c.service == "db" && c.status == ServiceStatus::Starting)));
    assert_eq!(actor.services.get("db").unwrap().status, ServiceStatus::Starting);
}

#[test]
fn readiness_is_told_once() {
    let mut actor = fresh();
    set(&mut actor, "db", ServiceStatus::Starting);
    set(&mut actor, "web", ServiceStatus::Starting);
    let first = set(&mut actor, "db", ServiceStatus::Running);
    assert!(!first.iter().any(is_ready));
    let second = set(&mut actor, "web", ServiceStatus::Running);
    assert!(second.iter().any(is_ready));
    let third = set(&mut actor, "web", ServiceStatus::Running);
    assert!(!third.iter().any(is_ready));
    let (again, _) = tell(&mut actor, ConfigCommand::RecheckReadyQuiescent);
    assert!(again.iter().any(is_ready));
}

#[test]
fn nothing_is_told_while_a_start_is_in_progress() {
    let mut actor = fresh();
    tell(&mut actor, ConfigCommand::SetStartupInProgress { in_progress: true });
    set(&mut actor, "db", ServiceStatus::Running);
    let effects = set(&mut actor, "web", ServiceStatus::Running);
    assert!(!effects.iter().any(is_ready));
    let (effects, _) = tell(&mut actor, ConfigCommand::SetStartupInProgress { in_progress: false });
    assert!(effects.iter().any(is_ready));
}

#[test]
fn quiescence_is_told_when_all_is_over() {
    let mut actor = fresh();
    set(&mut actor, "db", ServiceStatus::Running);
    set(&mut actor, "web", ServiceStatus::Running);
    assert!(!set(&mut actor, "web", ServiceStatus::Stopped).iter().any(is_quiescent));
    assert!(set(&mut actor, "db", ServiceStatus::Stopped).iter().any(is_quiescent));
}

#[test]
fn services_are_claimed_once() {
    let mut actor = fresh();
    let claim = || ConfigCommand::ClaimServiceStart { service_name: "db".to_string() };
    assert_eq!(tell(&mut actor, claim()).1, "Flag(true)");
    assert_eq!(actor.services.get("db").unwrap().status, ServiceStatus::Waiting);
    set(&mut actor, "db", ServiceStatus::Running);
    assert_eq!(tell(&mut actor, claim()).1, "Flag(false)");
}

#[test]
fn health_checks_change_the_status() {
    let mut actor = fresh();
    set(&mut actor, "db", ServiceStatus::Running);
    let check = |passed| ConfigCommand::UpdateHealthCheck {
        service_name: "db".to_string(),
        passed,
        retries: 2,
    };
    tell(&mut actor, check(true));
    assert_eq!(actor.services.get("db").unwrap().status, ServiceStatus::Healthy);
    tell(&mut actor, check(false));
    assert_eq!(actor.services.get("db").unwrap().status, ServiceStatus::Healthy);
    tell(&mut actor, check(false));
    let db = actor.services.get("db").unwrap();
    assert_eq!(db.status, ServiceStatus::Unhealthy);
    assert_eq!(db.health_check_failures, 2);
    assert!(db.was_healthy);
}

#[test]
fn questions_change_nothing() {
    let mut actor = fresh();
    let (effects, reply) = tell(&mut actor, ConfigCommand::AllServicesStopped);
    assert!(effects.is_empty());
    assert_eq!(reply, "Flag(true)");
    assert_eq!(
        tell(&mut actor, ConfigCommand::GetConfigPath).1,
        "Text(\"/etc/kepler.yaml\")"
    );
    let cmd = ConfigCommand::GetLogsWithMode { lines: 5, max_bytes: Some(9), mode: LogMode::Tail };
    let mut effects = Vec::new();
    let outcome = actor.process_command(cmd, 0, &mut effects);
    assert!(matches!(outcome.reply, ConfigReply::ReadLogs(r)
        if r == LogRead::TailBounded { lines: 5, max_bytes: Some(9) }));
}

#[test]
fn tasks_are_ended_when_they_are_cancelled() {
    let mut actor = fresh();
    tell(&mut actor, ConfigCommand::StoreTaskHandle {
        service_name: "db".to_string(),
        handle_type: TaskHandleType::HealthCheck,
        handle: 9,
    });
    let cancel = || ConfigCommand::CancelTaskHandle {
        service_name: "db".to_string(),
        handle_type: TaskHandleType::HealthCheck,
    };
    assert!(matches!(tell(&mut actor, cancel()).0.as_slice(), [Effect::Abort(9)]));
    assert!(tell(&mut actor, cancel()).0.is_empty());
}

#[test]
fn cleanup_names_all_tasks() {
    let mut actor = fresh();
    tell(&mut actor, ConfigCommand::StoreProcessHandle {
        service_name: "db".to_string(),
        process: ProcessHandle { process: 1, stdout_task: Some(2), stderr_task: None },
    });
    tell(&mut actor, ConfigCommand::StoreTaskHandle {
        service_name: "db".to_string(),
        handle_type: TaskHandleType::FileWatcher,
        handle: 3,
    });
    tell(&mut actor, ConfigCommand::StoreEventHandlerTasks { handler: 4, forwarders: vec![5, 6] });
    assert_eq!(actor.cleanup(), vec![3, 2, 4, 5, 6]);
    assert!(actor.cleanup().is_empty());
}

#[test]
fn snapshot_is_taken_once() {
    let mut actor = fresh();
    let mut step = actor.take_snapshot_if_needed();
    let mut rounds = 0;
    while !matches!(step, SnapshotStep::Done(_)) {
        step = actor.next_snapshot_step(step, Ok(()));
        rounds += 1;
    }
    assert_eq!(rounds, 3);
    assert!(matches!(step, SnapshotStep::Done(Ok(true))));
    assert!(actor.snapshot_taken);
    assert!(matches!(actor.take_snapshot_if_needed(), SnapshotStep::Done(Ok(false))));
    let failed = actor.next_snapshot_step(
        SnapshotStep::CopyEnvFiles,
        Err(DaemonError::Internal("disk".to_string())),
    );
    assert!(matches!(failed, SnapshotStep::Done(Err(_))));
}

#[test]
fn states_are_restored_as_they_were_kept() {
    let mut actor = fresh();
    set(&mut actor, "db", ServiceStatus::Running);
    tell(&mut actor, ConfigCommand::IncrementRestartCount { service_name: "db".to_string() });
    tell(&mut actor, ConfigCommand::MarkConfigInitialized);
    let kept = actor.persisted_state(77);
    assert_eq!(kept.snapshot_time, 77);
    let restored = create(Source::Snapshot {
        snapshot: ExpandedConfigSnapshot {
            config: config(),
            config_dir: "/etc".to_string(),
            snapshot_time: 77,
            sys_env: NameMap::new(),
            owner_uid: Some(1000),
            owner_gid: Some(1000),
        },
        persisted: Some(kept),
    })
    .unwrap();
    assert!(restored.restored_from_snapshot && restored.initialized);
    let db = restored.services.get("db").unwrap();
    assert_eq!(db.status, ServiceStatus::Running);
    assert_eq!(db.restart_count, 1);
}

#[test]
fn shutdown_is_told() {
    let mut actor = fresh();
    let mut effects = Vec::new();
    assert!(actor.process_command(ConfigCommand::Shutdown, 0, &mut effects).shutdown);
    assert!(effects.iter().any(|e| matches!(e, Effect::SaveState)));
}

#[test]
fn configuration_stays_while_it_is_loaded() {
    let mut actor = fresh();
    let before = format!("{:?}", actor.config);
    let mut overrides = NameMap::new();
    overrides.insert("A".to_string(), "1".to_string());
    for cmd in vec![
        ConfigCommand::MergeSysEnv { overrides },
        ConfigCommand::ClearSnapshot { cleared: Ok(()) },
        ConfigCommand::MarkConfigInitialized,
        ConfigCommand::ClaimServiceStart { service_name: "db".to_string() },
        ConfigCommand::Shutdown,
    ] {
        tell(&mut actor, cmd);
    }
    assert_eq!(format!("{:?}", actor.config), before);
    assert_eq!(actor.sys_env.get("A").map(|s| s.as_str()), Some("1"));
    assert_eq!(actor.services.len(), 2);
}

#[test]
fn failures_count_only_in_a_row() {
    let mut actor = fresh();
    set(&mut actor, "db", ServiceStatus::Running);
    let mut check = |passed: bool| {
        let service_name = "db".to_string();
        tell(&mut actor, ConfigCommand::UpdateHealthCheck { service_name, passed, retries: 3 });
        let state = actor.services.get("db").unwrap();
        (state.status, state.health_check_failures)
    };
    assert_eq!(check(false), (ServiceStatus::Running, 1));
    assert_eq!(check(false), (ServiceStatus::Running, 2));
    assert_eq!(check(true), (ServiceStatus::Healthy, 0));
    assert_eq!(check(false), (ServiceStatus::Healthy, 1));
    assert_eq!(check(false), (ServiceStatus::Healthy, 2));
    assert_eq!(check(false), (ServiceStatus::Unhealthy, 3));
    assert_eq!(check(true), (ServiceStatus::Healthy, 0));
}

#[test]
fn effects_are_added_to_those_before() {
    let mut actor = fresh();
    let mut effects = vec![Effect::Abort(7)];
    actor.process_command(ConfigCommand::Shutdown, 1_000, &mut effects);
    assert!(matches!(effects[..], [Effect::Abort(7), Effect::SaveState]));
}
