//! Small questions to configurations.
use kepler_daemon::acl::{effective_rights, ResolvedAcl};
use kepler_daemon::auth::AuthContext;
use kepler_daemon::config::config_value::ConfigValue;
use kepler_daemon::config::deps::{
    DependencyCondition, DependencyConfig, DependencyEntry, DependsOn, DependsOnFormat,
};
use kepler_daemon::config::environment::EnvironmentEntries;
use kepler_daemon::config::hooks::HookCommand;
use kepler_daemon::config::logs::{LogConfig, LogRetention, LogRetentionConfig};
use kepler_daemon::config::resolvable::ResolvableCommand;
use kepler_daemon::config::restart::RestartPolicy;
use kepler_daemon::config::service::{
    AutostartConfig, KeplerConfig, KeplerGlobalConfig, RawServiceConfig,
};
use kepler_daemon::db_cleanup::{PERIODIC_CLEANUP_BATCH, STARTUP_CLEANUP_BATCH};
use kepler_daemon::name_map::NameMap;
use kepler_daemon::permissions::all_rights;

#[test]
fn some_conditions_are_met_by_a_start() {
    assert!(DependencyCondition::ServiceStarted.is_startup_condition());
    assert!(DependencyCondition::ServiceHealthy.is_startup_condition());
    assert!(DependencyCondition::ServiceCompletedSuccessfully.is_startup_condition());
    assert!(!DependencyCondition::ServiceUnhealthy.is_startup_condition());
    assert!(!DependencyCondition::ServiceFailed.is_startup_condition());
    assert!(!DependencyCondition::ServiceStopped.is_startup_condition());
}

#[test]
fn restarts_follow_dependencies_that_ask_for_it() {
    let mut table = NameMap::new();
    table.insert("db".to_string(), DependencyConfig { restart: true, ..Default::default() });
    table.insert("cache".to_string(), DependencyConfig::default());
    let deps = DependsOn::from_format(DependsOnFormat::List(vec![
        DependencyEntry::Simple("log".to_string()),
        DependencyEntry::Extended(table),
    ]));
    assert!(deps.should_restart_on_dependency("db"));
    assert!(!deps.should_restart_on_dependency("cache"));
    assert!(!deps.should_restart_on_dependency("log"));
    assert!(!deps.should_restart_on_dependency("other"));
    assert_eq!(deps.dependencies_with_restart(), vec!["db".to_string()]);
}

#[test]
fn exit_settings_stand_for_success_and_failure() {
    let logs = |retention| LogConfig { retention: Some(retention), ..Default::default() };
    let both = logs(LogRetentionConfig { on_exit: Some(LogRetention::Retain), ..Default::default() });
    assert_eq!(both.get_on_success(), Some(LogRetention::Retain));
    assert_eq!(both.get_on_failure(), Some(LogRetention::Retain));
    assert_eq!(both.get_on_skipped(), None);
    let one = logs(LogRetentionConfig {
        on_success: Some(LogRetention::Clear),
        on_skipped: Some(LogRetention::Retain),
        ..Default::default()
    });
    assert_eq!(one.get_on_success(), Some(LogRetention::Clear));
    assert_eq!(one.get_on_failure(), None);
    assert_eq!(one.get_on_skipped(), Some(LogRetention::Retain));
}

#[test]
fn known_entries_are_kept() {
    let entries = EnvironmentEntries::from_static(vec!["A=1".to_string(), "B=2".to_string()]);
    let texts: Vec<&String> = entries.0.iter().map(|e| e.as_static().unwrap()).collect();
    assert_eq!(texts, vec!["A=1", "B=2"]);
}

#[test]
fn hooks_can_be_changed_in_place() {
    let mut hook = HookCommand::script("echo hi".to_string());
    hook.common_mut().output = Some("step".to_string());
    assert_eq!(hook.output(), Some("step"));
    let command = ResolvableCommand::from_hook(&hook);
    assert_eq!(command.run.as_static(), Some(&Some("echo hi".to_string())));
    assert!(command.command.as_static().unwrap().is_empty());
}

#[test]
fn commands_are_those_of_the_service() {
    let raw = RawServiceConfig {
        command: ConfigValue::Static(vec!["serve".to_string().into()]),
        user: ConfigValue::Static(Some("app".to_string())),
        ..Default::default()
    };
    let command = ResolvableCommand::from_service(&raw);
    assert_eq!(command.command.as_static().unwrap().len(), 1);
    assert_eq!(command.run.as_static(), Some(&None));
    assert_eq!(command.user.as_static(), Some(&Some("app".to_string())));
}

#[test]
fn unhealthy_services_restart_only_if_asked() {
    let policy = RestartPolicy::on_unhealthy();
    assert!(policy.should_restart_on_unhealthy());
    assert!(!policy.should_restart_on_exit(Some(1)));
    assert!(!RestartPolicy::on_failure().should_restart_on_unhealthy());
}

#[test]
fn environment_is_denied_to_a_bare_autostart() {
    let with = |autostart| KeplerConfig {
        lua: None,
        kepler: Some(KeplerGlobalConfig { autostart, ..Default::default() }),
        services: NameMap::new(),
    };
    assert!(with(AutostartConfig::Enabled).is_kepler_env_denied());
    assert!(!with(AutostartConfig::Disabled).is_kepler_env_denied());
    let environment = ConfigValue::Static(EnvironmentEntries::default());
    assert!(!with(AutostartConfig::WithEnvironment { environment }).is_kepler_env_denied());
}

#[test]
fn names_of_services_are_listed() {
    let mut services = NameMap::new();
    services.insert("db".to_string(), RawServiceConfig::default());
    services.insert("web".to_string(), RawServiceConfig::default());
    let config = KeplerConfig { lua: None, kepler: None, services };
    assert_eq!(config.service_names(), vec!["db".to_string(), "web".to_string()]);
}

#[test]
fn root_and_owners_have_all_rights() {
    let all = all_rights();
    let acl = ResolvedAcl::empty();
    let root = AuthContext::Root { uid: 0, gid: 0 };
    let owner = AuthContext::Group { uid: 1000, gid: 1000 };
    for ctx in [root, owner] {
        let rights = effective_rights(&ctx, Some(1000), Some(&acl)).unwrap().unwrap();
        assert_eq!(rights.intersection(&all).contains("start"), all.contains("start"));
        assert!(rights.contains("start"));
    }
    let other = AuthContext::Group { uid: 1001, gid: 1001 };
    let rights = effective_rights(&other, Some(1000), None).unwrap().unwrap();
    assert!(!rights.contains("start"));
}

#[test]
fn batches_of_a_start_are_larger() {
    assert_eq!(PERIODIC_CLEANUP_BATCH, 5_000);
    assert_eq!(STARTUP_CLEANUP_BATCH, 50_000);
}
