//! Settings and small rules.
use kepler_daemon::config::config_value::ConfigValue;
use kepler_daemon::config::deps::{
    DependencyCondition, DependencyConfig, DependencyEntry, DependsOn, ExitCodeEntry, ExitCodeFilter,
};
use kepler_daemon::config::duration::{format_duration, parse_duration, Duration};
use kepler_daemon::config::hooks::{HookCommand, HookCommon, HookList};
use kepler_daemon::config::logs::{
    resolve_log_buffer_size, resolve_log_max_size, LogConfig, LogRetention, LogRetentionConfig,
};
use kepler_daemon::config::read::read_text_list;
use kepler_daemon::config::resources::parse_memory_limit;
use kepler_daemon::config::restart::{RestartConfig, RestartPolicy};
use kepler_daemon::config::service::{
    validate_service_name, AutostartConfig, KeplerConfig, RawServiceConfig,
};
use kepler_daemon::config_registry::{can_prune_config, running_count, ConfigRegistry, Lookup};
use kepler_daemon::containment::{
    may_be_noted, after_remove, CgroupKill, CleanupAction, ContainmentManager, KillAction, KillTarget,
    OrphanAction, RemoveOutcome,
};
use kepler_daemon::digest::config_hash;
use kepler_daemon::errors::{DaemonError, ParseFailure};
use kepler_daemon::name_map::NameMap;
use kepler_daemon::paths::join;
use kepler_daemon::value::{Number, Yaml};

fn text(s: &str) -> Yaml {
    Yaml::String(s.to_string())
}

fn mapping(entries: Vec<(&str, Yaml)>) -> Yaml {
    Yaml::Mapping(entries.into_iter().map(|(k, v)| (text(k), v)).collect())
}

fn no_settings(_value: &Yaml) -> Result<HookCommon, String> {
    Ok(HookCommon::default())
}

#[test]
fn durations_are_read() {
    assert_eq!(parse_duration(" 7 ").unwrap(), Duration::from_secs(7));
    assert_eq!(parse_duration("2H").unwrap(), Duration::from_secs(7200));
    assert_eq!(parse_duration("").unwrap_err(), "Empty duration string");
    assert_eq!(parse_duration("5x").unwrap_err(), "Unknown duration unit: x");
    assert_eq!(parse_duration("ms").unwrap_err(), "Invalid number in duration: ");
    assert_eq!(
        parse_duration("18446744073709551615d").unwrap_err(),
        "Duration value too large: 18446744073709551615d"
    );
}

#[test]
fn durations_are_written_as_they_are_read() {
    for millis in [0, 1, 999, 1000, 60_000, 90_000, 3_600_000, 86_400_000, 86_400_001] {
        let d = Duration::from_millis(millis);
        assert_eq!(parse_duration(&format_duration(&d)).unwrap(), d);
    }
    assert_eq!(format_duration(&Duration::from_secs(120)), "2m");
}

#[test]
fn memory_limits_are_read() {
    assert_eq!(parse_memory_limit("512M").unwrap(), 512 * 1024 * 1024);
    assert_eq!(parse_memory_limit("1gb").unwrap(), 1024 * 1024 * 1024);
    assert_eq!(parse_memory_limit("2048K").unwrap(), 2048 * 1024);
    assert_eq!(parse_memory_limit("7").unwrap(), 7);
    assert_eq!(parse_memory_limit("M").unwrap_err(), "Invalid number in memory limit: M");
    assert_eq!(parse_memory_limit("1T").unwrap_err(), "Unknown memory unit: T");
    assert!(parse_memory_limit("18446744073709551615G").unwrap_err().contains("overflows"));
    assert_eq!(parse_memory_limit(" ").unwrap_err(), "Empty memory limit string");
}

#[test]
fn restart_policies_are_combined() {
    let policy = RestartPolicy::parse("on-failure | on-unhealthy").unwrap();
    assert!(policy.should_restart_on_exit(Some(1)));
    assert!(!policy.should_restart_on_exit(Some(0)));
    assert!(policy.should_restart_on_unhealthy());
    assert_eq!(policy.to_string_repr(), "on-failure|on-unhealthy");
    assert!(RestartPolicy::parse("no|always").is_err());
    assert!(RestartPolicy::parse("sometimes").unwrap_err().contains("`sometimes`"));
    for word in ["no", "always", "on-failure", "on-success|on-unhealthy"] {
        assert_eq!(RestartPolicy::parse(word).unwrap().to_string_repr(), word);
    }
}

#[test]
fn watching_files_needs_a_restart() {
    let config = RestartConfig::Extended {
        policy: RestartPolicy::no(),
        watch: ConfigValue::Static(vec!["*.rs".to_string().into()]),
    };
    assert!(config.should_restart_on_file_change());
    assert!(config.validate().is_err());
}

#[test]
fn exit_codes_are_read_and_written() {
    let entries = vec![
        ExitCodeEntry::Single(3),
        ExitCodeEntry::Range("10:20".to_string()),
        ExitCodeEntry::Range(" -5 : -1 ".to_string()),
    ];
    let filter = ExitCodeFilter::from_entries(&entries).unwrap();
    assert!(filter.matches(3) && filter.matches(15) && filter.matches(-1));
    assert!(!filter.matches(4) && !filter.matches(21));
    let again = ExitCodeFilter::from_entries(&filter.to_entries()).unwrap();
    for code in -10..30 {
        assert_eq!(again.matches(code), filter.matches(code));
    }
    let bad = |s: &str| {
        ExitCodeFilter::from_entries(&vec![ExitCodeEntry::Range(s.to_string())]).err().unwrap()
    };
    assert!(bad("7").contains("expected 'start:end'"));
    assert!(bad("x:1").contains("start is not a valid integer"));
    assert!(bad("1:x").contains("end is not a valid integer"));
    assert!(bad("2:1").contains("start (2) > end (1)"));
}

#[test]
fn restart_settings_have_two_forms() {
    let extended = |_: &Yaml| {
        Ok((RestartPolicy::always(), ConfigValue::Static(vec!["*.ts".to_string().into()])))
    };
    let simple = RestartConfig::from_value(&text("on-failure"), &extended).unwrap();
    assert!(simple.should_restart_on_exit(Some(2)) && !simple.should_restart_on_exit(Some(0)));
    let both = RestartConfig::from_value(&mapping(vec![]), &extended).unwrap();
    assert!(both.should_restart_on_file_change());
    assert_eq!(
        RestartConfig::from_value(&Yaml::Bool(true), &extended).err().unwrap(),
        "expected string or mapping for restart config"
    );
}

#[test]
fn hooks_are_scripts_or_commands() {
    let script = mapping(vec![("run", text("echo")), ("user", text("u"))]);
    assert!(matches!(HookCommand::from_value(&script, &no_settings), Ok(HookCommand::Script { .. })));
    let command = mapping(vec![("command", Yaml::Sequence(vec![text("ls")]))]);
    match HookCommand::from_value(&command, &no_settings).unwrap() {
        HookCommand::Command { command: ConfigValue::Static(words), .. } => {
            assert_eq!(words[0].as_static().unwrap(), "ls");
        }
        _ => panic!("expected a command"),
    }
    assert_eq!(
        HookCommand::from_value(&mapping(vec![]), &no_settings).err().unwrap(),
        "hook command must have either 'run' or 'command' key"
    );
    assert_eq!(
        HookCommand::from_value(&text("x"), &no_settings).err().unwrap(),
        "expected a mapping for hook command"
    );
    let rest = |v: &Yaml| match v {
        Yaml::Mapping(entries) if entries.len() == 1 => Ok(HookCommon::default()),
        _ => Err("the key was not taken out".to_string()),
    };
    assert!(HookCommand::from_value(&script, &rest).is_ok());
}

#[test]
fn hook_lists_are_one_many_or_none() {
    let one = mapping(vec![("run", text("a"))]);
    assert_eq!(HookList::from_value(&one, &no_settings).unwrap().0.len(), 1);
    assert_eq!(HookList::from_value(&Yaml::Null, &no_settings).unwrap().0.len(), 0);
    let many = Yaml::Sequence(vec![
        mapping(vec![("run", text("a"))]),
        mapping(vec![("run", text("b"))]),
    ]);
    assert_eq!(HookList::from_value(&many, &no_settings).unwrap().0.len(), 2);
    assert_eq!(
        HookList::from_value(&Yaml::Number(Number::Unsigned(3)), &no_settings).err().unwrap(),
        "invalid type: integer `3`, expected a hook command object, an array of hook commands, or null"
    );
}

#[test]
fn autostart_has_three_forms() {
    let none = |_: &Yaml| Err("no environment".to_string());
    assert!(AutostartConfig::from_value(&Yaml::Bool(true), &none).unwrap().is_enabled());
    assert!(!AutostartConfig::from_value(&Yaml::Null, &none).unwrap().is_enabled());
    assert_eq!(
        AutostartConfig::from_value(&mapping(vec![]), &none).err().unwrap(),
        "no environment"
    );
    assert!(AutostartConfig::from_value(&text("yes"), &none).err().unwrap().starts_with(
        "invalid type: string \"yes\", expected a boolean"
    ));
}

#[test]
fn text_lists_are_read() {
    let list = read_text_list(&Yaml::Sequence(vec![text("a"), text("${{ b }}$")])).unwrap();
    assert!(!list[0].is_dynamic() && list[1].is_dynamic());
    assert_eq!(
        read_text_list(&Yaml::Sequence(vec![Yaml::Bool(true)])).err().unwrap(),
        "invalid type: boolean `true`, expected a string"
    );
    assert!(read_text_list(&Yaml::Null).unwrap().is_empty());
}

#[test]
fn retention_settings_exclude_each_other() {
    let mut config = LogRetentionConfig::default();
    assert!(config.validate().is_ok());
    config.on_exit = Some(LogRetention::Retain);
    config.on_failure = Some(LogRetention::Clear);
    assert!(config.validate().unwrap_err().contains("'on_exit' and 'on_failure'"));
}

#[test]
fn log_sizes_fall_back_to_the_global_ones() {
    let sized = |size: &str| LogConfig {
        max_size: ConfigValue::Static(Some(size.to_string())),
        ..Default::default()
    };
    let global = sized("1M");
    assert_eq!(resolve_log_max_size(Some(&sized("2K")), Some(&global)), Some(2048));
    assert_eq!(resolve_log_max_size(None, Some(&global)), Some(1048576));
    assert_eq!(resolve_log_max_size(None, None), None);
    assert_eq!(resolve_log_buffer_size(None, None, 77), 77);
}

#[test]
fn service_names_are_checked() {
    assert!(validate_service_name("web-1_a").is_ok());
    assert!(validate_service_name("Web").unwrap_err().contains("invalid characters"));
    assert!(validate_service_name("").is_err());
}

#[test]
fn all_faults_are_listed() {
    let mut services = NameMap::new();
    services.insert("Bad".to_string(), RawServiceConfig::default());
    let config = KeplerConfig { lua: None, kepler: None, services };
    let message = config.validate("k.yaml").unwrap_err().message();
    assert!(message.contains("Configuration errors in k.yaml:\n  - Service name 'Bad'"));
    assert!(message.contains("\n  - Service 'Bad': either 'command' or 'run' is required"));
}

#[test]
fn configurations_are_loaded_once() {
    let mut registry = ConfigRegistry::new(100_900_000_000);
    assert_eq!(registry.uptime_secs(161_000_000_000), 60);
    assert_eq!(registry.uptime_secs(101_100_000_000), 0);
    assert_eq!(registry.uptime_secs(90_000_000_000), 0);
    assert_eq!(ConfigRegistry::new(i64::MIN).uptime_secs(i64::MAX), 18_446_744_073);
    assert_eq!(registry.get_or_reserve("/a", "h".to_string()), Lookup::Load);
    assert_eq!(registry.get("/a"), None);
    registry.finish_load("/a", "h".to_string(), Some(5));
    assert_eq!(registry.get_or_reserve("/a", "h".to_string()), Lookup::Loaded(5));
    assert_eq!(registry.find_hash("h"), Some(5));
    assert_eq!(registry.list_paths(), vec!["/a".to_string()]);
    assert_eq!(registry.unload("/a"), Some(5));
    assert_eq!(registry.find_hash("h"), None);
    registry.get_or_reserve("/b", "g".to_string());
    registry.finish_load("/b", "g".to_string(), None);
    assert!(registry.list_paths().is_empty());
    registry.finish_load("/c", "k".to_string(), Some(6));
    registry.clear();
    assert_eq!(registry.get("/c"), None);
}

#[test]
fn stopped_configurations_can_be_pruned() {
    assert!(can_prune_config(None));
    assert!(can_prune_config(Some(true)));
    assert!(!can_prune_config(Some(false)));
    let statuses: Vec<String> =
        ["running", "stopped", "healthy", "unhealthy"].iter().map(|s| s.to_string()).collect();
    assert_eq!(running_count(&statuses), 3);
}

#[test]
fn containment_picks_its_targets() {
    let groups = ContainmentManager::detect(Some("/sys/fs/cgroup/kepler".to_string()));
    let tree = ContainmentManager::detect(None);
    assert!(groups.has_cgroup() && !tree.has_cgroup());
    assert_eq!(groups.cgroup_root(), Some("/sys/fs/cgroup/kepler"));
    assert_eq!(groups.force_kill_target(7), KillTarget::ControlGroup);
    assert_eq!(tree.force_kill_target(7), KillTarget::ProcessTree(7));
    assert_eq!(groups.orphan_action(2, None, false), OrphanAction::KillControlGroup);
    assert_eq!(tree.orphan_action(0, Some(7), true), OrphanAction::KillProcess(7));
    assert_eq!(tree.orphan_action(0, Some(7), false), OrphanAction::Leave);
}

#[test]
fn killing_a_group_ends() {
    let (mut kill, mut action) = CgroupKill::begin();
    let mut rounds = 0;
    while action != KillAction::Done {
        action = match action {
            KillAction::Kill => kill.after_kill(true),
            _ => kill.after_count(1),
        };
        rounds += 1;
        assert!(rounds < 100);
    }
    assert_eq!(kill.after_kill(false), KillAction::Done);
    assert_eq!(
        after_remove(RemoveOutcome::Busy, false),
        CleanupAction::KillAndRetry(Duration::from_millis(50))
    );
    assert_eq!(after_remove(RemoveOutcome::Busy, true), CleanupAction::Done);
}

#[test]
fn hashes_are_those_of_the_paths() {
    assert_eq!(
        config_hash("abc"),
        "ba7816bf8f01cfea414140de5dae2223b00361a396177a9cb410ff61f20015ad"
    );
}

#[test]
fn paths_are_joined() {
    assert_eq!(join("/a", "b"), "/a/b");
    assert_eq!(join("/a/", "b"), "/a/b");
    assert_eq!(join("/a", "/b"), "/b");
}

#[test]
fn errors_have_messages() {
    let parse = DaemonError::ConfigParse {
        path: "/k.yaml".to_string(),
        failure: ParseFailure {
            field: "services.a".to_string(),
            location: None,
            message: "unknown field".to_string(),
        },
    };
    let message = parse.message();
    assert!(message.contains("/k.yaml") && message.contains("services.a: unknown field"));
    assert!(DaemonError::ServiceNotFound("web".to_string()).message().contains("web"));
    assert!(DaemonError::DependencyCycle("a -> b".to_string()).message().contains("a -> b"));
}

#[test]
fn exit_codes_that_count_for_nothing_are_told() {
    let rule = |condition: DependencyCondition| DependencyConfig {
        condition,
        exit_code: ExitCodeFilter::from_entries(&vec![ExitCodeEntry::Single(1)]).unwrap(),
        ..Default::default()
    };
    let mut deps = NameMap::new();
    deps.insert("db".to_string(), rule(DependencyCondition::ServiceHealthy));
    deps.insert("job".to_string(), rule(DependencyCondition::ServiceFailed));
    let mut services = NameMap::new();
    services.insert(
        "web".to_string(),
        RawServiceConfig {
            depends_on: DependsOn(vec![DependencyEntry::Extended(deps)]),
            ..Default::default()
        },
    );
    let config = KeplerConfig { lua: None, kepler: None, services };
    assert_eq!(
        config.warnings(),
        vec![
            "Service 'web': exit_code filter on dependency 'db' has no effect with condition 'ServiceHealthy' (only service_failed and service_stopped support exit_code filtering)"
                .to_string(),
        ]
    );
}

#[test]
fn processes_are_known_by_their_start() {
    assert!(may_be_noted(Some(100), Some(105)));
    assert!(may_be_noted(Some(105), Some(100)));
    assert!(!may_be_noted(Some(100), Some(106)));
    assert!(!may_be_noted(Some(i64::MIN), Some(i64::MAX)));
    assert!(may_be_noted(None, Some(1)));
    assert!(may_be_noted(Some(1), None));
}
