//! Configurations that are computed when they are loaded.
use kepler_daemon::config::logs::LogRetention;
use kepler_daemon::config_actor::context::{Effect, TaskHandleType};
use kepler_daemon::eager::actor::{
    ConfigActor, ConfigCommand, ConfigReply, ExpandedConfigSnapshot, Source,
};
use kepler_daemon::eager::config::{
    expand_service_config, resolve_log_retention, KeplerConfig, LogConfig, ServiceConfig,
};
use kepler_daemon::eager::load::{lua_sources, process_lua_scripts};
use kepler_daemon::eager::lua::{eager_context, process_lua_tags_recursive};
use kepler_daemon::eager::restart::{RestartConfig, RestartPolicy};
use kepler_daemon::errors::{DaemonError, ParseFailure};
use kepler_daemon::lua_eval::{FileReader, LuaEvaluator, WithFiles};
use kepler_daemon::name_map::NameMap;
use kepler_daemon::state::ServiceStatus;
use kepler_daemon::value::{get_key, Number, Yaml};
use kepler_daemon::yaml::parse_tree;

fn parse(text: &str) -> Yaml {
    parse_tree(text).unwrap()
}

fn get<'a>(value: &'a Yaml, key: &str) -> &'a Yaml {
    match value {
        Yaml::Mapping(entries) => get_key(entries, key).unwrap(),
        _ => panic!("not a mapping"),
    }
}

fn texts(value: &Yaml) -> Vec<&str> {
    match value {
        Yaml::Sequence(items) => items.iter().map(|v| v.as_str().unwrap()).collect(),
        _ => panic!("not a list"),
    }
}

fn vars(list: &[(&str, &str)]) -> NameMap<String> {
    let mut map = NameMap::new();
    for (k, v) in list {
        map.insert(k.to_string(), v.to_string());
    }
    map
}

fn files(path: &str) -> Result<Vec<u8>, String> {
    match path {
        "/etc/extra.lua" => Ok(b"return 'from ' .. 'file'".to_vec()),
        "/etc/.env" => Ok(b"PORT=9000\n".to_vec()),
        _ => Err("not found".to_string()),
    }
}

fn service() -> ServiceConfig {
    ServiceConfig {
        command: vec!["run".to_string()],
        working_dir: None,
        environment: vec![],
        env_file: None,
        restart: RestartConfig::Simple(RestartPolicy::No),
        depends_on: vec![],
        healthcheck: None,
        hooks: None,
        logs: None,
        user: None,
        group: None,
        limits: None,
    }
}

fn config(names: &[&str]) -> KeplerConfig {
    let mut services = NameMap::new();
    for name in names {
        services.insert(name.to_string(), service());
    }
    KeplerConfig { lua: None, lua_import: vec![], hooks: None, logs: None, services }
}

fn envs() -> NameMap<NameMap<String>> {
    let mut map = NameMap::new();
    map.insert("db".to_string(), vars(&[("A", "1")]));
    map
}

fn fresh() -> ConfigActor {
    ConfigActor::create(
        "/etc/kepler.yaml".to_string(),
        "/state".to_string(),
        Source::Fresh {
            config: Ok(config(&["db", "web"])),
            parent: Some("/etc".to_string()),
            envs: envs(),
        },
    )
    .unwrap()
}

fn tell(actor: &mut ConfigActor, cmd: ConfigCommand) -> (Vec<Effect>, String) {
    let mut effects = Vec::new();
    let outcome = actor.process_command(cmd, &mut effects);
    let reply = format!("{:?}", outcome.reply);
    (effects, reply)
}

#[test]
fn code_in_a_tree_is_run() {
    let reader = FileReader::new(files);
    let mut scripts = WithFiles::new(LuaEvaluator::new().unwrap(), &reader);
    let ctx = eager_context(Some("web"), None, &vars(&[("HOME", "/h")]), &vars(&[]), &vars(&[("A", "1")]));
    let tree = parse("a: !lua 'return env.A .. service.name'\nb: !lua_file extra.lua\nc: [x]\n");
    let tree =
        process_lua_tags_recursive(&tree, &mut scripts, &ctx, "/etc", "/etc/k.yaml").unwrap();
    assert_eq!(get(&tree, "a").as_str(), Some("1web"));
    assert_eq!(get(&tree, "b").as_str(), Some("from file"));
    assert_eq!(texts(get(&tree, "c")), vec!["x"]);
}

#[test]
fn missing_code_file_is_named() {
    let reader = FileReader::new(files);
    let mut scripts = WithFiles::new(LuaEvaluator::new().unwrap(), &reader);
    let none = vars(&[]);
    let ctx = eager_context(None, None, &none, &none, &none);
    let tree = parse("!lua_file other.lua");
    let err = process_lua_tags_recursive(&tree, &mut scripts, &ctx, "/etc", "/k").unwrap_err();
    assert!(matches!(err, DaemonError::LuaError { message, .. }
        if message == "Failed to read /etc/other.lua: not found"));
}

#[test]
fn services_see_their_environment_files() {
    let reader = FileReader::new(files);
    let mut scripts = WithFiles::new(LuaEvaluator::new().unwrap(), &reader);
    let root = parse(
        "services:\n  web:\n    env_file: .env\n    environment: !lua 'return {\"P=\" .. service.env_file.PORT}'\n    command: !lua 'return {\"serve\", env.P}'\n",
    );
    let sys = vars(&[]);
    let root = process_lua_scripts(&root, &mut scripts, &sys, "/etc", "/etc/k.yaml").unwrap();
    let web = get(get(&root, "services"), "web");
    assert_eq!(texts(get(web, "environment")), vec!["P=9000"]);
    assert_eq!(texts(get(web, "command")), vec!["serve", "9000"]);
}

#[test]
fn sources_of_code_are_found() {
    let root = parse("lua: x = 1\nlua_import: [a.lua, /b.lua]\n");
    let (code, imports) = lua_sources(&root, "/etc");
    assert_eq!(code.as_deref(), Some("x = 1"));
    assert_eq!(imports, vec!["/etc/a.lua".to_string(), "/b.lua".to_string()]);
}

#[test]
fn settings_are_filled_in() {
    let mut web = service();
    web.command = vec!["$BIN".to_string(), "${PORT}".to_string()];
    web.user = Some("${BIN:+u}".to_string());
    web.group = Some("${GHOST:+g}".to_string());
    web.environment = vec!["PORT=80".to_string(), "URL=http://x:$PORT".to_string()];
    web.working_dir = Some("~/app".to_string());
    expand_service_config(&mut web, vars(&[("BIN", "srv"), ("HOME", "/h"), ("PORT", "1")]));
    assert_eq!(web.environment, vec!["PORT=80".to_string(), "URL=http://x:80".to_string()]);
    assert_eq!(web.working_dir.as_deref(), Some("/h/app"));
    assert_eq!(web.user.as_deref(), Some("u"));
    assert_eq!(web.group.as_deref(), Some(""));
    assert_eq!(web.command, vec!["$BIN".to_string(), "${PORT}".to_string()]);
}

#[test]
fn faults_are_listed() {
    let mut bad = config(&["web"]);
    bad.services.get_mut("web").unwrap().command.clear();
    bad.services.get_mut("web").unwrap().depends_on.push("ghost".to_string());
    let message = bad.validate("k.yaml").unwrap_err().message();
    assert!(message.contains("'command' is required and must be a non-empty array"));
    assert!(message.contains("'ghost'"));
    assert!(config(&["web"]).validate("k.yaml").is_ok());
}

#[test]
fn retention_falls_back() {
    let r = resolve_log_retention(None, None, &|c: &LogConfig| c.get_on_stop(), LogRetention::Clear);
    assert_eq!(r, LogRetention::Clear);
}

#[test]
fn fresh_services_have_their_environments() {
    let actor = fresh();
    let db = actor.services.get("db").unwrap();
    assert_eq!(db.computed_env.get("A").unwrap(), "1");
    assert_eq!(db.working_dir, "/etc");
    assert_eq!(actor.services.get("web").unwrap().computed_env.len(), 0);
}

#[test]
fn reload_keeps_what_was_initialized() {
    let mut actor = fresh();
    tell(&mut actor, ConfigCommand::MarkServiceInitialized { service_name: "db".to_string() });
    tell(&mut actor, ConfigCommand::SetServiceStatus {
        service_name: "db".to_string(),
        status: ServiceStatus::Running,
    });
    let loaded = Ok((config(&["db", "new"]), NameMap::new()));
    tell(&mut actor, ConfigCommand::ReloadConfig { loaded });
    let db = actor.services.get("db").unwrap();
    assert!(db.initialized);
    assert_eq!(db.status, ServiceStatus::Stopped);
    assert!(!actor.services.get("new").unwrap().initialized);
    assert!(actor.services.get("web").is_none());
    let failed = Err(DaemonError::Internal("no".to_string()));
    let (_, reply) = tell(&mut actor, ConfigCommand::ReloadConfig { loaded: failed });
    assert!(reply.contains("Internal"));
    assert!(actor.services.get("db").is_some());
}

#[test]
fn process_exit_is_noted() {
    let mut actor = fresh();
    tell(&mut actor, ConfigCommand::SetServicePid {
        service_name: "db".to_string(),
        pid: Some(5),
        started_at: Some(1),
    });
    tell(&mut actor, ConfigCommand::RecordProcessExit {
        service_name: "db".to_string(),
        exit_code: Some(3),
    });
    let db = actor.services.get("db").unwrap();
    assert_eq!((db.pid, db.exit_code), (None, Some(3)));
    let (_, reply) = tell(&mut actor, ConfigCommand::RecordProcessExit {
        service_name: "ghost".to_string(),
        exit_code: None,
    });
    assert!(reply.contains("ServiceNotFound(\"ghost\")"));
}

#[test]
fn failed_checks_add_up() {
    let mut actor = fresh();
    tell(&mut actor, ConfigCommand::SetServiceStatus {
        service_name: "db".to_string(),
        status: ServiceStatus::Running,
    });
    let check = |passed| ConfigCommand::UpdateHealthCheck {
        service_name: "db".to_string(),
        passed,
        retries: 2,
    };
    tell(&mut actor, check(false));
    assert_eq!(actor.services.get("db").unwrap().status, ServiceStatus::Running);
    tell(&mut actor, check(false));
    assert_eq!(actor.services.get("db").unwrap().status, ServiceStatus::Unhealthy);
    tell(&mut actor, check(true));
    let db = actor.services.get("db").unwrap();
    assert_eq!((db.status, db.health_check_failures), (ServiceStatus::Healthy, 0));
}

#[test]
fn eager_tasks_are_ended() {
    let mut actor = fresh();
    for (handle_type, handle) in [(TaskHandleType::HealthCheck, 1), (TaskHandleType::FileWatcher, 2)] {
        tell(&mut actor, ConfigCommand::StoreTaskHandle {
            service_name: "db".to_string(),
            handle_type,
            handle,
        });
    }
    let (effects, _) = tell(&mut actor, ConfigCommand::CancelTaskHandle {
        service_name: "db".to_string(),
        handle_type: TaskHandleType::FileWatcher,
    });
    assert!(matches!(effects.as_slice(), [Effect::Abort(2)]));
    assert_eq!(actor.cleanup(), vec![1]);
}

#[test]
fn eager_states_are_restored() {
    let mut actor = fresh();
    tell(&mut actor, ConfigCommand::SetServiceStatus {
        service_name: "db".to_string(),
        status: ServiceStatus::Running,
    });
    let (service_envs, service_working_dirs) = actor.service_parts();
    let persisted = Some(actor.persisted_state(9));
    let again = ConfigActor::create(
        "/etc/kepler.yaml".to_string(),
        "/state".to_string(),
        Source::Snapshot {
            snapshot: ExpandedConfigSnapshot {
                config: config(&["db", "web"]),
                service_envs,
                service_working_dirs,
                config_dir: "/etc".to_string(),
                snapshot_time: 9,
            },
            persisted,
        },
    )
    .unwrap();
    let db = again.services.get("db").unwrap();
    assert_eq!(db.status, ServiceStatus::Running);
    assert_eq!(db.computed_env.get("A").unwrap(), "1");
    assert!(again.snapshot_taken && again.restored_from_snapshot);
}

#[test]
fn eager_questions_are_answered() {
    let mut actor = fresh();
    let mut effects = Vec::new();
    let cmd = ConfigCommand::GetServiceContext { service_name: "db".to_string() };
    match actor.process_command(cmd, &mut effects).reply {
        ConfigReply::Context(Some(c)) => {
            assert_eq!(c.env.get("A").unwrap(), "1");
            assert_eq!(c.working_dir, "/etc");
        }
        _ => panic!("expected a context"),
    }
    let cmd = ConfigCommand::GetServiceStatus { service: None };
    match actor.process_command(cmd, &mut effects).reply {
        ConfigReply::Status(Ok(list)) => assert_eq!(list.len(), 2),
        _ => panic!("expected states"),
    }
    assert!(effects.is_empty());
    let outcome = actor.process_command(ConfigCommand::Shutdown, &mut effects);
    assert!(outcome.shutdown);
    assert!(matches!(effects.as_slice(), [Effect::SaveState]));
}

#[test]
fn snapshot_is_forgotten_when_cleared() {
    let mut actor = fresh();
    actor.snapshot_taken = true;
    let failed = Err(DaemonError::Internal("disk".to_string()));
    tell(&mut actor, ConfigCommand::ClearSnapshot { cleared: failed });
    assert!(actor.snapshot_taken);
    tell(&mut actor, ConfigCommand::ClearSnapshot { cleared: Ok(()) });
    assert!(!actor.snapshot_taken);
}

/// Decodes services with a command, an environment and an environment file.
fn decode_config(root: &Yaml) -> Result<KeplerConfig, ParseFailure> {
    let mut services = NameMap::new();
    if let Yaml::Mapping(entries) = get(root, "services") {
        for (name, value) in entries {
            let list = |key: &str| match value {
                Yaml::Mapping(fields) => match get_key(fields, key) {
                    Some(v) => texts(v).into_iter().map(String::from).collect(),
                    None => Vec::new(),
                },
                _ => Vec::new(),
            };
            let env_file = match value {
                Yaml::Mapping(fields) => {
                    get_key(fields, "env_file").and_then(|v| v.as_str()).map(String::from)
                }
                _ => {
                    return Err(ParseFailure {
                        field: "services".to_string(),
                        location: None,
                        message: "expected a mapping".to_string(),
                    })
                }
            };
            services.insert(
                name.as_str().unwrap().to_string(),
                ServiceConfig {
                    command: list("command"),
                    environment: list("environment"),
                    env_file,
                    ..service()
                },
            );
        }
    }
    Ok(KeplerConfig { lua: None, lua_import: Vec::new(), hooks: None, logs: None, services })
}

fn decode_contents(text: &str) -> Result<KeplerConfig, ParseFailure> {
    match parse_tree(text) {
        Ok(root) => decode_config(&root),
        Err(failure) => Err(failure),
    }
}

fn load(text: &str, sys_env: &[(&str, &str)]) -> Result<KeplerConfig, DaemonError> {
    let reader = FileReader::new(files);
    KeplerConfig::load(
        "/etc/k.yaml",
        "/etc",
        text,
        &vars(sys_env),
        &reader,
        &decode_config,
        &decode_contents,
    )
}

#[test]
fn configuration_is_computed_filled_in_and_checked() {
    let config = load(
        "lua: |\n  function word() return \"serve\" end\nservices:\n  web:\n    command: !lua 'return {word()}'\n    env_file: ${DIR}/.env\n    environment: ['URL=http://h:${PORT}']\n",
        &[("DIR", "/etc"), ("PORT", "1")],
    )
    .unwrap();
    let web = config.services.get("web").unwrap();
    assert_eq!(web.command, vec!["serve".to_string()]);
    assert_eq!(web.env_file.as_deref(), Some("/etc/.env"));
    assert_eq!(web.environment, vec!["URL=http://h:9000".to_string()]);
}

#[test]
fn configuration_without_code_runs_none() {
    let config = load("lua: error('no')\nservices:\n  web:\n    command: [serve]\n", &[]).unwrap();
    assert_eq!(config.services.get("web").unwrap().command, vec!["serve".to_string()]);
}

#[test]
fn paths_of_environment_files_know_the_home_directory() {
    let text = "services:\n  web:\n    command: [serve]\n    env_file: '~/${SUB:+conf/}.env'\n";
    let config = load(text, &[("HOME", "/home/ann"), ("SUB", "x")]).unwrap();
    let file = config.services.get("web").unwrap().env_file.clone();
    assert_eq!(file.as_deref(), Some("/home/ann/conf/.env"));
}

#[test]
fn faults_of_a_configuration_are_told() {
    let err = load("services:\n  Web:\n    command: []\n", &[]).unwrap_err();
    assert!(err.message().contains("'command' is required and must be a non-empty array"));
    let err = load("services:\n  web: 3\n", &[]).unwrap_err();
    assert!(matches!(err, DaemonError::ConfigParse { path, .. } if path == "/etc/k.yaml"));
    let err = load("lua: error('no')\nservices:\n  web: !lua 'return 1'\n", &[]).unwrap_err();
    assert!(err.message().contains("Error in lua: block: "));
    let err = load("lua_import: [gone.lua]\nservices:\n  web: !lua 'return 1'\n", &[]).unwrap_err();
    assert!(err.message().contains("Error loading /etc/gone.lua: not found"));
}
