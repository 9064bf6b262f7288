//! Configurations.
use kepler_daemon::config::config_value::ConfigValue;
use kepler_daemon::config::deps::DependsOn;
use kepler_daemon::config::duration::{parse_duration, Duration};
use kepler_daemon::config::environment::EnvironmentEntries;
use kepler_daemon::config::expand::resolve_inherit_env;
use kepler_daemon::config::health::HealthCheck;
use kepler_daemon::config::hooks::{HookCommon, HookList, ServiceHooks};
use kepler_daemon::config::logs::LogConfig;
use kepler_daemon::config::read::{
    read_opt_flag, read_opt_text, read_text, read_text_list,
};
use kepler_daemon::config::resolve_service::Decoders;
use kepler_daemon::config::resources::ResourceLimits;
use kepler_daemon::config::restart::{RestartConfig, RestartPolicy};
use kepler_daemon::config::service::{
    resolve_shell, AclConfig, AclRule, AutostartConfig, KeplerConfig, KeplerGlobalConfig,
    RawServiceConfig, ServiceConfig, ServicePermissions,
};
use kepler_daemon::errors::{DaemonError, ParseFailure};
use kepler_daemon::lua_eval::{EvalContext, LuaEvaluator, ServiceEvalContext};
use kepler_daemon::name_map::NameMap;
use kepler_daemon::shown::show;
use kepler_daemon::value::{get_key, Number, Yaml};
use kepler_daemon::yaml::parse_tree;

const PATH: &str = "/tmp/test.yaml";

fn parse(text: &str) -> Yaml {
    parse_tree(text).unwrap()
}

/// The value of a key, or null.
fn get<'a>(value: &'a Yaml, key: &str) -> &'a Yaml {
    match value.untag() {
        Yaml::Mapping(entries) => get_key(entries, key).unwrap_or(&Yaml::Null),
        _ => &Yaml::Null,
    }
}

fn entries_of(value: &Yaml) -> Vec<(String, &Yaml)> {
    match value.untag() {
        Yaml::Mapping(entries) => {
            entries.iter().map(|(k, v)| (k.as_str().unwrap().to_string(), v)).collect()
        }
        _ => Vec::new(),
    }
}

fn texts(value: &Yaml) -> Vec<String> {
    match value.untag() {
        Yaml::Sequence(items) => items.iter().map(|v| v.as_str().unwrap().to_string()).collect(),
        _ => Vec::new(),
    }
}

fn text_field(value: &Yaml, key: &str) -> Result<ConfigValue<Option<String>>, String> {
    ConfigValue::from_value(get(value, key), &read_opt_text)
}

fn list_field(value: &Yaml, key: &str) -> Result<ConfigValue<Vec<ConfigValue<String>>>, String> {
    ConfigValue::from_value(get(value, key), &read_text_list)
}

fn span(value: &Yaml, key: &str, default: Duration) -> Result<Duration, String> {
    match read_opt_text(get(value, key))? {
        Some(t) => parse_duration(&t),
        None => Ok(default),
    }
}

fn decode_common(value: &Yaml) -> Result<HookCommon, String> {
    Ok(HookCommon {
        user: text_field(value, "user")?,
        groups: list_field(value, "groups")?,
        working_dir: text_field(value, "working_dir")?,
        environment: ConfigValue::from_value(
            get(value, "environment"),
            &EnvironmentEntries::from_value,
        )?,
        env_file: text_field(value, "env_file")?,
        condition: text_field(value, "if")?,
        output: read_opt_text(get(value, "output"))?,
        limits: ConfigValue::Static(None),
    })
}

fn decode_hooks(value: &Yaml) -> Result<Option<ServiceHooks>, String> {
    if let Yaml::Null = value {
        return Ok(None);
    }
    let hooks = |key: &str| match get(value, key) {
        Yaml::Null => Ok(None),
        v => HookList::from_value(v, &decode_common).map(Some),
    };
    Ok(Some(ServiceHooks {
        pre_start: hooks("pre_start")?,
        post_start: hooks("post_start")?,
        pre_stop: hooks("pre_stop")?,
        post_stop: hooks("post_stop")?,
        pre_restart: hooks("pre_restart")?,
        post_restart: hooks("post_restart")?,
        post_exit: hooks("post_exit")?,
        pre_cleanup: hooks("pre_cleanup")?,
        post_healthcheck_success: hooks("post_healthcheck_success")?,
        post_healthcheck_fail: hooks("post_healthcheck_fail")?,
    }))
}

fn decode_health_check(value: &Yaml) -> Result<Option<HealthCheck>, String> {
    if let Yaml::Null = value {
        return Ok(None);
    }
    Ok(Some(HealthCheck {
        command: list_field(value, "command")?,
        run: text_field(value, "run")?,
        interval: span(value, "interval", Duration::from_secs(30))?,
        timeout: span(value, "timeout", Duration::from_secs(30))?,
        retries: 3,
        start_period: span(value, "start_period", Duration::from_secs(0))?,
        user: text_field(value, "user")?,
        groups: list_field(value, "groups")?,
        user_identity: None,
    }))
}

fn decode_restart(value: &Yaml) -> Result<RestartConfig, String> {
    if let Yaml::Null = value {
        return Ok(RestartConfig::default());
    }
    RestartConfig::from_value(value, &|v: &Yaml| {
        let policy = match read_opt_text(get(v, "policy"))? {
            Some(t) => RestartPolicy::parse(&t)?,
            None => RestartPolicy::no(),
        };
        Ok((policy, list_field(v, "watch")?))
    })
}

fn decode_limits(_value: &Yaml) -> Result<Option<ResourceLimits>, String> {
    Ok(None)
}

fn decode_logs(value: &Yaml) -> Result<Option<LogConfig>, String> {
    match value {
        Yaml::Null => Ok(None),
        _ => Ok(Some(LogConfig::default())),
    }
}

fn decode_outputs(value: &Yaml) -> Result<Option<NameMap<ConfigValue<String>>>, String> {
    if let Yaml::Null = value {
        return Ok(None);
    }
    let mut map = NameMap::new();
    for (name, v) in entries_of(value) {
        map.insert(name, ConfigValue::from_value(v, &read_text)?);
    }
    Ok(Some(map))
}

fn decode(value: &Yaml) -> Result<RawServiceConfig, String> {
    Ok(RawServiceConfig {
        command: list_field(value, "command")?,
        run: text_field(value, "run")?,
        working_dir: text_field(value, "working_dir")?,
        environment: ConfigValue::from_value(
            get(value, "environment"),
            &EnvironmentEntries::from_value,
        )?,
        env_file: text_field(value, "env_file")?,
        inherit_env: read_opt_flag(get(value, "inherit_env"))?,
        restart: ConfigValue::from_value(get(value, "restart"), &decode_restart)?,
        depends_on: DependsOn::from_names(texts(get(value, "depends_on"))),
        healthcheck: ConfigValue::from_value(get(value, "healthcheck"), &decode_health_check)?,
        hooks: decode_hooks(get(value, "hooks"))?,
        user: text_field(value, "user")?,
        groups: list_field(value, "groups")?,
        output: ConfigValue::from_value(get(value, "output"), &read_opt_flag)?,
        outputs: ConfigValue::from_value(get(value, "outputs"), &decode_outputs)?,
        permissions: ServicePermissions::of_service(value)?,
        ..Default::default()
    })
}

fn failure(message: String) -> ParseFailure {
    ParseFailure { field: String::new(), location: None, message }
}

fn decode_service(value: &Yaml) -> Result<RawServiceConfig, ParseFailure> {
    decode(value).map_err(failure)
}

fn decode_rules(value: &Yaml) -> NameMap<AclRule> {
    let mut map = NameMap::new();
    for (name, v) in entries_of(value) {
        let authorize = get(v, "authorize").as_str().map(String::from);
        map.insert(name, AclRule { allow: texts(get(v, "allow")), authorize });
    }
    map
}

fn decode_settings(value: &Yaml) -> Result<KeplerGlobalConfig, ParseFailure> {
    let acl = match get(value, "acl") {
        Yaml::Null => None,
        v => Some(AclConfig {
            lua: None,
            aliases: NameMap::new(),
            users: decode_rules(get(v, "users")),
            groups: decode_rules(get(v, "groups")),
        }),
    };
    let autostart = AutostartConfig::from_value(get(value, "autostart"), &|v: &Yaml| {
        ConfigValue::from_value(get(v, "environment"), &EnvironmentEntries::from_value)
    })
    .map_err(failure)?;
    Ok(KeplerGlobalConfig {
        default_inherit_env: read_opt_flag(get(value, "default_inherit_env")).map_err(failure)?,
        output_max_size: read_opt_text(get(value, "output_max_size")).map_err(failure)?,
        autostart,
        acl,
        ..Default::default()
    })
}

/// The configuration as it stands in a text.
fn config_of(text: &str) -> KeplerConfig {
    let root = parse(text);
    let mut services = NameMap::new();
    for (name, v) in entries_of(get(&root, "services")) {
        services.insert(name, decode(v).unwrap());
    }
    KeplerConfig {
        lua: read_opt_text(get(&root, "lua")).unwrap(),
        kepler: match get(&root, "kepler") {
            Yaml::Null => None,
            v => Some(decode_settings(v).unwrap()),
        },
        services,
    }
}

fn service_of(text: &str) -> RawServiceConfig {
    decode(&parse(text)).unwrap()
}

fn load(text: &str) -> Result<KeplerConfig, DaemonError> {
    KeplerConfig::load_without_sys_env(
        "/tmp/kepler.yaml",
        text,
        &decode_settings,
        &decode_service,
    )
}

fn resolve(
    config: &KeplerConfig,
    ctx: &mut EvalContext,
    evaluator: &mut LuaEvaluator,
    default_user: Option<&str>,
) -> ServiceConfig {
    let decoders = Decoders {
        health_check: decode_health_check,
        limits: decode_limits,
        restart: decode_restart,
        logs: decode_logs,
    };
    config.resolve_service("svc", ctx, evaluator, PATH, default_user, None, true, &decoders).unwrap()
}

#[test]
fn config_test_parse_duration() {
    assert_eq!(parse_duration("10s").unwrap(), Duration::from_secs(10));
    assert_eq!(parse_duration("5m").unwrap(), Duration::from_secs(300));
    assert_eq!(parse_duration("1h").unwrap(), Duration::from_secs(3600));
    assert_eq!(parse_duration("100ms").unwrap(), Duration::from_millis(100));
    assert_eq!(parse_duration("1d").unwrap(), Duration::from_secs(86400));
}

#[test]
fn tests_test_parse_duration() {
    assert_eq!(parse_duration("10s").unwrap(), Duration::from_secs(10));
    assert_eq!(parse_duration("5m").unwrap(), Duration::from_secs(300));
    assert_eq!(parse_duration("1h").unwrap(), Duration::from_secs(3600));
    assert_eq!(parse_duration("100ms").unwrap(), Duration::from_millis(100));
    assert_eq!(parse_duration("1d").unwrap(), Duration::from_secs(86400));
}

#[test]
fn test_resolve_inherit_env_service_overrides_global() {
    let result = resolve_inherit_env(None, Some(false), Some(true));
    assert_eq!(result, false);
}

#[test]
fn test_resolve_inherit_env_service_true_overrides_global_false() {
    let result = resolve_inherit_env(None, Some(true), Some(false));
    assert_eq!(result, true);
}

#[test]
fn test_resolve_inherit_env_uses_global_when_service_unset() {
    let result = resolve_inherit_env(None, None, Some(false));
    assert_eq!(result, false);
}

#[test]
fn test_resolve_inherit_env_falls_back_to_true() {
    let result = resolve_inherit_env(None, None, None);
    assert_eq!(result, true);
}

#[test]
fn test_kepler_namespace_parsing() {
    let yaml = r#"
kepler:
  default_inherit_env: true

services:
  app:
    command: ["./app"]
"#;
    let config = config_of(yaml);

    assert!(config.kepler.is_some());
    let kepler = config.kepler.as_ref().unwrap();
    assert_eq!(kepler.default_inherit_env, Some(true));
    assert_eq!(config.global_default_inherit_env(), Some(true));
}

#[test]
fn test_kepler_namespace_empty() {
    let yaml = r#"
services:
  app:
    command: ["./app"]
"#;
    let config = config_of(yaml);
    assert!(config.kepler.is_none());
    assert!(config.global_default_inherit_env().is_none());
    assert!(config.global_logs().is_none());
}

#[test]
fn test_raw_service_config_depends_on() {
    let yaml = r#"
depends_on:
  - db
  - cache
command: ["./app"]
"#;
    let raw = service_of(yaml);
    let deps = raw.depends_on.names();
    assert!(deps.contains(&"db".to_string()));
    assert!(deps.contains(&"cache".to_string()));
}

#[test]
fn test_raw_service_config_has_healthcheck() {
    let yaml = r#"
command: ["./app"]
healthcheck:
  command: ["curl", "localhost"]
  interval: 1s
"#;
    let raw = service_of(yaml);
    assert!(raw.has_healthcheck());

    let yaml_no_hc = r#"
command: ["./app"]
"#;
    let raw_no_hc = service_of(yaml_no_hc);
    assert!(!raw_no_hc.has_healthcheck());
}

#[test]
fn test_config_value_static_vs_dynamic() {
    let yaml = r#"
command: ["./app"]
environment:
  - FOO=bar
"#;
    let raw = service_of(yaml);
    assert!(!raw.command.is_dynamic());
    assert!(!raw.environment.is_dynamic());

    // With the new design, sequences are always Static at the outer level.
    // Inner elements with ${{ }}$ are individually Dynamic.
    let yaml_dynamic = r#"
command: ["./app", "${{ service.env.HOME }}$"]
environment:
  - FOO=${{ service.env.HOME }}$
"#;
    let raw_dyn = service_of(yaml_dynamic);
    // Outer level is Static (sequence), inner elements have dynamic content
    assert!(!raw_dyn.command.is_dynamic());
    assert!(!raw_dyn.environment.is_dynamic());
    // Verify inner elements: first is static, second is dynamic
    let cmd_items = raw_dyn.command.as_static().unwrap();
    assert!(!cmd_items[0].is_dynamic());
    assert!(cmd_items[1].is_dynamic());
    let env_items = &raw_dyn.environment.as_static().unwrap().0;
    assert!(env_items[0].is_dynamic());

    // Top-level !lua makes the outer ConfigValue dynamic
    let yaml_lua = r#"
command: !lua |
  return {"./app", service.env.HOME}
"#;
    let raw_lua = service_of(yaml_lua);
    assert!(raw_lua.command.is_dynamic());
}

#[test]
fn test_resolve_default_user_root_noop() {
    let yaml = r#"
services:
  svc:
    command: ["./svc"]
"#;
    let mut config = config_of(yaml);
    config.resolve_default_user(0, 0);

    // Root is no-op - user stays None
    let svc = config.services.get("svc").unwrap();
    assert!(matches!(&svc.user, ConfigValue::Static(None)));
}

#[test]
fn test_resolve_default_user_bakes_into_services() {
    let yaml = r#"
services:
  svc:
    command: ["./svc"]
"#;
    let mut config = config_of(yaml);
    config.resolve_default_user(1000, 1000);

    let svc = config.services.get("svc").unwrap();
    assert_eq!(svc.user.as_static().unwrap(), &Some("1000:1000".to_string()));
}

#[test]
fn test_resolve_service_dynamic_user_fallback_to_default() {
    // Dynamic user that resolves to nil -> should fall back to default_user
    let yaml = r#"
services:
  svc:
    command: ["./svc"]
    user: "${{ nil }}$"
"#;
    let config = config_of(yaml);
    assert!(config.services.get("svc").unwrap().user.is_dynamic());

    let mut evaluator = config.create_lua_evaluator().unwrap();
    let mut ctx = EvalContext::default();

    // With default_user -> falls back
    let resolved = resolve(&config, &mut ctx, &mut evaluator, Some("1000:1000"));
    assert_eq!(resolved.user, Some("1000:1000".to_string()));
}

#[test]
fn test_resolve_service_dynamic_user_no_fallback_without_default() {
    // Dynamic user that resolves to nil, no default_user -> stays None
    let yaml = r#"
services:
  svc:
    command: ["./svc"]
    user: "${{ nil }}$"
"#;
    let config = config_of(yaml);
    let mut evaluator = config.create_lua_evaluator().unwrap();
    let mut ctx = EvalContext::default();

    let resolved = resolve(&config, &mut ctx, &mut evaluator, None);
    assert_eq!(resolved.user, None);
}

#[test]
fn test_resolve_service_dynamic_user_explicit_overrides_default() {
    // Dynamic user that resolves to an explicit value -> default_user is NOT used
    let yaml = r#"
lua: |
  function get_user() return "nobody" end

services:
  svc:
    command: ["./svc"]
    user: "${{ get_user() }}$"
"#;
    let config = config_of(yaml);
    let mut evaluator = config.create_lua_evaluator().unwrap();
    let mut ctx = EvalContext::default();

    let resolved = resolve(&config, &mut ctx, &mut evaluator, Some("1000:1000"));
    assert_eq!(resolved.user, Some("nobody".to_string()));
}

#[test]
fn test_run_field_parses_static() {
    let yaml = r#"
run: "echo hello"
"#;
    let raw = service_of(yaml);
    assert!(raw.has_run());
    assert!(!raw.has_command());
    assert!(!raw.run.is_dynamic());
    assert_eq!(raw.run.as_static().unwrap(), &Some("echo hello".to_string()));
}

#[test]
fn test_run_field_dynamic() {
    let yaml = r#"
run: "echo ${{ service.env.HOME }}$"
"#;
    let raw = service_of(yaml);
    assert!(raw.has_run());
    assert!(raw.run.is_dynamic());
}

#[test]
fn test_run_and_command_mutually_exclusive() {
    let yaml = r#"
services:
  svc:
    command: ["./app"]
    run: "echo hello"
"#;
    let config = config_of(yaml);
    let err = config.validate("test.yaml").unwrap_err();
    let msg = err.message();
    assert!(msg.contains("'command' and 'run' are mutually exclusive"), "got: {}", msg);
}

#[test]
fn test_neither_run_nor_command_fails_validation() {
    let yaml = r#"
services:
  svc:
    environment:
      - FOO=bar
"#;
    let config = config_of(yaml);
    let err = config.validate("test.yaml").unwrap_err();
    let msg = err.message();
    assert!(msg.contains("either 'command' or 'run' is required"), "got: {}", msg);
}

#[test]
fn test_run_resolves_to_sh_c() {
    let yaml = r#"
services:
  svc:
    run: "echo hello && echo world"
"#;
    let config = config_of(yaml);
    let mut evaluator = config.create_lua_evaluator().unwrap();
    let mut ctx = EvalContext::default();

    let resolved = resolve(&config, &mut ctx, &mut evaluator, None);
    let expected_shell = resolve_shell(&ctx.kepler_env, true);
    assert_eq!(resolved.command, vec![expected_shell, "-c".to_string(), "echo hello && echo world".to_string()]);
}

#[test]
fn test_depends_on_lua_tag_rejected_with_clear_error() {
    let yaml = r#"
services:
  svc:
    command: ["./svc"]
    depends_on: !lua |
      return { "db" }
"#;
    let err = load(yaml).unwrap_err();
    let msg = err.message();
    assert!(msg.contains("svc.depends_on"), "Error should mention field path, got: {}", msg);
    assert!(msg.contains("!lua is not allowed on depends_on itself"), "Error should explain restriction, got: {}", msg);
}

#[test]
fn test_hook_output_field_parsing() {
    let yaml = r#"
services:
  svc:
    command: ["./app"]
    restart: no
    hooks:
      pre_start:
        run: "echo hello"
        output: step1
"#;
    let config = config_of(yaml);
    let raw = config.services.get("svc").unwrap();
    let hooks = raw.hooks.as_ref().unwrap();
    let hook = &hooks.pre_start.as_ref().unwrap().0[0];
    assert_eq!(hook.output(), Some("step1"));
}

#[test]
fn test_hook_output_field_default() {
    let yaml = r#"
services:
  svc:
    command: ["./app"]
    hooks:
      pre_start:
        run: "echo hello"
"#;
    let config = config_of(yaml);
    let raw = config.services.get("svc").unwrap();
    let hooks = raw.hooks.as_ref().unwrap();
    let hook = &hooks.pre_start.as_ref().unwrap().0[0];
    assert_eq!(hook.output(), None);
}

#[test]
fn test_service_output_field_parsing() {
    let yaml = r#"
services:
  svc:
    command: ["./app"]
    restart: no
    output: true
"#;
    let config = config_of(yaml);
    let raw = config.services.get("svc").unwrap();
    assert_eq!(raw.output.as_static(), Some(&Some(true)));
}

#[test]
fn test_service_outputs_field_parsing() {
    let yaml = r#"
services:
  svc:
    command: ["./app"]
    restart: no
    outputs:
      port: "8080"
      host: "localhost"
"#;
    let config = config_of(yaml);
    let raw = config.services.get("svc").unwrap();
    let outputs = raw.outputs.as_static().unwrap().as_ref().unwrap();
    assert_eq!(outputs.get("port").and_then(|v| v.as_static()), Some(&"8080".to_string()));
    assert_eq!(outputs.get("host").and_then(|v| v.as_static()), Some(&"localhost".to_string()));
}

#[test]
fn test_output_max_size_parsing() {
    let yaml = r#"
kepler:
  output_max_size: 2mb

services:
  svc:
    command: ["./app"]
"#;
    let config = config_of(yaml);
    assert_eq!(config.output_max_size(), 2 * 1024 * 1024);
}

#[test]
fn test_output_max_size_default() {
    let yaml = r#"
services:
  svc:
    command: ["./app"]
"#;
    let config = config_of(yaml);
    assert_eq!(config.output_max_size(), 1048576); // 1MB
}

#[test]
fn test_validate_output_requires_restart_no() {
    let yaml = r#"
services:
  svc:
    command: ["./app"]
    restart: always
    output: true
"#;
    let config = config_of(yaml);
    let err = config.validate("test.yaml").unwrap_err();
    let msg = err.message();
    assert!(
        msg.contains("'output: true' is only allowed on services with 'restart: no'"),
        "got: {}",
        msg
    );
}

#[test]
fn test_validate_outputs_requires_restart_no() {
    let yaml = r#"
services:
  svc:
    command: ["./app"]
    restart: always
    outputs:
      port: "8080"
"#;
    let config = config_of(yaml);
    let err = config.validate("test.yaml").unwrap_err();
    let msg = err.message();
    assert!(
        msg.contains("'outputs' is only allowed on services with 'restart: no'"),
        "got: {}",
        msg
    );
}

#[test]
fn test_validate_output_with_restart_no_ok() {
    let yaml = r#"
services:
  svc:
    command: ["./app"]
    restart: no
    output: true
"#;
    let config = config_of(yaml);
    assert!(config.validate("test.yaml").is_ok());
}

#[test]
fn test_environment_map_format_static_strings() {
    let yaml = r#"
command: ["./app"]
environment:
  FOO: bar
  BAZ: qux
"#;
    let raw = service_of(yaml);
    let entries = &raw.environment.as_static().unwrap().0;
    assert_eq!(entries.len(), 2);
    // Map ordering may vary, so check both are present
    let statics: Vec<String> = entries.iter().filter_map(|e| e.as_static().cloned()).collect();
    assert!(statics.contains(&"FOO=bar".to_string()), "Expected FOO=bar, got: {:?}", statics);
    assert!(statics.contains(&"BAZ=qux".to_string()), "Expected BAZ=qux, got: {:?}", statics);
}

#[test]
fn test_environment_map_format_number_and_bool() {
    let yaml = r#"
command: ["./app"]
environment:
  PORT: 8080
  DEBUG: true
  EMPTY:
"#;
    let raw = service_of(yaml);
    let entries = &raw.environment.as_static().unwrap().0;
    assert_eq!(entries.len(), 3);
    let statics: Vec<String> = entries.iter().filter_map(|e| e.as_static().cloned()).collect();
    assert!(statics.contains(&"PORT=8080".to_string()), "Expected PORT=8080, got: {:?}", statics);
    assert!(statics.contains(&"DEBUG=true".to_string()), "Expected DEBUG=true, got: {:?}", statics);
    assert!(statics.contains(&"EMPTY=".to_string()), "Expected EMPTY=, got: {:?}", statics);
}

#[test]
fn test_environment_map_format_dynamic_value() {
    let yaml = r#"
command: ["./app"]
environment:
  HOME: "${{ service.env.HOME }}$"
"#;
    let raw = service_of(yaml);
    let entries = &raw.environment.as_static().unwrap().0;
    assert_eq!(entries.len(), 1);
    // Should be dynamic (Interpolated with KEY= prefix + Expression)
    assert!(entries[0].is_dynamic(), "Map value with ${{{{ }}}}$ should be dynamic");
}

#[test]
fn test_environment_map_format_embedded_dynamic() {
    let yaml = r#"
command: ["./app"]
environment:
  GREETING: "hello_${{ service.env.USER }}$_world"
"#;
    let raw = service_of(yaml);
    let entries = &raw.environment.as_static().unwrap().0;
    assert_eq!(entries.len(), 1);
    assert!(entries[0].is_dynamic(), "Map value with embedded ${{{{ }}}}$ should be dynamic");
}

#[test]
fn test_environment_map_format_lua_value() {
    let yaml = r#"
command: ["./app"]
environment:
  COMPUTED: !lua |
    return "value_from_lua"
"#;
    let raw = service_of(yaml);
    let entries = &raw.environment.as_static().unwrap().0;
    assert_eq!(entries.len(), 1);
    assert!(entries[0].is_dynamic(), "Map value with !lua should be dynamic");
}

#[test]
fn test_environment_null_is_empty() {
    let yaml = r#"
command: ["./app"]
environment:
"#;
    let raw = service_of(yaml);
    let entries = &raw.environment.as_static().unwrap().0;
    assert!(entries.is_empty(), "Null environment should deserialize to empty vec");
}

#[test]
fn test_environment_sequence_still_works() {
    let yaml = r#"
command: ["./app"]
environment:
  - FOO=bar
  - BAZ=qux
"#;
    let raw = service_of(yaml);
    let entries = &raw.environment.as_static().unwrap().0;
    assert_eq!(entries.len(), 2);
    assert_eq!(entries[0].as_static().unwrap(), "FOO=bar");
    assert_eq!(entries[1].as_static().unwrap(), "BAZ=qux");
}

#[test]
fn test_environment_map_resolves_correctly() {
    let yaml = r#"
lua: |
  function get_port() return 8080 end

services:
  svc:
    command: ["./app"]
    environment:
      STATIC_VAR: hello
      DYNAMIC_VAR: "${{ get_port() }}$"
"#;
    let config = config_of(yaml);
    let mut evaluator = config.create_lua_evaluator().unwrap();
    let mut ctx = EvalContext {
        service: Some(ServiceEvalContext::default()),
        ..Default::default()
    };

    let resolved = resolve(&config, &mut ctx, &mut evaluator, None);
    assert!(resolved.environment.contains(&"STATIC_VAR=hello".to_string()),
        "Expected STATIC_VAR=hello in {:?}", resolved.environment);
    assert!(resolved.environment.contains(&"DYNAMIC_VAR=8080".to_string()),
        "Expected DYNAMIC_VAR=8080 in {:?}", resolved.environment);
}

#[test]
fn test_environment_lua_returns_table_as_map() {

    // Top-level !lua returns a Lua table {FOO="bar", PORT="8080"}
    // This should be deserialized as a mapping -> EnvironmentEntries
    let yaml = r#"
lua: |
  function get_env()
    return {FOO="bar", PORT="8080"}
  end

services:
  svc:
    command: ["./app"]
    environment: !lua |
      return get_env()
"#;
    let config = load(yaml).unwrap();

    let mut evaluator = config.create_lua_evaluator().unwrap();
    let mut ctx = EvalContext {
        service: Some(ServiceEvalContext::default()),
        ..Default::default()
    };

    let resolved = resolve(&config, &mut ctx, &mut evaluator, None);
    assert!(resolved.environment.contains(&"FOO=bar".to_string()),
        "Expected FOO=bar in {:?}", resolved.environment);
    assert!(resolved.environment.contains(&"PORT=8080".to_string()),
        "Expected PORT=8080 in {:?}", resolved.environment);
}

#[test]
fn test_environment_expression_returns_table_as_map() {

    // Top-level ${{ }}$ returns a Lua table -> deserialized as mapping -> EnvironmentEntries
    let yaml = r#"
lua: |
  function build_env()
    return {APP_NAME="myapp", DEBUG="true"}
  end

services:
  svc:
    command: ["./app"]
    environment: "${{ build_env() }}$"
"#;
    let config = load(yaml).unwrap();

    let mut evaluator = config.create_lua_evaluator().unwrap();
    let mut ctx = EvalContext {
        service: Some(ServiceEvalContext::default()),
        ..Default::default()
    };

    let resolved = resolve(&config, &mut ctx, &mut evaluator, None);
    assert!(resolved.environment.contains(&"APP_NAME=myapp".to_string()),
        "Expected APP_NAME=myapp in {:?}", resolved.environment);
    assert!(resolved.environment.contains(&"DEBUG=true".to_string()),
        "Expected DEBUG=true in {:?}", resolved.environment);
}

#[test]
fn test_environment_lua_returns_array_of_strings() {

    // Lua returns {"FOO=bar", "PORT=8080"} (array of KEY=VALUE strings)
    // This should be deserialized as a sequence -> EnvironmentEntries
    let yaml = r#"
lua: |
  function get_env()
    return {"FOO=bar", "PORT=8080"}
  end

services:
  svc:
    command: ["./app"]
    environment: !lua |
      return get_env()
"#;
    let config = load(yaml).unwrap();

    let mut evaluator = config.create_lua_evaluator().unwrap();
    let mut ctx = EvalContext {
        service: Some(ServiceEvalContext::default()),
        ..Default::default()
    };

    let resolved = resolve(&config, &mut ctx, &mut evaluator, None);
    assert!(resolved.environment.contains(&"FOO=bar".to_string()),
        "Expected FOO=bar in {:?}", resolved.environment);
    assert!(resolved.environment.contains(&"PORT=8080".to_string()),
        "Expected PORT=8080 in {:?}", resolved.environment);
}

#[test]
fn permissions_list_form() {
    let yaml = r#"
services:
  svc:
    command: ["./app"]
    permissions: ["service:start", "config:status"]
"#;
    let config = config_of(yaml);
    let perms = config.services.get("svc").unwrap().permissions.as_ref().unwrap();
    assert_eq!(perms.allow, vec!["service:start", "config:status"]);
    assert!(perms.hardening.is_none());
}

#[test]
fn permissions_object_form() {
    let yaml = r#"
services:
  svc:
    command: ["./app"]
    permissions:
      allow: ["service:start", "config:status"]
      hardening: "strict"
"#;
    let config = config_of(yaml);
    let perms = config.services.get("svc").unwrap().permissions.as_ref().unwrap();
    assert_eq!(perms.allow, vec!["service:start", "config:status"]);
    assert_eq!(perms.hardening.as_deref(), Some("strict"));
}

#[test]
fn permissions_object_no_hardening() {
    let yaml = r#"
services:
  svc:
    command: ["./app"]
    permissions:
      allow: ["service:start"]
"#;
    let config = config_of(yaml);
    let perms = config.services.get("svc").unwrap().permissions.as_ref().unwrap();
    assert_eq!(perms.allow, vec!["service:start"]);
    assert!(perms.hardening.is_none());
}

#[test]
fn permissions_security_alias() {
    let yaml = r#"
services:
  svc:
    command: ["./app"]
    security: ["service:start"]
"#;
    let config = config_of(yaml);
    let perms = config.services.get("svc").unwrap().permissions.as_ref().unwrap();
    assert_eq!(perms.allow, vec!["service:start"]);
}

#[test]
fn permissions_absent() {
    let yaml = r#"
services:
  svc:
    command: ["./app"]
"#;
    let config = config_of(yaml);
    assert!(config.services.get("svc").unwrap().permissions.is_none());
}

#[test]
fn acl_users_and_groups() {
    let yaml = r#"
kepler:
  acl:
    users:
      "1000":
        allow: ["service:start"]
    groups:
      "2000":
        allow: ["config:status"]

services:
  svc:
    command: ["./app"]
"#;
    let config = config_of(yaml);
    let acl = config.kepler.as_ref().unwrap().acl.as_ref().unwrap();
    assert_eq!(acl.users.len(), 1);
    assert_eq!(acl.groups.len(), 1);
    assert_eq!(acl.users.get("1000").unwrap().allow, vec!["service:start"]);
    assert_eq!(acl.groups.get("2000").unwrap().allow, vec!["config:status"]);
}

#[test]
fn acl_only_groups() {
    let yaml = r#"
kepler:
  acl:
    groups:
      "2000":
        allow: ["config:status"]

services:
  svc:
    command: ["./app"]
"#;
    let config = config_of(yaml);
    let acl = config.kepler.as_ref().unwrap().acl.as_ref().unwrap();
    assert!(acl.users.len() == 0);
    assert_eq!(acl.groups.len(), 1);
}

#[test]
fn acl_empty() {
    let yaml = r#"
kepler:
  acl: {}

services:
  svc:
    command: ["./app"]
"#;
    let config = config_of(yaml);
    let acl = config.kepler.as_ref().unwrap().acl.as_ref().unwrap();
    assert!(acl.users.len() == 0);
    assert!(acl.groups.len() == 0);
}

#[test]
fn acl_absent() {
    let yaml = r#"
services:
  svc:
    command: ["./app"]
"#;
    let config = config_of(yaml);
    assert!(config.kepler.is_none() || config.kepler.as_ref().unwrap().acl.is_none());
}

#[test]
fn permissions_and_security_both_present_errors() {
    let yaml = r#"
services:
  svc:
    command: ["./app"]
    permissions: ["service:start"]
    security: ["config:status"]
"#;
    let err = load(yaml).unwrap_err().message();
    assert!(err.contains("duplicate field"), "expected duplicate field error, got: {}", err);
}

#[test]
fn permissions_empty_allow_list() {
    let yaml = r#"
services:
  svc:
    command: ["./app"]
    permissions: []
"#;
    let config = config_of(yaml);
    let perms = config.services.get("svc").unwrap().permissions.as_ref().unwrap();
    assert!(perms.allow.is_empty());
    assert!(perms.hardening.is_none());
}

#[test]
fn permissions_empty_allow_list_object_form() {
    let yaml = r#"
services:
  svc:
    command: ["./app"]
    permissions:
      allow: []
      hardening: "strict"
"#;
    let config = config_of(yaml);
    let perms = config.services.get("svc").unwrap().permissions.as_ref().unwrap();
    assert!(perms.allow.is_empty());
    assert_eq!(perms.hardening.as_deref(), Some("strict"));
}

#[test]
fn permissions_hardening_accepts_valid_strings() {
    for level in &["none", "no-root", "strict"] {
        let yaml = format!(r#"
services:
  svc:
    command: ["./app"]
    permissions:
      allow: ["service:start"]
      hardening: "{}"
"#, level);
        let config = config_of(&yaml);
        let perms = config.services.get("svc").unwrap().permissions.as_ref().unwrap();
        assert_eq!(perms.hardening.as_deref(), Some(*level));
    }
}

#[test]
fn permissions_hardening_invalid_string_parses_but_stored() {
    let yaml = r#"
services:
  svc:
    command: ["./app"]
    permissions:
      allow: ["service:start"]
      hardening: "invalid-level"
"#;
    let config = config_of(yaml);
    let perms = config.services.get("svc").unwrap().permissions.as_ref().unwrap();
    assert_eq!(perms.hardening.as_deref(), Some("invalid-level"));
}

#[test]
fn values_are_shown_as_the_parser_shows_them() {
    for text in vec![
        "null",
        "true",
        "42",
        "-7",
        "1.5",
        "'a \"b\"'",
        "[]",
        "[1, a, [x], {k: v}]",
        "{}",
        "{a: 1, 2: b, true: c, [x]: d, null: e}",
        "!tag {a: [1, !other b]}",
    ] {
        let value: serde_yaml::Value = serde_yaml::from_str(text).unwrap();
        let expected = format!("{:?}", value);
        assert_eq!(show(&parse(text)), expected);
    }
}

#[test]
fn wrong_environments_are_told() {
    let error = |text: &str| EnvironmentEntries::from_value(&parse(text)).unwrap_err();
    assert_eq!(
        error("A: [x]"),
        "unsupported value type for environment map entry 'A=': Sequence [String(\"x\")]"
    );
    assert_eq!(
        error("A: !lua [x]"),
        "!lua tag value must be a string for environment map entry 'A='"
    );
    assert_eq!(error("{null: x}"), "environment map key must be a string, got: Null");
    assert_eq!(error("[A=1, 2]"), "invalid type: integer `2`, expected a string");
    assert_eq!(error("3"), "environment must be a sequence, mapping, or null");
}

#[test]
fn contents_that_are_no_yaml_are_refused() {
    let error = load("services: [").unwrap_err();
    match &error {
        DaemonError::ConfigParse { path, failure } => {
            assert_eq!(path, "/tmp/kepler.yaml");
            assert_eq!(failure.location.map(|l| l.line), Some(2));
        }
        other => panic!("{:?}", other),
    }
    assert!(error.message().starts_with("Failed to parse config file '/tmp/kepler.yaml':"));
}

#[test]
fn trees_hold_what_was_written() {
    let root = parse("a: [1, -2, 2.5, true, ~, x, !t y]\n");
    match get(&root, "a") {
        Yaml::Sequence(items) => {
            assert!(matches!(items[0], Yaml::Number(Number::Unsigned(1))));
            assert!(matches!(items[1], Yaml::Number(Number::Negative(-2))));
            assert!(matches!(&items[2], Yaml::Number(Number::Float(t)) if t == "2.5"));
            assert!(matches!(items[3], Yaml::Bool(true)));
            assert!(matches!(items[4], Yaml::Null));
            assert!(matches!(&items[5], Yaml::String(s) if s == "x"));
            assert!(matches!(&items[6], Yaml::Tagged { tag, .. } if tag == "t"));
        }
        other => panic!("{:?}", other),
    }
}

#[test]
fn definitions_are_run_before_anything_is_read() {
    let error = load("lua: error('no')\nservices: {}\n").unwrap_err();
    assert!(error.message().contains("Error in lua: block: "), "{}", error.message());
    let config = load("lua: x = 1\nservices: {}\n").unwrap();
    assert!(config.create_lua_evaluator().is_ok());
}
