//! Expressions in configuration text.
use kepler_daemon::config::condition::eval_condition_expr;
use kepler_daemon::config::evaluate::{
    evaluate_expression_string, evaluate_expression_string_with_env, evaluate_value_tree,
    evaluate_value_tree_with_env, prepare_env,
};
use kepler_daemon::config::expand::{
    is_standalone_expression, is_standalone_tokens, parse_expr_tokens, ExprToken,
};
use kepler_daemon::config::expr::DynamicExpr;
use kepler_daemon::errors::DaemonError;
use kepler_daemon::lua_eval::{DepInfo, EvalContext, LuaEvaluator, ServiceEvalContext};
use kepler_daemon::name_map::NameMap;
use kepler_daemon::value::{Number, Yaml};
use kepler_daemon::yaml::parse_tree;

const PATH: &str = "/test/config.yaml";

fn make_evaluator_and_ctx() -> (LuaEvaluator, EvalContext) {
    let eval = LuaEvaluator::new().unwrap();
    let mut env = NameMap::new();
    env.insert("HOME".to_string(), "/home/user".to_string());
    env.insert("PATH".to_string(), "/usr/bin".to_string());
    env.insert("DB_HOST".to_string(), "localhost".to_string());
    env.insert("APP_PORT".to_string(), "8080".to_string());
    let ctx = EvalContext {
        service: Some(ServiceEvalContext { env, ..Default::default() }),
        ..Default::default()
    };
    (eval, ctx)
}

fn parse(text: &str) -> Yaml {
    parse_tree(text).unwrap()
}

fn field<'a>(value: &'a Yaml, name: &str) -> &'a Yaml {
    match value {
        Yaml::Mapping(entries) => {
            &entries.iter().find(|(k, _)| k.as_str() == Some(name)).unwrap().1
        }
        _ => panic!("not a mapping"),
    }
}

fn items(value: &Yaml) -> &Vec<Yaml> {
    match value {
        Yaml::Sequence(items) => items,
        _ => panic!("not a sequence"),
    }
}

#[test]
fn test_parse_tokens_no_expressions() {
    let tokens = parse_expr_tokens("hello world");
    assert_eq!(tokens, vec![ExprToken::String("hello world".to_string())]);
}

#[test]
fn test_parse_tokens_single_expression() {
    let tokens = parse_expr_tokens("${{ env.HOME }}$");
    assert_eq!(tokens, vec![ExprToken::Expression("env.HOME".to_string())]);
}

#[test]
fn test_parse_tokens_embedded() {
    let tokens = parse_expr_tokens("prefix_${{ env.HOME }}$_suffix");
    assert_eq!(
        tokens,
        vec![
            ExprToken::String("prefix_".to_string()),
            ExprToken::Expression("env.HOME".to_string()),
            ExprToken::String("_suffix".to_string()),
        ]
    );
}

#[test]
fn test_parse_tokens_multiple_expressions() {
    let tokens = parse_expr_tokens("${{ a }}$/app:${{ b }}$");
    assert_eq!(
        tokens,
        vec![
            ExprToken::Expression("a".to_string()),
            ExprToken::String("/app:".to_string()),
            ExprToken::Expression("b".to_string()),
        ]
    );
}

#[test]
fn test_parse_tokens_nested_braces() {
    let tokens = parse_expr_tokens("${{ {1, 2, 3} }}$");
    assert_eq!(tokens, vec![ExprToken::Expression("{1, 2, 3}".to_string())]);
}

#[test]
fn test_parse_tokens_deeply_nested_braces() {
    let tokens = parse_expr_tokens("${{ {a={foo={bar=baz}}} }}$");
    assert_eq!(tokens, vec![ExprToken::Expression("{a={foo={bar=baz}}}".to_string())]);
}

#[test]
fn test_parse_tokens_unclosed() {
    let tokens = parse_expr_tokens("${{env.HOME");
    assert_eq!(
        tokens,
        vec![
            ExprToken::String("${{".to_string()),
            ExprToken::String("env.HOME".to_string()),
        ]
    );
}

#[test]
fn test_parse_tokens_standalone_with_whitespace() {
    let tokens = parse_expr_tokens("  ${{ 42 }}$  ");
    assert!(is_standalone_tokens(&tokens));
}

#[test]
fn test_parse_tokens_not_standalone_with_text() {
    let tokens = parse_expr_tokens("prefix ${{ 42 }}$");
    assert!(!is_standalone_tokens(&tokens));
}

#[test]
fn test_parse_tokens_not_standalone_multiple() {
    let tokens = parse_expr_tokens("${{ a }}$ ${{ b }}$");
    assert!(!is_standalone_tokens(&tokens));
}

#[test]
fn test_parse_tokens_empty_string() {
    let tokens = parse_expr_tokens("");
    assert!(tokens.is_empty());
}

#[test]
fn test_basic_lookup() {
    let (mut eval, ctx) = make_evaluator_and_ctx();
    let path = PATH;
    assert_eq!(
        evaluate_expression_string("${{ env.HOME }}$", &mut eval, &ctx, path, "test").unwrap(),
        "/home/user"
    );
    assert_eq!(
        evaluate_expression_string("${{ env.DB_HOST }}$", &mut eval, &ctx, path, "test").unwrap(),
        "localhost"
    );
    assert_eq!(
        evaluate_expression_string("${{ env.APP_PORT }}$", &mut eval, &ctx, path, "test").unwrap(),
        "8080"
    );
}

#[test]
fn test_missing_var_nil_to_empty() {
    let (mut eval, ctx) = make_evaluator_and_ctx();
    let path = PATH;
    assert_eq!(
        evaluate_expression_string("${{ env.NONEXISTENT }}$", &mut eval, &ctx, path, "test")
            .unwrap(),
        ""
    );
    assert_eq!(
        evaluate_expression_string("prefix_${{ env.NONEXISTENT }}$_suffix", &mut eval, &ctx, path, "test")
        .unwrap(),
        "prefix__suffix"
    );
}

#[test]
fn test_or_default_syntax() {
    let (mut eval, ctx) = make_evaluator_and_ctx();
    let path = PATH;
    // Set variable — should use set value
    assert_eq!(
        evaluate_expression_string("${{ env.HOME or '/default' }}$", &mut eval, &ctx, path, "test")
        .unwrap(),
        "/home/user"
    );
    // Unset variable — should use default
    assert_eq!(
        evaluate_expression_string("${{ env.MISSING or 'fallback' }}$", &mut eval, &ctx, path, "test")
        .unwrap(),
        "fallback"
    );
}

#[test]
fn test_deps_status() {
    let mut eval = LuaEvaluator::new().unwrap();
    let mut deps = NameMap::new();
    deps.insert(
        "db".to_string(),
        DepInfo {
            status: "healthy".to_string(),
            exit_code: None,
            initialized: true,
            restart_count: 2,
            ..Default::default()
        },
    );
    let ctx = EvalContext {
        deps,
        ..Default::default()
    };
    let path = PATH;

    assert_eq!(
        evaluate_expression_string("${{ deps.db.status }}$", &mut eval, &ctx, path, "test")
            .unwrap(),
        "healthy"
    );
    assert_eq!(
        evaluate_expression_string("${{ deps.db.exit_code }}$", &mut eval, &ctx, path, "test")
            .unwrap(),
        ""
    );
    assert_eq!(
        evaluate_expression_string("${{ deps.db.initialized }}$", &mut eval, &ctx, path, "test")
            .unwrap(),
        "true"
    );
    assert_eq!(
        evaluate_expression_string("${{ deps.db.restart_count }}$", &mut eval, &ctx, path, "test")
        .unwrap(),
        "2"
    );
}

#[test]
fn test_deps_env_var() {
    let mut eval = LuaEvaluator::new().unwrap();
    let mut dep_env = NameMap::new();
    dep_env.insert("MY_VAR".to_string(), "hello".to_string());
    let mut deps = NameMap::new();
    deps.insert(
        "setup".to_string(),
        DepInfo {
            env: dep_env,
            ..Default::default()
        },
    );
    let ctx = EvalContext {
        deps,
        ..Default::default()
    };
    let path = PATH;

    assert_eq!(
        evaluate_expression_string("${{ deps.setup.env.MY_VAR }}$", &mut eval, &ctx, path, "test")
        .unwrap(),
        "hello"
    );
    assert_eq!(
        evaluate_expression_string("${{ deps.setup.env.MISSING }}$", &mut eval, &ctx, path, "test")
        .unwrap(),
        ""
    );
}

#[test]
fn test_single_brace_syntax_treated_as_literal() {
    let (mut eval, ctx) = make_evaluator_and_ctx();
    let path = PATH;
    // ${VAR} is not a valid expression — only ${{ }}$ is
    assert_eq!(
        evaluate_expression_string("${HOME}", &mut eval, &ctx, path, "test").unwrap(),
        "${HOME}"
    );
}

#[test]
fn test_multiple_expressions() {
    let (mut eval, ctx) = make_evaluator_and_ctx();
    let path = PATH;
    assert_eq!(
        evaluate_expression_string("${{ env.HOME }}$/app:${{ env.APP_PORT }}$", &mut eval, &ctx, path, "test")
        .unwrap(),
        "/home/user/app:8080"
    );
}

#[test]
fn test_no_closing_braces() {
    let (mut eval, ctx) = make_evaluator_and_ctx();
    let path = PATH;
    // Unclosed ${{ should be treated as literal
    assert_eq!(
        evaluate_expression_string("${{env.HOME", &mut eval, &ctx, path, "test").unwrap(),
        "${{env.HOME"
    );
}

#[test]
fn test_evaluate_value_tree_basic() {
    let (mut eval, ctx) = make_evaluator_and_ctx();
    let path = PATH;
    let mut value = Yaml::String("${{ env.HOME }}$/app".to_string());
    evaluate_value_tree(&mut value, &mut eval, &ctx, path, "test").unwrap();
    assert_eq!(value.as_str().unwrap(), "/home/user/app");
}

#[test]
fn test_evaluate_value_tree_skips_depends_on() {
    let (mut eval, ctx) = make_evaluator_and_ctx();
    let path = PATH;
    let yaml = r#"
depends_on:
  - db
  - cache
command: ["${{ env.HOME }}$/app"]
"#;
    let mut value = parse(yaml);
    evaluate_value_tree(&mut value, &mut eval, &ctx, path, "test").unwrap();

    // depends_on should NOT be expanded (literal)
    let deps = items(field(&value, "depends_on"));
    assert_eq!(deps[0].as_str().unwrap(), "db");

    // command should be expanded
    let cmd = items(field(&value, "command"));
    assert_eq!(cmd[0].as_str().unwrap(), "/home/user/app");
}


#[test]
fn nothing_under_depends_on_is_computed() {
    let mut eval = LuaEvaluator::new().unwrap();
    let ctx = EvalContext::default();
    let text = "depends_on:\n  db:\n    timeout: ${{ 1 + 1 }}$\n    list: [{deep: !lua 'return 1'}]\noutputs:\n  a: ${{ 2 }}$\nother: ${{ 3 }}$\n";
    let mut value = parse(text);
    evaluate_value_tree(&mut value, &mut eval, &ctx, PATH, "").unwrap();
    let deps = field(field(&value, "depends_on"), "db");
    assert_eq!(field(deps, "timeout").as_str(), Some("${{ 1 + 1 }}$"));
    let deep = field(&items(field(deps, "list"))[0], "deep");
    assert!(matches!(deep, Yaml::Tagged { tag, .. } if tag == "lua"));
    assert_eq!(field(field(&value, "outputs"), "a").as_str(), Some("${{ 2 }}$"));
    assert!(matches!(field(&value, "other"), Yaml::Number(Number::Unsigned(3))));
}

fn computed(code: &str) -> Result<Yaml, String> {
    let mut eval = LuaEvaluator::new().unwrap();
    let ctx = EvalContext::default();
    let mut value = Yaml::Tagged {
        tag: "lua".to_string(),
        value: Box::new(Yaml::String(code.to_string())),
    };
    match evaluate_value_tree(&mut value, &mut eval, &ctx, PATH, "x") {
        Ok(()) => Ok(value),
        Err(e) => Err(e.message()),
    }
}

#[test]
fn tables_that_hold_themselves_are_refused() {
    let message = computed("local t = {} t.t = t return t").unwrap_err();
    assert!(message.contains("tables are nested too deep"), "{}", message);
}

#[test]
fn tables_as_keys_are_refused() {
    let message = computed("local k = {} k.k = k return {[k] = 1, a = 2}").unwrap_err();
    assert!(message.contains("Table key must be string or integer, got \"table\""), "{}", message);
}

#[test]
fn nested_tables_are_taken_out() {
    let deep = |n: usize| {
        format!("local t = 1 for i = 1, {} do t = {{t}} end return t", n)
    };
    let mut value = computed(&deep(200)).unwrap();
    for _ in 0..200 {
        value = match value {
            Yaml::Sequence(mut list) => list.remove(0),
            other => panic!("{:?}", other),
        };
    }
    assert!(matches!(value, Yaml::Number(Number::Unsigned(1))));
    assert!(computed(&deep(201)).is_err());
}

#[test]
fn code_is_taken_as_text() {
    assert!(computed("\u{3}\u{0}").is_err());
}

#[test]
fn test_standalone_expression_type_preservation() {
    let mut eval = LuaEvaluator::new().unwrap();
    let ctx = EvalContext::default();
    let path = PATH;

    // Standalone bool
    let mut value = Yaml::String("${{ true }}$".to_string());
    evaluate_value_tree(&mut value, &mut eval, &ctx, path, "test").unwrap();
    assert!(matches!(value, Yaml::Bool(true)));

    // Standalone number
    let mut value = Yaml::String("${{ 42 }}$".to_string());
    evaluate_value_tree(&mut value, &mut eval, &ctx, path, "test").unwrap();
    assert!(matches!(value, Yaml::Number(Number::Unsigned(42))));

    // Standalone table → sequence
    let mut value = Yaml::String("${{ {1, 2, 3} }}$".to_string());
    evaluate_value_tree(&mut value, &mut eval, &ctx, path, "test").unwrap();
    assert!(matches!(value, Yaml::Sequence(_)));
}

#[test]
fn test_lua_tag_in_tree() {
    let mut eval = LuaEvaluator::new().unwrap();
    let mut env = NameMap::new();
    env.insert("PORT".to_string(), "8080".to_string());
    let ctx = EvalContext {
        service: Some(ServiceEvalContext {
            env,
            ..Default::default()
        }),
        ..Default::default()
    };
    let path = PATH;

    let yaml = r#"
command: !lua 'return {"echo", service.env.PORT}'
"#;
    let mut value = parse(yaml);
    evaluate_value_tree(&mut value, &mut eval, &ctx, path, "test").unwrap();

    let cmd = items(field(&value, "command"));
    assert_eq!(cmd[0].as_str().unwrap(), "echo");
    assert_eq!(cmd[1].as_str().unwrap(), "8080");
}

#[test]
fn test_bare_var_in_inline_resolves_to_nil() {
    let mut eval = LuaEvaluator::new().unwrap();
    let mut env = NameMap::new();
    env.insert("HOME".to_string(), "/home/user".to_string());
    let ctx = EvalContext {
        service: Some(ServiceEvalContext {
            env,
            ..Default::default()
        }),
        ..Default::default()
    };
    let path = PATH;

    // Bare variable names resolve to nil (empty string in embedded context)
    let mut value = Yaml::String("prefix_${{ HOME }}$_suffix".to_string());
    evaluate_value_tree(&mut value, &mut eval, &ctx, path, "test").unwrap();
    assert_eq!(value.as_str().unwrap(), "prefix__suffix");

    // Standalone bare var resolves to nil
    let mut value = Yaml::String("${{ HOME }}$".to_string());
    evaluate_value_tree(&mut value, &mut eval, &ctx, path, "test").unwrap();
    assert!(matches!(value, Yaml::Null), "Standalone bare var should resolve to nil");
}

#[test]
fn test_is_standalone_expression() {
    assert!(is_standalone_expression("${{ env.HOME }}$"));
    assert!(is_standalone_expression("  ${{ 42 }}$  "));
    assert!(!is_standalone_expression("prefix ${{ env.HOME }}$"));
    assert!(!is_standalone_expression("${{ env.HOME }}$ suffix"));
    assert!(!is_standalone_expression("${{ a }}$ ${{ b }}$"));
    assert!(!is_standalone_expression("no expression"));
}

#[test]
fn test_evaluate_expression_string_with_env() {
    let (mut eval, ctx) = make_evaluator_and_ctx();
    let path = PATH;
    prepare_env(&mut eval, &ctx, false, path).unwrap();

    assert_eq!(
        evaluate_expression_string_with_env("${{ env.HOME }}$", &mut eval, path, "test").unwrap(),
        "/home/user"
    );
    assert_eq!(
        evaluate_expression_string_with_env("${{ env.HOME }}$/app:${{ env.APP_PORT }}$", &mut eval, path, "test").unwrap(),
        "/home/user/app:8080"
    );
}

#[test]
fn test_evaluate_value_tree_with_env_shared_cache() {
    let (mut eval, ctx) = make_evaluator_and_ctx();
    let path = PATH;
    let mut built = false;

    // First call populates cache
    let mut value1 = Yaml::String("${{ env.HOME }}$/app".to_string());
    evaluate_value_tree_with_env(&mut value1, &mut eval, &ctx, path, "test1", &mut built).unwrap();
    assert_eq!(value1.as_str().unwrap(), "/home/user/app");
    assert!(built, "Cache should be populated after first call");

    // Second call reuses cache (no rebuild)
    let mut value2 = Yaml::String("${{ env.DB_HOST }}$:${{ env.APP_PORT }}$".to_string());
    evaluate_value_tree_with_env(&mut value2, &mut eval, &ctx, path, "test2", &mut built).unwrap();
    assert_eq!(value2.as_str().unwrap(), "localhost:8080");
}

#[test]
fn test_evaluate_value_tree_with_env_lua_tag_uses_cache() {
    let mut eval = LuaEvaluator::new().unwrap();
    let mut env = NameMap::new();
    env.insert("PORT".to_string(), "8080".to_string());
    let ctx = EvalContext {
        service: Some(ServiceEvalContext {
            env,
            ..Default::default()
        }),
        ..Default::default()
    };
    let path = PATH;
    let mut built = false;

    let yaml = r#"
command: !lua 'return {"echo", service.env.PORT}'
"#;
    let mut value = parse(yaml);
    evaluate_value_tree_with_env(&mut value, &mut eval, &ctx, path, "test", &mut built).unwrap();

    let cmd = items(field(&value, "command"));
    assert_eq!(cmd[0].as_str().unwrap(), "echo");
    assert_eq!(cmd[1].as_str().unwrap(), "8080");
    assert!(built, "Cache should be populated by !lua tag");
}


#[test]
fn test_nested_braces_evaluation() {
    let mut eval = LuaEvaluator::new().unwrap();
    let ctx = EvalContext::default();
    let path = PATH;

    let mut value = Yaml::String("${{ {a={b=42}} }}$".to_string());
    evaluate_value_tree(&mut value, &mut eval, &ctx, path, "test").unwrap();
    assert!(matches!(value, Yaml::Mapping(_)));
}

fn text_of(value: &Yaml) -> &str {
    value.as_str().unwrap()
}

#[test]
fn computed_values_are_written_as_they_are_read() {
    for text in [
        "${{ a }}$",
        "  ${{a}}$ ",
        "x${{ {1, 2} }}$y${{}}$",
        "a${{ b }}$ ${{ open",
        "${{ ${{ a }}$",
    ] {
        let first = DynamicExpr::classify(&Yaml::String(text.to_string())).unwrap();
        let written = first.to_yaml_value();
        let second = DynamicExpr::classify(&written).unwrap();
        assert_eq!(text_of(&written), text_of(&second.to_yaml_value()));
    }
    let code = Yaml::Tagged {
        tag: "lua".to_string(),
        value: Box::new(Yaml::String("return 1".to_string())),
    };
    let first = DynamicExpr::classify(&code).unwrap();
    assert!(matches!(&first, DynamicExpr::Lua(c) if c == "return 1"));
    assert!(matches!(first.to_yaml_value(), Yaml::Tagged { tag, .. } if tag == "lua"));
}

#[test]
fn standalone_expression_is_written_with_single_spaces() {
    let expr = DynamicExpr::classify(&Yaml::String(" ${{a.b}}$".to_string())).unwrap();
    assert_eq!(text_of(&expr.to_yaml_value()), "${{ a.b }}$");
}

#[test]
fn plain_values_are_not_classified() {
    assert!(DynamicExpr::classify(&Yaml::String("$HOME".to_string())).is_none());
    assert!(DynamicExpr::classify(&parse("[\"${{ a }}$\"]")).is_none());
    assert!(DynamicExpr::classify(&Yaml::Null).is_none());
}

#[test]
fn tree_without_code_is_kept_and_nothing_is_built() {
    let (mut eval, ctx) = make_evaluator_and_ctx();
    let mut built = false;
    let mut value = parse("a: [1, x, {b: true}]\ndepends_on: [\"${{ later }}$\"]\n");
    evaluate_value_tree_with_env(&mut value, &mut eval, &ctx, PATH, "t", &mut built).unwrap();
    assert!(!built);
    assert_eq!(text_of(&items(field(&value, "depends_on"))[0]), "${{ later }}$");
    assert_eq!(text_of(&items(field(&value, "a"))[1]), "x");
}

#[test]
fn failing_expression_names_itself() {
    let (mut eval, ctx) = make_evaluator_and_ctx();
    let err = evaluate_expression_string("${{ 1 + nil }}$", &mut eval, &ctx, PATH, "t").unwrap_err();
    match err {
        DaemonError::LuaError { path, message } => {
            assert_eq!(path, PATH);
            assert!(message.starts_with("Error evaluating ${{ 1 + nil }}$: "), "{}", message);
        }
        _ => panic!("expected a script error"),
    }
}

#[test]
fn code_must_be_a_text() {
    let (mut eval, ctx) = make_evaluator_and_ctx();
    let mut value = parse("x: !lua [1]\n");
    let err = evaluate_value_tree(&mut value, &mut eval, &ctx, PATH, "t").unwrap_err();
    assert!(matches!(err, DaemonError::LuaError { message, .. }
        if message == "!lua value must be a string"));
}

#[test]
fn script_results_keep_their_kinds() {
    let (mut eval, ctx) = make_evaluator_and_ctx();
    let mut value = parse(
        "a: !lua 'return -3'\nb: !lua 'return \"t\"'\nc: !lua 'return nil'\nd: !lua 'return {k = {1}}'\ne: !lua 'return 1.5'\n",
    );
    evaluate_value_tree(&mut value, &mut eval, &ctx, PATH, "").unwrap();
    assert!(matches!(field(&value, "a"), Yaml::Number(Number::Negative(-3))));
    assert_eq!(text_of(field(&value, "b")), "t");
    assert!(matches!(field(&value, "c"), Yaml::Null));
    assert!(matches!(&items(field(field(&value, "d"), "k"))[0], Yaml::Number(Number::Unsigned(1))));
    assert!(matches!(field(&value, "e"), Yaml::Number(Number::Float(t)) if t == "1.5"));
}

#[test]
fn context_tables_are_read_only() {
    let (mut eval, ctx) = make_evaluator_and_ctx();
    let mut value = parse("x: !lua 'service.env.HOME = \"x\" return 1'\n");
    assert!(evaluate_value_tree(&mut value, &mut eval, &ctx, PATH, "").is_err());
}

#[test]
fn loaded_code_is_seen_by_expressions() {
    let (mut eval, ctx) = make_evaluator_and_ctx();
    eval.load_inline("function twice(s) return s .. s end").unwrap();
    assert_eq!(
        evaluate_expression_string("${{ twice('ab') }}$", &mut eval, &ctx, PATH, "t").unwrap(),
        "abab"
    );
    assert!(eval.load_inline("this is no code").is_err());
}

#[test]
fn conditions_hold_unless_null_or_false() {
    let mut evaluator = LuaEvaluator::new().unwrap();
    let ctx = EvalContext::default();
    let mut eval = |code: &str| {
        let expr = DynamicExpr::Lua(format!("return {}", code));
        eval_condition_expr(&expr, &mut evaluator, &ctx, "/tmp/test.yaml")
    };
    assert!(eval("true").unwrap());
    assert!(eval("0").unwrap());
    assert!(eval("''").unwrap());
    assert!(eval("{}").unwrap());
    assert!(!eval("false").unwrap());
    assert!(!eval("nil").unwrap());
    let err = eval("error('no')").unwrap_err();
    assert!(matches!(err, DaemonError::Internal(m)
        if m.starts_with("Lua eval failed: ") && m.contains("no")));
}

#[test]
fn parts_before_a_failure_are_replaced() {
    let mut eval = LuaEvaluator::new().unwrap();
    let ctx = EvalContext::default();
    let mut value = parse(
        "a: ${{ 1 + 1 }}$\nlist: ['${{ 3 }}$', !lua 'error(1)', '${{ 4 }}$']\nb: ${{ 5 }}$\n",
    );
    assert!(evaluate_value_tree(&mut value, &mut eval, &ctx, PATH, "").is_err());
    assert!(matches!(field(&value, "a"), Yaml::Number(Number::Unsigned(2))));
    let list = items(field(&value, "list"));
    assert!(matches!(list[0], Yaml::Number(Number::Unsigned(3))));
    assert!(matches!(&list[1], Yaml::Tagged { tag, .. } if tag == "lua"));
    assert_eq!(list[2].as_str(), Some("${{ 4 }}$"));
    assert_eq!(field(&value, "b").as_str(), Some("${{ 5 }}$"));
}
