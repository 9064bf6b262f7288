//! Environment variables.
use kepler_daemon::eager::expand::{
    expand_value, expand_with_context, load_env_file as load_leniently,
};
use kepler_daemon::env::{insert_env_entries, load_env_file};
use kepler_daemon::errors::DaemonError;
use kepler_daemon::name_map::NameMap;

#[test]
fn test_insert_env_entries() {
    let mut env = NameMap::new();
    let entries = vec![
        "FOO=bar".to_string(),
        "BAZ=qux".to_string(),
        "INVALID".to_string(),
    ];
    insert_env_entries(&mut env, &entries);
    assert_eq!(env.get("FOO").unwrap(), "bar");
    assert_eq!(env.get("BAZ").unwrap(), "qux");
    assert!(!env.contains_key("INVALID"));
}

#[test]
fn later_entries_win_and_values_keep_their_signs() {
    let mut env = NameMap::new();
    insert_env_entries(&mut env, &vec!["A=1".to_string(), "A=x=y".to_string(), "B=".to_string()]);
    assert_eq!(env.get("A").unwrap(), "x=y");
    assert_eq!(env.get("B").unwrap(), "");
}

#[test]
fn env_file_is_read() {
    let data = b"# comment\nA=1\nexport B=\"two words\"\n".to_vec();
    let env = load_env_file("/e/.env", Some(&data)).unwrap();
    assert_eq!(env.len(), 2);
    assert_eq!(env.get("A").unwrap(), "1");
    assert_eq!(env.get("B").unwrap(), "two words");
}

#[test]
fn broken_env_file_is_refused_or_read_in_part() {
    let data = b"A=1\nno entry\nB=2\n".to_vec();
    match load_env_file("/e/.env", Some(&data)).unwrap_err() {
        DaemonError::EnvFileParse { path, source } => {
            assert_eq!(path, "/e/.env");
            assert!(!source.is_empty());
        }
        _ => panic!("expected a parse error"),
    }
    let env = load_leniently(Some(&data));
    assert_eq!(env.get("A").unwrap(), "1");
    assert_eq!(env.get("B").unwrap(), "2");
    assert_eq!(load_leniently(None).len(), 0);
}

#[test]
fn missing_env_file_is_named() {
    assert!(matches!(load_env_file("/e/.env", None),
        Err(DaemonError::EnvFileNotFound(p)) if p == "/e/.env"));
}

#[test]
fn variables_are_filled_in() {
    let mut context = NameMap::new();
    context.insert("NAME".to_string(), "inner".to_string());
    let mut system = NameMap::new();
    system.insert("NAME".to_string(), "outer".to_string());
    system.insert("HOME".to_string(), "/home/u".to_string());
    assert_eq!(expand_with_context("$HOME/${NAME}", &context, &system), "/home/u/inner");
    assert_eq!(expand_with_context("plain ~ text", &context, &system), "plain ~ text");
    assert_eq!(expand_with_context("${MISSING:-none}", &context, &system), "none");
}

#[test]
fn values_know_defaults_alternatives_and_the_home_directory() {
    let mut vars = NameMap::new();
    vars.insert("HOME".to_string(), "/home/u".to_string());
    vars.insert("EMPTY".to_string(), String::new());
    assert_eq!(expand_value("~/x", &vars), "/home/u/x");
    assert_eq!(expand_value("a~/x", &vars), "a~/x");
    assert_eq!(expand_value("${NONE:-d}${HOME:+set}", &vars), "dset");
    assert_eq!(expand_value("[${EMPTY:+set}${NONE:+set}]", &vars), "[]");
    assert_eq!(expand_value("$NONE", &vars), "$NONE");
}

#[test]
fn variables_of_a_file_may_refer_to_earlier_ones() {
    let data = b"A_OF_FILE=1\nB=${A_OF_FILE}x\n".to_vec();
    let env = load_env_file("/e/.env", Some(&data)).unwrap();
    assert_eq!(env.get("B").unwrap(), "1x");
    assert_eq!(load_leniently(Some(&data)).get("B").unwrap(), "1x");
}
