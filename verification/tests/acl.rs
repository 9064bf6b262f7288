//! Access rules.
use kepler_daemon::accounts::{choose_gids, resolve_gid, resolve_uid};
use kepler_daemon::acl::ResolvedAcl;
use kepler_daemon::config::service::{AclConfig, AclRule};
use kepler_daemon::id_map::IdMap;
use kepler_daemon::name_map::NameMap;
use kepler_daemon::permissions::Request;

fn make_rules(rules: Vec<(u32, Vec<&str>)>) -> NameMap<AclRule> {
    let mut map = NameMap::new();
    for (id, rights) in rules {
        map.insert(
            id.to_string(),
            AclRule { allow: rights.into_iter().map(String::from).collect(), authorize: None },
        );
    }
    map
}

/// Rules by number.
fn make_acl(users: Vec<(u32, Vec<&str>)>, groups: Vec<(u32, Vec<&str>)>) -> AclConfig {
    AclConfig {
        lua: None,
        aliases: NameMap::new(),
        users: make_rules(users),
        groups: make_rules(groups),
    }
}

#[test]
fn resolve_numeric_uid() {
    assert_eq!(resolve_uid("1000").unwrap(), 1000);
    assert_eq!(resolve_uid("0").unwrap(), 0);
    assert_eq!(resolve_uid("65534").unwrap(), 65534);
}

#[test]
fn resolve_numeric_gid() {
    assert_eq!(resolve_gid("1000").unwrap(), 1000);
    assert_eq!(resolve_gid("0").unwrap(), 0);
}

#[test]
fn from_config_numeric_ids() {
    let acl = make_acl(
        vec![(1000, vec!["start", "status"])],
        vec![(2000, vec!["status"])],
    );
    let resolved = ResolvedAcl::from_config(&acl).unwrap();

    // User 1000 should have expanded rights
    assert!(resolved.user_rules.contains_key(1000));
    let user_rights = resolved.user_rules.get(1000).unwrap();
    assert!(user_rights.contains("start"));
    assert!(user_rights.contains("status"));

    // Group 2000 should have expanded rights
    assert!(resolved.group_rules.contains_key(2000));
    let group_rights = resolved.group_rules.get(2000).unwrap();
    assert!(group_rights.contains("status"));
}

#[test]
fn from_config_all_alias_expands() {
    let acl = make_acl(
        vec![(1000, vec!["all"])],
        vec![],
    );
    let resolved = ResolvedAcl::from_config(&acl).unwrap();

    let user_rights = resolved.user_rules.get(1000).unwrap();
    // "all" should expand to every base right and sub-right
    assert!(user_rights.contains("start"));
    assert!(user_rights.contains("stop"));
    assert!(user_rights.contains("restart"));
    assert!(user_rights.contains("recreate"));
    assert!(user_rights.contains("status"));
    assert!(user_rights.contains("inspect"));
    assert!(user_rights.contains("logs"));
    assert!(user_rights.contains("subscribe"));
    assert!(user_rights.contains("quiescence"));
    assert!(user_rights.contains("readiness"));
    assert!(user_rights.contains("start:env-override"));
    assert!(user_rights.contains("logs:search"));
}

#[test]
fn check_access_uid_match_allows() {
    let acl = make_acl(
        vec![(1000, vec!["start", "status"])],
        vec![],
    );
    let resolved = ResolvedAcl::from_config(&acl).unwrap();

    let req = Request::Start {
        config_path: "/test".into(),
        services: vec![],
        sys_env: None,
        no_deps: false,
        override_envs: None,
        hardening: None,
    };
    assert!(resolved.check_access(1000, 1000, &req).is_ok());
}

#[test]
fn check_access_uid_match_denies_missing_right() {
    let acl = make_acl(
        vec![(1000, vec!["status"])],
        vec![],
    );
    let resolved = ResolvedAcl::from_config(&acl).unwrap();

    let req = Request::Start {
        config_path: "/test".into(),
        services: vec![],
        sys_env: None,
        no_deps: false,
        override_envs: None,
        hardening: None,
    };
    assert!(resolved.check_access(1000, 1000, &req).is_err());
}

#[test]
fn check_access_no_match_denies_gated() {
    let acl = make_acl(
        vec![(1000, vec!["start"])],
        vec![],
    );
    let resolved = ResolvedAcl::from_config(&acl).unwrap();

    // UID 2000 has no rules
    let req = Request::Start {
        config_path: "/test".into(),
        services: vec![],
        sys_env: None,
        no_deps: false,
        override_envs: None,
        hardening: None,
    };
    assert!(resolved.check_access(2000, 2000, &req).is_err());
}

#[test]
fn check_access_no_match_allows_rights_free() {
    let acl = make_acl(
        vec![(1000, vec!["start"])],
        vec![],
    );
    let resolved = ResolvedAcl::from_config(&acl).unwrap();

    // Ping is rights-free — always allowed
    assert!(resolved.check_access(2000, 2000, &Request::Ping).is_ok());
}

#[test]
fn check_access_gid_match() {
    let acl = make_acl(
        vec![],
        vec![(5000, vec!["start", "status"])],
    );
    let resolved = ResolvedAcl::from_config(&acl).unwrap();

    // User with primary GID 5000 should match
    let req = Request::Start {
        config_path: "/test".into(),
        services: vec![],
        sys_env: None,
        no_deps: false,
        override_envs: None,
        hardening: None,
    };
    assert!(resolved.check_access(9999, 5000, &req).is_ok());
}

#[test]
fn union_of_user_and_group_rules() {
    let acl = make_acl(
        vec![(1000, vec!["start"])],
        vec![(5000, vec!["status"])],
    );
    let resolved = ResolvedAcl::from_config(&acl).unwrap();

    // UID 1000 with primary GID 5000: union of start + status
    let start_req = Request::Start {
        config_path: "/test".into(),
        services: vec![],
        sys_env: None,
        no_deps: false,
        override_envs: None,
        hardening: None,
    };
    assert!(resolved.check_access(1000, 5000, &start_req).is_ok());

    let status_req = Request::Status {
        config_path: Some("/test".into()),
    };
    assert!(resolved.check_access(1000, 5000, &status_req).is_ok());
}

#[test]
fn has_read_access_with_status_right() {
    let acl = make_acl(
        vec![(1000, vec!["status"])],
        vec![],
    );
    let resolved = ResolvedAcl::from_config(&acl).unwrap();
    assert!(resolved.has_read_access(1000, 1000));
}

#[test]
fn has_read_access_without_status_right() {
    let acl = make_acl(
        vec![(1000, vec!["start"])],
        vec![],
    );
    let resolved = ResolvedAcl::from_config(&acl).unwrap();
    assert!(!resolved.has_read_access(1000, 1000));
}

#[test]
fn has_read_access_no_match() {
    let acl = make_acl(
        vec![(1000, vec!["status"])],
        vec![],
    );
    let resolved = ResolvedAcl::from_config(&acl).unwrap();
    // UID 2000 has no rules → no read access
    assert!(!resolved.has_read_access(2000, 2000));
}

#[test]
fn all_alias_grants_everything() {
    let acl = make_acl(
        vec![(1000, vec!["all"])],
        vec![],
    );
    let resolved = ResolvedAcl::from_config(&acl).unwrap();

    let req = Request::Start {
        config_path: "/test".into(),
        services: vec![],
        sys_env: None,
        no_deps: false,
        override_envs: None,
        hardening: Some("strict".to_string()),
    };
    assert!(resolved.check_access(1000, 1000, &req).is_ok());
    assert!(resolved.has_read_access(1000, 1000));
}

#[test]
fn empty_acl_denies_all_gated() {
    let acl = make_acl(vec![], vec![]);
    let resolved = ResolvedAcl::from_config(&acl).unwrap();

    // No rules at all → everyone denied
    let req = Request::Start {
        config_path: "/test".into(),
        services: vec![],
        sys_env: None,
        no_deps: false,
        override_envs: None,
        hardening: None,
    };
    assert!(resolved.check_access(1000, 1000, &req).is_err());
}

#[test]
fn subscribe_denied_without_subscribe_right() {
    let acl = make_acl(
        vec![(1000, vec!["status"])],
        vec![],
    );
    let resolved = ResolvedAcl::from_config(&acl).unwrap();

    let req = Request::Subscribe {
        config_path: "/test".into(),
        services: None,
    };
    assert!(resolved.check_access(1000, 1000, &req).is_err());
}

#[test]
fn subscribe_allowed_with_subscribe_right() {
    let acl = make_acl(
        vec![(1000, vec!["subscribe"])],
        vec![],
    );
    let resolved = ResolvedAcl::from_config(&acl).unwrap();

    let req = Request::Subscribe {
        config_path: "/test".into(),
        services: None,
    };
    assert!(resolved.check_access(1000, 1000, &req).is_ok());
}

#[test]
fn multiple_base_rights_grant_respective_operations() {
    let acl = make_acl(
        vec![(1000, vec!["start", "stop", "status"])],
        vec![],
    );
    let resolved = ResolvedAcl::from_config(&acl).unwrap();

    let start = Request::Start {
        config_path: "/test".into(),
        services: vec![],
        sys_env: None,
        no_deps: false,
        override_envs: None,
        hardening: None,
    };
    assert!(resolved.check_access(1000, 1000, &start).is_ok());

    let stop = Request::Stop {
        config_path: "/test".into(),
        service: None,
        clean: false,
        signal: None,
    };
    assert!(resolved.check_access(1000, 1000, &stop).is_ok());
}

#[test]
fn has_read_access_with_inspect_but_not_status() {
    let acl = make_acl(
        vec![(1000, vec!["inspect"])],
        vec![],
    );
    let resolved = ResolvedAcl::from_config(&acl).unwrap();
    // inspect alone does NOT grant status → no read access
    assert!(!resolved.has_read_access(1000, 1000));
}


#[test]
fn from_config_rejects_invalid_rights() {
    let acl = make_acl(
        vec![(1000, vec!["invalid:scope"])],
        vec![],
    );
    assert!(ResolvedAcl::from_config(&acl).is_err());
}

#[test]
fn from_config_rejects_invalid_group_rights() {
    let acl = make_acl(
        vec![],
        vec![(2000, vec!["unknown"])],
    );
    assert!(ResolvedAcl::from_config(&acl).is_err());
}

#[test]
fn check_access_prune_rights_free_allowed_for_unmatched_user() {
    let acl = make_acl(
        vec![(1000, vec!["start"])],
        vec![],
    );
    let resolved = ResolvedAcl::from_config(&acl).unwrap();

    // UID 2000 has no rules, but Prune is rights-free → allowed
    let req = Request::Prune {
        force: false,
        dry_run: false,
    };
    assert!(resolved.check_access(2000, 2000, &req).is_ok());
}

#[test]
fn check_access_shutdown_rights_free_allowed_for_unmatched_user() {
    let acl = make_acl(
        vec![(1000, vec!["start"])],
        vec![],
    );
    let resolved = ResolvedAcl::from_config(&acl).unwrap();

    // UID 2000 has no rules, but Shutdown is rights-free → allowed
    assert!(resolved.check_access(2000, 2000, &Request::Shutdown).is_ok());
}

#[test]
fn check_access_prune_rights_free_allowed_for_matched_user() {
    let acl = make_acl(
        vec![(1000, vec!["status"])],
        vec![],
    );
    let resolved = ResolvedAcl::from_config(&acl).unwrap();

    // Matched user: Prune is rights-free → always allowed
    let req = Request::Prune {
        force: true,
        dry_run: false,
    };
    assert!(resolved.check_access(1000, 1000, &req).is_ok());
}

#[test]
fn uid_zero_in_acl_rules_is_dead_code() {
    // Root always bypasses ACL, so a rule for uid 0 is never exercised
    // through the normal ACL check path. However, from_config should
    // still accept it without error, and the rule should be present.
    let acl = make_acl(
        vec![(0, vec!["start"])],
        vec![],
    );
    let resolved = ResolvedAcl::from_config(&acl).unwrap();

    // The rule exists but in practice root never goes through ACL
    assert!(resolved.user_rules.contains_key(0));
}

#[test]
fn empty_allow_list_matches_but_denies_gated() {
    let acl = make_acl(
        vec![(1000, vec![])],
        vec![],
    );
    let resolved = ResolvedAcl::from_config(&acl).unwrap();

    // User matches (matched=true) but has zero rights → denied for gated requests
    let req = Request::Status {
        config_path: Some("/test".into()),
    };
    assert!(resolved.check_access(1000, 1000, &req).is_err());

    // But rights-free requests should still pass
    assert!(resolved.check_access(1000, 1000, &Request::Ping).is_ok());
}

#[test]
fn empty_allow_list_no_read_access() {
    let acl = make_acl(
        vec![(1000, vec![])],
        vec![],
    );
    let resolved = ResolvedAcl::from_config(&acl).unwrap();
    // Empty allow → no status right → no read access
    assert!(!resolved.has_read_access(1000, 1000));
}

#[test]
fn max_uid_gid_values() {
    let acl = make_acl(
        vec![(u32::MAX, vec!["status"])],
        vec![(u32::MAX, vec!["start"])],
    );
    let resolved = ResolvedAcl::from_config(&acl).unwrap();

    assert!(resolved.user_rules.contains_key(u32::MAX));
    assert!(resolved.group_rules.contains_key(u32::MAX));
}

#[test]
fn sub_right_requires_base_right() {
    // Having start:env-override without start should deny Start requests
    let acl = make_acl(
        vec![(1000, vec!["start:env-override"])],
        vec![],
    );
    let resolved = ResolvedAcl::from_config(&acl).unwrap();

    let req = Request::Start {
        config_path: "/test".into(),
        services: vec![],
        sys_env: None,
        no_deps: false,
        override_envs: Some(NameMap::new()),
        hardening: None,
    };
    assert!(resolved.check_access(1000, 1000, &req).is_err());
}

#[test]
fn base_right_without_sub_right_denies_feature() {
    // Having start without start:env-override should deny when override_envs is set
    let acl = make_acl(
        vec![(1000, vec!["start"])],
        vec![],
    );
    let resolved = ResolvedAcl::from_config(&acl).unwrap();

    let req = Request::Start {
        config_path: "/test".into(),
        services: vec![],
        sys_env: None,
        no_deps: false,
        override_envs: Some(NameMap::new()),
        hardening: None,
    };
    assert!(resolved.check_access(1000, 1000, &req).is_err());
}

#[test]
fn base_and_sub_right_together_allows_feature() {
    let acl = make_acl(
        vec![(1000, vec!["start", "start:env-override"])],
        vec![],
    );
    let resolved = ResolvedAcl::from_config(&acl).unwrap();

    let req = Request::Start {
        config_path: "/test".into(),
        services: vec![],
        sys_env: None,
        no_deps: false,
        override_envs: Some(NameMap::new()),
        hardening: None,
    };
    assert!(resolved.check_access(1000, 1000, &req).is_ok());
}

fn gids(list: &[u32]) -> Vec<u32> {
    list.to_vec()
}

#[test]
fn unknown_right_is_named() {
    let acl = make_acl(vec![(1000, vec!["unknown"])], vec![]);
    let message = ResolvedAcl::from_config(&acl).err().unwrap();
    assert!(message.contains("unknown right 'unknown'"), "{}", message);
}

#[test]
fn aliases_stand_for_their_rights() {
    let mut acl = make_acl(vec![(1000, vec!["operator"])], vec![]);
    acl.aliases.insert("operator".to_string(), vec!["start".to_string(), "stop".to_string()]);
    let resolved = ResolvedAcl::from_config(&acl).unwrap();
    let rights = resolved.user_rules.get(1000).unwrap();
    assert!(rights.contains("start"));
    assert!(rights.contains("stop"));
    assert!(!rights.contains("status"));
}

#[test]
fn more_groups_give_more_rights() {
    let acl = make_acl(vec![], vec![(5000, vec!["start"]), (6000, vec!["status"])]);
    let resolved = ResolvedAcl::from_config(&acl).unwrap();
    let few = resolved.collect_rights_for(1, &gids(&[5000])).unwrap();
    let more = resolved.collect_rights_for(1, &gids(&[5000, 6000])).unwrap();
    assert!(few.contains("start") && !few.contains("status"));
    assert!(more.contains("start") && more.contains("status"));
    assert!(resolved.collect_rights_for(1, &gids(&[7000])).is_none());
}

#[test]
fn denied_request_names_the_missing_right() {
    let acl = make_acl(vec![(1000, vec!["status"])], vec![]);
    let resolved = ResolvedAcl::from_config(&acl).unwrap();
    let req = Request::Stop {
        config_path: "/test".into(),
        service: None,
        clean: false,
        signal: None,
    };
    let message = resolved.check_access(1000, 1000, &req).err().unwrap();
    assert!(message.contains("stop"), "{}", message);
}

#[test]
fn authorizers_are_numbered_and_run_in_turn() {
    let mut acl = make_acl(vec![(1000, vec!["start"])], vec![]);
    let rule = |code: &str| AclRule { allow: vec![], authorize: Some(code.to_string()) };
    acl.users.insert("1000".to_string(), rule("user"));
    acl.groups.insert("20".to_string(), rule("twenty"));
    acl.groups.insert("10".to_string(), rule("ten"));
    let mut resolved = ResolvedAcl::from_config(&acl).unwrap();
    assert!(resolved.has_authorizers());
    let sources = resolved.authorizer_sources();
    let code: Vec<&str> = sources.iter().map(|(_, s)| s.as_str()).collect();
    assert_eq!(code, vec!["user", "twenty", "ten"]);

    assert!(resolved.check_compiled().is_err());
    assert!(resolved.init_authorizers(Err("bad".to_string())).is_err());
    assert!(resolved.authorizer_chain(Some(7), 1000, &gids(&[10])).is_empty());

    let mut compiled = IdMap::new();
    compiled.insert(0, 100);
    compiled.insert(1, 120);
    compiled.insert(2, 110);
    resolved.init_authorizers(Ok(compiled)).unwrap();
    assert_eq!(resolved.authorizer_chain(Some(7), 1000, &gids(&[20, 10])), vec![7, 100, 110, 120]);
    assert_eq!(resolved.authorizer_chain(None, 1, &gids(&[20])), vec![120]);
}

#[test]
fn token_and_rules_both_bound_the_rights() {
    let acl = make_acl(vec![(1000, vec!["start", "status"])], vec![]);
    let resolved = ResolvedAcl::from_config(&acl).unwrap();
    let rights = resolved.collect_rights_for(1000, &gids(&[1000])).unwrap();
    assert!(rights.contains("start") && rights.contains("status") && !rights.contains("stop"));
}

#[test]
fn no_read_access_where_the_groups_are_unknown() {
    let acl = make_acl(vec![(1000, vec!["status"])], vec![(7, vec!["status"])]);
    let resolved = ResolvedAcl::from_config(&acl).unwrap();
    assert!(resolved.has_read_access_with(1000, &Ok(vec![1])));
    assert!(resolved.has_read_access_with(2000, &Ok(vec![1, 7])));
    assert!(!resolved.has_read_access_with(2000, &Ok(vec![1])));
    assert!(!resolved.has_read_access_with(1000, &Err("down".to_string())));
}

#[test]
fn groups_are_those_that_were_found() {
    let named = Ok(Some("ann".to_string()));
    assert_eq!(choose_gids(5, 1, &named, &Ok(vec![2, 1, 2, 3])), Ok(vec![1, 2, 3]));
    assert_eq!(choose_gids(5, 1, &Ok(None), &Ok(vec![2])), Ok(vec![1]));
    assert_eq!(
        choose_gids(5, 1, &named, &Err("x".to_string())),
        Err("Failed to get supplementary groups for UID 5: x".to_string())
    );
    assert_eq!(
        choose_gids(5, 1, &Err("x".to_string()), &Ok(vec![])),
        Err("Failed to resolve UID 5 for supplementary group lookup: x".to_string())
    );
}
