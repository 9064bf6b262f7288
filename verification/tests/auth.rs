//! Who may do what.
use kepler_daemon::auth::{
    asks_groups, check_hardening_floor, check_privilege_escalation, resolve_auth, AuthContext, TokenContext,
};
use kepler_daemon::hardening::HardeningLevel;
use kepler_daemon::permissions::RightSet;
use std::collections::HashMap;
use std::sync::Arc;

fn make_token_ctx(max_hardening: HardeningLevel) -> TokenContext {
    TokenContext {
        allow: RightSet::new(),
        max_hardening,
        service: "test".to_string(),
        config_path: "/test/config.yml".to_string(),
    }
}

fn make_token_context() -> TokenContext {
    let mut allow = RightSet::new();
    allow.insert("service:start");
    TokenContext {
        allow,
        max_hardening: HardeningLevel::Unrestricted,
        service: "web".to_string(),
        config_path: "/test/config.yml".to_string(),
    }
}

/// Tokens that were given out.
struct Tokens(HashMap<[u8; 32], Arc<TokenContext>>);

impl Tokens {
    fn new() -> Self {
        Tokens(HashMap::new())
    }

    fn register(&mut self, token: [u8; 32], ctx: TokenContext) {
        self.0.insert(token, Arc::new(ctx));
    }

    fn resolve(&self, token: Option<[u8; 32]>, uid: u32, gid: u32, kepler_gid: u32) -> Result<
        AuthContext,
        String,
    > {
        let known = token.and_then(|t| self.0.get(&t).cloned());
        resolve_auth(known, uid, gid, kepler_gid, false)
    }
}

const TOKEN: [u8; 32] = [0x5Au8; 32];

#[test]
fn none_allows_root_user() {
    assert!(check_privilege_escalation(
        HardeningLevel::Unrestricted,
        Some("0"),
        Some(1000),
        "service 'test'",
    ).is_ok());
}

#[test]
fn none_allows_any_user() {
    assert!(check_privilege_escalation(
        HardeningLevel::Unrestricted,
        Some("65534"),
        Some(1000),
        "service 'test'",
    ).is_ok());
}

#[test]
fn none_allows_no_user_spec() {
    assert!(check_privilege_escalation(
        HardeningLevel::Unrestricted,
        None,
        Some(1000),
        "service 'test'",
    ).is_ok());
}

#[test]
fn no_root_blocks_uid_zero() {
    let err = check_privilege_escalation(
        HardeningLevel::NoRoot,
        Some("0"),
        Some(1000),
        "service 'test'",
    ).unwrap_err();
    assert!(err.contains("Privilege escalation denied"), "got: {}", err);
    assert!(err.contains("uid 0"), "got: {}", err);
    assert!(err.contains("no-root"), "got: {}", err);
}

#[test]
fn no_root_blocks_uid_zero_colon_gid() {
    let err = check_privilege_escalation(
        HardeningLevel::NoRoot,
        Some("0:0"),
        Some(1000),
        "service 'test'",
    ).unwrap_err();
    assert!(err.contains("Privilege escalation denied"), "got: {}", err);
}

#[test]
fn no_root_allows_non_root_user() {
    assert!(check_privilege_escalation(
        HardeningLevel::NoRoot,
        Some("65534"),
        Some(1000),
        "service 'test'",
    ).is_ok());
}

#[test]
fn no_root_allows_same_user_as_owner() {
    assert!(check_privilege_escalation(
        HardeningLevel::NoRoot,
        Some("1000"),
        Some(1000),
        "service 'test'",
    ).is_ok());
}

#[test]
fn no_root_allows_different_non_root_user() {
    assert!(check_privilege_escalation(
        HardeningLevel::NoRoot,
        Some("1001"),
        Some(1000),
        "service 'test'",
    ).is_ok());
}

#[test]
fn no_root_allows_no_user_spec() {
    assert!(check_privilege_escalation(
        HardeningLevel::NoRoot,
        None,
        Some(1000),
        "service 'test'",
    ).is_ok());
}

#[test]
fn no_root_unrestricted_for_root_owned_config() {
    assert!(check_privilege_escalation(
        HardeningLevel::NoRoot,
        Some("0"),
        Some(0),
        "service 'test'",
    ).is_ok());
}

#[test]
fn no_root_unrestricted_for_legacy_config() {
    assert!(check_privilege_escalation(
        HardeningLevel::NoRoot,
        Some("0"),
        None, // a configuration without an owner
        "service 'test'",
    ).is_ok());
}

#[test]
fn strict_blocks_uid_zero() {
    let err = check_privilege_escalation(
        HardeningLevel::Strict,
        Some("0"),
        Some(1000),
        "service 'test'",
    ).unwrap_err();
    assert!(err.contains("Privilege escalation denied"), "got: {}", err);
    assert!(err.contains("strict"), "got: {}", err);
}

#[test]
fn strict_blocks_different_non_root_user() {
    let err = check_privilege_escalation(
        HardeningLevel::Strict,
        Some("65534"),
        Some(1000),
        "service 'test'",
    ).unwrap_err();
    assert!(err.contains("Privilege escalation denied"), "got: {}", err);
    assert!(err.contains("65534"), "got: {}", err);
    assert!(err.contains("strict"), "got: {}", err);
}

#[test]
fn strict_allows_same_user_as_owner() {
    assert!(check_privilege_escalation(
        HardeningLevel::Strict,
        Some("1000"),
        Some(1000),
        "service 'test'",
    ).is_ok());
}

#[test]
fn strict_allows_same_user_with_gid() {
    // "1000:1000" resolves uid to 1000, which matches owner
    assert!(check_privilege_escalation(
        HardeningLevel::Strict,
        Some("1000:1000"),
        Some(1000),
        "service 'test'",
    ).is_ok());
}

#[test]
fn strict_blocks_same_uid_different_gid_format() {
    // "1000:0" still resolves uid to 1000 (matches), gid doesn't affect the check
    assert!(check_privilege_escalation(
        HardeningLevel::Strict,
        Some("1000:0"),
        Some(1000),
        "service 'test'",
    ).is_ok());
}

#[test]
fn strict_allows_no_user_spec() {
    assert!(check_privilege_escalation(
        HardeningLevel::Strict,
        None,
        Some(1000),
        "service 'test'",
    ).is_ok());
}

#[test]
fn strict_unrestricted_for_root_owned_config() {
    assert!(check_privilege_escalation(
        HardeningLevel::Strict,
        Some("65534"),
        Some(0),
        "service 'test'",
    ).is_ok());
}

#[test]
fn strict_unrestricted_for_legacy_config() {
    assert!(check_privilege_escalation(
        HardeningLevel::Strict,
        Some("65534"),
        None,
        "service 'test'",
    ).is_ok());
}

#[test]
fn error_includes_context() {
    let err = check_privilege_escalation(
        HardeningLevel::NoRoot,
        Some("0"),
        Some(1000),
        "hook 'pre_start'",
    ).unwrap_err();
    assert!(err.contains("hook 'pre_start'"), "got: {}", err);
}

#[test]
fn error_includes_owner_uid() {
    let err = check_privilege_escalation(
        HardeningLevel::Strict,
        Some("65534"),
        Some(42),
        "service 'web'",
    ).unwrap_err();
    assert!(err.contains("42"), "error should include owner uid, got: {}", err);
}

#[test]
fn invalid_user_spec_returns_error() {
    let err = check_privilege_escalation(
        HardeningLevel::NoRoot,
        Some("nonexistent_user_xyzzy_12345"),
        Some(1000),
        "service 'test'",
    ).unwrap_err();
    assert!(err.contains("cannot resolve user"), "got: {}", err);
}

#[test]
fn none_floor_allows_any_hardening() {
    let ctx = make_token_ctx(HardeningLevel::Unrestricted);
    assert_eq!(check_hardening_floor(&ctx, Some("none")).unwrap(), Some(HardeningLevel::Unrestricted));
    assert_eq!(check_hardening_floor(&ctx, Some("no-root")).unwrap(), Some(HardeningLevel::NoRoot));
    assert_eq!(check_hardening_floor(&ctx, Some("strict")).unwrap(), Some(HardeningLevel::Strict));
    assert_eq!(check_hardening_floor(&ctx, None).unwrap(), None);
}

#[test]
fn no_root_floor_allows_no_root_and_strict() {
    let ctx = make_token_ctx(HardeningLevel::NoRoot);
    assert_eq!(check_hardening_floor(&ctx, Some("no-root")).unwrap(), Some(HardeningLevel::NoRoot));
    assert_eq!(check_hardening_floor(&ctx, Some("strict")).unwrap(), Some(HardeningLevel::Strict));
}

#[test]
fn no_root_floor_denies_none() {
    let ctx = make_token_ctx(HardeningLevel::NoRoot);
    let err = check_hardening_floor(&ctx, Some("none")).unwrap_err();
    assert!(err.contains("below the process's floor"), "got: {}", err);
}

#[test]
fn no_root_floor_defaults_to_floor_when_unspecified() {
    let ctx = make_token_ctx(HardeningLevel::NoRoot);
    assert_eq!(check_hardening_floor(&ctx, None).unwrap(), Some(HardeningLevel::NoRoot));
}

#[test]
fn strict_floor_allows_strict() {
    let ctx = make_token_ctx(HardeningLevel::Strict);
    assert_eq!(check_hardening_floor(&ctx, Some("strict")).unwrap(), Some(HardeningLevel::Strict));
}

#[test]
fn strict_floor_denies_no_root() {
    let ctx = make_token_ctx(HardeningLevel::Strict);
    let err = check_hardening_floor(&ctx, Some("no-root")).unwrap_err();
    assert!(err.contains("below the process's floor"), "got: {}", err);
}

#[test]
fn strict_floor_denies_none() {
    let ctx = make_token_ctx(HardeningLevel::Strict);
    let err = check_hardening_floor(&ctx, Some("none")).unwrap_err();
    assert!(err.contains("below the process's floor"), "got: {}", err);
}

#[test]
fn strict_floor_defaults_to_floor_when_unspecified() {
    let ctx = make_token_ctx(HardeningLevel::Strict);
    assert_eq!(check_hardening_floor(&ctx, None).unwrap(), Some(HardeningLevel::Strict));
}

#[test]
fn invalid_hardening_string_returns_error() {
    let ctx = make_token_ctx(HardeningLevel::NoRoot);
    let err = check_hardening_floor(&ctx, Some("invalid-level")).unwrap_err();
    assert!(err.contains("invalid hardening level"), "got: {}", err);
}

#[test]
fn none_floor_none_requested_returns_none() {
    let ctx = make_token_ctx(HardeningLevel::Unrestricted);
    // No floor + no requested level → None (no hardening applied)
    assert_eq!(check_hardening_floor(&ctx, None).unwrap(), None);
}

#[test]
fn root_caller_returns_root() {
    let store = Tokens::new();
    // UID 0, no token → Root
    let result = store.resolve(None, 0, 0, 999).unwrap();
    assert!(matches!(result, AuthContext::Root { uid: 0, gid: 0 }));
}

#[test]
fn valid_token_returns_token_context() {
    let mut store = Tokens::new();
    let token = TOKEN;
    let ctx = make_token_context();
    store.register(token, ctx);

    let result = store.resolve(Some(token), 1000, 1000, 999).unwrap();
    match result {
        AuthContext::Token { uid, gid, ctx } => {
            assert_eq!(uid, 1000);
            assert_eq!(gid, 1000);
            assert_eq!(ctx.service, "web");
            assert!(ctx.allow.contains("service:start"));
        }
        _ => panic!("expected Token auth context"),
    }
}

#[test]
fn invalid_token_falls_through() {
    let mut store = Tokens::new();
    // Unregistered token for non-root, non-group user → rejected
    let fake_token = [0xABu8; 32];
    let err = store.resolve(Some(fake_token), 65534, 65534, 99999).unwrap_err();
    assert!(err.contains("permission denied"), "got: {}", err);
}

#[test]
fn no_token_non_root_non_group_rejected() {
    let store = Tokens::new();
    let err = store.resolve(None, 65534, 65534, 99999).unwrap_err();
    assert!(err.contains("permission denied"), "got: {}", err);
}

#[test]
fn valid_token_takes_priority_over_root() {
    let mut store = Tokens::new();
    let token = TOKEN;
    let ctx = make_token_context();
    store.register(token, ctx);

    // UID 0 (root) with valid token → Token path wins
    let result = store.resolve(Some(token), 0, 0, 999).unwrap();
    assert!(matches!(result, AuthContext::Token { .. }));
}

#[test]
fn primary_gid_matches_kepler_group() {
    let store = Tokens::new();
    // Primary GID 99999 matches kepler GID 99999, no token → Group
    let result = store.resolve(None, 65534, 99999, 99999).unwrap();
    assert!(matches!(result, AuthContext::Group { uid: 65534, gid: 99999 }));
}

#[test]
fn valid_token_takes_priority_over_group() {
    let mut store = Tokens::new();
    let token = TOKEN;
    let ctx = make_token_context();
    store.register(token, ctx);

    // Primary GID matches kepler group, but valid token → Token wins
    let result = store.resolve(Some(token), 65534, 99999, 99999).unwrap();
    assert!(matches!(result, AuthContext::Token { .. }));
}

#[test]
fn valid_token_preserves_peer_credentials() {
    let mut store = Tokens::new();
    let token = TOKEN;
    let ctx = make_token_context();
    store.register(token, ctx);

    // Token auth should preserve the peer UID/GID
    let result = store.resolve(Some(token), 42, 99, 999).unwrap();
    match result {
        AuthContext::Token { uid, gid, .. } => {
            assert_eq!(uid, 42);
            assert_eq!(gid, 99);
        }
        _ => panic!("expected Token auth context"),
    }
}

#[test]
fn all_zero_token_does_not_match() {
    let store = Tokens::new();
    // All-zero bytes: could be an uninitialized buffer. Should not match any token.
    let zero_bytes = [0u8; 32];
    let err = store.resolve(Some(zero_bytes), 65534, 65534, 99999).unwrap_err();
    assert!(err.contains("permission denied"), "got: {}", err);
}

#[test]
fn all_zero_token_does_not_match_registered_token() {
    let mut store = Tokens::new();
    // Register a real token
    let real_token = TOKEN;
    let ctx = make_token_context();
    store.register(real_token, ctx);

    // All-zero bytes should not match the registered token
    let zero_bytes = [0u8; 32];
    let err = store.resolve(Some(zero_bytes), 65534, 65534, 99999).unwrap_err();
    assert!(err.contains("permission denied"), "got: {}", err);
}

#[test]
fn auth_context_uid_gid_accessors() {
    let mut store = Tokens::new();

    // Root
    let root = store.resolve(None, 0, 42, 999).unwrap();
    assert_eq!(root.uid(), 0);
    assert_eq!(root.gid(), 42);

    // Group (primary GID matches kepler_gid)
    let group = store.resolve(None, 1000, 999, 999).unwrap();
    assert_eq!(group.uid(), 1000);
    assert_eq!(group.gid(), 999);

    // Token
    let token = TOKEN;
    let ctx = make_token_context();
    store.register(token, ctx);
    let token_auth = store.resolve(Some(token), 42, 99, 999).unwrap();
    assert_eq!(token_auth.uid(), 42);
    assert_eq!(token_auth.gid(), 99);
}

#[test]
fn supplementary_group_member_is_let_in() {
    let auth = resolve_auth(None, 1000, 1000, 999, true).unwrap();
    assert!(matches!(auth, AuthContext::Group { uid: 1000, gid: 1000 }));
}

#[test]
fn refusal_has_its_message() {
    assert_eq!(
        resolve_auth(None, 1000, 1000, 999, false).err().unwrap(),
        "permission denied: not authorized to connect to the daemon"
    );
}

#[test]
fn floor_message_names_both_levels() {
    let err = check_hardening_floor(&make_token_ctx(HardeningLevel::Strict), Some("no-root"))
        .unwrap_err();
    assert_eq!(
        err,
        "permission denied: requested hardening level 'no-root' is below the process's floor \
         'strict'"
    );
}

#[test]
fn root_by_name_is_resolved() {
    let err = check_privilege_escalation(
        HardeningLevel::NoRoot,
        Some("root"),
        Some(1000),
        "service 'test'",
    )
    .unwrap_err();
    assert!(err.contains("uid 0"), "got: {}", err);
}

#[test]
fn groups_count_only_where_nothing_else_decides() {
    assert!(asks_groups(false, 1000, 1000, 50));
    assert!(!asks_groups(true, 1000, 1000, 50));
    assert!(!asks_groups(false, 0, 1000, 50));
    assert!(!asks_groups(false, 1000, 50, 50));
}
