use plexspaces_services::accounts::{
    api_token_expiry, api_token_scopes, build_page_response, check_get_or_create_request,
    check_token_id, check_token_name, check_update_user, is_revoked, list_users_tenant_filter,
    normalize_page, require_user_id, revoke_decision, revoke_error_status, timestamp_from_unix,
    ApiTokenRepositoryError, RequestError, TenantRepositoryError, UserRepositoryError,
};
use plexspaces_services::oidc::{
    accept_callback_state, authorization_url, begin_login, begin_login_with_state,
    callback_redirect_uri, check_oidc_config, check_token_status, dashboard_location,
    require_email, resolve_client_secret, resolve_tenant_slug, scope_parameter, session_cookie,
    session_expiry, session_is_admin, token_parse_error, CallbackFailure, OidcCallbackError,
    OidcCallbackParams, OidcConfig, OidcError, PendingStates,
};

fn oidc_config() -> OidcConfig {
    OidcConfig {
        enabled: true,
        discovery_url: "https://idp.example.com/.well-known/openid-configuration".to_string(),
        client_id: "dash".to_string(),
        client_secret: String::new(),
        redirect_uri: String::new(),
        scopes: Vec::new(),
        tenant_claim: String::new(),
        default_tenant_id: "default".to_string(),
        admin_groups: Vec::new(),
    }
}

// ============================================================
// Repository errors and stored values
// ============================================================

#[test]
fn repository_error_messages() {
    assert_eq!(ApiTokenRepositoryError::Database("x".into()).message(), "Database error: x");
    assert_eq!(ApiTokenRepositoryError::NotFound("t".into()).message(), "Not found: t");
    assert_eq!(
        ApiTokenRepositoryError::PermissionDenied("no".into()).message(),
        "Permission denied: no"
    );
    assert_eq!(UserRepositoryError::NotFound("u".into()).message(), "Not found: u");
    assert_eq!(UserRepositoryError::Database("d".into()).message(), "Database error: d");
    assert_eq!(TenantRepositoryError::Database("d".into()).message(), "Database error: d");
    assert_eq!(TenantRepositoryError::NotFound("acme".into()).message(), "Not found: acme");
}

#[test]
fn stored_times_count_when_positive() {
    assert!(timestamp_from_unix(None).is_none());
    assert!(timestamp_from_unix(Some(0)).is_none());
    assert!(timestamp_from_unix(Some(-5)).is_none());
    let t = timestamp_from_unix(Some(1_700_000_000)).unwrap();
    assert_eq!(t.seconds, 1_700_000_000);
    assert_eq!(t.nanos, 0);
}

#[test]
fn revocation_state_of_stored_tokens() {
    assert!(!is_revoked(None));
    assert!(!is_revoked(Some(None)));
    assert!(!is_revoked(Some(Some(0))));
    assert!(is_revoked(Some(Some(1_700_000_000))));
}

#[test]
fn test_revoke_by_owner() {
    let r = revoke_decision("tok", Some(("u1".to_string(), None)), "u1", false);
    assert!(matches!(r, Ok(true)));
}

#[test]
fn test_revoke_permission_denied() {
    let r = revoke_decision("tok", Some(("u1".to_string(), None)), "other_user", false);
    match r {
        Err(ApiTokenRepositoryError::PermissionDenied(m)) => {
            assert_eq!(m, "Only the token owner or an admin may revoke this token")
        }
        _ => panic!("expected permission denied"),
    }
}

#[test]
fn test_revoke_admin_can_revoke_any() {
    let r = revoke_decision("tok", Some(("u1".to_string(), None)), "admin_user", true);
    assert!(matches!(r, Ok(true)));
}

#[test]
fn revoking_twice_leaves_the_token_alone() {
    let r = revoke_decision("tok", Some(("u1".to_string(), Some(1_700_000_000))), "someone", false);
    assert!(matches!(r, Ok(false)));
}

#[test]
fn revoking_a_missing_token_is_not_found() {
    match revoke_decision("tok-9", None, "u1", true) {
        Err(ApiTokenRepositoryError::NotFound(m)) => assert_eq!(m, "Token tok-9 not found"),
        _ => panic!("expected not found"),
    }
}

#[test]
fn revoke_errors_map_to_answers() {
    assert!(matches!(
        revoke_error_status(ApiTokenRepositoryError::NotFound("a".into())),
        RequestError::NotFound(m) if m == "a"
    ));
    assert!(matches!(
        revoke_error_status(ApiTokenRepositoryError::PermissionDenied("b".into())),
        RequestError::PermissionDenied(m) if m == "b"
    ));
    assert!(matches!(
        revoke_error_status(ApiTokenRepositoryError::Database("c".into())),
        RequestError::Internal(m) if m == "c"
    ));
}

// ============================================================
// Request checks
// ============================================================

#[test]
fn get_or_create_needs_email_and_tenant() {
    assert!(matches!(
        check_get_or_create_request("", "t1"),
        Err(RequestError::InvalidArgument(m)) if m == "email is required"
    ));
    assert!(matches!(
        check_get_or_create_request("a@b.c", ""),
        Err(RequestError::InvalidArgument(m)) if m == "tenant_id is required"
    ));
    assert!(check_get_or_create_request("a@b.c", "t1").is_ok());
}

#[test]
fn update_user_permissions() {
    assert!(matches!(
        check_update_user(false, Some("u1"), "", None),
        Err(RequestError::InvalidArgument(m)) if m == "user_id is required"
    ));
    assert!(matches!(
        check_update_user(false, Some("u2"), "u1", None),
        Err(RequestError::PermissionDenied(m)) if m == "Only an admin or the account owner may update this user"
    ));
    assert!(matches!(
        check_update_user(false, None, "u1", None),
        Err(RequestError::PermissionDenied(_))
    ));
    assert!(matches!(
        check_update_user(false, Some("u1"), "u1", Some(true)),
        Err(RequestError::PermissionDenied(m)) if m == "Only an admin may change admin status"
    ));
    assert!(check_update_user(false, Some("u1"), "u1", Some(false)).is_ok());
    assert!(check_update_user(true, None, "u1", Some(true)).is_ok());
}

#[test]
fn token_requests_need_a_user_name_and_id() {
    assert_eq!(require_user_id(Some("u1")).unwrap(), "u1");
    assert!(matches!(
        require_user_id(None),
        Err(RequestError::Unauthenticated(m)) if m == "user_id missing from token"
    ));
    assert!(matches!(
        check_token_name(""),
        Err(RequestError::InvalidArgument(m)) if m == "name is required"
    ));
    assert!(check_token_name("ci").is_ok());
    assert!(matches!(
        check_token_id(""),
        Err(RequestError::InvalidArgument(m)) if m == "token_id is required"
    ));
    assert!(check_token_id("t").is_ok());
}

#[test]
fn user_listing_tenant_filter() {
    assert_eq!(list_users_tenant_filter(true, "t1", String::new()), None);
    assert_eq!(list_users_tenant_filter(true, "t1", "t9".to_string()), Some("t9".to_string()));
    assert_eq!(list_users_tenant_filter(false, "t1", "t9".to_string()), Some("t1".to_string()));
}

#[test]
fn api_token_defaults() {
    assert_eq!(api_token_scopes(Vec::new()), vec!["read".to_string(), "write".to_string()]);
    assert_eq!(api_token_scopes(vec!["admin".to_string()]), vec!["admin".to_string()]);
    assert_eq!(api_token_expiry(1_000, None), 1_000 + 90 * 24 * 3600);
    assert_eq!(api_token_expiry(1_000, Some(60)), 1_060);
}

#[test]
fn pages_are_normalized() {
    assert_eq!(normalize_page(-3, 0), (0, 50));
    assert_eq!(normalize_page(10, -1), (10, 50));
    assert_eq!(normalize_page(10, 5000), (10, 1000));
    assert_eq!(normalize_page(7, 20), (7, 20));
}

#[test]
fn page_response_reports_next_page() {
    let p = build_page_response(120, 50, 50);
    assert!(p.has_next);
    assert_eq!(p.total_size, 120);
    assert_eq!(p.offset, 50);
    assert_eq!(p.limit, 50);
    assert!(!p.request_id.is_empty());
    assert!(!build_page_response(100, 50, 50).has_next);
    assert!(!build_page_response(0, 0, 50).has_next);
}

// ============================================================
// OIDC
// ============================================================

#[test]
fn oidc_needs_enabled_discovery_and_client() {
    assert!(check_oidc_config(&oidc_config()).is_ok());
    let mut c = oidc_config();
    c.enabled = false;
    assert!(matches!(check_oidc_config(&c), Err(OidcError::NotConfigured)));
    let mut c = oidc_config();
    c.discovery_url = String::new();
    assert!(matches!(check_oidc_config(&c), Err(OidcError::NotConfigured)));
    let mut c = oidc_config();
    c.client_id = String::new();
    assert!(matches!(check_oidc_config(&c), Err(OidcError::NotConfigured)));
}

#[test]
fn oidc_error_messages() {
    assert_eq!(OidcError::NotConfigured.message(), "OIDC not configured");
    assert_eq!(OidcError::Configuration("x".into()).message(), "Configuration error: x");
    assert_eq!(OidcError::Discovery("y".into()).message(), "Discovery error: y");
    assert_eq!(OidcCallbackError::InvalidState.message(), "Invalid CSRF state");
    assert_eq!(
        OidcCallbackError::TokenExchange("e".into()).message(),
        "Token exchange failed: e"
    );
    assert_eq!(
        OidcCallbackError::ClaimVerification("e".into()).message(),
        "Claim verification failed: e"
    );
    assert_eq!(
        OidcCallbackError::MissingEmail.message(),
        "Email claim missing from OIDC token"
    );
    assert_eq!(OidcCallbackError::UserCreation("e".into()).message(), "User creation failed: e");
    assert_eq!(OidcCallbackError::JwtCreation("e".into()).message(), "JWT creation failed: e");
}

#[test]
fn failed_callbacks_are_answered_by_kind() {
    assert_eq!(
        OidcCallbackError::InvalidState.failure_response(),
        CallbackFailure::Redirect("/api/v1/auth/oidc/login")
    );
    assert_eq!(
        OidcCallbackError::TokenExchange("x".into()).failure_response(),
        CallbackFailure::Redirect("/api/v1/auth/oidc/login")
    );
    assert_eq!(
        OidcCallbackError::ClaimVerification("x".into()).failure_response(),
        CallbackFailure::Status(401, "Token verification failed")
    );
    assert_eq!(
        OidcCallbackError::MissingEmail.failure_response(),
        CallbackFailure::Status(400, "Email claim missing from token")
    );
    assert_eq!(
        OidcCallbackError::UserCreation("x".into()).failure_response(),
        CallbackFailure::Status(500, "User creation failed")
    );
    assert_eq!(
        OidcCallbackError::JwtCreation("x".into()).failure_response(),
        CallbackFailure::Status(500, "JWT creation failed")
    );
}

#[test]
fn login_url_uses_defaults_and_encodes_parameters() {
    let mut pending = PendingStates::new();
    let url = begin_login_with_state(
        &mut pending,
        &oidc_config(),
        "https://idp.example.com/authorize",
        "01HSTATE".to_string(),
        1_000,
    );
    assert_eq!(
        url,
        "https://idp.example.com/authorize?response_type=code&client_id=dash\
         &redirect_uri=%2Fapi%2Fv1%2Fauth%2Foidc%2Fcallback&scope=openid%20email%20profile&state=01HSTATE"
    );
    assert_eq!(pending.len(), 1);
}

#[test]
fn login_url_with_configured_scopes_and_redirect() {
    let mut config = oidc_config();
    config.scopes = vec!["openid".to_string(), "groups".to_string()];
    config.redirect_uri = "https://dash.example.com/cb".to_string();
    let mut pending = PendingStates::new();
    let url = begin_login_with_state(&mut pending, &config, "https://idp/a", "s1".to_string(), 5);
    assert_eq!(
        url,
        "https://idp/a?response_type=code&client_id=dash&redirect_uri=https%3A%2F%2Fdash.example.com%2Fcb\
         &scope=openid%20groups&state=s1"
    );
}

#[test]
fn login_with_fresh_state_is_accepted_once() {
    let mut pending = PendingStates::new();
    let url = begin_login(&mut pending, &oidc_config(), "https://idp/a", 1_000);
    let state = url.rsplit("state=").next().unwrap().to_string();
    assert_eq!(state.len(), 26);
    assert_eq!(accept_callback_state(&mut pending, &state).unwrap(), 1_000);
    assert!(matches!(
        accept_callback_state(&mut pending, &state),
        Err(OidcCallbackError::InvalidState)
    ));
}

#[test]
fn unknown_callback_state_is_rejected() {
    let mut pending = PendingStates::new();
    let params = OidcCallbackParams { code: "c".to_string(), state: "forged".to_string() };
    assert!(matches!(
        accept_callback_state(&mut pending, &params.state),
        Err(OidcCallbackError::InvalidState)
    ));
    assert_eq!(params.code, "c");
}

#[test]
fn stale_states_are_evicted_on_the_next_login() {
    let mut pending = PendingStates::new();
    pending.register("old".to_string(), 1_000);
    pending.register("mid".to_string(), 1_200);
    pending.register("new".to_string(), 1_300);
    assert_eq!(pending.len(), 2);
    assert!(accept_callback_state(&mut pending, "old").is_err());
    assert_eq!(accept_callback_state(&mut pending, "mid").unwrap(), 1_200);
    assert_eq!(accept_callback_state(&mut pending, "new").unwrap(), 1_300);
}

#[test]
fn too_many_pending_states_are_dropped() {
    let mut pending = PendingStates::new();
    for i in 0..1001 {
        pending.register(format!("s{}", i), 10);
    }
    assert_eq!(pending.len(), 1001);
    pending.register("last".to_string(), 10);
    assert_eq!(pending.len(), 1);
    assert_eq!(accept_callback_state(&mut pending, "last").unwrap(), 10);
}

#[test]
fn registering_a_state_again_renews_it() {
    let mut pending = PendingStates::new();
    pending.register("s".to_string(), 10);
    pending.register("s".to_string(), 20);
    assert_eq!(pending.len(), 1);
    assert_eq!(accept_callback_state(&mut pending, "s").unwrap(), 20);
}

#[test]
fn parameter_defaults() {
    assert_eq!(scope_parameter(&Vec::new()), "openid email profile");
    assert_eq!(
        scope_parameter(&vec!["a".to_string(), "b".to_string(), "c".to_string()]),
        "a b c"
    );
    assert_eq!(callback_redirect_uri(""), "/api/v1/auth/oidc/callback");
    assert_eq!(callback_redirect_uri("https://x/cb"), "https://x/cb");
    assert_eq!(
        authorization_url("E", "a b", "c&d", "s", "é"),
        "E?response_type=code&client_id=a%20b&redirect_uri=c%26d&scope=s&state=%C3%A9"
    );
}

#[test]
fn client_secret_resolution() {
    assert_eq!(resolve_client_secret("conf", Some("env".to_string())).unwrap(), "conf");
    assert_eq!(resolve_client_secret("", Some("env".to_string())).unwrap(), "env");
    assert!(matches!(
        resolve_client_secret("", None),
        Err(OidcCallbackError::TokenExchange(m)) if m == "OIDC client secret not configured"
    ));
}

#[test]
fn token_answer_checks() {
    assert!(check_token_status(200, "{}").is_ok());
    assert!(check_token_status(204, "").is_ok());
    assert!(matches!(
        check_token_status(400, "invalid_grant"),
        Err(OidcCallbackError::TokenExchange(m)) if m == "provider returned HTTP 400: invalid_grant"
    ));
    assert!(matches!(
        check_token_status(302, "x"),
        Err(OidcCallbackError::TokenExchange(m)) if m == "provider returned HTTP 302: x"
    ));
    assert!(matches!(
        token_parse_error("missing field", "{}"),
        OidcCallbackError::TokenExchange(m) if m == "missing field: {}"
    ));
    assert!(matches!(require_email(""), Err(OidcCallbackError::MissingEmail)));
    assert!(require_email("a@b.c").is_ok());
}

#[test]
fn tenant_slug_resolution() {
    assert_eq!(resolve_tenant_slug("", Some("acme"), "default"), "default");
    assert_eq!(resolve_tenant_slug("org", Some("acme"), "default"), "acme");
    assert_eq!(resolve_tenant_slug("org", Some(""), "default"), "default");
    assert_eq!(resolve_tenant_slug("org", None, "default"), "default");
}

#[test]
fn admin_rights_of_a_session() {
    let groups = vec!["dev".to_string(), "ops".to_string()];
    assert!(session_is_admin(true, &groups, &Vec::new()));
    assert!(!session_is_admin(false, &groups, &Vec::new()));
    assert!(session_is_admin(false, &groups, &vec!["ops".to_string()]));
    assert!(!session_is_admin(false, &groups, &vec!["root".to_string()]));
}

#[test]
fn session_cookie_flags() {
    assert_eq!(
        session_cookie("T", "https://dash.example.com/cb"),
        "plexspaces_token=T; Path=/; HttpOnly; SameSite=Strict; Max-Age=3600; Secure"
    );
    assert_eq!(
        session_cookie("T", "http://localhost/cb"),
        "plexspaces_token=T; Path=/; HttpOnly; SameSite=Lax; Max-Age=3600"
    );
    assert_eq!(session_expiry(100), 3_700);
    assert_eq!(dashboard_location(), "/dashboard");
}
