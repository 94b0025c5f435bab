use linkwise::auth::{
    admin_request_guard, app_device_token_from_bytes, app_device_token_from_request, auth_config, auth_config_from_parts,
    authorization_bearer_token_from_request, build_session_cookie, clear_session_cookie, ensure_json_request,
    ensure_same_origin, hash_session_token, is_auth_rate_limited, is_local_host, is_unsafe_method, local_rp_id,
    optional_env_var, parse_cookie_value, record_setup_auth_failure, request_origin, session_expires_at,
    session_token_from_request, setting_flag, setup_rate_limit_bucket, setup_token_usable, should_use_secure_cookie,
    AuthConfig, AuthGuardError, AuthRateLimit, Method, AUTH_ORIGIN_BINDING, AUTH_RP_ID_BINDING,
};
use linkwise::error::LinkwiseError;
use linkwise::weburl::UrlParts;

fn config(origin: &str, local: bool) -> AuthConfig {
    AuthConfig { origin: origin.to_string(), rp_id: "example.com".to_string(), is_local_dev: local, configured: true, missing_config: vec![] }
}

fn some(s: &str) -> Option<String> {
    Some(s.to_string())
}

fn limit(failed_count: i64, first_failed_at: i64, locked_until: Option<i64>) -> AuthRateLimit {
    AuthRateLimit { bucket: "setup:1.2.3.4".to_string(), failed_count, first_failed_at, last_failed_at: first_failed_at, locked_until }
}

#[test]
fn session_tokens_are_stored_as_sha256_hex() {
    assert_eq!(hash_session_token("abc"), "ba7816bf8f01cfea414140de5dae2223b00361a396177a9cb410ff61f20015ad");
    assert_eq!(hash_session_token("token-1"), "3f08aace122ee2368432c1ca23a049bc640bafbf00fdf33a52429f38ba12dbf9");
}

#[test]
fn token_prefix_of_short_token_is_whole_token() {
    assert_eq!(linkwise::auth::app_device_token_prefix("lwapp_ab"), "lwapp_ab");
}

#[test]
fn app_device_tokens_carry_the_prefix() {
    assert_eq!(app_device_token_from_bytes(&[0xfb, 0xff]), "lwapp_-_8");
    assert_eq!(app_device_token_from_bytes(&[]), "lwapp_");
}

#[test]
fn session_expiry_is_capped_at_one_day() {
    assert_eq!(session_expires_at(1000, None), 1000 + 86400);
    assert_eq!(session_expires_at(1000, Some(60)), 1060);
    assert_eq!(session_expires_at(1000, Some(0)), 1000 + 86400);
    assert_eq!(session_expires_at(1000, Some(-5)), 1000 + 86400);
    assert_eq!(session_expires_at(1000, Some(999_999)), 1000 + 86400);
}

#[test]
fn env_values_are_trimmed_and_blank_is_missing() {
    assert_eq!(optional_env_var(some("  https://a.example ")), some("https://a.example"));
    assert_eq!(optional_env_var(some("   ")), None);
    assert_eq!(optional_env_var(None), None);
}

#[test]
fn request_origin_keeps_scheme_host_and_port() {
    assert_eq!(request_origin("https://example.com:8443/path?q=1").ok(), some("https://example.com:8443"));
    assert_eq!(request_origin("http://localhost/").ok(), some("http://localhost"));
    assert_eq!(request_origin("https://example.com:443/").ok(), some("https://example.com"));
    assert_eq!(request_origin("not a url"), Err(LinkwiseError::InvalidRequestUrl));
    assert_eq!(request_origin("mailto:a@b.c"), Err(LinkwiseError::RequestUrlMissingHost));
    assert_eq!(LinkwiseError::RequestUrlMissingHost.message(), "request URL is missing host");
}

#[test]
fn auth_config_outside_local_dev_needs_both_bindings() {
    let c = auth_config("https://links.example.com/api", None, None).ok().unwrap();
    assert_eq!(c.origin, "https://links.example.com");
    assert_eq!(c.rp_id, "links.example.com");
    assert!(!c.is_local_dev);
    assert!(!c.configured);
    assert_eq!(c.missing_config, vec![AUTH_ORIGIN_BINDING, AUTH_RP_ID_BINDING]);

    let c = auth_config("https://links.example.com/api", some("https://links.example.com"), some(" links.example.com ")).ok().unwrap();
    assert!(c.configured);
    assert!(c.missing_config.is_empty());
    assert_eq!(c.rp_id, "links.example.com");
}

#[test]
fn auth_config_in_local_dev_falls_back_to_request() {
    let c = auth_config("http://localhost:8787/", None, None).ok().unwrap();
    assert!(c.is_local_dev);
    assert!(c.configured);
    assert_eq!(c.origin, "http://localhost:8787");
    assert_eq!(c.rp_id, "localhost");
    let parts = UrlParts { scheme: "http".to_string(), host: some("::1"), port: Some(8787) };
    let c = auth_config_from_parts(&parts, None, None).ok().unwrap();
    assert_eq!(c.rp_id, "localhost");
    assert_eq!(c.origin, "http://::1:8787");
    let no_host = UrlParts { scheme: "data".to_string(), host: None, port: None };
    assert_eq!(auth_config_from_parts(&no_host, None, None).err(), Some(LinkwiseError::RequestUrlMissingHost));
    assert!(is_local_host("127.0.0.1"));
    assert!(!is_local_host("example.com"));
    assert_eq!(local_rp_id("::1"), "localhost");
    assert_eq!(local_rp_id("127.0.0.1"), "127.0.0.1");
}

#[test]
fn session_cookie_is_secure_exactly_on_https() {
    let https = config("https://links.example.com", false);
    let local = config("http://localhost:8787", true);
    assert!(should_use_secure_cookie(&https));
    assert!(!should_use_secure_cookie(&local));
    assert_eq!(
        build_session_cookie("tok", &https, Some(100)),
        "linkwise_admin_session=tok; HttpOnly; SameSite=Lax; Path=/; Secure; Max-Age=100"
    );
    assert_eq!(build_session_cookie("tok", &local, None), "linkwise_admin_session=tok; HttpOnly; SameSite=Lax; Path=/");
    assert_eq!(
        build_session_cookie("tok", &local, Some(1_000_000)),
        "linkwise_admin_session=tok; HttpOnly; SameSite=Lax; Path=/; Max-Age=86400"
    );
    assert_eq!(build_session_cookie("tok", &local, Some(0)), "linkwise_admin_session=tok; HttpOnly; SameSite=Lax; Path=/");
    assert_eq!(clear_session_cookie(&https), "linkwise_admin_session=; HttpOnly; SameSite=Lax; Path=/; Max-Age=0; Secure");
    assert_eq!(clear_session_cookie(&local), "linkwise_admin_session=; HttpOnly; SameSite=Lax; Path=/; Max-Age=0");
}

#[test]
fn parses_cookie_values() {
    assert_eq!(parse_cookie_value("a=1; linkwise_admin_session=xyz; b=2", "linkwise_admin_session"), some("xyz"));
    assert_eq!(parse_cookie_value("a=1;b=x=y", "b"), some("x=y"));
    assert_eq!(parse_cookie_value("a=; a=2", "a"), None);
    assert_eq!(parse_cookie_value("flag; a=2", "flag"), None);
    assert_eq!(parse_cookie_value("", "a"), None);
    assert_eq!(session_token_from_request(some("linkwise_admin_session=t1")), some("t1"));
    assert_eq!(session_token_from_request(None), None);
}

#[test]
fn parses_bearer_tokens() {
    assert_eq!(authorization_bearer_token_from_request(some("Bearer abc")), some("abc"));
    assert_eq!(authorization_bearer_token_from_request(some("  bEaReR   abc  ")), some("abc"));
    assert_eq!(authorization_bearer_token_from_request(some("Basic abc")), None);
    assert_eq!(authorization_bearer_token_from_request(some("Bearer")), None);
    assert_eq!(authorization_bearer_token_from_request(some("Bearer    ")), None);
    assert_eq!(authorization_bearer_token_from_request(None), None);
    assert_eq!(app_device_token_from_request(some("Bearer lwapp_123")), some("lwapp_123"));
    assert_eq!(app_device_token_from_request(some("Bearer other")), None);
}

#[test]
fn setup_bucket_prefers_connecting_ip() {
    assert_eq!(setup_rate_limit_bucket(some(" 1.2.3.4 "), some("9.9.9.9")), "setup:1.2.3.4");
    assert_eq!(setup_rate_limit_bucket(None, some(" 5.6.7.8 , 9.9.9.9")), "setup:5.6.7.8");
    assert_eq!(setup_rate_limit_bucket(some(""), some("9.9.9.9")), "setup:unknown");
    assert_eq!(setup_rate_limit_bucket(None, None), "setup:unknown");
}

#[test]
fn only_state_changing_methods_are_guarded() {
    assert!(!is_unsafe_method(&Method::Get));
    assert!(!is_unsafe_method(&Method::Head));
    assert!(!is_unsafe_method(&Method::Options));
    assert!(is_unsafe_method(&Method::Post));
    assert!(is_unsafe_method(&Method::Delete));
}

#[test]
fn json_requests_are_checked_by_media_type() {
    assert!(ensure_json_request(&Method::Post, some("Application/JSON; charset=utf-8")).is_ok());
    assert!(ensure_json_request(&Method::Get, None).is_ok());
    assert!(matches!(ensure_json_request(&Method::Post, some("text/plain")), Err(AuthGuardError::InvalidContentType)));
    assert!(matches!(ensure_json_request(&Method::Put, None), Err(AuthGuardError::InvalidContentType)));
}

#[test]
fn origins_are_checked_for_state_changes() {
    let prod = config("https://links.example.com", false);
    let local = config("http://localhost:8787", true);
    assert!(ensure_same_origin(&Method::Post, some("https://links.example.com"), &prod).is_ok());
    assert!(matches!(ensure_same_origin(&Method::Post, some("https://evil.example"), &prod), Err(AuthGuardError::InvalidOrigin)));
    assert!(matches!(ensure_same_origin(&Method::Post, None, &prod), Err(AuthGuardError::InvalidOrigin)));
    assert!(ensure_same_origin(&Method::Post, None, &local).is_ok());
    assert!(ensure_same_origin(&Method::Get, some("https://evil.example"), &prod).is_ok());
}

#[test]
fn admin_guard_checks_config_then_type_then_origin() {
    let mut unconfigured = config("https://links.example.com", false);
    unconfigured.configured = false;
    unconfigured.missing_config = vec![AUTH_RP_ID_BINDING];
    match admin_request_guard(&unconfigured, &Method::Post, None, None) {
        Err(AuthGuardError::AuthConfigRequired(missing)) => assert_eq!(missing, vec![AUTH_RP_ID_BINDING]),
        _ => panic!("expected a configuration error"),
    }
    let prod = config("https://links.example.com", false);
    assert!(matches!(admin_request_guard(&prod, &Method::Post, some("text/html"), some("https://x")), Err(AuthGuardError::InvalidContentType)));
    assert!(matches!(
        admin_request_guard(&prod, &Method::Post, some("application/json"), some("https://x")),
        Err(AuthGuardError::InvalidOrigin)
    ));
    assert!(admin_request_guard(&prod, &Method::Post, some("application/json"), some("https://links.example.com")).is_ok());
}

#[test]
fn guard_errors_have_status_code_and_message() {
    let cases = [
        (AuthGuardError::AdminSessionRequired, 401, "admin_session_required", "需要解锁管理模式"),
        (AuthGuardError::AppSessionRequired, 401, "app_session_required", "需要有效 App 设备会话"),
        (AuthGuardError::AuthConfigRequired(vec![]), 403, "auth_config_required", "认证配置不完整"),
        (AuthGuardError::InvalidContentType, 400, "invalid_content_type", "请求类型无效"),
        (AuthGuardError::InvalidOrigin, 403, "invalid_origin", "请求来源无效"),
        (AuthGuardError::MixedAuthNotAllowed, 400, "mixed_auth_not_allowed", "请求不能同时使用 Web 会话和 App Token"),
    ];
    for (error, status, code, message) in cases {
        assert_eq!(error.status(), status);
        assert_eq!(error.code(), code);
        assert_eq!(error.message(), message);
    }
}

#[test]
fn setup_flag_and_token_usability() {
    assert!(setting_flag(&some("true")));
    assert!(setting_flag(&some("1")));
    assert!(!setting_flag(&some("TRUE")));
    assert!(!setting_flag(&None));
    assert!(setup_token_usable(false, 0));
    assert!(!setup_token_usable(true, 0));
    assert!(!setup_token_usable(false, 1));
}

#[test]
fn rate_limit_reads_lock_and_window() {
    assert!(!is_auth_rate_limited(&None, 100));
    assert!(is_auth_rate_limited(&Some(limit(1, 0, Some(200))), 100));
    assert!(!is_auth_rate_limited(&Some(limit(1, 0, Some(100))), 100));
    assert!(is_auth_rate_limited(&Some(limit(5, 0, None)), 300));
    assert!(!is_auth_rate_limited(&Some(limit(5, 0, None)), 301));
    assert!(!is_auth_rate_limited(&Some(limit(4, 0, None)), 10));
}

#[test]
fn setup_failures_count_within_window_and_lock_at_five() {
    let first = record_setup_auth_failure(&None, 1000);
    assert!(first.clear_existing);
    assert_eq!(first.locked_until, None);
    let fifth = record_setup_auth_failure(&Some(limit(4, 900, None)), 1000);
    assert!(!fifth.clear_existing);
    assert_eq!(fifth.locked_until, Some(1300));
    let stale = record_setup_auth_failure(&Some(limit(9, 100, None)), 1000);
    assert!(stale.clear_existing);
    assert_eq!(stale.locked_until, None);
}

#[test]
fn issued_session_tokens_read_back_from_cookie() {
    let token = linkwise::base64url::base64url_encode(&[7u8; 32]);
    let header = format!("linkwise_admin_session={token}");
    assert_eq!(session_token_from_request(Some(header)), Some(token));
}
