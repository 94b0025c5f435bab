use vstd::prelude::*;
use js_sys::wasm_bindgen::JsCast;
use crate::base64url::{base64url_encode, encode_spec};
use crate::crypto::{hex_spec, sha256, sha256_hex, utf8_of};
use crate::db::{string_or_empty, text_or_empty};
use crate::error::LinkwiseError;
use crate::text::{trim_end_seq, trim_start_seq, append_str, ascii_lower, ascii_lower_chars, ascii_lower_seq, chars_eq, chars_of, decimal_spec, find_char, find_char_from, int_decimal_spec, lemma_find_char_bounds, push_decimal, push_signed_decimal, slice_chars, split_chars, split_seq, starts_with_chars, is_prefix, string_of, string_of_range, trim_chars, trim_seq};
use crate::weburl::{parse_url, parsed_url, UrlParts};

verus! {

broadcast use vstd::string::group_string_axioms;

/// The name of the admin session cookie.
pub const ADMIN_SESSION_COOKIE: &'static str = "linkwise_admin_session";

/// The binding that names the public origin of the service.
pub const AUTH_ORIGIN_BINDING: &'static str = "LINKWISE_AUTH_ORIGIN";

/// The binding that names the WebAuthn relying party ID.
pub const AUTH_RP_ID_BINDING: &'static str = "LINKWISE_AUTH_RP_ID";

/// The binding that holds the one-time setup token.
pub const SETUP_TOKEN_BINDING: &'static str = "LINKWISE_SETUP_TOKEN";

/// The setting that records that the first passkey was registered.
pub const SETUP_COMPLETED_KEY: &'static str = "auth.setup_completed";

/// The setting that records when the first passkey was registered.
pub const SETUP_COMPLETED_AT_KEY: &'static str = "auth.setup_completed_at";

/// The purpose of a challenge issued for a passkey registration.
pub const PURPOSE_PASSKEY_REGISTRATION: &'static str = "passkey_registration";

/// The purpose of a challenge issued for a passkey login.
pub const PURPOSE_PASSKEY_LOGIN: &'static str = "passkey_login";

/// The longest life of a web session, in seconds (one day).
pub const WEB_SESSION_MAX_AGE_SECONDS: i64 = 24 * 60 * 60;

/// The failures within the window after which a bucket is locked.
pub const AUTH_RATE_LIMIT_MAX_FAILURES: i64 = 5;

/// The window, in seconds, over which failures are counted.
pub const AUTH_RATE_LIMIT_WINDOW_SECONDS: i64 = 5 * 60;

/// How long, in seconds, a bucket stays locked.
pub const AUTH_RATE_LIMIT_LOCK_SECONDS: i64 = 5 * 60;

/// The text every app device token begins with.
pub const APP_DEVICE_TOKEN_PREFIX: &'static str = "lwapp_";

/// The random bytes behind an app device token.
pub const APP_DEVICE_TOKEN_RANDOM_BYTES: u32 = 32;

/// The characters of an app device token that are kept as its public hint: the prefix
/// and eight more.
pub const APP_DEVICE_TOKEN_PREFIX_CHARS: usize = 6 + 8;

/// A passkey to store.
#[derive(Debug, Clone)]
pub struct NewAdminCredential {
    pub credential_id: String,
    pub public_key: String,
    pub sign_count: i64,
    pub name: String,
    pub created_at: i64,
}

/// A challenge to store.
#[derive(Debug, Clone)]
pub struct NewAuthChallenge {
    pub id: String,
    pub challenge: String,
    pub purpose: String,
    pub created_at: i64,
    pub expires_at: i64,
}

/// An admin session to store.
#[derive(Debug, Clone)]
pub struct NewAdminSession {
    pub id: String,
    pub token_hash: String,
    pub credential_id: Option<String>,
    pub created_at: i64,
    pub last_seen_at: i64,
    pub expires_at: i64,
}

/// An app device session to store.
#[derive(Debug, Clone)]
pub struct NewAppDeviceSession {
    pub id: String,
    pub token_hash: String,
    pub token_prefix: String,
    pub name: String,
    pub issued_by_credential_id: Option<String>,
    pub created_at: i64,
}

/// The failure record of a rate-limit bucket.
#[derive(Debug, Clone)]
pub struct AuthRateLimit {
    pub bucket: String,
    pub failed_count: i64,
    pub first_failed_at: i64,
    pub last_failed_at: i64,
    pub locked_until: Option<i64>,
}

/// The origin and relying party the service authenticates for.
#[derive(Debug, Clone)]
pub struct AuthConfig {
    pub origin: String,
    pub rp_id: String,
    pub is_local_dev: bool,
    pub configured: bool,
    pub missing_config: Vec<&'static str>,
}

/// Why a request is refused before it reaches its handler.
#[derive(Debug, Clone)]
pub enum AuthGuardError {
    AdminSessionRequired,
    AppSessionRequired,
    AuthConfigRequired(Vec<&'static str>),
    InvalidContentType,
    InvalidOrigin,
    MixedAuthNotAllowed,
}

impl AuthGuardError {
    /// The HTTP status of the refusal.
    pub fn status(&self) -> (r: u16)
        ensures
            r == match self {
                AuthGuardError::AdminSessionRequired | AuthGuardError::AppSessionRequired => 401u16,
                AuthGuardError::InvalidContentType | AuthGuardError::MixedAuthNotAllowed => 400u16,
                AuthGuardError::AuthConfigRequired(_) | AuthGuardError::InvalidOrigin => 403u16,
            },
    {
        match self {
            AuthGuardError::AdminSessionRequired | AuthGuardError::AppSessionRequired => 401,
            AuthGuardError::InvalidContentType | AuthGuardError::MixedAuthNotAllowed => 400,
            AuthGuardError::AuthConfigRequired(_) | AuthGuardError::InvalidOrigin => 403,
        }
    }

    /// The error code of the refusal.
    pub fn code(&self) -> (r: &'static str)
        ensures
            r@ == match self {
                AuthGuardError::AdminSessionRequired => "admin_session_required"@,
                AuthGuardError::AppSessionRequired => "app_session_required"@,
                AuthGuardError::AuthConfigRequired(_) => "auth_config_required"@,
                AuthGuardError::InvalidContentType => "invalid_content_type"@,
                AuthGuardError::InvalidOrigin => "invalid_origin"@,
                AuthGuardError::MixedAuthNotAllowed => "mixed_auth_not_allowed"@,
            },
    {
        match self {
            AuthGuardError::AdminSessionRequired => "admin_session_required",
            AuthGuardError::AppSessionRequired => "app_session_required",
            AuthGuardError::AuthConfigRequired(_) => "auth_config_required",
            AuthGuardError::InvalidContentType => "invalid_content_type",
            AuthGuardError::InvalidOrigin => "invalid_origin",
            AuthGuardError::MixedAuthNotAllowed => "mixed_auth_not_allowed",
        }
    }

    /// The message of the refusal.
    pub fn message(&self) -> (r: &'static str)
        ensures
            r@ == match self {
                AuthGuardError::AdminSessionRequired => "需要解锁管理模式"@,
                AuthGuardError::AppSessionRequired => "需要有效 App 设备会话"@,
                AuthGuardError::AuthConfigRequired(_) => "认证配置不完整"@,
                AuthGuardError::InvalidContentType => "请求类型无效"@,
                AuthGuardError::InvalidOrigin => "请求来源无效"@,
                AuthGuardError::MixedAuthNotAllowed => "请求不能同时使用 Web 会话和 App Token"@,
            },
    {
        match self {
            AuthGuardError::AdminSessionRequired => "需要解锁管理模式",
            AuthGuardError::AppSessionRequired => "需要有效 App 设备会话",
            AuthGuardError::AuthConfigRequired(_) => "认证配置不完整",
            AuthGuardError::InvalidContentType => "请求类型无效",
            AuthGuardError::InvalidOrigin => "请求来源无效",
            AuthGuardError::MixedAuthNotAllowed => "请求不能同时使用 Web 会话和 App Token",
        }
    }
}

/// The models of optional text.
pub open spec fn opt_text(o: Option<String>) -> Option<Seq<char>> {
    match o {
        Some(s) => Some(s@),
        None => None,
    }
}

/// The hash under which a session token is stored: the lower-case hexadecimal SHA-256
/// of its UTF-8 bytes.
pub fn hash_session_token(token: &str) -> (r: String)
    ensures
        r@ == hex_spec(sha256(utf8_of(token@))),
{
    sha256_hex(token)
}

/// The public hint of an app device token: its first `APP_DEVICE_TOKEN_PREFIX_CHARS`
/// characters (all of it when it is shorter).
pub fn app_device_token_prefix(token: &str) -> (r: String)
    ensures
        r@ == if token@.len() <= APP_DEVICE_TOKEN_PREFIX_CHARS {
            token@
        } else {
            token@.take(APP_DEVICE_TOKEN_PREFIX_CHARS as int)
        },
{
    let v = chars_of(token);
    let end = if v.len() <= APP_DEVICE_TOKEN_PREFIX_CHARS {
        v.len()
    } else {
        APP_DEVICE_TOKEN_PREFIX_CHARS
    };
    let r = string_of_range(&v, 0, end);
    proof {
        if v@.len() <= APP_DEVICE_TOKEN_PREFIX_CHARS {
            assert(v@.subrange(0, end as int) =~= v@);
        }
    }
    r
}

/// The errors by which drawing random bytes from the runtime fails: no `crypto` global,
/// no `getRandomValues` on it, one that is not a function, or a call of it that throws.
pub open spec fn is_randomness_error(e: LinkwiseError) -> bool {
    e == LinkwiseError::CryptoUnavailable || e == LinkwiseError::RandomValuesUnavailable
        || e == LinkwiseError::RandomValuesNotCallable || e == LinkwiseError::RandomValuesFailed
}

#[verifier::external_body]
/// Calls the JavaScript `crypto.getRandomValues` of the worker runtime (through
/// `js_sys::Reflect::get` and `js_sys::Function::call1`) on a fresh `js_sys::Uint8Array`.
/// Claimed: on success the bytes are as many as asked for; a failure is reported as the
/// randomness error of the step that failed. Which bytes come back, and whether the runtime
/// provides them at all, is left open: they are random.
fn random_bytes(byte_len: u32) -> (r: Result<Vec<u8>, LinkwiseError>)
    ensures
        r matches Ok(b) ==> b@.len() == byte_len,
        r matches Err(e) ==> is_randomness_error(e),
{
    let crypto = js_sys::Reflect::get(&js_sys::global(), &"crypto".into()).map_err(|_| LinkwiseError::CryptoUnavailable)?;
    let fill = js_sys::Reflect::get(&crypto, &"getRandomValues".into()).map_err(|_| LinkwiseError::RandomValuesUnavailable)?;
    let fill = fill.dyn_into::<js_sys::Function>().map_err(|_| LinkwiseError::RandomValuesNotCallable)?;
    let array = js_sys::Uint8Array::new_with_length(byte_len);
    fill.call1(&crypto, &array).map_err(|_| LinkwiseError::RandomValuesFailed)?;
    Ok(array.to_vec())
}

/// `byte_len` random bytes in unpadded base64url.
pub fn random_base64url(byte_len: u32) -> (r: Result<String, LinkwiseError>)
    ensures
        r matches Ok(s) ==> exists|b: Seq<u8>| b.len() == byte_len && s@ == #[trigger] encode_spec(b),
        r matches Err(e) ==> is_randomness_error(e),
{
    let bytes = random_bytes(byte_len)?;
    let s = base64url_encode(bytes.as_slice());
    proof {
        assert(bytes@.len() == byte_len && s@ == encode_spec(bytes@));
    }
    Ok(s)
}

/// The app device token made of the given random bytes: the prefix, then the bytes in
/// unpadded base64url.
pub fn app_device_token_from_bytes(random: &[u8]) -> (r: String)
    ensures
        r@ == APP_DEVICE_TOKEN_PREFIX@ + encode_spec(random@),
{
    let mut token = String::new();
    append_str(&mut token, APP_DEVICE_TOKEN_PREFIX);
    let encoded = base64url_encode(random);
    append_str(&mut token, encoded.as_str());
    token
}

/// A fresh app device token: the prefix and `APP_DEVICE_TOKEN_RANDOM_BYTES` random bytes
/// in unpadded base64url.
pub fn build_app_device_token() -> (r: Result<String, LinkwiseError>)
    ensures
        r matches Ok(t) ==> exists|b: Seq<u8>| b.len() == APP_DEVICE_TOKEN_RANDOM_BYTES && t@ == APP_DEVICE_TOKEN_PREFIX@ + #[trigger] encode_spec(b),
        r matches Err(e) ==> is_randomness_error(e),
{
    let bytes = random_bytes(APP_DEVICE_TOKEN_RANDOM_BYTES)?;
    let token = app_device_token_from_bytes(bytes.as_slice());
    proof {
        assert(bytes@.len() == APP_DEVICE_TOKEN_RANDOM_BYTES && token@ == APP_DEVICE_TOKEN_PREFIX@ + encode_spec(bytes@));
    }
    Ok(token)
}

/// The life of a session in seconds: the requested one when it is positive, at most a
/// day; a day when none is requested.
pub open spec fn session_max_age(requested: Option<i64>) -> int {
    match requested {
        Some(v) => if v > 0 && v < WEB_SESSION_MAX_AGE_SECONDS {
            v as int
        } else {
            WEB_SESSION_MAX_AGE_SECONDS as int
        },
        None => WEB_SESSION_MAX_AGE_SECONDS as int,
    }
}

/// When a session made at `now` expires.
pub fn session_expires_at(now: i64, requested_max_age: Option<i64>) -> (r: i64)
    requires
        now <= i64::MAX - WEB_SESSION_MAX_AGE_SECONDS,
    ensures
        r == now + session_max_age(requested_max_age),
        now < r <= now + WEB_SESSION_MAX_AGE_SECONDS,
{
    let max_age = match requested_max_age {
        Some(v) => if v > 0 && v < WEB_SESSION_MAX_AGE_SECONDS {
            v
        } else {
            WEB_SESSION_MAX_AGE_SECONDS
        },
        None => WEB_SESSION_MAX_AGE_SECONDS,
    };
    now + max_age
}

/// The value of an environment binding: trimmed, and `None` when missing or blank.
pub open spec fn env_value_spec(raw: Option<String>) -> Option<Seq<char>> {
    match raw {
        Some(v) => if trim_seq(v@).len() > 0 {
            Some(trim_seq(v@))
        } else {
            None
        },
        None => None,
    }
}

/// The value of an environment binding as read: trimmed, and `None` when missing or
/// blank.
pub fn optional_env_var(raw: Option<String>) -> (r: Option<String>)
    ensures
        opt_text(r) == env_value_spec(raw),
{
    match raw {
        Some(v) => {
            let t = crate::text::trim_str(v.as_str());
            if t.as_str().is_empty() {
                None
            } else {
                Some(t)
            }
        },
        None => None,
    }
}

/// `scheme://host`, with `:port` when the URL names a port.
pub open spec fn origin_spec(scheme: Seq<char>, host: Seq<char>, port: Option<u16>) -> Seq<char> {
    scheme + "://"@ + host + match port {
        Some(p) => seq![':'] + decimal_spec(p as nat),
        None => seq![],
    }
}

/// The origin of a parsed request URL; fails when it has no host.
pub fn origin_from_parts(parts: &UrlParts) -> (r: Result<String, LinkwiseError>)
    ensures
        match parts.host {
            None => r == Err::<String, LinkwiseError>(LinkwiseError::RequestUrlMissingHost),
            Some(h) => r matches Ok(o) && o@ == origin_spec(parts.scheme@, h@, parts.port),
        },
{
    let host = match &parts.host {
        Some(h) => h,
        None => return Err(LinkwiseError::RequestUrlMissingHost),
    };
    let mut origin = String::new();
    append_str(&mut origin, parts.scheme.as_str());
    append_str(&mut origin, "://");
    append_str(&mut origin, host.as_str());
    match parts.port {
        Some(p) => {
            crate::text::push_char(&mut origin, ':');
            push_decimal(&mut origin, p as u64);
            proof {
                assert(origin@ =~= origin_spec(parts.scheme@, host@, parts.port));
            }
        },
        None => {
            proof {
                assert(origin@ =~= origin_spec(parts.scheme@, host@, parts.port));
            }
        },
    }
    Ok(origin)
}

/// The origin of the request URL `url`: `scheme://host[:port]` as the `url` crate parses
/// it; fails when it does not parse or has no host.
pub fn request_origin(url: &str) -> (r: Result<String, LinkwiseError>)
    ensures
        match parsed_url(url@) {
            None => r == Err::<String, LinkwiseError>(LinkwiseError::InvalidRequestUrl),
            Some((scheme, host, port)) => match host {
                None => r == Err::<String, LinkwiseError>(LinkwiseError::RequestUrlMissingHost),
                Some(h) => r matches Ok(o) && o@ == origin_spec(scheme, h, port),
            },
        },
{
    match parse_url(url) {
        None => Err(LinkwiseError::InvalidRequestUrl),
        Some(parts) => origin_from_parts(&parts),
    }
}

/// A host of local development.
pub open spec fn local_host_spec(host: Seq<char>) -> bool {
    host == "localhost"@ || host == "127.0.0.1"@ || host == "::1"@
}

/// The relying party ID used for a local host.
pub open spec fn local_rp_id_spec(host: Seq<char>) -> Seq<char> {
    if host == "::1"@ {
        "localhost"@
    } else {
        host
    }
}

/// Is `host` a host of local development?
pub fn is_local_host(host: &str) -> (r: bool)
    ensures
        r == local_host_spec(host@),
{
    let h = chars_of(host);
    chars_eq(&h, &chars_of("localhost")) || chars_eq(&h, &chars_of("127.0.0.1")) || chars_eq(&h, &chars_of("::1"))
}

/// The relying party ID used for a local host.
pub fn local_rp_id(host: &str) -> (r: String)
    ensures
        r@ == local_rp_id_spec(host@),
{
    let h = chars_of(host);
    if chars_eq(&h, &chars_of("::1")) {
        string_of(&chars_of("localhost"))
    } else {
        string_of(&h)
    }
}

/// The bindings that a deployment outside local development lacks.
pub open spec fn missing_config_spec(origin: Option<Seq<char>>, rp_id: Option<Seq<char>>, local: bool) -> Seq<Seq<char>> {
    (if origin is None && !local {
        seq![AUTH_ORIGIN_BINDING@]
    } else {
        seq![]
    }) + (if rp_id is None && !local {
        seq![AUTH_RP_ID_BINDING@]
    } else {
        seq![]
    })
}

/// The texts of a list of names.
pub open spec fn names_model(v: Seq<&'static str>) -> Seq<Seq<char>> {
    v.map_values(|s: &'static str| s@)
}

/// The authentication configuration for a request whose URL parsed into `parts`: the
/// configured origin and relying party ID, or, where they are not configured, the
/// request's own origin and host; outside local development both must be configured.
pub fn auth_config_from_parts(parts: &UrlParts, origin_env: Option<String>, rp_id_env: Option<String>) -> (r: Result<AuthConfig, LinkwiseError>)
    ensures
        match parts.host {
            None => r == Err::<AuthConfig, LinkwiseError>(LinkwiseError::RequestUrlMissingHost),
            Some(h) => r matches Ok(c) && {
                let origin = env_value_spec(origin_env);
                let rp_id = env_value_spec(rp_id_env);
                let local = local_host_spec(h@);
                &&& c.origin@ == (match origin {
                    Some(o) => o,
                    None => origin_spec(parts.scheme@, h@, parts.port),
                })
                &&& c.rp_id@ == (match rp_id {
                    Some(x) => x,
                    None => local_rp_id_spec(h@),
                })
                &&& c.is_local_dev == local
                &&& names_model(c.missing_config@) == missing_config_spec(origin, rp_id, local)
                &&& c.configured == (missing_config_spec(origin, rp_id, local).len() == 0)
            },
        },
{
    let request_origin = origin_from_parts(parts)?;
    let host = match &parts.host {
        Some(h) => h,
        None => return Err(LinkwiseError::RequestUrlMissingHost),
    };
    let is_local_dev = is_local_host(host.as_str());
    let origin = optional_env_var(origin_env);
    let rp_id = optional_env_var(rp_id_env);
    let mut missing_config: Vec<&'static str> = Vec::new();
    if origin.is_none() && !is_local_dev {
        missing_config.push(AUTH_ORIGIN_BINDING);
    }
    if rp_id.is_none() && !is_local_dev {
        missing_config.push(AUTH_RP_ID_BINDING);
    }
    proof {
        assert(names_model(missing_config@) =~= missing_config_spec(opt_text(origin), opt_text(rp_id), is_local_dev));
    }
    let configured = missing_config.len() == 0;
    let origin = match origin {
        Some(o) => o,
        None => request_origin,
    };
    let rp_id = match rp_id {
        Some(x) => x,
        None => local_rp_id(host.as_str()),
    };
    Ok(AuthConfig { origin, rp_id, is_local_dev, configured, missing_config })
}

/// The authentication configuration for the request URL `url` (see
/// `auth_config_from_parts`); fails when the URL does not parse or has no host.
pub fn auth_config(url: &str, origin_env: Option<String>, rp_id_env: Option<String>) -> (r: Result<AuthConfig, LinkwiseError>)
    ensures
        parsed_url(url@) is None ==> r == Err::<AuthConfig, LinkwiseError>(LinkwiseError::InvalidRequestUrl),
        parsed_url(url@) matches Some((scheme, host, port)) ==> match host {
            None => r == Err::<AuthConfig, LinkwiseError>(LinkwiseError::RequestUrlMissingHost),
            Some(h) => r matches Ok(c) && {
                let origin = env_value_spec(origin_env);
                let rp_id = env_value_spec(rp_id_env);
                let local = local_host_spec(h);
                &&& c.origin@ == (match origin {
                    Some(o) => o,
                    None => origin_spec(scheme, h, port),
                })
                &&& c.rp_id@ == (match rp_id {
                    Some(x) => x,
                    None => local_rp_id_spec(h),
                })
                &&& c.is_local_dev == local
                &&& names_model(c.missing_config@) == missing_config_spec(origin, rp_id, local)
                &&& c.configured == (missing_config_spec(origin, rp_id, local).len() == 0)
            },
        },
{
    match parse_url(url) {
        None => Err(LinkwiseError::InvalidRequestUrl),
        Some(parts) => auth_config_from_parts(&parts, origin_env, rp_id_env),
    }
}

/// The origin is served over HTTPS.
pub open spec fn secure_origin(origin: Seq<char>) -> bool {
    is_prefix("https://"@, origin)
}

/// Does the session cookie need the `Secure` attribute? Only when the origin is HTTPS.
pub fn should_use_secure_cookie(config: &AuthConfig) -> (r: bool)
    ensures
        r == secure_origin(config.origin@),
{
    starts_with_chars(&chars_of(config.origin.as_str()), &chars_of("https://"))
}

/// The `Max-Age` of a session cookie: the requested life when positive, at most a day;
/// none when no positive life is requested.
pub open spec fn cookie_max_age(max_age: Option<i64>) -> Option<i64> {
    match max_age {
        Some(v) => if v > 0 {
            Some(if v < WEB_SESSION_MAX_AGE_SECONDS { v } else { WEB_SESSION_MAX_AGE_SECONDS })
        } else {
            None
        },
        None => None,
    }
}

/// The attributes every session cookie carries.
pub open spec fn cookie_attributes() -> Seq<char> {
    "; HttpOnly"@ + "; SameSite=Lax"@ + "; Path=/"@
}

/// The `Set-Cookie` value that stores a session token.
pub open spec fn session_cookie_spec(token: Seq<char>, secure: bool, max_age: Option<i64>) -> Seq<char> {
    ADMIN_SESSION_COOKIE@ + seq!['='] + token + cookie_attributes()
        + (if secure { "; Secure"@ } else { seq![] })
        + match cookie_max_age(max_age) {
            Some(m) => "; Max-Age="@ + int_decimal_spec(m as int),
            None => seq![],
        }
}

/// The `Set-Cookie` value that clears the session cookie.
pub open spec fn clear_cookie_spec(secure: bool) -> Seq<char> {
    ADMIN_SESSION_COOKIE@ + seq!['='] + cookie_attributes() + "; Max-Age=0"@ + (if secure { "; Secure"@ } else { seq![] })
}

fn push_cookie_attributes(out: &mut String)
    ensures
        final(out)@ == old(out)@ + cookie_attributes(),
{
    append_str(out, "; HttpOnly");
    append_str(out, "; SameSite=Lax");
    append_str(out, "; Path=/");
    proof {
        assert(final(out)@ =~= old(out)@ + cookie_attributes());
    }
}

/// The `Set-Cookie` value that stores the session token `token`: HTTP only, same-site
/// lax, for the whole site, `Secure` on an HTTPS origin, and with a `Max-Age` of at most
/// a day when a positive life is requested.
pub fn build_session_cookie(token: &str, config: &AuthConfig, max_age: Option<i64>) -> (r: String)
    ensures
        r@ == session_cookie_spec(token@, secure_origin(config.origin@), max_age),
{
    let mut out = String::new();
    append_str(&mut out, ADMIN_SESSION_COOKIE);
    crate::text::push_char(&mut out, '=');
    append_str(&mut out, token);
    push_cookie_attributes(&mut out);
    if should_use_secure_cookie(config) {
        append_str(&mut out, "; Secure");
    }
    match max_age {
        Some(v) => {
            if v > 0 {
                let m = if v < WEB_SESSION_MAX_AGE_SECONDS { v } else { WEB_SESSION_MAX_AGE_SECONDS };
                append_str(&mut out, "; Max-Age=");
                push_signed_decimal(&mut out, m);
            }
        },
        None => {},
    }
    proof {
        assert(out@ =~= session_cookie_spec(token@, secure_origin(config.origin@), max_age));
    }
    out
}

/// The `Set-Cookie` value that clears the session cookie, `Secure` on an HTTPS origin.
pub fn clear_session_cookie(config: &AuthConfig) -> (r: String)
    ensures
        r@ == clear_cookie_spec(secure_origin(config.origin@)),
{
    let mut out = String::new();
    append_str(&mut out, ADMIN_SESSION_COOKIE);
    crate::text::push_char(&mut out, '=');
    push_cookie_attributes(&mut out);
    append_str(&mut out, "; Max-Age=0");
    if should_use_secure_cookie(config) {
        append_str(&mut out, "; Secure");
    }
    proof {
        assert(out@ =~= clear_cookie_spec(secure_origin(config.origin@)));
    }
    out
}

/// A session cookie never lives longer than a web session: its `Max-Age`, when it has
/// one, is positive and at most a day.
pub proof fn lemma_cookie_max_age_bounded(max_age: Option<i64>)
    ensures
        cookie_max_age(max_age) matches Some(m) ==> 0 < m <= WEB_SESSION_MAX_AGE_SECONDS,
{
}

/// The value of the cookie `name` in a `Cookie` header: the first `;`-separated part
/// whose trimmed text is `name=value` decides; an empty value counts as none.
pub open spec fn cookie_lookup(parts: Seq<Seq<char>>, name: Seq<char>) -> Option<Seq<char>>
    decreases parts.len(),
{
    if parts.len() == 0 {
        None
    } else {
        let p = trim_seq(parts[0]);
        let i = find_char(p, '=');
        if i < p.len() && p.take(i) == name {
            if p.skip(i + 1).len() > 0 {
                Some(p.skip(i + 1))
            } else {
                None
            }
        } else {
            cookie_lookup(parts.drop_first(), name)
        }
    }
}

/// The value of the cookie `name` in the `Cookie` header `header`.
pub open spec fn cookie_value_spec(header: Seq<char>, name: Seq<char>) -> Option<Seq<char>> {
    cookie_lookup(split_seq(header, ';'), name)
}

/// The value of the cookie `name` in the `Cookie` header `header` (see
/// `cookie_lookup`).
pub fn parse_cookie_value(header: &str, name: &str) -> (r: Option<String>)
    ensures
        opt_text(r) == cookie_value_spec(header@, name@),
{
    let parts = split_chars(&chars_of(header), ';');
    let ghost pm = split_seq(header@, ';');
    let n = chars_of(name);
    let mut i: usize = 0;
    proof {
        assert(pm.skip(0) =~= pm);
    }
    while i < parts.len()
        invariant
            i <= parts@.len(),
            pm == split_seq(header@, ';'),
            parts@.len() == pm.len(),
            forall|j: int| 0 <= j < parts@.len() ==> #[trigger] parts@[j]@ == pm[j],
            n@ == name@,
            cookie_lookup(pm, name@) == cookie_lookup(pm.skip(i as int), name@),
        decreases parts.len() - i,
    {
        let ghost rest = pm.skip(i as int);
        proof {
            assert(rest.len() > 0);
            assert(rest[0] == pm[i as int]);
            assert(parts@[i as int]@ == pm[i as int]);
            assert(rest.drop_first() =~= pm.skip(i + 1));
        }
        let p = trim_chars(&parts[i]);
        let k = find_char_from(&p, 0, '=');
        proof {
            assert(p@.skip(0) =~= p@);
            lemma_find_char_bounds(p@, '=');
        }
        if k < p.len() {
            let key = slice_chars(&p, 0, k);
            if chars_eq(&key, &n) {
                proof {
                    assert(p@.take(k as int) =~= key@);
                    assert(p@.skip(k + 1) =~= p@.subrange(k + 1, p@.len() as int));
                }
                if k + 1 < p.len() {
                    let v = string_of_range(&p, k + 1, p.len());
                    return Some(v);
                } else {
                    return None;
                }
            } else {
                proof {
                    assert(p@.take(k as int) =~= key@);
                }
            }
        }
        i += 1;
    }
    proof {
        assert(pm.skip(parts@.len() as int) =~= Seq::<Seq<char>>::empty());
    }
    None
}

/// A character of the URL-safe base64 alphabet.
pub open spec fn url_safe_char(c: char) -> bool {
    ('A' <= c && c <= 'Z') || ('a' <= c && c <= 'z') || ('0' <= c && c <= '9') || c == '-' || c == '_'
}

pub(crate) proof fn lemma_encode_url_safe(b: Seq<u8>)
    ensures
        forall|i: int| 0 <= i < encode_spec(b).len() ==> url_safe_char(#[trigger] encode_spec(b)[i]),
        b.len() > 0 ==> encode_spec(b).len() > 0,
    decreases b.len(),
{
    assert forall|v: u8| url_safe_char(#[trigger] crate::base64url::b64_char(v)) by {
        if v < 26 {
            assert(((v as u32) + 65) as char == crate::base64url::b64_char(v));
        }
    }
    if b.len() >= 3 {
        lemma_encode_url_safe(b.skip(3));
        let head = seq![
            crate::base64url::b64_char(b[0] >> 2),
            crate::base64url::b64_char((((b[0] & 3) << 4) | (b[1] >> 4)) as u8),
            crate::base64url::b64_char((((b[1] & 15) << 2) | (b[2] >> 6)) as u8),
            crate::base64url::b64_char(b[2] & 63),
        ];
        assert(encode_spec(b) == head + encode_spec(b.skip(3)));
        assert forall|i: int| 0 <= i < encode_spec(b).len() implies url_safe_char(#[trigger] encode_spec(b)[i]) by {
            if i >= 4 {
                assert(encode_spec(b)[i] == encode_spec(b.skip(3))[i - 4]);
            }
        }
    }
}

/// A session token that the service issues is read back from the cookie it sets: when the
/// browser returns `linkwise_admin_session=<token>`, the cookie value read is exactly the
/// token, for every token made of random bytes in base64url.
pub proof fn lemma_session_cookie_round_trip(bytes: Seq<u8>)
    requires
        bytes.len() > 0,
    ensures
        cookie_value_spec(ADMIN_SESSION_COOKIE@ + seq!['='] + encode_spec(bytes), ADMIN_SESSION_COOKIE@) == Some(encode_spec(bytes)),
{
    reveal_strlit("linkwise_admin_session");
    let name = ADMIN_SESSION_COOKIE@;
    let t = encode_spec(bytes);
    lemma_encode_url_safe(bytes);
    let h = name + seq!['='] + t;
    assert(name.len() == 22);
    assert forall|j: int| 0 <= j < h.len() implies h[j] != ';' by {
        if j > name.len() {
            assert(h[j] == t[j - name.len() - 1]);
            assert(url_safe_char(t[j - name.len() - 1]));
        }
    }
    crate::text::lemma_find_char_is(h, ';', h.len() as int);
    assert(split_seq(h, ';') == seq![h]);
    assert(h[0] == 'l');
    assert(h.last() == t.last());
    assert(url_safe_char(t[t.len() - 1]));
    assert(trim_start_seq(h) == h);
    assert(trim_end_seq(h) == h);
    assert(trim_seq(h) == h);
    assert forall|j: int| 0 <= j < name.len() implies h[j] != '=' by {
        assert(h[j] == name[j]);
    }
    crate::text::lemma_find_char_is(h, '=', name.len() as int);
    assert(h.take(name.len() as int) =~= name);
    assert(h.skip(name.len() as int + 1) =~= t);
    let parts = split_seq(h, ';');
    assert(parts[0] == h);
}

/// The session token carried by a request's `Cookie` header, if any.
pub fn session_token_from_request(cookie_header: Option<String>) -> (r: Option<String>)
    ensures
        opt_text(r) == match cookie_header {
            Some(h) => cookie_value_spec(h@, ADMIN_SESSION_COOKIE@),
            None => None,
        },
{
    match cookie_header {
        Some(h) => parse_cookie_value(h.as_str(), ADMIN_SESSION_COOKIE),
        None => None,
    }
}

/// `a` and `b` are equal up to ASCII case.
pub open spec fn ascii_ci_eq(a: Seq<char>, b: Seq<char>) -> bool {
    a.len() == b.len() && forall|i: int| 0 <= i < a.len() ==> ascii_lower(#[trigger] a[i]) == ascii_lower(b[i])
}

/// The token of an `Authorization` header `Bearer <token>`: the scheme is matched up to
/// ASCII case, the token is trimmed and must not be empty.
pub open spec fn bearer_token_spec(header: Seq<char>) -> Option<Seq<char>> {
    let a = trim_seq(header);
    let i = find_char(a, ' ');
    let token = if i < a.len() { trim_seq(a.skip(i + 1)) } else { seq![] };
    if ascii_ci_eq(a.take(i), "bearer"@) && token.len() > 0 {
        Some(token)
    } else {
        None
    }
}

fn ascii_ci_equal(a: &Vec<char>, b: &Vec<char>) -> (r: bool)
    ensures
        r == ascii_ci_eq(a@, b@),
{
    if a.len() != b.len() {
        return false;
    }
    let la = ascii_lower_chars(a);
    let lb = ascii_lower_chars(b);
    let mut i: usize = 0;
    while i < a.len()
        invariant
            i <= a@.len(),
            a@.len() == b@.len(),
            la@ == ascii_lower_seq(a@),
            lb@ == ascii_lower_seq(b@),
            forall|j: int| 0 <= j < i ==> ascii_lower(#[trigger] a@[j]) == ascii_lower(b@[j]),
        decreases a.len() - i,
    {
        if la[i] != lb[i] {
            return false;
        }
        i += 1;
    }
    true
}

/// The bearer token of a request's `Authorization` header (see `bearer_token_spec`).
pub fn authorization_bearer_token_from_request(authorization: Option<String>) -> (r: Option<String>)
    ensures
        opt_text(r) == match authorization {
            Some(h) => bearer_token_spec(h@),
            None => None,
        },
{
    let header = match authorization {
        Some(h) => h,
        None => return None,
    };
    let a = trim_chars(&chars_of(header.as_str()));
    let i = find_char_from(&a, 0, ' ');
    proof {
        assert(a@.skip(0) =~= a@);
        lemma_find_char_bounds(a@, ' ');
    }
    let token = if i < a.len() {
        trim_chars(&slice_chars(&a, i + 1, a.len()))
    } else {
        Vec::new()
    };
    let scheme = slice_chars(&a, 0, i);
    proof {
        assert(a@.take(i as int) =~= scheme@);
        if i < a@.len() {
            assert(a@.skip(i + 1) =~= a@.subrange(i + 1, a@.len() as int));
        }
        assert(token@ =~= if i < a@.len() { trim_seq(a@.skip(i + 1)) } else { Seq::<char>::empty() });
    }
    if ascii_ci_equal(&scheme, &chars_of("bearer")) && token.len() > 0 {
        Some(string_of(&token))
    } else {
        None
    }
}

/// The app device token of a request: a bearer token that begins with the app prefix.
pub fn app_device_token_from_request(authorization: Option<String>) -> (r: Option<String>)
    ensures
        opt_text(r) == match authorization {
            Some(h) => match bearer_token_spec(h@) {
                Some(t) => if is_prefix(APP_DEVICE_TOKEN_PREFIX@, t) {
                    Some(t)
                } else {
                    None
                },
                None => None,
            },
            None => None,
        },
{
    match authorization_bearer_token_from_request(authorization) {
        Some(t) => if starts_with_chars(&chars_of(t.as_str()), &chars_of(APP_DEVICE_TOKEN_PREFIX)) {
            Some(t)
        } else {
            None
        },
        None => None,
    }
}

/// The rate-limit bucket of a setup attempt: `setup:` and the client address, taken from
/// `CF-Connecting-IP` when that header is present and otherwise from the first entry of
/// `X-Forwarded-For`, trimmed; `unknown` when it is missing or blank.
pub open spec fn setup_bucket_spec(connecting_ip: Option<String>, forwarded_for: Option<String>) -> Seq<char> {
    let raw = match connecting_ip {
        Some(v) => Some(v@),
        None => opt_text(forwarded_for),
    };
    let ip = match raw {
        Some(v) => trim_seq(v.take(find_char(v, ','))),
        None => seq![],
    };
    "setup:"@ + if ip.len() > 0 { ip } else { "unknown"@ }
}

/// The rate-limit bucket of a setup attempt (see `setup_bucket_spec`).
pub fn setup_rate_limit_bucket(connecting_ip: Option<String>, forwarded_for: Option<String>) -> (r: String)
    ensures
        r@ == setup_bucket_spec(connecting_ip, forwarded_for),
{
    let raw = match connecting_ip {
        Some(v) => Some(v),
        None => forwarded_for,
    };
    let ip = match raw {
        Some(v) => {
            let c = chars_of(v.as_str());
            let k = find_char_from(&c, 0, ',');
            proof {
                assert(c@.skip(0) =~= c@);
                lemma_find_char_bounds(c@, ',');
                assert(c@.subrange(0, k as int) =~= c@.take(find_char(c@, ',')));
            }
            trim_chars(&slice_chars(&c, 0, k))
        },
        None => Vec::new(),
    };
    let mut out = String::new();
    append_str(&mut out, "setup:");
    if ip.len() > 0 {
        crate::text::append_chars(&mut out, &ip);
    } else {
        append_str(&mut out, "unknown");
    }
    proof {
        assert(out@ =~= setup_bucket_spec(connecting_ip, forwarded_for));
    }
    out
}

/// The method of an HTTP request.
#[derive(Debug, Clone, Copy, PartialEq, Eq, Structural)]
pub enum Method {
    Head,
    Get,
    Post,
    Put,
    Patch,
    Delete,
    Options,
    Connect,
    Trace,
    Report,
}

/// A method that may change state: all but `GET`, `HEAD` and `OPTIONS`.
pub open spec fn unsafe_method_spec(method: Method) -> bool {
    !(method is Get || method is Head || method is Options)
}

/// Does the method change state?
pub fn is_unsafe_method(method: &Method) -> (r: bool)
    ensures
        r == unsafe_method_spec(*method),
{
    match method {
        Method::Get | Method::Head | Method::Options => false,
        _ => true,
    }
}

/// The `Content-Type` is JSON: its media type, before any `;`, read in ASCII lower case
/// and trimmed, is `application/json`.
pub open spec fn json_content_type(content_type: Option<String>) -> bool {
    let ct = ascii_lower_seq(text_or_empty(content_type));
    trim_seq(ct.take(find_char(ct, ';'))) == "application/json"@
}

/// Requests that change state must send JSON.
pub fn ensure_json_request(method: &Method, content_type: Option<String>) -> (r: Result<(), AuthGuardError>)
    ensures
        r is Ok <==> (!unsafe_method_spec(*method) || json_content_type(content_type)),
        r is Err ==> r->Err_0 is InvalidContentType,
{
    if !is_unsafe_method(method) {
        return Ok(());
    }
    let ct = ascii_lower_chars(&chars_of(string_or_empty(&content_type).as_str()));
    let k = find_char_from(&ct, 0, ';');
    proof {
        assert(ct@.skip(0) =~= ct@);
        assert(ct@.subrange(0, k as int) =~= ct@.take(find_char(ct@, ';')));
    }
    let media = trim_chars(&slice_chars(&ct, 0, k));
    if chars_eq(&media, &chars_of("application/json")) {
        Ok(())
    } else {
        Err(AuthGuardError::InvalidContentType)
    }
}

/// The request may come from where it says: a state-changing request must name the
/// configured origin, or, in local development, may name none.
pub open spec fn same_origin_spec(method: Method, origin: Option<String>, config_origin: Seq<char>, local: bool) -> bool {
    !unsafe_method_spec(method) || match origin {
        Some(o) => o@ == config_origin,
        None => local,
    }
}

/// Requests that change state must come from the configured origin.
pub fn ensure_same_origin(method: &Method, origin: Option<String>, config: &AuthConfig) -> (r: Result<(), AuthGuardError>)
    ensures
        r is Ok <==> same_origin_spec(*method, origin, config.origin@, config.is_local_dev),
        r is Err ==> r->Err_0 is InvalidOrigin,
{
    if !is_unsafe_method(method) {
        return Ok(());
    }
    match origin {
        Some(o) => if o == config.origin {
            Ok(())
        } else {
            Err(AuthGuardError::InvalidOrigin)
        },
        None => if config.is_local_dev {
            Ok(())
        } else {
            Err(AuthGuardError::InvalidOrigin)
        },
    }
}

/// The checks an admin request passes before its session is looked up, in order: the
/// configuration is complete, a state-changing request sends JSON and comes from the
/// configured origin.
pub fn admin_request_guard(config: &AuthConfig, method: &Method, content_type: Option<String>, origin: Option<String>) -> (r: Result<(), AuthGuardError>)
    ensures
        !config.configured ==> (r matches Err(AuthGuardError::AuthConfigRequired(missing)) && names_model(missing@) == names_model(config.missing_config@)),
        config.configured && !(!unsafe_method_spec(*method) || json_content_type(content_type)) ==> (r matches Err(e) && e is InvalidContentType),
        config.configured && (!unsafe_method_spec(*method) || json_content_type(content_type)) && !same_origin_spec(*method, origin, config.origin@, config.is_local_dev) ==> (r matches Err(e) && e is InvalidOrigin),
        r is Ok <==> config.configured && (!unsafe_method_spec(*method) || json_content_type(content_type)) && same_origin_spec(*method, origin, config.origin@, config.is_local_dev),
{
    if !config.configured {
        let mut missing: Vec<&'static str> = Vec::new();
        let mut i: usize = 0;
        while i < config.missing_config.len()
            invariant
                i <= config.missing_config@.len(),
                missing@ == config.missing_config@.take(i as int),
            decreases config.missing_config.len() - i,
        {
            missing.push(config.missing_config[i]);
            proof {
                assert(config.missing_config@.take(i + 1) =~= config.missing_config@.take(i as int).push(config.missing_config@[i as int]));
            }
            i += 1;
        }
        proof {
            assert(config.missing_config@.take(config.missing_config@.len() as int) =~= config.missing_config@);
        }
        return Err(AuthGuardError::AuthConfigRequired(missing));
    }
    ensure_json_request(method, content_type)?;
    ensure_same_origin(method, origin, config)
}

/// A stored flag is set when its value is `true` or `1`.
pub open spec fn setting_flag_spec(value: Option<String>) -> bool {
    value matches Some(v) && (v@ == "true"@ || v@ == "1"@)
}

/// Is the stored flag `value` set?
pub fn setting_flag(value: &Option<String>) -> (r: bool)
    ensures
        r == setting_flag_spec(*value),
{
    match value {
        Some(v) => {
            let c = chars_of(v.as_str());
            chars_eq(&c, &chars_of("true")) || chars_eq(&c, &chars_of("1"))
        },
        None => false,
    }
}

/// The setup token works only before setup: while setup is not recorded as completed and
/// no passkey is registered.
pub fn setup_token_usable(setup_completed: bool, credential_count: i64) -> (r: bool)
    ensures
        r == (!setup_completed && credential_count == 0),
{
    !setup_completed && credential_count == 0
}

/// A write made when a passkey registration is finalized.
#[derive(Debug, Clone, Copy, PartialEq, Eq, Structural)]
pub enum PasskeyRegistrationFinalizeOperation {
    InsertCredential,
    MarkChallengeUsed,
    MarkSetupCompleted,
    MarkSetupCompletedAt,
}

/// The writes of a passkey registration, in order.
pub open spec fn finalize_operations_spec(setup_allowed: bool) -> Seq<PasskeyRegistrationFinalizeOperation> {
    if setup_allowed {
        seq![
            PasskeyRegistrationFinalizeOperation::InsertCredential,
            PasskeyRegistrationFinalizeOperation::MarkChallengeUsed,
            PasskeyRegistrationFinalizeOperation::MarkSetupCompleted,
            PasskeyRegistrationFinalizeOperation::MarkSetupCompletedAt,
        ]
    } else {
        seq![
            PasskeyRegistrationFinalizeOperation::InsertCredential,
            PasskeyRegistrationFinalizeOperation::MarkChallengeUsed,
        ]
    }
}

/// The writes of a passkey registration, made in one batch: the credential and the used
/// challenge always, and the setup record only for the registration that completes setup.
pub fn passkey_registration_finalize_operations(setup_allowed: bool) -> (r: Vec<PasskeyRegistrationFinalizeOperation>)
    ensures
        r@ == finalize_operations_spec(setup_allowed),
{
    let mut ops: Vec<PasskeyRegistrationFinalizeOperation> = Vec::new();
    ops.push(PasskeyRegistrationFinalizeOperation::InsertCredential);
    ops.push(PasskeyRegistrationFinalizeOperation::MarkChallengeUsed);
    if setup_allowed {
        ops.push(PasskeyRegistrationFinalizeOperation::MarkSetupCompleted);
        ops.push(PasskeyRegistrationFinalizeOperation::MarkSetupCompletedAt);
    }
    proof {
        assert(ops@ =~= finalize_operations_spec(setup_allowed));
    }
    ops
}

/// The value written for the setup record: the flag `true`.
pub open spec fn setup_completed_value() -> Seq<char> {
    "true"@
}

/// The registration that completes setup records it, and then the setup token stops
/// working: the flag it writes reads as set. A later registration writes no setup record.
pub proof fn lemma_setup_closes_after_first_passkey(setup_allowed: bool, value: String, credential_count: i64)
    requires
        value@ == setup_completed_value(),
    ensures
        setup_allowed <==> finalize_operations_spec(setup_allowed).contains(PasskeyRegistrationFinalizeOperation::MarkSetupCompleted),
        setting_flag_spec(Some(value)),
        !(!setting_flag_spec(Some(value)) && credential_count == 0),
{
    if setup_allowed {
        assert(finalize_operations_spec(setup_allowed)[2] == PasskeyRegistrationFinalizeOperation::MarkSetupCompleted);
    } else {
        let ops = finalize_operations_spec(setup_allowed);
        assert forall|j: int| 0 <= j < ops.len() implies ops[j] != PasskeyRegistrationFinalizeOperation::MarkSetupCompleted by {}
    }
}

/// A bucket is locked: its lock runs past `now`, or it has failed too often within the
/// window that began with its first failure.
pub open spec fn rate_limited_spec(limit: Option<AuthRateLimit>, now: i64) -> bool {
    match limit {
        None => false,
        Some(l) => (l.locked_until matches Some(u) && u > now)
            || (l.failed_count >= AUTH_RATE_LIMIT_MAX_FAILURES && now - l.first_failed_at <= AUTH_RATE_LIMIT_WINDOW_SECONDS),
    }
}

/// Is the bucket with failure record `limit` locked at `now`?
pub fn is_auth_rate_limited(limit: &Option<AuthRateLimit>, now: i64) -> (r: bool)
    ensures
        r == rate_limited_spec(*limit, now),
{
    match limit {
        None => false,
        Some(l) => {
            let locked = match l.locked_until {
                Some(u) => u > now,
                None => false,
            };
            locked || (l.failed_count >= AUTH_RATE_LIMIT_MAX_FAILURES
                && (now as i128) - (l.first_failed_at as i128) <= AUTH_RATE_LIMIT_WINDOW_SECONDS as i128)
        },
    }
}

/// A failure at `now` falls in the window of the bucket's current record.
pub open spec fn within_window_spec(existing: Option<AuthRateLimit>, now: i64) -> bool {
    existing matches Some(l) && now - l.first_failed_at <= AUTH_RATE_LIMIT_WINDOW_SECONDS
}

/// The failure count after a failure at `now`: one more within the window, else one.
pub open spec fn next_failure_count(existing: Option<AuthRateLimit>, now: i64) -> int {
    if within_window_spec(existing, now) {
        existing->0.failed_count + 1
    } else {
        1
    }
}

/// The lock set by a failure at `now`: from the fifth failure in the window on, the
/// bucket is locked for `AUTH_RATE_LIMIT_LOCK_SECONDS`.
pub open spec fn failure_lock_spec(existing: Option<AuthRateLimit>, now: i64) -> Option<i64> {
    if next_failure_count(existing, now) >= AUTH_RATE_LIMIT_MAX_FAILURES {
        Some((now + AUTH_RATE_LIMIT_LOCK_SECONDS) as i64)
    } else {
        None
    }
}

/// How a failed setup attempt is recorded: whether the old record is cleared first
/// (it is when the failure falls outside its window), and the lock to store.
pub struct SetupFailureUpdate {
    pub clear_existing: bool,
    pub locked_until: Option<i64>,
}

/// Plans how a failed setup attempt at `now` is recorded against the bucket's record
/// `existing`.
pub fn record_setup_auth_failure(existing: &Option<AuthRateLimit>, now: i64) -> (r: SetupFailureUpdate)
    requires
        now <= i64::MAX - AUTH_RATE_LIMIT_LOCK_SECONDS,
    ensures
        r.clear_existing == !within_window_spec(*existing, now),
        r.locked_until == failure_lock_spec(*existing, now),
{
    let within_window = match existing {
        Some(l) => (now as i128) - (l.first_failed_at as i128) <= AUTH_RATE_LIMIT_WINDOW_SECONDS as i128,
        None => false,
    };
    let next_count: i128 = if within_window {
        match existing {
            Some(l) => (l.failed_count as i128) + 1,
            None => 1,
        }
    } else {
        1
    };
    let locked_until = if next_count >= AUTH_RATE_LIMIT_MAX_FAILURES as i128 {
        Some(now + AUTH_RATE_LIMIT_LOCK_SECONDS)
    } else {
        None
    };
    SetupFailureUpdate { clear_existing: !within_window, locked_until }
}

/// The record a failure upsert leaves for `bucket` (the statement of
/// `record_auth_failure`): a new record counts one failure at `now`; an existing one
/// counts one more and keeps its first failure; the lock is replaced, a lock of 0 stored
/// as none.
pub open spec fn record_failure_spec(stored: Option<AuthRateLimit>, bucket: Seq<char>, now: i64, locked_until: Option<i64>) -> (Seq<char>, int, i64, i64, Option<i64>) {
    let lock = match locked_until {
        Some(v) => if v == 0 { None } else { Some(v) },
        None => None,
    };
    match stored {
        None => (bucket, 1, now, now, lock),
        Some(l) => (bucket, l.failed_count + 1, l.first_failed_at, now, lock),
    }
}

/// The record that a failed setup attempt at `now` leaves: the old record is cleared when
/// the failure falls outside its window, then the failure is upserted with the lock that
/// `record_setup_auth_failure` plans.
pub open spec fn setup_failure_result(existing: Option<AuthRateLimit>, bucket: Seq<char>, now: i64) -> (Seq<char>, int, i64, i64, Option<i64>) {
    let stored = if within_window_spec(existing, now) { existing } else { None };
    record_failure_spec(stored, bucket, now, failure_lock_spec(existing, now))
}

/// A failed setup attempt that brings the bucket to five failures in its window locks it
/// at once and for the whole lock time: the record it leaves counts exactly the planned
/// failures, and from `now` until the lock ends the bucket reads as locked.
pub proof fn lemma_failures_lock_bucket(existing: Option<AuthRateLimit>, bucket: String, now: i64, later: i64)
    requires
        0 <= now <= i64::MAX - AUTH_RATE_LIMIT_LOCK_SECONDS,
        next_failure_count(existing, now) >= AUTH_RATE_LIMIT_MAX_FAILURES,
        now <= later < now + AUTH_RATE_LIMIT_LOCK_SECONDS,
    ensures
        ({
            let rec = setup_failure_result(existing, bucket@, now);
            &&& rec.1 == next_failure_count(existing, now)
            &&& rec.4 == Some((now + AUTH_RATE_LIMIT_LOCK_SECONDS) as i64)
            &&& rate_limited_spec(Some(AuthRateLimit {
                bucket,
                failed_count: rec.1 as i64,
                first_failed_at: rec.2,
                last_failed_at: rec.3,
                locked_until: rec.4,
            }), later)
        }),
{
}

/// The stored form of a failure record.
pub open spec fn limit_of_record(bucket: String, rec: (Seq<char>, int, i64, i64, Option<i64>)) -> AuthRateLimit {
    AuthRateLimit { bucket, failed_count: rec.1 as i64, first_failed_at: rec.2, last_failed_at: rec.3, locked_until: rec.4 }
}

/// The bucket's record after failed setup attempts at the given times, in order.
pub open spec fn failures_from(existing: Option<AuthRateLimit>, bucket: String, times: Seq<i64>) -> Option<AuthRateLimit>
    decreases times.len(),
{
    if times.len() == 0 {
        existing
    } else {
        Some(limit_of_record(bucket, setup_failure_result(failures_from(existing, bucket, times.drop_last()), bucket@, times.last())))
    }
}

proof fn lemma_failures_counted(bucket: String, times: Seq<i64>, k: int)
    requires
        1 <= k <= times.len() <= AUTH_RATE_LIMIT_MAX_FAILURES,
        forall|j: int| 0 <= j < times.len() ==> 0 <= #[trigger] times[j] - times[0] <= AUTH_RATE_LIMIT_WINDOW_SECONDS,
        forall|j: int| 0 <= j < times.len() ==> 0 <= #[trigger] times[j] <= i64::MAX - AUTH_RATE_LIMIT_LOCK_SECONDS,
    ensures
        failures_from(None, bucket, times.take(k)) matches Some(l) && l.failed_count == k && l.first_failed_at == times[0],
    decreases k,
{
    let prefix = times.take(k);
    assert(prefix.drop_last() =~= times.take(k - 1));
    assert(prefix.last() == times[k - 1]);
    if k == 1 {
        assert(times.take(0) =~= Seq::<i64>::empty());
    } else {
        lemma_failures_counted(bucket, times, k - 1);
    }
}

/// Five failed setup attempts within one window, starting from a clean bucket, lock the
/// bucket: right after the fifth it reads as locked.
pub proof fn lemma_five_failures_in_window_lock(bucket: String, times: Seq<i64>)
    requires
        times.len() == AUTH_RATE_LIMIT_MAX_FAILURES,
        forall|j: int| 0 <= j < times.len() ==> 0 <= #[trigger] times[j] - times[0] <= AUTH_RATE_LIMIT_WINDOW_SECONDS,
        forall|j: int| 0 <= j < times.len() ==> 0 <= #[trigger] times[j] <= i64::MAX - AUTH_RATE_LIMIT_LOCK_SECONDS,
    ensures
        rate_limited_spec(failures_from(None, bucket, times), times.last()),
{
    lemma_failures_counted(bucket, times, 5);
    assert(times.take(5) =~= times);
}

} // verus!
