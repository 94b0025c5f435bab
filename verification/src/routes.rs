use vstd::prelude::*;
use crate::auth::{cookie_max_age, session_max_age, setting_flag_spec, setup_completed_value, names_model, same_origin_spec, AuthConfig, AuthGuardError, Method, WEB_SESSION_MAX_AGE_SECONDS, ensure_same_origin};
use crate::db::text_or_empty;
use crate::text::{chars_eq, chars_of, string_of, trim_chars, trim_seq};

verus! {

broadcast use vstd::string::group_string_axioms;

/// How long an issued challenge stays valid, in seconds.
pub const AUTH_CHALLENGE_TTL_SECONDS: i64 = 5 * 60;

/// The display name of the first passkey when none is given.
pub const DEFAULT_ADMIN_NAME: &'static str = "Linkwise Admin";

/// The name of a registered passkey when none is given.
pub const DEFAULT_PASSKEY_NAME: &'static str = "Passkey";

/// When a challenge issued at `now` expires.
pub fn challenge_expires_at(now: i64) -> (r: i64)
    requires
        now <= i64::MAX - AUTH_CHALLENGE_TTL_SECONDS,
    ensures
        r == now + AUTH_CHALLENGE_TTL_SECONDS,
{
    now + AUTH_CHALLENGE_TTL_SECONDS
}

/// The service has an administrator: setup is recorded as completed or a passkey exists.
pub fn admin_initialized(setup_completed: bool, credential_count: i64) -> (r: bool)
    ensures
        r == (setup_completed || credential_count > 0),
{
    setup_completed || credential_count > 0
}

/// The setup token given with a registration is accepted: a token is configured, and the
/// one given, trimmed, is exactly it.
pub open spec fn setup_token_accepted_spec(configured: Option<String>, provided: Option<String>) -> bool {
    let expected = text_or_empty(configured);
    &&& expected.len() > 0
    &&& provided matches Some(p) && trim_seq(p@) == expected
}

/// Is the setup token `provided` the configured one?
pub fn setup_token_accepted(configured: &Option<String>, provided: &Option<String>) -> (r: bool)
    ensures
        r == setup_token_accepted_spec(*configured, *provided),
{
    let expected = match configured {
        Some(t) => chars_of(t.as_str()),
        None => Vec::new(),
    };
    if expected.len() == 0 {
        return false;
    }
    match provided {
        Some(p) => chars_eq(&trim_chars(&chars_of(p.as_str())), &expected),
        None => false,
    }
}

/// The name given, trimmed, or `fallback` when it is missing or blank.
pub open spec fn name_or_spec(name: Option<String>, fallback: Seq<char>) -> Seq<char> {
    match name {
        Some(n) => if trim_seq(n@).len() > 0 {
            trim_seq(n@)
        } else {
            fallback
        },
        None => fallback,
    }
}

/// The name of a passkey: the one given, trimmed, or `fallback` when it is missing or
/// blank.
pub fn passkey_display_name(name: &Option<String>, fallback: &str) -> (r: String)
    ensures
        r@ == name_or_spec(*name, fallback@),
{
    match name {
        Some(n) => {
            let t = trim_chars(&chars_of(n.as_str()));
            if t.len() > 0 {
                string_of(&t)
            } else {
                string_of(&chars_of(fallback))
            }
        },
        None => string_of(&chars_of(fallback)),
    }
}

/// The life requested for a new session: a positive request, at most a day; none
/// otherwise.
pub fn requested_session_max_age(requested: Option<i64>) -> (r: Option<i64>)
    ensures
        r == cookie_max_age(requested),
{
    match requested {
        Some(v) => if v > 0 {
            Some(if v < WEB_SESSION_MAX_AGE_SECONDS { v } else { WEB_SESSION_MAX_AGE_SECONDS })
        } else {
            None
        },
        None => None,
    }
}

/// A session cookie never outlives its server session: the life requested for a new
/// session is the cookie's `Max-Age` and exactly the time until the session expires; with
/// no life requested the cookie lasts as long as the browser keeps it and the server
/// keeps the session a day.
pub proof fn lemma_cookie_matches_session(requested: Option<i64>)
    ensures
        match cookie_max_age(requested) {
            Some(m) => session_max_age(cookie_max_age(requested)) == m && 0 < m <= WEB_SESSION_MAX_AGE_SECONDS,
            None => session_max_age(cookie_max_age(requested)) == WEB_SESSION_MAX_AGE_SECONDS,
        },
{
}

/// The signature counter stored after a login: it never goes back.
pub fn stored_sign_count(verified: i64, stored: i64) -> (r: i64)
    ensures
        r == if verified >= stored { verified } else { stored },
        r >= stored,
        r >= verified,
{
    if verified >= stored {
        verified
    } else {
        stored
    }
}

/// A login is accepted only with a live challenge and for the passkey it names.
pub fn login_challenge_accepted(challenge_found: bool, verified_credential_id: &str, credential_id: &str) -> (r: bool)
    ensures
        r == (challenge_found && verified_credential_id@ == credential_id@),
{
    challenge_found && chars_eq(&chars_of(verified_credential_id), &chars_of(credential_id))
}

/// The checks a state change without a body passes before its session is looked up: the
/// configuration is complete and the request comes from the configured origin.
pub fn admin_state_change_guard(config: &AuthConfig, method: &Method, origin: Option<String>) -> (r: Result<(), AuthGuardError>)
    ensures
        !config.configured ==> (r matches Err(AuthGuardError::AuthConfigRequired(missing)) && names_model(missing@) == names_model(config.missing_config@)),
        config.configured && !same_origin_spec(*method, origin, config.origin@, config.is_local_dev) ==> (r matches Err(e) && e is InvalidOrigin),
        r is Ok <==> config.configured && same_origin_spec(*method, origin, config.origin@, config.is_local_dev),
{
    if !config.configured {
        let mut missing: Vec<&'static str> = Vec::new();
        let mut i: usize = 0;
        while i < config.missing_config.len()
            invariant
                i <= config.missing_config@.len(),
                missing@ == config.missing_config@.take(i as int),
            decreases config.missing_config.len() - i,
        {
            missing.push(config.missing_config[i]);
            proof {
                assert(config.missing_config@.take(i + 1) =~= config.missing_config@.take(i as int).push(config.missing_config@[i as int]));
            }
            i += 1;
        }
        proof {
            assert(config.missing_config@.take(config.missing_config@.len() as int) =~= config.missing_config@);
        }
        return Err(AuthGuardError::AuthConfigRequired(missing));
    }
    ensure_same_origin(method, origin, config)
}

/// Why a passkey cannot be deleted.
#[derive(Debug, Clone, Copy, PartialEq, Eq, Structural)]
pub enum PasskeyDeleteError {
    NotFound,
    LastPasskey,
}

impl PasskeyDeleteError {
    /// The HTTP status of the refusal.
    pub fn status(&self) -> (r: u16)
        ensures
            r == match self {
                PasskeyDeleteError::NotFound => 404u16,
                PasskeyDeleteError::LastPasskey => 403u16,
            },
    {
        match self {
            PasskeyDeleteError::NotFound => 404,
            PasskeyDeleteError::LastPasskey => 403,
        }
    }

    /// The error code of the refusal.
    pub fn code(&self) -> (r: &'static str)
        ensures
            r@ == match self {
                PasskeyDeleteError::NotFound => "not_found"@,
                PasskeyDeleteError::LastPasskey => "setup_not_allowed"@,
            },
    {
        match self {
            PasskeyDeleteError::NotFound => "not_found",
            PasskeyDeleteError::LastPasskey => "setup_not_allowed",
        }
    }

    /// The message of the refusal.
    pub fn message(&self) -> (r: &'static str)
        ensures
            r@ == match self {
                PasskeyDeleteError::NotFound => "Passkey 不存在"@,
                PasskeyDeleteError::LastPasskey => "不能删除最后一个 Passkey"@,
            },
    {
        match self {
            PasskeyDeleteError::NotFound => "Passkey 不存在",
            PasskeyDeleteError::LastPasskey => "不能删除最后一个 Passkey",
        }
    }
}

/// May the passkey `credential_id` be deleted? Not when the ID is empty or names no
/// stored passkey, and never the last one: the administrator always keeps a passkey.
pub fn check_passkey_delete(credential_id: &str, exists: bool, credential_count: i64) -> (r: Result<(), PasskeyDeleteError>)
    ensures
        (credential_id@.len() == 0 || !exists) ==> r == Err::<(), PasskeyDeleteError>(PasskeyDeleteError::NotFound),
        (credential_id@.len() > 0 && exists && credential_count <= 1) ==> r == Err::<(), PasskeyDeleteError>(PasskeyDeleteError::LastPasskey),
        r is Ok <==> (credential_id@.len() > 0 && exists && credential_count > 1),
{
    if credential_id.is_empty() || !exists {
        return Err(PasskeyDeleteError::NotFound);
    }
    if credential_count <= 1 {
        return Err(PasskeyDeleteError::LastPasskey);
    }
    Ok(())
}

/// Checks a session revocation: the ID must not be empty. On success, whether the
/// revoked session is the caller's own (whose cookie is then cleared).
pub fn check_session_revoke(session_id: &str, current_session_id: &str) -> (r: Option<bool>)
    ensures
        session_id@.len() == 0 ==> r is None,
        session_id@.len() > 0 ==> r == Some(session_id@ == current_session_id@),
{
    if session_id.is_empty() {
        return None;
    }
    Some(chars_eq(&chars_of(session_id), &chars_of(current_session_id)))
}

/// Why an authentication request is refused (besides the guards of `AuthGuardError`).
#[derive(Debug, Clone, Copy, PartialEq, Eq, Structural)]
pub enum AuthFailure {
    /// Setup is open but the setup token given is not the configured one.
    SetupTokenRejected,
    /// The registration response did not verify.
    RegistrationInvalid,
    /// The registration challenge is unknown, used or expired.
    RegistrationChallengeInvalid,
    /// A login was asked for before any passkey exists.
    NotInitialized,
    /// The login response did not verify.
    LoginInvalid,
    /// The login names a passkey that is not stored.
    UnknownPasskey,
    /// The login challenge is unknown, used or expired, or was answered by another passkey.
    LoginChallengeInvalid,
    /// A session revocation named no session.
    InvalidSessionId,
}

impl AuthFailure {
    /// The HTTP status of the refusal.
    pub fn status(&self) -> (r: u16)
        ensures
            r == match self {
                AuthFailure::SetupTokenRejected | AuthFailure::NotInitialized | AuthFailure::UnknownPasskey => 403u16,
                _ => 400u16,
            },
    {
        match self {
            AuthFailure::SetupTokenRejected | AuthFailure::NotInitialized | AuthFailure::UnknownPasskey => 403,
            _ => 400,
        }
    }

    /// The error code of the refusal.
    pub fn code(&self) -> (r: &'static str)
        ensures
            r@ == match self {
                AuthFailure::SetupTokenRejected | AuthFailure::NotInitialized | AuthFailure::UnknownPasskey => "auth_required"@,
                AuthFailure::RegistrationInvalid | AuthFailure::LoginInvalid => "invalid_webauthn_response"@,
                _ => "invalid_request"@,
            },
    {
        match self {
            AuthFailure::SetupTokenRejected | AuthFailure::NotInitialized | AuthFailure::UnknownPasskey => "auth_required",
            AuthFailure::RegistrationInvalid | AuthFailure::LoginInvalid => "invalid_webauthn_response",
            _ => "invalid_request",
        }
    }

    /// The message of the refusal.
    pub fn message(&self) -> (r: &'static str)
        ensures
            r@ == match self {
                AuthFailure::SetupTokenRejected => "无法初始化管理权限"@,
                AuthFailure::RegistrationInvalid => "Passkey 注册验证失败"@,
                AuthFailure::RegistrationChallengeInvalid => "Passkey 注册挑战无效或已过期"@,
                AuthFailure::NotInitialized => "需要先初始化管理权限"@,
                AuthFailure::LoginInvalid => "Passkey 登录验证失败"@,
                AuthFailure::UnknownPasskey => "Passkey 不存在"@,
                AuthFailure::LoginChallengeInvalid => "Passkey 登录挑战无效或已过期"@,
                AuthFailure::InvalidSessionId => "Session ID 无效"@,
            },
    {
        match self {
            AuthFailure::SetupTokenRejected => "无法初始化管理权限",
            AuthFailure::RegistrationInvalid => "Passkey 注册验证失败",
            AuthFailure::RegistrationChallengeInvalid => "Passkey 注册挑战无效或已过期",
            AuthFailure::NotInitialized => "需要先初始化管理权限",
            AuthFailure::LoginInvalid => "Passkey 登录验证失败",
            AuthFailure::UnknownPasskey => "Passkey 不存在",
            AuthFailure::LoginChallengeInvalid => "Passkey 登录挑战无效或已过期",
            AuthFailure::InvalidSessionId => "Session ID 无效",
        }
    }
}

/// Who may register a passkey.
#[derive(Debug, Clone, Copy, PartialEq, Eq, Structural)]
pub enum RegistrationAccess {
    /// Setup is open and the setup token is right: the first passkey may be registered.
    Setup,
    /// Setup is closed: an admin session is needed.
    RequireSession,
}

/// Who may ask for registration options: while setup is open, whoever brings the setup
/// token; afterwards, an admin with a session.
pub open spec fn registration_access_spec(setup_allowed: bool, configured_token: Option<String>, provided_token: Option<String>) -> Result<RegistrationAccess, AuthFailure> {
    if setup_allowed {
        if setup_token_accepted_spec(configured_token, provided_token) {
            Ok(RegistrationAccess::Setup)
        } else {
            Err(AuthFailure::SetupTokenRejected)
        }
    } else {
        Ok(RegistrationAccess::RequireSession)
    }
}

/// Who may ask for registration options (see `registration_access_spec`).
pub fn registration_options_access(setup_allowed: bool, configured_token: &Option<String>, provided_token: &Option<String>) -> (r: Result<RegistrationAccess, AuthFailure>)
    ensures
        r == registration_access_spec(setup_allowed, *configured_token, *provided_token),
{
    if setup_allowed {
        if setup_token_accepted(configured_token, provided_token) {
            Ok(RegistrationAccess::Setup)
        } else {
            Err(AuthFailure::SetupTokenRejected)
        }
    } else {
        Ok(RegistrationAccess::RequireSession)
    }
}

/// After the first passkey is registered the setup token is dead for good: once the
/// setup record reads as set (as the value the registration writes does), registration
/// needs an admin session, whatever token is configured or given, and however many
/// passkeys remain.
pub proof fn lemma_setup_token_dead_after_setup(recorded: String, credential_count: i64, configured_token: Option<String>, provided_token: Option<String>)
    requires
        recorded@ == setup_completed_value(),
    ensures
        registration_access_spec(
            !setting_flag_spec(Some(recorded)) && credential_count == 0,
            configured_token,
            provided_token,
        ) == Ok::<RegistrationAccess, AuthFailure>(RegistrationAccess::RequireSession),
{
}

} // verus!
