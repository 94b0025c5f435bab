use vstd::prelude::*;
use crate::crypto::{protect_webdav_password, protected_password_spec};
use crate::db::{string_or_empty, text_or_empty};
use crate::models::{WebdavConfig, WebdavConfigPayload};
use crate::text::{trim_seq, trim_str};

verus! {

broadcast use vstd::string::group_string_axioms;

/// The file name used for the WebDAV export when none is configured.
pub const DEFAULT_WEBDAV_FILENAME: &'static str = "linkwise-bookmarks.html";

/// The marker stored beside a hashed WebDAV password.
pub const PASSWORD_NONCE: &'static str = "sha256-worker-secret-v1";

/// The setting that held a WebDAV password in plain text in earlier schemas.
pub const LEGACY_PASSWORD_KEY: &'static str = "webdav_password";

/// The keys of the WebDAV settings, in the order they are read.
pub fn webdav_setting_keys() -> (r: Vec<&'static str>)
    ensures
        r@.len() == 7,
        r@[0]@ == "webdav_url"@,
        r@[1]@ == "webdav_username"@,
        r@[2]@ == LEGACY_PASSWORD_KEY@,
        r@[3]@ == "webdav_password_ciphertext"@,
        r@[4]@ == "webdav_password_nonce"@,
        r@[5]@ == "webdav_remote_dir"@,
        r@[6]@ == "webdav_filename"@,
{
    vec![
        "webdav_url",
        "webdav_username",
        LEGACY_PASSWORD_KEY,
        "webdav_password_ciphertext",
        "webdav_password_nonce",
        "webdav_remote_dir",
        "webdav_filename",
    ]
}

/// The models of (key, value) setting rows.
pub open spec fn settings_model(rows: Seq<(String, String)>) -> Seq<(Seq<char>, Seq<char>)> {
    rows.map_values(|p: (String, String)| (p.0@, p.1@))
}

/// The value stored under `key`: the last row with that key wins.
pub open spec fn setting_value(rows: Seq<(Seq<char>, Seq<char>)>, key: Seq<char>) -> Option<Seq<char>>
    decreases rows.len(),
{
    if rows.len() == 0 {
        None
    } else if rows.last().0 == key {
        Some(rows.last().1)
    } else {
        setting_value(rows.drop_last(), key)
    }
}

/// The value stored under `key`, empty when there is none.
pub open spec fn setting_text(rows: Seq<(Seq<char>, Seq<char>)>, key: Seq<char>) -> Seq<char> {
    match setting_value(rows, key) {
        Some(v) => v,
        None => seq![],
    }
}

/// A non-empty value is stored under `key`.
pub open spec fn has_setting(rows: Seq<(Seq<char>, Seq<char>)>, key: Seq<char>) -> bool {
    setting_value(rows, key) matches Some(v) && v.len() > 0
}

/// A hashed password is stored: both its hash and its marker are set.
pub open spec fn has_hashed_password(rows: Seq<(Seq<char>, Seq<char>)>) -> bool {
    has_setting(rows, "webdav_password_ciphertext"@) && has_setting(rows, "webdav_password_nonce"@)
}

/// The value stored under `key`, the last such row in `rows`.
pub fn lookup_setting(rows: &Vec<(String, String)>, key: &str) -> (r: Option<String>)
    ensures
        match setting_value(settings_model(rows@), key@) {
            None => r is None,
            Some(v) => r matches Some(s) && s@ == v,
        },
{
    let ghost m = settings_model(rows@);
    let k = key.to_string();
    let mut i: usize = rows.len();
    proof {
        assert(m.take(i as int) =~= m);
    }
    while i > 0
        invariant
            i <= rows@.len(),
            k@ == key@,
            m == settings_model(rows@),
            setting_value(m, key@) == setting_value(m.take(i as int), key@),
        decreases i,
    {
        let j = i - 1;
        proof {
            assert(m.take(i as int).drop_last() =~= m.take(j as int));
            assert(m.take(i as int).last() == (rows@[j as int].0@, rows@[j as int].1@));
        }
        if rows[j].0 == k {
            return Some(rows[j].1.clone());
        }
        i = j;
    }
    None
}

fn nonempty_setting(rows: &Vec<(String, String)>, key: &str) -> (r: bool)
    ensures
        r == has_setting(settings_model(rows@), key@),
{
    match lookup_setting(rows, key) {
        Some(v) => !v.as_str().is_empty(),
        None => false,
    }
}

/// The WebDAV configuration shown to the user, built from the stored settings (the last
/// row of a key wins). The password itself is never shown: only whether one is stored and
/// how.
pub fn build_webdav_config(rows: &Vec<(String, String)>) -> (r: WebdavConfig)
    ensures
        ({
            let m = settings_model(rows@);
            &&& r.webdav_url@ == setting_text(m, "webdav_url"@)
            &&& r.username@ == setting_text(m, "webdav_username"@)
            &&& r.remote_dir@ == setting_text(m, "webdav_remote_dir"@)
            &&& r.filename@ == (if has_setting(m, "webdav_filename"@) {
                setting_text(m, "webdav_filename"@)
            } else {
                DEFAULT_WEBDAV_FILENAME@
            })
            &&& r.has_password == (has_hashed_password(m) || has_setting(m, LEGACY_PASSWORD_KEY@))
            &&& r.password_security@ == (if has_hashed_password(m) {
                "worker_secret_hash"@
            } else if has_setting(m, LEGACY_PASSWORD_KEY@) {
                "legacy_plaintext"@
            } else {
                "empty"@
            })
        }),
{
    let has_hashed = nonempty_setting(rows, "webdav_password_ciphertext") && nonempty_setting(rows, "webdav_password_nonce");
    let has_legacy = nonempty_setting(rows, LEGACY_PASSWORD_KEY);
    let webdav_url = string_or_empty(&lookup_setting(rows, "webdav_url"));
    let username = string_or_empty(&lookup_setting(rows, "webdav_username"));
    let remote_dir = string_or_empty(&lookup_setting(rows, "webdav_remote_dir"));
    let filename = match lookup_setting(rows, "webdav_filename") {
        Some(v) => if v.as_str().is_empty() {
            DEFAULT_WEBDAV_FILENAME.to_string()
        } else {
            v
        },
        None => DEFAULT_WEBDAV_FILENAME.to_string(),
    };
    let password_security = if has_hashed {
        "worker_secret_hash"
    } else if has_legacy {
        "legacy_plaintext"
    } else {
        "empty"
    };
    WebdavConfig {
        webdav_url,
        username,
        remote_dir,
        filename,
        has_password: has_hashed || has_legacy,
        password_security,
    }
}

/// Why a WebDAV configuration cannot be saved.
#[derive(Debug, Clone, Copy, PartialEq, Eq, Structural)]
pub enum WebdavConfigError {
    /// A password was given but the service has no secret to hash it with.
    SecretMissing,
}

impl WebdavConfigError {
    /// The HTTP status of the answer.
    pub fn status(&self) -> (r: u16)
        ensures
            r == 500,
    {
        500
    }

    /// The message of the answer.
    pub fn message(&self) -> (r: &'static str)
        ensures
            r@ == "未配置 LINKWISE_SECRET，无法保存 WebDAV 密码"@,
    {
        "未配置 LINKWISE_SECRET，无法保存 WebDAV 密码"
    }
}

/// The settings to write for a WebDAV configuration change, and whether the plain-text
/// password of earlier schemas is to be deleted.
pub struct WebdavUpdate {
    pub values: Vec<(String, String)>,
    pub delete_legacy_password: bool,
}

/// The file name to store: the trimmed one given, or the default when that is empty or
/// missing.
pub open spec fn filename_setting(filename: Option<String>) -> Seq<char> {
    let f = match filename {
        Some(s) => trim_seq(s@),
        None => trim_seq(DEFAULT_WEBDAV_FILENAME@),
    };
    if f.len() == 0 {
        DEFAULT_WEBDAV_FILENAME@
    } else {
        f
    }
}

/// The settings written for every change: address, user, directory and file name.
pub open spec fn base_settings(payload: WebdavConfigPayload) -> Seq<(Seq<char>, Seq<char>)> {
    seq![
        ("webdav_url"@, trim_seq(text_or_empty(payload.webdav_url))),
        ("webdav_username"@, trim_seq(text_or_empty(payload.username))),
        ("webdav_remote_dir"@, trim_seq(text_or_empty(payload.remote_dir))),
        ("webdav_filename"@, filename_setting(payload.filename)),
    ]
}

/// A secret that can hash passwords: present and not blank.
pub open spec fn usable_secret(secret: Option<String>) -> bool {
    secret matches Some(s) && trim_seq(s@).len() > 0
}

/// Plans a WebDAV configuration change. A non-empty password is stored only as its hash
/// under `secret`, with the marker beside it, and then the plain-text password of earlier
/// schemas is deleted; without a usable secret such a change is refused. An empty password
/// leaves the stored one as it is.
pub fn plan_webdav_update(payload: &WebdavConfigPayload, secret: &Option<String>) -> (r: Result<WebdavUpdate, WebdavConfigError>)
    ensures
        ({
            let password = text_or_empty(payload.password);
            &&& (r is Err <==> password.len() > 0 && !usable_secret(*secret))
            &&& (r matches Ok(u) ==> {
                &&& u.delete_legacy_password == (password.len() > 0)
                &&& settings_model(u.values@) == if password.len() == 0 {
                    base_settings(*payload)
                } else {
                    base_settings(*payload)
                        .push(("webdav_password_ciphertext"@, protected_password_spec(password, secret->0@)))
                        .push(("webdav_password_nonce"@, PASSWORD_NONCE@))
                }
            })
        }),
{
    let filename_given = match &payload.filename {
        Some(f) => trim_str(f.as_str()),
        None => trim_str(DEFAULT_WEBDAV_FILENAME),
    };
    let filename = if filename_given.as_str().is_empty() {
        DEFAULT_WEBDAV_FILENAME.to_string()
    } else {
        filename_given
    };
    let password = string_or_empty(&payload.password);
    let mut values: Vec<(String, String)> = Vec::new();
    values.push(("webdav_url".to_string(), trim_str(string_or_empty(&payload.webdav_url).as_str())));
    values.push(("webdav_username".to_string(), trim_str(string_or_empty(&payload.username).as_str())));
    values.push(("webdav_remote_dir".to_string(), trim_str(string_or_empty(&payload.remote_dir).as_str())));
    values.push(("webdav_filename".to_string(), filename));
    proof {
        assert(settings_model(values@) =~= base_settings(*payload));
    }
    if password.as_str().is_empty() {
        return Ok(WebdavUpdate { values, delete_legacy_password: false });
    }
    let secret_value = match secret {
        Some(s) => if trim_str(s.as_str()).as_str().is_empty() {
            return Err(WebdavConfigError::SecretMissing);
        } else {
            s
        },
        None => return Err(WebdavConfigError::SecretMissing),
    };
    let ghost before = values@;
    values.push(("webdav_password_ciphertext".to_string(), protect_webdav_password(password.as_str(), secret_value.as_str())));
    values.push(("webdav_password_nonce".to_string(), PASSWORD_NONCE.to_string()));
    proof {
        assert(settings_model(values@) =~= settings_model(before)
            .push(("webdav_password_ciphertext"@, protected_password_spec(password@, secret->0@)))
            .push(("webdav_password_nonce"@, PASSWORD_NONCE@)));
    }
    Ok(WebdavUpdate { values, delete_legacy_password: true })
}

} // verus!
