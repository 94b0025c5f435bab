use linkwise::models::WebdavConfigPayload;
use linkwise::settings::{build_webdav_config, lookup_setting, plan_webdav_update, webdav_setting_keys, WebdavConfigError, DEFAULT_WEBDAV_FILENAME};

fn rows(pairs: &[(&str, &str)]) -> Vec<(String, String)> {
    pairs.iter().map(|(k, v)| (k.to_string(), v.to_string())).collect()
}

fn payload(password: Option<&str>) -> WebdavConfigPayload {
    WebdavConfigPayload {
        webdav_url: Some(" https://dav.example/ ".to_string()),
        username: None,
        password: password.map(|p| p.to_string()),
        remote_dir: Some("/books ".to_string()),
        filename: Some("  ".to_string()),
    }
}

#[test]
fn webdav_config_reports_legacy_password() {
    let config = build_webdav_config(&rows(&[
        ("webdav_url", "https://dav"),
        ("webdav_username", "u"),
        ("webdav_filename", ""),
        ("webdav_password", "legacy"),
    ]));
    assert_eq!(config.webdav_url, "https://dav");
    assert_eq!(config.username, "u");
    assert_eq!(config.remote_dir, "");
    assert_eq!(config.filename, DEFAULT_WEBDAV_FILENAME);
    assert!(config.has_password);
    assert_eq!(config.password_security, "legacy_plaintext");
}

#[test]
fn webdav_config_prefers_hashed_password() {
    let config = build_webdav_config(&rows(&[
        ("webdav_password", "legacy"),
        ("webdav_password_ciphertext", "abc"),
        ("webdav_password_nonce", "n"),
        ("webdav_filename", "x.html"),
    ]));
    assert!(config.has_password);
    assert_eq!(config.password_security, "worker_secret_hash");
    assert_eq!(config.filename, "x.html");
    let half = build_webdav_config(&rows(&[("webdav_password_ciphertext", "abc"), ("webdav_password_nonce", "")]));
    assert!(!half.has_password);
    assert_eq!(half.password_security, "empty");
}

#[test]
fn later_setting_rows_win() {
    let r = rows(&[("webdav_url", "a"), ("webdav_url", "b")]);
    assert_eq!(lookup_setting(&r, "webdav_url"), Some("b".to_string()));
    assert_eq!(lookup_setting(&r, "webdav_username"), None);
    assert_eq!(build_webdav_config(&r).webdav_url, "b");
    assert_eq!(webdav_setting_keys().len(), 7);
}

#[test]
fn webdav_update_without_password_keeps_stored_one() {
    let update = plan_webdav_update(&payload(None), &None).ok().unwrap();
    assert_eq!(
        update.values,
        rows(&[
            ("webdav_url", "https://dav.example/"),
            ("webdav_username", ""),
            ("webdav_remote_dir", "/books"),
            ("webdav_filename", DEFAULT_WEBDAV_FILENAME),
        ])
    );
    assert!(!update.delete_legacy_password);
}

#[test]
fn webdav_update_hashes_password_under_secret() {
    let update = plan_webdav_update(&payload(Some("pw")), &Some("sekret".to_string())).ok().unwrap();
    assert_eq!(update.values.len(), 6);
    assert_eq!(
        update.values[4],
        (
            "webdav_password_ciphertext".to_string(),
            "b4cb933c86b00ed46015d766dd6894863b62bd2b3b19a6bbfe1f0f0b0f80c0f3".to_string()
        )
    );
    assert_eq!(update.values[5], ("webdav_password_nonce".to_string(), "sha256-worker-secret-v1".to_string()));
    assert!(update.delete_legacy_password);
}

#[test]
fn webdav_update_with_password_needs_secret() {
    assert!(matches!(plan_webdav_update(&payload(Some("pw")), &None), Err(WebdavConfigError::SecretMissing)));
    assert!(matches!(plan_webdav_update(&payload(Some("pw")), &Some("   ".to_string())), Err(WebdavConfigError::SecretMissing)));
    assert_eq!(WebdavConfigError::SecretMissing.status(), 500);
    assert_eq!(WebdavConfigError::SecretMissing.message(), "未配置 LINKWISE_SECRET，无法保存 WebDAV 密码");
}
