use linkwise::auth::{AuthConfig, AuthGuardError, Method, AUTH_ORIGIN_BINDING};
use linkwise::export::{build_bookmarks_html, export_filename};
use linkwise::models::{Bookmark, DeleteFolderResponse, DuplicateBookmarkResponse, ErrorResponse, HealthResponse, MoveFolderUpResponse, RenameFolderResponse};
use linkwise::routes::{
    admin_initialized, admin_state_change_guard, challenge_expires_at, check_passkey_delete, check_session_revoke,
    login_challenge_accepted, passkey_display_name, registration_options_access, requested_session_max_age,
    setup_token_accepted, stored_sign_count, AuthFailure, PasskeyDeleteError, RegistrationAccess,
};

fn some(s: &str) -> Option<String> {
    Some(s.to_string())
}

#[test]
fn challenges_live_five_minutes() {
    assert_eq!(challenge_expires_at(1000), 1300);
}

#[test]
fn admin_is_initialized_by_setup_or_passkey() {
    assert!(!admin_initialized(false, 0));
    assert!(admin_initialized(true, 0));
    assert!(admin_initialized(false, 2));
}

#[test]
fn setup_token_must_match_exactly_after_trim() {
    assert!(setup_token_accepted(&some("tok"), &some("  tok ")));
    assert!(!setup_token_accepted(&some("tok"), &some("other")));
    assert!(!setup_token_accepted(&some("tok"), &None));
    assert!(!setup_token_accepted(&some(""), &some("")));
    assert!(!setup_token_accepted(&None, &some("tok")));
    assert!(!setup_token_accepted(&some(" tok"), &some(" tok")));
}

#[test]
fn registration_access_depends_on_setup() {
    assert_eq!(registration_options_access(true, &some("tok"), &some("tok")), Ok(RegistrationAccess::Setup));
    assert_eq!(registration_options_access(true, &some("tok"), &some("bad")), Err(AuthFailure::SetupTokenRejected));
    assert_eq!(registration_options_access(false, &some("tok"), &some("tok")), Ok(RegistrationAccess::RequireSession));
}

#[test]
fn passkey_names_fall_back() {
    assert_eq!(passkey_display_name(&some("  Laptop "), "Passkey"), "Laptop");
    assert_eq!(passkey_display_name(&some("   "), "Passkey"), "Passkey");
    assert_eq!(passkey_display_name(&None, "Linkwise Admin"), "Linkwise Admin");
}

#[test]
fn session_lengths_and_sign_counts() {
    assert_eq!(requested_session_max_age(Some(100)), Some(100));
    assert_eq!(requested_session_max_age(Some(90_000)), Some(86400));
    assert_eq!(requested_session_max_age(Some(0)), None);
    assert_eq!(requested_session_max_age(None), None);
    assert_eq!(stored_sign_count(5, 3), 5);
    assert_eq!(stored_sign_count(0, 3), 3);
}

#[test]
fn login_challenges_must_match_the_passkey() {
    assert!(login_challenge_accepted(true, "id1", "id1"));
    assert!(!login_challenge_accepted(false, "id1", "id1"));
    assert!(!login_challenge_accepted(true, "id1", "id2"));
}

#[test]
fn state_changes_check_config_and_origin() {
    let mut config = AuthConfig {
        origin: "https://links.example.com".to_string(),
        rp_id: "links.example.com".to_string(),
        is_local_dev: false,
        configured: true,
        missing_config: vec![],
    };
    assert!(admin_state_change_guard(&config, &Method::Delete, some("https://links.example.com")).is_ok());
    assert!(matches!(admin_state_change_guard(&config, &Method::Delete, None), Err(AuthGuardError::InvalidOrigin)));
    config.configured = false;
    config.missing_config = vec![AUTH_ORIGIN_BINDING];
    assert!(matches!(admin_state_change_guard(&config, &Method::Delete, None), Err(AuthGuardError::AuthConfigRequired(m)) if m == vec![AUTH_ORIGIN_BINDING]));
}

#[test]
fn the_last_passkey_cannot_be_deleted() {
    assert_eq!(check_passkey_delete("", true, 5), Err(PasskeyDeleteError::NotFound));
    assert_eq!(check_passkey_delete("id", false, 5), Err(PasskeyDeleteError::NotFound));
    assert_eq!(check_passkey_delete("id", true, 1), Err(PasskeyDeleteError::LastPasskey));
    assert_eq!(check_passkey_delete("id", true, 2), Ok(()));
    assert_eq!(PasskeyDeleteError::NotFound.status(), 404);
    assert_eq!(PasskeyDeleteError::NotFound.code(), "not_found");
    assert_eq!(PasskeyDeleteError::NotFound.message(), "Passkey 不存在");
    assert_eq!(PasskeyDeleteError::LastPasskey.status(), 403);
    assert_eq!(PasskeyDeleteError::LastPasskey.code(), "setup_not_allowed");
    assert_eq!(PasskeyDeleteError::LastPasskey.message(), "不能删除最后一个 Passkey");
}

#[test]
fn session_revocation_needs_an_id() {
    assert_eq!(check_session_revoke("", "cur"), None);
    assert_eq!(check_session_revoke("cur", "cur"), Some(true));
    assert_eq!(check_session_revoke("other", "cur"), Some(false));
}

#[test]
fn auth_failures_have_status_code_and_message() {
    let cases = [
        (AuthFailure::SetupTokenRejected, 403, "auth_required", "无法初始化管理权限"),
        (AuthFailure::RegistrationInvalid, 400, "invalid_webauthn_response", "Passkey 注册验证失败"),
        (AuthFailure::RegistrationChallengeInvalid, 400, "invalid_request", "Passkey 注册挑战无效或已过期"),
        (AuthFailure::NotInitialized, 403, "auth_required", "需要先初始化管理权限"),
        (AuthFailure::LoginInvalid, 400, "invalid_webauthn_response", "Passkey 登录验证失败"),
        (AuthFailure::UnknownPasskey, 403, "auth_required", "Passkey 不存在"),
        (AuthFailure::LoginChallengeInvalid, 400, "invalid_request", "Passkey 登录挑战无效或已过期"),
        (AuthFailure::InvalidSessionId, 400, "invalid_request", "Session ID 无效"),
    ];
    for (failure, status, code, message) in cases {
        assert_eq!(failure.status(), status);
        assert_eq!(failure.code(), code);
        assert_eq!(failure.message(), message);
    }
}

#[test]
fn export_names_and_html() {
    assert_eq!(export_filename("2024-01-02"), "linkwise-bookmarks-2024-01-02.html");
    let bookmark = Bookmark { id: "1".to_string(), title: "t".to_string(), url: "https://x".to_string(), folder: "".to_string(), sort_order: 0 };
    assert_eq!(
        build_bookmarks_html(&[bookmark]),
        "<!DOCTYPE NETSCAPE-Bookmark-file-1>\n<TITLE>Bookmarks</TITLE>\n<H1>Bookmarks</H1>\n<DL><p>\n<DT><A HREF=\"https://x\">t</A>\n</DL><p>\n"
    );
}

fn bookmark(id: &str, title: &str, url: &str, folder: &str) -> Bookmark {
    Bookmark { id: id.to_string(), title: title.to_string(), url: url.to_string(), folder: folder.to_string(), sort_order: 0 }
}

#[test]
fn export_of_no_bookmarks_is_an_empty_list() {
    assert_eq!(
        build_bookmarks_html(&[]),
        "<!DOCTYPE NETSCAPE-Bookmark-file-1>\n<TITLE>Bookmarks</TITLE>\n<H1>Bookmarks</H1>\n<DL><p>\n</DL><p>\n"
    );
}

#[test]
fn export_groups_bookmarks_under_folder_headings_and_escapes_text() {
    let bookmarks = vec![
        bookmark("1", "A & B", "https://a.com/?x=1&y=<2>", "工作"),
        bookmark("2", "t2", "https://b", "工作"),
        bookmark("3", "Tom's \"x\"", "https://c", "个人 / 书"),
        bookmark("4", "t4", "https://d", ""),
    ];
    let expected = [
        "<!DOCTYPE NETSCAPE-Bookmark-file-1>\n<TITLE>Bookmarks</TITLE>\n<H1>Bookmarks</H1>\n",
        "<DL><p>\n",
        "<DT><H3>工作</H3>\n<DL><p>\n",
        "<DT><A HREF=\"https://a.com/?x=1&amp;y=&lt;2&gt;\">A &amp; B</A>\n",
        "<DT><A HREF=\"https://b\">t2</A>\n",
        "</DL><p>\n",
        "<DT><H3>个人 / 书</H3>\n<DL><p>\n",
        "<DT><A HREF=\"https://c\">Tom&#39;s &quot;x&quot;</A>\n",
        "</DL><p>\n",
        "<DT><A HREF=\"https://d\">t4</A>\n",
        "</DL><p>\n",
    ]
    .concat();
    assert_eq!(build_bookmarks_html(&bookmarks), expected);
}

#[test]
fn export_holds_one_link_per_bookmark() {
    let bookmarks = vec![
        bookmark("1", "<A>", "https://a", "x"),
        bookmark("2", "b", "https://b", "y"),
        bookmark("3", "c", "https://c", "x"),
    ];
    let html = build_bookmarks_html(&bookmarks);
    assert_eq!(html.matches("<A").count(), bookmarks.len());
    for b in &bookmarks {
        let heading = format!("<DT><H3>{}</H3>\n<DL><p>\n", b.folder);
        let entry = format!("<DT><A HREF=\"{}\">", b.url);
        let at = html.find(&entry).unwrap();
        assert!(html[..at].rfind("<DT><H3>").map(|h| html[h..].starts_with(&heading)).unwrap_or(false));
    }
}

#[test]
fn response_constructors_carry_fixed_texts() {
    let health = HealthResponse::success();
    assert_eq!((health.status, health.app, health.version), ("success", "linkwise", "0.1.0"));
    let error = ErrorResponse::new("boom".to_string());
    assert_eq!((error.status, error.error, error.message.as_str()), ("error", None, "boom"));
    let coded = ErrorResponse::with_code("invalid_url", "URL 无效".to_string());
    assert_eq!((coded.status, coded.error, coded.message.as_str()), ("error", Some("invalid_url"), "URL 无效"));
    let bookmark = Bookmark { id: "1".to_string(), title: "t".to_string(), url: "https://x".to_string(), folder: "".to_string(), sort_order: 0 };
    let duplicate = DuplicateBookmarkResponse::for_bookmark(bookmark);
    assert_eq!((duplicate.status, duplicate.error, duplicate.message), ("error", "duplicate_url", "这个 URL 已存在"));
    assert_eq!(duplicate.bookmark.id, "1");
    let moved = MoveFolderUpResponse::success(2, "A".to_string());
    assert_eq!((moved.message, moved.moved_count, moved.parent_folder.as_str()), ("目录已删除，书签已移动到上一层", 2, "A"));
    let renamed = RenameFolderResponse::success(1, "A".to_string(), "B".to_string());
    assert_eq!(renamed.message, "目录已更新");
    assert_eq!(DeleteFolderResponse::success(4).message, "目录和目录下书签已删除");
}
