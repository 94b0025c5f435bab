use linkwise::auth::{app_device_token_prefix, passkey_registration_finalize_operations, PasskeyRegistrationFinalizeOperation};
use linkwise::db::{normalize_folder_path, normalize_url};

#[test]
fn first_passkey_registration_includes_setup_writes() {
    assert_eq!(
        passkey_registration_finalize_operations(true),
        &[
            PasskeyRegistrationFinalizeOperation::InsertCredential,
            PasskeyRegistrationFinalizeOperation::MarkChallengeUsed,
            PasskeyRegistrationFinalizeOperation::MarkSetupCompleted,
            PasskeyRegistrationFinalizeOperation::MarkSetupCompletedAt,
        ]
    );
}

#[test]
fn additional_passkey_registration_skips_setup_writes() {
    assert_eq!(
        passkey_registration_finalize_operations(false),
        &[
            PasskeyRegistrationFinalizeOperation::InsertCredential,
            PasskeyRegistrationFinalizeOperation::MarkChallengeUsed,
        ]
    );
}

#[test]
fn app_device_token_prefix_keeps_public_hint_short() {
    assert_eq!(
        app_device_token_prefix("lwapp_abcdefghijklmnopqrstuvwxyz"),
        "lwapp_abcdefgh"
    );
}

#[test]
fn normalizes_folder_path() {
    assert_eq!(normalize_folder_path(" Dev / Rust "), "Dev / Rust");
    assert_eq!(normalize_folder_path("///"), "");
}

#[test]
fn normalizes_urls() {
    assert_eq!(
        normalize_url("example.com:8080/path"),
        Some("https://example.com:8080/path".to_string())
    );
    assert_eq!(normalize_url("javascript:alert(1)"), None);
    assert_eq!(normalize_url("chrome-extension://abcdef"), None);
}
