use std::path::Path;

use codex_plus_core::diagnostic_log::{sanitize_diagnostic_text, REDACTED};
use codex_plus_core::paths::{
    default_diagnostic_log_path, default_latest_status_path, default_pending_provider_import_path,
    default_settings_path,
};

#[test]
fn sanitize_diagnostic_text_redacts_existing_log_text() {
    let text = r#"OPENAI_API_KEY="sk-env-secret" Authorization: Bearer live-token"#;
    let sanitized = sanitize_diagnostic_text(text);

    assert!(sanitized.contains(REDACTED));
    assert!(!sanitized.contains("sk-env-secret"));
    assert!(!sanitized.contains("live-token"));
}

#[test]
fn default_settings_path_uses_app_state_directory() {
    let path = default_settings_path();

    assert!(Path::new(&path).ends_with(".codex-deck/settings.json"));
}

#[test]
fn default_latest_status_path_uses_app_state_directory() {
    let path = default_latest_status_path();

    assert!(Path::new(&path).ends_with(".codex-deck/latest-status.json"));
}

#[test]
fn default_diagnostic_log_path_uses_app_state_directory() {
    let path = default_diagnostic_log_path();

    assert!(Path::new(&path).ends_with(".codex-deck/codex-plus.log"));
}

#[test]
fn default_pending_provider_import_path_uses_app_state_directory() {
    let path = default_pending_provider_import_path();

    assert!(Path::new(&path).ends_with(".codex-deck/pending-provider-import.json"));
}
