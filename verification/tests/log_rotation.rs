use codex_plus_core::diagnostic_log::{
    default_log_limits, diagnostic_log_record, log_rotation_moves, log_rotation_needed, rotated_log_path, LogLimits,
};
use codex_plus_core::json::{json_to_string, parse_json};

#[test]
fn rotation_starts_when_the_next_line_would_pass_the_limit() {
    let limits = default_log_limits();
    assert_eq!(limits.max_bytes, 2 * 1024 * 1024);
    assert_eq!(limits.rotated_files, 4);
    assert!(!log_rotation_needed(limits, 2 * 1024 * 1024 - 10, 10));
    assert!(log_rotation_needed(limits, 2 * 1024 * 1024 - 10, 11));
    assert!(log_rotation_needed(limits, u64::MAX, u64::MAX));
    assert!(!log_rotation_needed(LogLimits { max_bytes: 1, rotated_files: 0 }, 100, 100));
    assert!(!log_rotation_needed(LogLimits { max_bytes: 0, rotated_files: 3 }, 100, 100));
}

#[test]
fn rotated_copies_shift_down_from_the_oldest() {
    assert_eq!(rotated_log_path("logs/diagnostic.log", 12), "logs/diagnostic.log.12");
    let moves = log_rotation_moves("d.log", 3);
    assert_eq!(
        moves,
        vec![
            ("d.log.2".to_string(), "d.log.3".to_string()),
            ("d.log.1".to_string(), "d.log.2".to_string()),
            ("d.log".to_string(), "d.log.1".to_string()),
        ]
    );
    assert!(log_rotation_moves("d.log", 0).is_empty());
}

#[test]
fn a_log_record_holds_time_process_event_and_clean_detail() {
    let detail = parse_json("{\"count\":2,\"name\":\"ok\"}").unwrap();
    let record = diagnostic_log_record(5, 7, "relay.switch", Some(&detail));
    assert_eq!(
        json_to_string(&record),
        "{\"detail\":{\"count\":2,\"name\":\"ok\"},\"event\":\"relay.switch\",\"pid\":7,\"timestamp_ms\":5}"
    );
    let bare = diagnostic_log_record(1_700_000_000_000, 0, "e", None);
    assert_eq!(json_to_string(&bare), "{\"detail\":null,\"event\":\"e\",\"pid\":0,\"timestamp_ms\":1700000000000}");
}

#[test]
fn append_diagnostic_log_redacts_sensitive_values() {
    let detail = parse_json(
        r#"{"apiKey":"sk-live-secret","authorization":"Bearer live-token","hasBearerToken":true,"configContents":"experimental_bearer_token = \"sk-config-secret\"","nested":{"tokens":{"access_token":"session-token"}}}"#,
    )
    .unwrap();
    let contents = json_to_string(&diagnostic_log_record(1, 2, "manager.secret_check", Some(&detail)));
    assert!(contents.contains(codex_plus_core::diagnostic_log::REDACTED));
    assert!(contents.contains("\"hasBearerToken\":true"));
    assert!(!contents.contains("sk-live-secret"));
    assert!(!contents.contains("live-token"));
    assert!(!contents.contains("sk-config-secret"));
    assert!(!contents.contains("session-token"));
}
