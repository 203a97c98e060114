use codex_plus_core::rollout::{
    cwd_by_thread_id, rewrite_rollout_session_meta_providers, rollout_provider_ids_in, rollout_thread_ids_in,
    session_change_from_rollout, tally_providers, thread_ids_with_user_events, SessionChange,
};

const META_OLD: &str = r#"{"type":"session_meta","payload":{"id":"t-1","cwd":"\\\\?\\C:\\work\\app","model_provider":"openai"}}"#;
const META_TARGET: &str = r#"{"type":"session_meta","payload":{"id":"t-2","model_provider":"relay"}}"#;
const EVENT: &str = r#"{"type":"event_msg","payload":{"type":"user_message","message":"hi"}}"#;

fn change(thread: Option<&str>, cwd: Option<&str>, user: bool) -> SessionChange {
    SessionChange {
        path: "p".to_string(),
        original_text: String::new(),
        next_text: String::new(),
        original_session_meta_lines: Vec::new(),
        thread_id: thread.map(str::to_string),
        cwd: cwd.map(str::to_string),
        has_user_event: user,
        rewrite_needed: false,
        providers: Vec::new(),
        has_encrypted_content: false,
    }
}

#[test]
fn rewrite_moves_session_meta_to_the_target_provider() {
    let text = format!("{META_OLD}\r\n{EVENT}\n");
    let rw = rewrite_rollout_session_meta_providers(&text, "relay");
    assert!(rw.rewrite_needed);
    assert_eq!(rw.session_meta_count, 1);
    assert_eq!(rw.original_session_meta_lines, vec![META_OLD.to_string()]);
    assert_eq!(rw.thread_id.as_deref(), Some("t-1"));
    assert_eq!(rw.cwd.as_deref(), Some("C:/work/app"));
    assert_eq!(rw.providers, vec!["openai".to_string()]);
    let mut lines = rw.next_text.split_inclusive('\n');
    let first = lines.next().unwrap();
    assert!(first.ends_with("\r\n"));
    let record: serde_json::Value = serde_json::from_str(first.trim_end()).unwrap();
    assert_eq!(record["payload"]["model_provider"], "relay");
    assert_eq!(record["payload"]["id"], "t-1");
    assert_eq!(record["type"], "session_meta");
    assert_eq!(lines.next().unwrap(), format!("{EVENT}\n"));
    assert!(lines.next().is_none());
}

#[test]
fn rollout_already_on_the_target_is_kept_byte_for_byte() {
    let text = format!("{META_TARGET}\n{EVENT}\n\nnot json");
    let rw = rewrite_rollout_session_meta_providers(&text, "relay");
    assert!(!rw.rewrite_needed);
    assert_eq!(rw.next_text, text);
    assert_eq!(rw.session_meta_count, 1);
    assert_eq!(rw.thread_id.as_deref(), Some("t-2"));
    assert_eq!(rw.cwd, None);
}

#[test]
fn missing_provider_is_listed_and_rewritten() {
    let line = r#"{"type":"session_meta","payload":{"id":"t-3"}}"#;
    let rw = rewrite_rollout_session_meta_providers(line, "relay");
    assert_eq!(rw.providers, vec!["(missing)".to_string()]);
    assert!(rw.rewrite_needed);
    let record: serde_json::Value = serde_json::from_str(&rw.next_text).unwrap();
    assert_eq!(record["payload"]["model_provider"], "relay");
}

#[test]
fn payload_that_is_not_an_object_is_not_counted() {
    let line = r#"{"type":"session_meta","payload":"x"}"#;
    let rw = rewrite_rollout_session_meta_providers(line, "relay");
    assert_eq!(rw.session_meta_count, 0);
    assert_eq!(rw.next_text, line);
    assert!(session_change_from_rollout("a.jsonl", line, "relay").is_none());
}

#[test]
fn first_thread_id_and_workspace_win() {
    let second = r#"{"type":"session_meta","payload":{"id":"t-9","cwd":"/other","model_provider":"relay"}}"#;
    let text = format!("{META_TARGET}\n{second}\n{META_OLD}\n");
    let rw = rewrite_rollout_session_meta_providers(&text, "relay");
    assert_eq!(rw.session_meta_count, 3);
    assert_eq!(rw.thread_id.as_deref(), Some("t-2"));
    assert_eq!(rw.cwd.as_deref(), Some("/other"));
    assert_eq!(rw.providers, vec!["relay".to_string(), "relay".to_string(), "openai".to_string()]);
}

#[test]
fn session_change_records_user_input_and_encrypted_content() {
    let text = format!("{META_OLD}\n{EVENT}\n{{\"encrypted_content\":\"x\"}}\n");
    let c = session_change_from_rollout("s/rollout.jsonl", &text, "relay").unwrap();
    assert_eq!(c.path, "s/rollout.jsonl");
    assert_eq!(c.original_text, text);
    assert!(c.has_user_event);
    assert!(c.has_encrypted_content);
    assert!(c.rewrite_needed);
    assert_eq!(c.providers, vec!["openai".to_string()]);
    let plain = session_change_from_rollout("s/b.jsonl", META_TARGET, "relay").unwrap();
    assert!(!plain.has_user_event);
    assert!(!plain.has_encrypted_content);
    assert!(session_change_from_rollout("s/c.jsonl", EVENT, "relay").is_none());
}

#[test]
fn tally_counts_each_provider_occurrence() {
    let mut counts: Vec<(String, usize)> = vec![("openai".to_string(), 2)];
    tally_providers(&mut counts, &["azure".to_string(), "openai".to_string(), "azure".to_string()]);
    assert_eq!(counts, vec![("openai".to_string(), 3), ("azure".to_string(), 2)]);
    tally_providers(&mut counts, &[]);
    assert_eq!(counts.len(), 2);
}

#[test]
fn user_event_threads_are_listed_once() {
    let changes = vec![
        change(Some("a"), None, true),
        change(Some("b"), None, false),
        change(Some("a"), None, true),
        change(None, None, true),
        change(Some("c"), None, true),
    ];
    assert_eq!(thread_ids_with_user_events(&changes), vec!["a".to_string(), "c".to_string()]);
}

#[test]
fn workspaces_skip_projectless_threads_and_later_changes_win() {
    let changes = vec![
        change(Some("a"), Some("/one"), false),
        change(Some("b"), Some("/two"), false),
        change(Some("a"), Some("/three"), false),
        change(Some("c"), None, false),
    ];
    let map = cwd_by_thread_id(&changes, &vec!["b".to_string()]);
    assert_eq!(map, vec![("a".to_string(), "/three".to_string())]);
}

#[test]
fn provider_and_thread_ids_are_read_from_session_meta_lines() {
    let blank_id = r#"{"type":"session_meta","payload":{"id":"  ","model_provider":" "}}"#;
    let text = format!("{META_OLD}\n{EVENT}\n{META_TARGET}\n{blank_id}\n");
    let mut providers = rollout_provider_ids_in(&text);
    providers.sort();
    assert_eq!(providers, vec!["openai".to_string(), "relay".to_string()]);
    let mut threads = rollout_thread_ids_in(&text);
    threads.sort();
    assert_eq!(threads, vec!["t-1".to_string(), "t-2".to_string()]);
}
