use codex_plus_core::global_state::{
    apply_global_state_update, global_state_from_text, global_state_update_count, normalized_global_state,
    projectless_thread_ids,
};
use codex_plus_core::json::{json_to_string, parse_json, JsonMember, JsonValue};
use codex_plus_core::provider_sync::{backups_to_prune, BACKUP_KEEP_COUNT};

const STATE: &str = r#"{"active-workspace-roots":"\\\\?\\C:\\work","electron-saved-workspace-roots":["\\\\?\\C:\\work","C:/work/","  ",3],"electron-workspace-root-labels":{"\\\\?\\C:\\work":"Work"},"open-in-target-preferences":{"global":"vscode","perPath":{"\\\\?\\D:\\x":"cursor"}},"project-order":["C:/a"],"projectless-thread-ids":["t1"," ",5,"t2"]}"#;

fn state() -> Vec<JsonMember> {
    global_state_from_text(Some(STATE)).unwrap()
}

#[test]
fn workspace_roots_are_written_as_the_desktop_app_writes_them() {
    let state = state();
    assert_eq!(global_state_update_count(&state), 4);
    let (next, count) = apply_global_state_update(&state);
    assert_eq!(count, 4);
    assert_eq!(
        json_to_string(&JsonValue::Object(next)),
        r#"{"active-workspace-roots":"C:/work","electron-saved-workspace-roots":["C:/work"],"electron-workspace-root-labels":{"C:/work":"Work"},"open-in-target-preferences":{"global":"vscode","perPath":{"D:/x":"cursor"}},"project-order":["C:/a"],"projectless-thread-ids":["t1"," ",5,"t2"]}"#
    );
}

#[test]
fn normalizing_twice_changes_nothing_more() {
    let (next, _) = apply_global_state_update(&state());
    let text = json_to_string(&JsonValue::Object(next));
    let again = global_state_from_text(Some(&text)).unwrap();
    assert_eq!(global_state_update_count(&again), 0);
    let (same, count) = apply_global_state_update(&again);
    assert_eq!(count, 0);
    assert_eq!(json_to_string(&JsonValue::Object(same)), text);
}

#[test]
fn normalized_members_come_in_a_fixed_order() {
    let next = normalized_global_state(&state());
    let keys: Vec<&str> = next.iter().map(|m| m.key.as_str()).collect();
    assert_eq!(
        keys,
        vec![
            "electron-saved-workspace-roots",
            "project-order",
            "active-workspace-roots",
            "electron-workspace-root-labels",
            "open-in-target-preferences"
        ]
    );
    let only_labels = global_state_from_text(Some(r#"{"electron-workspace-root-labels":"x","active-workspace-roots":7}"#)).unwrap();
    let next = normalized_global_state(&only_labels);
    assert_eq!(next.len(), 1);
    assert_eq!(next[0].key, "active-workspace-roots");
    assert_eq!(global_state_update_count(&only_labels), 0);
}

#[test]
fn projectless_threads_are_the_listed_texts() {
    assert_eq!(projectless_thread_ids(&state()), vec!["t1".to_string(), "t2".to_string()]);
    assert!(projectless_thread_ids(&Vec::new()).is_empty());
}

#[test]
fn the_global_state_is_read_from_its_text() {
    assert!(global_state_from_text(None).unwrap().is_empty());
    assert!(global_state_from_text(Some("[1]")).unwrap().is_empty());
    assert!(global_state_from_text(Some("{")).is_none());
}

#[test]
fn only_the_newest_sync_backups_are_kept() {
    let managed = || parse_json(r#"{"managedBy":"Codex++ provider sync","version":1}"#);
    let dirs = vec![
        ("20240101".to_string(), managed()),
        ("20240103".to_string(), managed()),
        ("notes".to_string(), None),
        ("20240102".to_string(), parse_json(r#"{"managedBy":"someone else"}"#)),
        ("20240105".to_string(), managed()),
        ("20240104".to_string(), managed()),
    ];
    assert_eq!(backups_to_prune(&dirs, 2), vec!["20240103".to_string(), "20240101".to_string()]);
    assert!(backups_to_prune(&dirs, BACKUP_KEEP_COUNT).is_empty());
    assert_eq!(backups_to_prune(&dirs, 0).len(), 4);
}
