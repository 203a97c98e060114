use codex_plus_core::legacy_import::indexed_source_key;
use codex_plus_core::json::{JsonMember, JsonValue};
use codex_plus_core::legacy_import::build_non_sensitive_apply_payload;
use codex_plus_core::legacy_import::sanitize_non_sensitive_value;
use codex_plus_core::legacy_import::{
    apply_ledger_statuses, backup_checksum_matches, build_ledger, default_legacy_import_transaction_root,
    mark_rolled_back, preview_legacy_import, sanitize_id, setting_key_is_secret, sha256_hex, RootEntry,
};

fn file(root: &str, name: &str, size: u64) -> RootEntry {
    RootEntry { name: name.to_string(), path: format!("{root}/{name}"), is_dir: false, size_bytes: Some(size) }
}

fn dir(root: &str, name: &str) -> RootEntry {
    RootEntry { name: name.to_string(), path: format!("{root}/{name}"), is_dir: true, size_bytes: None }
}

const LEGACY_SETTINGS: &str = r#"{
    "enhancementsEnabled": false,
    "relayProfilesEnabled": true,
    "relayApiKey": "sk-legacy-secret",
    "codexAppStepwiseApiKey": "sk-stepwise-secret",
    "codexAppPath": "C:\\Program Files\\Codex\\Codex.exe",
    "relayCommonConfigContents": "[mcp_servers.demo]\ncommand = \"npx\"\n",
    "relayProfiles": [{
        "id": "legacy",
        "name": "Legacy",
        "apiKey": "sk-profile-secret",
        "configContents": "experimental_bearer_token = \"sk-config-secret\"",
        "authContents": "{\"OPENAI_API_KEY\":\"sk-auth-secret\"}"
    }],
    "visionRelay": {
        "enabled": true,
        "apiKey": "sk-vision-secret"
    }
}"#;

#[test]
fn preview_missing_legacy_root_is_read_only_and_empty() {
    let preview = preview_legacy_import("/tmp/nowhere/missing", false, None, &Vec::new());

    assert!(!preview.found);
    assert_eq!(preview.items.len(), 0);
    assert_eq!(preview.excluded.len(), 0);
    assert_eq!(preview.summary.automatic_items, 0);
}

#[test]
fn preview_classifies_settings_without_exposing_secret_values() {
    let root = "/home/user/.codex-session-delete";
    let entries = vec![file(root, "settings.json", LEGACY_SETTINGS.len() as u64)];
    let preview = preview_legacy_import(root, true, Some(LEGACY_SETTINGS), &entries);
    let text = format!("{preview:?}");

    assert!(preview.found);
    assert!(preview.schema.settings_json_found);
    assert!(preview.schema.settings_json_valid);
    assert_eq!(preview.schema.settings_key_count, 8);
    assert!(preview.summary.automatic_items >= 2);
    assert!(preview.summary.confirmation_items >= 3);
    assert!(preview.summary.secret_items >= 4);
    assert!(preview.summary.executable_or_external_items >= 2);
    assert!(preview.items.iter().any(|item| item.group == "nonSensitiveConfig"));
    assert!(preview.items.iter().any(|item| item.group == "executableOrExternal"));
    assert!(preview.items.iter().any(|item| item.group == "secret"));
    assert!(!text.contains("sk-legacy-secret"));
    assert!(!text.contains("sk-stepwise-secret"));
    assert!(!text.contains("sk-profile-secret"));
    assert!(!text.contains("sk-config-secret"));
    assert!(!text.contains("sk-auth-secret"));
    assert!(!text.contains("sk-vision-secret"));
}

#[test]
fn preview_lists_each_item_with_its_id_and_target() {
    let root = "/home/user/.codex-session-delete";
    let preview = preview_legacy_import(root, true, Some(LEGACY_SETTINGS), &Vec::new());
    let ids: Vec<&str> = preview.items.iter().map(|item| item.id.as_str()).collect();

    assert_eq!(
        ids,
        vec![
            "nonSensitiveConfig-relayprofilesenabled",
            "nonSensitiveConfig-enhancementsenabled",
            "nonSensitiveConfig-visionrelay",
            "nonSensitiveConfig-relayprofiles-0",
            "executableOrExternal-codexapppath",
            "executableOrExternal-relaycommonconfigcontents",
            "secret-codexappstepwiseapikey",
            "secret-relayapikey",
            "secret-relayprofiles-0-apikey",
            "secret-relayprofiles-0-authcontents",
            "secret-relayprofiles-0-configcontents",
            "secret-visionrelay-apikey",
        ]
    );
    let profile = &preview.items[3];
    assert_eq!(profile.source_key, "relayProfiles[0]");
    assert_eq!(profile.target, "settings.relayProfiles");
    assert_eq!(profile.action, "convertProviderWithoutSecrets");
    assert_eq!(profile.source_path, "/home/user/.codex-session-delete/settings.json");
    let vision = &preview.items[11];
    assert_eq!(vision.source_key, "visionRelay.apiKey");
    assert_eq!(vision.target, "secretStore.visionRelay");
    let stepwise = &preview.items[6];
    assert_eq!(stepwise.target, "secretStore.stepwise");
    let context = &preview.items[5];
    assert_eq!(context.risk, "canRunCommandsOrLoadExternalPackages");
    assert_eq!(preview.summary.automatic_items, 4);
    assert_eq!(preview.summary.confirmation_items, 8);
    assert_eq!(preview.summary.secret_items, 6);
    assert_eq!(preview.summary.executable_or_external_items, 2);
}

#[test]
fn preview_excludes_runtime_cache_and_native_session_sources() {
    let root = "/home/user/.codex-session-delete";
    let entries = vec![
        dir(root, "cache"),
        dir(root, "sessions"),
        file(root, "settings.json", 2),
        file(root, "codex-plus.log", 10),
        file(root, "helper.pid", 3),
        file(root, "state_5.sqlite", 6),
        file(root, "session_index.jsonl", 3),
    ];

    let preview = preview_legacy_import(root, true, Some("{}"), &entries);

    assert_eq!(preview.summary.codex_native_session_sources, 3);
    assert!(preview
        .excluded
        .iter()
        .any(|item| item.category == "runtimeOrCache" && item.source_path.ends_with("codex-plus.log")));
    assert!(preview
        .excluded
        .iter()
        .any(|item| item.category == "codexNativeSession" && item.source_path.ends_with("state_5.sqlite")));
    assert_eq!(preview.excluded.len(), 6);
    assert_eq!(preview.summary.excluded_items, 6);
    assert_eq!(preview.items.len(), 0);
    assert!(preview.conflicts.is_empty());
}

#[test]
fn preview_asks_before_user_scripts_and_skips_unknown_files() {
    let root = "/old";
    let entries = vec![dir(root, "User_Scripts"), file(root, "notes.txt", 5), dir(root, "themes")];

    let preview = preview_legacy_import(root, true, Some("{}"), &entries);

    assert_eq!(preview.items.len(), 1);
    assert_eq!(preview.items[0].id, "executableOrExternal-user-scripts");
    assert_eq!(preview.items[0].risk, "canExecuteUserCode");
    assert!(preview.items[0].requires_confirmation);
    assert_eq!(preview.excluded.len(), 2);
    assert_eq!(preview.excluded[0].id, "unrecognized-notes-txt");
    assert_eq!(preview.excluded[0].size_bytes, Some(5));
    assert_eq!(preview.excluded[1].size_bytes, None);
    assert_eq!(
        preview.excluded[1].reason,
        "unrecognized legacy file is skipped until a schema adapter exists"
    );
}

#[test]
fn preview_reports_missing_and_invalid_settings() {
    let missing = preview_legacy_import("/old", true, None, &Vec::new());
    assert_eq!(missing.conflicts.len(), 1);
    assert_eq!(missing.conflicts[0].id, "missing-settings-json");
    assert_eq!(missing.conflicts[0].severity, "warning");
    assert_eq!(missing.conflicts[0].source_path, "/old/settings.json");
    assert!(!missing.schema.settings_json_found);
    assert_eq!(missing.summary.conflicts, 1);

    let invalid = preview_legacy_import("/old", true, Some("[1, 2]"), &Vec::new());
    assert_eq!(invalid.conflicts[0].id, "invalid-settings-json");
    assert_eq!(invalid.conflicts[0].severity, "error");
    assert!(invalid.schema.settings_json_found);
    assert!(!invalid.schema.settings_json_valid);

    let broken = preview_legacy_import("/old", true, Some("{not json"), &Vec::new());
    assert_eq!(broken.conflicts[0].message, "settings.json is not a valid object and will not be imported");
}

#[test]
fn ledger_marks_selected_items_pending_and_records_exclusions_and_conflicts() {
    let entries = vec![file("/old", "helper.pid", 3)];
    let preview = preview_legacy_import(
        "/old",
        true,
        Some(r#"{"launchMode":"fast","relayApiKey":"sk-x"}"#),
        &entries,
    );
    let selected = vec!["nonSensitiveConfig-launchmode".to_string()];

    let ledger = build_ledger(&preview, &selected, 1234);

    assert_eq!(ledger.created_at_ms, 1234);
    assert_eq!(ledger.source_root, "/old");
    assert_eq!(ledger.entries.len(), 3);
    assert_eq!(ledger.entries[0].status, "pending");
    assert!(ledger.entries[0].selected);
    assert_eq!(ledger.entries[1].item_id, "secret-relayapikey");
    assert_eq!(ledger.entries[1].status, "skipped");
    assert_eq!(ledger.entries[2].status, "excluded");
    assert_eq!(ledger.entries[2].target, "notImported");

    let missing = preview_legacy_import("/old", true, None, &Vec::new());
    let ledger = build_ledger(&missing, &Vec::new(), 0);
    assert_eq!(ledger.entries[0].group, "conflict");
    assert_eq!(ledger.entries[0].status, "failed");
    assert_eq!(ledger.entries[0].risk, "warning");
}

#[test]
fn applying_a_ledger_moves_and_counts_each_entry() {
    let preview = preview_legacy_import(
        "/old",
        true,
        Some(r#"{"launchMode":"fast","codexAppPath":"C:\\x","relayApiKey":"sk-x"}"#),
        &vec![file("/old", "debug.port", 4)],
    );
    let selected = vec![
        "nonSensitiveConfig-launchmode".to_string(),
        "executableOrExternal-codexapppath".to_string(),
    ];
    let mut ledger = build_ledger(&preview, &selected, 1);

    let (imported, skipped, pending, failed) = apply_ledger_statuses(&mut ledger.entries);

    assert_eq!((imported, skipped, pending, failed), (1, 2, 1, 0));
    assert_eq!(ledger.entries[0].status, "success");
    assert_eq!(ledger.entries[1].status, "pendingConfirmation");
    assert_eq!(ledger.entries[2].status, "skipped");
    assert_eq!(ledger.entries[3].status, "excluded");

    let again = apply_ledger_statuses(&mut ledger.entries);
    assert_eq!(again, (1, 2, 1, 0));

    let rolled = mark_rolled_back(&mut ledger.entries);
    assert_eq!(rolled, 1);
    assert_eq!(ledger.entries[0].status, "rolledBack");
    assert_eq!(mark_rolled_back(&mut ledger.entries), 0);
}

#[test]
fn ids_keep_letters_and_digits_only() {
    assert_eq!(sanitize_id("relayProfiles[0].apiKey"), "relayprofiles-0-apikey");
    assert_eq!(sanitize_id("--"), "item");
    assert_eq!(sanitize_id(""), "item");
    assert_eq!(sanitize_id("State_5.SQLITE"), "state-5-sqlite");
}

#[test]
fn secret_keys_are_recognised_by_their_letters() {
    assert!(setting_key_is_secret("relay_api_key"));
    assert!(setting_key_is_secret("refreshToken"));
    assert!(setting_key_is_secret("Credentials"));
    assert!(!setting_key_is_secret("relayBaseUrl"));
    assert!(!setting_key_is_secret("tokenizer"));
}

#[test]
fn transaction_root_is_named_after_the_time() {
    assert_eq!(
        default_legacy_import_transaction_root("/state", 1700000000123),
        "/state/legacy-import-transactions/tx-1700000000123"
    );
}

#[test]
fn backup_checksum_is_sha256_in_hex() {
    assert_eq!(sha256_hex(b"abc"), "ba7816bf8f01cfea414140de5dae2223b00361a396177a9cb410ff61f20015ad");
    assert_eq!(sha256_hex(b""), "e3b0c44298fc1c149afbf4c8996fb92427ae41e4649b934ca495991b7852b855");
    assert!(backup_checksum_matches(b"{}", &sha256_hex(b"{}")));
    assert!(!backup_checksum_matches(b"{} ", &sha256_hex(b"{}")));
}

#[test]
fn indexed_keys_name_array_elements() {
    assert_eq!(indexed_source_key("relayProfiles[3]", "relayProfiles"), Some(3));
    assert_eq!(indexed_source_key("relayProfiles[+7]", "relayProfiles"), Some(7));
    assert_eq!(indexed_source_key("relayProfiles[]", "relayProfiles"), None);
    assert_eq!(indexed_source_key("relayProfiles[x]", "relayProfiles"), None);
    assert_eq!(indexed_source_key("aggregateRelayProfiles[1]", "relayProfiles"), None);
    assert_eq!(indexed_source_key("relayProfiles[99999999999999999999999]", "relayProfiles"), None);
}

#[test]
fn applied_payload_keeps_selected_settings_without_secrets() {
    let settings = r#"{
        "launchMode": "fast",
        "relayBaseUrl": "Bearer abc",
        "relayProfiles": [{"id":"a","apiKey":"sk-1","configContents":"experimental_bearer_token = \"sk-2\"","name":"A"}, {"id":"b"}],
        "relayApiKey": "sk-x"
    }"#;
    let root = "/old";
    let preview = preview_legacy_import(root, true, Some(settings), &Vec::new());
    let selected: Vec<String> = preview.items.iter().map(|item| item.id.clone()).collect();
    let ledger = build_ledger(&preview, &selected, 0);
    let legacy = match codex_plus_core::json::parse_json(settings) {
        Some(JsonValue::Object(ms)) => ms,
        _ => panic!("settings expected"),
    };

    let payload = build_non_sensitive_apply_payload(&legacy, &ledger.entries);

    let keys: Vec<&str> = payload.iter().map(|m: &JsonMember| m.key.as_str()).collect();
    assert_eq!(keys, vec!["launchMode", "relayProfiles"]);
    let JsonValue::Array(profiles) = &payload[1].value else { panic!("array expected") };
    assert_eq!(profiles.len(), 2);
    let JsonValue::Object(first) = &profiles[0] else { panic!("object expected") };
    let first_keys: Vec<&str> = first.iter().map(|m| m.key.as_str()).collect();
    assert_eq!(first_keys, vec!["id", "name"]);
}

#[test]
fn cleaning_drops_secret_text_and_keys() {
    assert!(sanitize_non_sensitive_value(&JsonValue::Str("sk-123".to_string())).is_none());
    let value = JsonValue::Array(vec![
        JsonValue::Str("plain".to_string()),
        JsonValue::Str("Bearer token".to_string()),
        JsonValue::Object(vec![
            JsonMember { key: "password".to_string(), value: JsonValue::Bool(true) },
            JsonMember { key: "port".to_string(), value: JsonValue::Number("8".to_string(), Some(8)) },
        ]),
    ]);
    let Some(JsonValue::Array(items)) = sanitize_non_sensitive_value(&value) else { panic!("array expected") };
    assert_eq!(items.len(), 2);
    let JsonValue::Object(ms) = &items[1] else { panic!("object expected") };
    assert_eq!(ms.len(), 1);
    assert_eq!(ms[0].key, "port");
}
