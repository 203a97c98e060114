use codex_plus_core::manager::{
    normalize_provider_sync_provider_list, relay_has_complete_files, remember_provider_sync_selection,
    retain_available_provider_ids, sanitize_manager_event, upsert_oauth_profile_into, OAuthUpsertError,
};
use codex_plus_core::settings::{BackendSettings, RelayMode, RelayProfile};

use base64::engine::general_purpose::URL_SAFE_NO_PAD;
use base64::Engine;

fn jwt(payload_json: &str) -> String {
    format!("header.{}.signature", URL_SAFE_NO_PAD.encode(payload_json.as_bytes()))
}

#[test]
fn manager_events_are_named_under_the_manager() {
    assert_eq!(sanitize_manager_event("  open settings "), "manager.ui.open_settings");
    assert_eq!(sanitize_manager_event("manager.relay.apply"), "manager.relay.apply");
    assert_eq!(sanitize_manager_event("..--"), "manager.ui.event");
    assert_eq!(sanitize_manager_event("_click!_"), "manager.ui.click");
    assert_eq!(sanitize_manager_event(""), "manager.ui.event");
}

#[test]
fn provider_sync_lists_are_trimmed_deduplicated_and_sorted() {
    let list = normalize_provider_sync_provider_list(vec![
        " b ".to_string(),
        "a".to_string(),
        "".to_string(),
        "b".to_string(),
        "bad\u{7}".to_string(),
    ]);
    assert_eq!(list, vec!["a".to_string(), "b".to_string()]);
}

#[test]
fn chosen_provider_is_remembered_once() {
    let mut settings = BackendSettings {
        provider_sync_saved_providers: vec!["z".to_string(), "a".to_string()],
        ..BackendSettings::default()
    };
    remember_provider_sync_selection(&mut settings, "  m ");
    assert_eq!(settings.provider_sync_last_selected_provider, "m");
    assert_eq!(settings.provider_sync_saved_providers, vec!["a".to_string(), "m".to_string(), "z".to_string()]);

    remember_provider_sync_selection(&mut settings, "a");
    assert_eq!(settings.provider_sync_saved_providers.len(), 3);

    remember_provider_sync_selection(&mut settings, "   ");
    assert_eq!(settings.provider_sync_last_selected_provider, "a");
}

#[test]
fn pool_keeps_only_existing_plain_providers() {
    let settings = BackendSettings {
        relay_profiles: vec![
            RelayProfile { id: "a".to_string(), ..RelayProfile::default() },
            RelayProfile { id: "agg".to_string(), relay_mode: RelayMode::Aggregate, ..RelayProfile::default() },
        ],
        ..BackendSettings::default()
    };
    let mut ids = vec!["a".to_string(), "gone".to_string(), "agg".to_string()];
    assert!(retain_available_provider_ids(&mut ids, &settings));
    assert_eq!(ids, vec!["a".to_string()]);
    assert!(!retain_available_provider_ids(&mut ids, &settings));
}

#[test]
fn complete_files_depend_on_the_login_kind() {
    let mixed = RelayProfile {
        relay_mode: RelayMode::Official,
        official_mix_api_key: true,
        config_contents: "model = \"x\"".to_string(),
        ..RelayProfile::default()
    };
    assert!(relay_has_complete_files(&mixed));
    let plain = RelayProfile { relay_mode: RelayMode::PureApi, ..mixed.clone() };
    assert!(!relay_has_complete_files(&plain));
    let full = RelayProfile { auth_contents: "{}".to_string(), ..plain };
    assert!(relay_has_complete_files(&full));
}

#[test]
fn oauth_login_updates_the_same_account_without_duplicate() {
    let access = jwt(r#"{"https://api.openai.com/auth":{"chatgpt_account_id":"acct-9"}}"#);
    let auth = format!(r#"{{"tokens":{{"access_token":"{access}"}}}}"#);
    let mut settings = BackendSettings::default();

    let first = upsert_oauth_profile_into(&mut settings, String::new(), auth.clone()).unwrap();
    assert_eq!(settings.relay_profiles.len(), 1);
    assert!(first.starts_with("oauth-"));

    settings.relay_profiles[0].name = "   ".to_string();
    settings.relay_profiles[0].official_mix_api_key = true;
    let second = upsert_oauth_profile_into(&mut settings, String::new(), auth).unwrap();
    assert_eq!(second, first);
    assert_eq!(settings.relay_profiles.len(), 1);
    assert_eq!(settings.relay_profiles[0].name, "Codex OAuth");
    assert!(!settings.relay_profiles[0].official_mix_api_key);

    let error = upsert_oauth_profile_into(&mut settings, String::new(), "{}".to_string()).unwrap_err();
    assert_eq!(error, OAuthUpsertError::NoTokens);
    let nameless = upsert_oauth_profile_into(
        &mut settings,
        String::new(),
        r#"{"access_token":"plain-token"}"#.to_string(),
    )
    .unwrap_err();
    assert_eq!(nameless, OAuthUpsertError::NoIdentity);
    assert_eq!(nameless.message(), "OAuth 登录结果缺少稳定账号标识");
}

fn oauth_auth_contents(access_token: &str, refresh_token: &str) -> String {
    let mut tokens = serde_json::Map::new();
    tokens.insert("access_token".to_string(), serde_json::Value::String(access_token.to_string()));
    tokens.insert("refresh_token".to_string(), serde_json::Value::String(refresh_token.to_string()));
    tokens.insert("account_id".to_string(), serde_json::Value::String("acct-dedup".to_string()));
    let mut root = serde_json::Map::new();
    root.insert("auth_mode".to_string(), serde_json::Value::String("chatgpt".to_string()));
    root.insert("tokens".to_string(), serde_json::Value::Object(tokens));
    serde_json::Value::Object(root).to_string()
}

#[test]
fn oauth_profile_upsert_updates_existing_account_without_duplicate() {
    let mut settings = BackendSettings::default();
    let first_id =
        upsert_oauth_profile_into(&mut settings, String::new(), oauth_auth_contents("access-v1", "refresh-v1")).unwrap();
    let second_id =
        upsert_oauth_profile_into(&mut settings, String::new(), oauth_auth_contents("access-v2", "refresh-v2")).unwrap();
    let oauth_profiles = settings
        .relay_profiles
        .iter()
        .filter(|profile| {
            codex_plus_core::codex_oauth::oauth_profile_identity(profile).as_deref() == Some("acct-dedup")
        })
        .collect::<Vec<_>>();

    assert_eq!(first_id, second_id);
    assert_eq!(oauth_profiles.len(), 1);
    assert!(oauth_profiles[0].auth_contents.contains("refresh-v2"));
    assert!(!oauth_profiles[0].auth_contents.contains("refresh-v1"));
}
