use codex_plus_core::local_relay::{
    generate_api_key, local_relay_payload, normalize_provider_ids, state_path, LocalRelaySettings, DEFAULT_LOCAL_RELAY_PORT,
};
use codex_plus_core::manager::local_relay_base_url;

#[test]
fn invalid_values_are_repaired_on_load() {
    let settings = LocalRelaySettings {
        enabled: true,
        port: 0,
        api_key: "  ".to_string(),
        routing_strategy: String::new(),
        ..LocalRelaySettings::default()
    }
    .ensure_valid();
    assert_eq!(settings.port, DEFAULT_LOCAL_RELAY_PORT);
    assert!(settings.api_key.starts_with("cdx_"));
    assert_eq!(settings.routing_strategy, "conversation-sticky");
}

#[test]
fn provider_ids_are_trimmed_and_deduplicated() {
    let mut ids = vec![" provider-a ".to_string(), "provider-a".to_string(), "".to_string(), "provider-b".to_string()];
    normalize_provider_ids(&mut ids);
    assert_eq!(ids, ["provider-a", "provider-b"]);
}

#[test]
fn disabled_provider_ids_are_normalized_and_limited_to_pool_members() {
    let settings = LocalRelaySettings {
        provider_ids: vec!["provider-a".to_string(), "provider-b".to_string()],
        disabled_provider_ids: vec![
            " provider-b ".to_string(),
            "provider-b".to_string(),
            "missing".to_string(),
            "".to_string(),
        ],
        ..LocalRelaySettings::default()
    }
    .ensure_valid();

    assert_eq!(settings.disabled_provider_ids, ["provider-b"]);
    assert!(settings.is_provider_enabled("provider-a"));
    assert!(!settings.is_provider_enabled("provider-b"));
    assert_eq!(settings.enabled_provider_ids(), ["provider-a"]);
}

#[test]
fn keys_are_masked_and_regenerated() {
    let mut settings = LocalRelaySettings { api_key: "cdx_0123456789abcdef".to_string(), ..LocalRelaySettings::default() };
    assert_eq!(settings.masked_api_key(), "cdx_...cdef");
    settings.api_key = "short".to_string();
    assert_eq!(settings.masked_api_key(), "********");
    let before = settings.api_key.clone();
    settings.regenerate_api_key();
    assert_ne!(settings.api_key, before);
    let key = generate_api_key();
    assert_eq!(key.len(), 4 + 32);
    assert!(key[4..].chars().all(|c| c.is_ascii_hexdigit() && !c.is_ascii_uppercase()));
    assert_ne!(generate_api_key(), key);
}

#[test]
fn local_relay_addresses() {
    assert_eq!(local_relay_base_url(57321), "http://127.0.0.1:57321/v1");
    assert!(state_path().ends_with("/.codex-deck/local-relay.json") || state_path() == ".codex-deck/local-relay.json");
}

#[test]
fn payload_masks_the_key_and_names_the_local_endpoint() {
    let settings = LocalRelaySettings { api_key: "cdx_0123456789abcdef".to_string(), port: 40000, ..LocalRelaySettings::default() };
    let payload = local_relay_payload(settings, true);
    assert_eq!(payload.api_key_masked, "cdx_...cdef");
    assert_eq!(payload.base_url, "http://127.0.0.1:40000/v1");
    assert!(payload.running);
    assert!(payload.state_path.ends_with("local-relay.json"));
    assert_eq!(payload.settings.port, 40000);
}

#[test]
fn masking_counts_bytes_like_the_key_text() {
    let settings = LocalRelaySettings { api_key: " ключ-ключ ".to_string(), ..LocalRelaySettings::default() };
    assert_eq!(settings.masked_api_key(), "кл...юч");
    let short = LocalRelaySettings { api_key: "ключ".to_string(), ..LocalRelaySettings::default() };
    assert_eq!(short.masked_api_key(), "********");
}
