use codex_plus_core::local_relay::{
    settings_with_local_pool, LocalRelaySettings, DEFAULT_LOCAL_RELAY_PORT, LOCAL_RELAY_POOL_ID,
};
use codex_plus_core::settings::{BackendSettings, RelayProfile};

#[test]
fn default_settings_generate_local_key_without_exposing_it_in_mask() {
    let settings = LocalRelaySettings::default();
    assert!(settings.api_key.starts_with("cdx_"));
    assert_ne!(settings.api_key, settings.masked_api_key());
    assert_eq!(settings.port, DEFAULT_LOCAL_RELAY_PORT);
    assert_eq!(settings.routing_strategy, "conversation-sticky");
}

#[test]
fn local_pool_reuses_existing_providers_without_copying_credentials() {
    let settings = BackendSettings {
        relay_profiles: vec![RelayProfile {
            id: "provider-a".to_string(),
            name: "A".to_string(),
            api_key: "secret".to_string(),
            ..RelayProfile::default()
        }],
        active_relay_id: "provider-a".to_string(),
        ..BackendSettings::default()
    };
    let local = LocalRelaySettings {
        enabled: true,
        provider_ids: vec!["provider-a".to_string()],
        ..LocalRelaySettings::default()
    };

    let routed = settings_with_local_pool(settings, &local);

    assert_eq!(routed.active_relay_id, LOCAL_RELAY_POOL_ID);
    assert_eq!(routed.aggregate_relay_profiles[0].members[0].relay_id, "provider-a");
    assert_eq!(routed.relay_profiles[0].api_key, "secret");
    assert!(routed.relay_profiles.last().unwrap().api_key.is_empty());
}

#[test]
fn local_pool_excludes_disabled_providers() {
    let settings = BackendSettings {
        relay_profiles: vec![
            RelayProfile {
                id: "provider-a".to_string(),
                name: "A".to_string(),
                ..RelayProfile::default()
            },
            RelayProfile {
                id: "provider-b".to_string(),
                name: "B".to_string(),
                ..RelayProfile::default()
            },
        ],
        active_relay_id: "provider-a".to_string(),
        ..BackendSettings::default()
    };
    let local = LocalRelaySettings {
        enabled: true,
        provider_ids: vec!["provider-a".to_string(), "provider-b".to_string()],
        disabled_provider_ids: vec!["provider-b".to_string()],
        ..LocalRelaySettings::default()
    };

    let routed = settings_with_local_pool(settings, &local);
    let members = &routed.aggregate_relay_profiles[0].members;

    assert_eq!(members.len(), 1);
    assert_eq!(members[0].relay_id, "provider-a");
}
