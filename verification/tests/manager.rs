use codex_plus_core::relay_rotation::{active_aggregate, relay_profile_by_id};
use codex_plus_core::settings::{AggregateRelayMember, AggregateRelayProfile, AggregateRelayStrategy};
use codex_plus_core::local_relay::LocalRelaySettings;
use codex_plus_core::manager::{
    provider_doctor_recommendation, should_show_update, validate_local_relay_provider_pool, ProviderDoctorCheck,
};
use codex_plus_core::settings::{BackendSettings, RelayMode, RelayProfile, RelayProtocol};

fn pure_api_profile(id: &str, base_url: &str, api_key: &str) -> RelayProfile {
    RelayProfile {
        id: id.to_string(),
        name: id.to_string(),
        base_url: base_url.to_string(),
        upstream_base_url: base_url.to_string(),
        api_key: api_key.to_string(),
        protocol: RelayProtocol::Responses,
        relay_mode: RelayMode::PureApi,
        ..RelayProfile::default()
    }
}

fn settings_with_profiles(active_relay_id: &str, relay_profiles: Vec<RelayProfile>) -> BackendSettings {
    BackendSettings {
        active_relay_id: active_relay_id.to_string(),
        relay_profiles,
        ..BackendSettings::default()
    }
}

fn check(id: &str, title: &str, status: &str, detail: &str) -> ProviderDoctorCheck {
    ProviderDoctorCheck {
        id: id.to_string(),
        title: title.to_string(),
        status: status.to_string(),
        detail: detail.to_string(),
    }
}

#[test]
fn local_relay_provider_pool_rejects_empty_members() {
    let error =
        validate_local_relay_provider_pool(&BackendSettings::default(), &LocalRelaySettings::default()).unwrap_err();

    assert!(error.message().contains("至少一个供应商"));
}

#[test]
fn local_relay_provider_pool_rejects_member_without_credentials() {
    let settings =
        settings_with_profiles("missing-credentials", vec![pure_api_profile("missing-credentials", "", "")]);
    let local = LocalRelaySettings {
        provider_ids: vec!["missing-credentials".to_string()],
        ..LocalRelaySettings::default()
    };

    let error = validate_local_relay_provider_pool(&settings, &local).unwrap_err();

    assert!(error.message().contains("缺少 OAuth 凭据或 Base URL / Key"));
}

#[test]
fn local_relay_provider_pool_rejects_all_disabled_members() {
    let settings = settings_with_profiles(
        "provider-a",
        vec![pure_api_profile("provider-a", "https://provider.example/v1", "sk-provider")],
    );
    let local = LocalRelaySettings {
        provider_ids: vec!["provider-a".to_string()],
        disabled_provider_ids: vec!["provider-a".to_string()],
        ..LocalRelaySettings::default()
    };

    let error = validate_local_relay_provider_pool(&settings, &local).unwrap_err();

    assert!(error.message().contains("至少启用一个"));
}

#[test]
fn local_relay_provider_pool_ignores_disabled_invalid_member() {
    let settings = settings_with_profiles(
        "ready",
        vec![
            pure_api_profile("ready", "https://ready.example/v1", "sk-ready"),
            pure_api_profile("paused", "", ""),
        ],
    );
    let local = LocalRelaySettings {
        provider_ids: vec!["ready".to_string(), "paused".to_string()],
        disabled_provider_ids: vec!["paused".to_string()],
        ..LocalRelaySettings::default()
    };

    let source = validate_local_relay_provider_pool(&settings, &local).unwrap();

    assert_eq!(source.id, "ready");
}

#[test]
fn startup_options_honors_show_update_argument() {
    assert!(should_show_update(&["codex-deck-manager.exe", "--show-update"], None));
}

#[test]
fn provider_doctor_recommendation_prioritizes_actionable_failures() {
    let recommendation = provider_doctor_recommendation(&[
        check("models", "模型列表", "failed", "上游不支持 /v1/models"),
        check("request", "真实请求", "failed", "HTTP 404"),
    ]);

    assert!(recommendation.contains("/v1/models"));
}

#[test]
fn provider_doctor_recommendation_reports_model_warning() {
    let recommendation = provider_doctor_recommendation(&[
        check("config", "配置完整性", "ok", "https://example.test/v1 / Responses API"),
        check("models", "模型列表", "warning", "未看到测试模型"),
        check("request", "真实请求", "ok", "HTTP 200"),
    ]);

    assert!(recommendation.contains("测试模型"));
}

#[test]
fn providers_are_found_by_id_and_the_active_aggregate_by_mode() {
    let settings = BackendSettings {
        relay_profiles: vec![
            pure_api_profile("a", "https://a/v1", "k"),
            RelayProfile { id: "pool".to_string(), relay_mode: RelayMode::Aggregate, ..RelayProfile::default() },
        ],
        aggregate_relay_profiles: vec![AggregateRelayProfile {
            id: "agg".to_string(),
            name: "Agg".to_string(),
            strategy: AggregateRelayStrategy::Failover,
            members: vec![AggregateRelayMember { relay_id: "a".to_string(), weight: 1 }],
        }],
        active_relay_id: "pool".to_string(),
        active_aggregate_relay_id: "agg".to_string(),
        ..BackendSettings::default()
    };
    assert_eq!(relay_profile_by_id(&settings, "a").unwrap().base_url, "https://a/v1");
    assert!(relay_profile_by_id(&settings, "zzz").is_none());
    assert_eq!(active_aggregate(&settings).unwrap().id, "agg");
    let direct = BackendSettings { active_relay_id: "a".to_string(), ..settings };
    assert!(active_aggregate(&direct).is_err());
}
