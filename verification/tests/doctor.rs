use codex_plus_core::manager::{
    config_ok_check, doctor_preflight, doctor_profile_name, doctor_report, doctor_summary, external_url_to_open,
    failed_doctor_check, missing_config_doctor_payload, models_check, oauth_unavailable_doctor_payload,
    official_login_doctor_payload, request_check, DoctorPreflight, ProviderDoctorCheck,
};
use codex_plus_core::doctor::{doctor_start, doctor_step, DoctorAction, DoctorEvent, DoctorStage, DoctorState};
use codex_plus_core::settings::{RelayMode, RelayProfile, RelayProtocol};

fn check(id: &str, status: &str) -> ProviderDoctorCheck {
    ProviderDoctorCheck { id: id.to_string(), title: String::new(), status: status.to_string(), detail: String::new() }
}

#[test]
fn model_list_check_warns_about_a_missing_test_model() {
    let models = vec!["gpt-5".to_string(), "o3".to_string()];
    let ok = models_check(&models, " o3 ", "https://r/v1/models");
    assert_eq!(ok.id, "models");
    assert_eq!(ok.title, "模型列表");
    assert_eq!(ok.status, "ok");
    assert_eq!(ok.detail, "https://r/v1/models 返回 2 个模型。");
    let warn = models_check(&models, "llama-x", "E");
    assert_eq!(warn.status, "warning");
    assert_eq!(warn.detail, "E 返回 2 个模型，但未看到测试模型「llama-x」。");
    let none = models_check(&Vec::new(), "", "E");
    assert_eq!(none.status, "failed");
    assert_eq!(none.detail, "E 返回 0 个模型。");
    assert_eq!(models_check(&models, "  ", "E").status, "ok");
}

#[test]
fn request_check_fails_from_http_400() {
    let ok = request_check("E", 200, "  {\"id\":1} ");
    assert_eq!(ok.id, "request");
    assert_eq!(ok.title, "真实请求");
    assert_eq!(ok.status, "ok");
    assert_eq!(ok.detail, "E 返回 HTTP 200：{\"id\":1}");
    let bad = request_check("E", 400, "");
    assert_eq!(bad.status, "failed");
    assert_eq!(bad.detail, "E 返回 HTTP 400，响应内容为空。");
    assert_eq!(request_check("E", 399, "x").status, "ok");
}

#[test]
fn summary_counts_failures_before_warnings() {
    assert_eq!(
        doctor_summary(&[check("a", "failed"), check("b", "warning"), check("c", "failed")]),
        "发现 2 项失败，Codex 可能无法使用该供应商。"
    );
    assert_eq!(doctor_summary(&[check("a", "ok"), check("b", "warning")]), "基础连接可用，但有 1 项需要确认。");
    assert_eq!(doctor_summary(&[check("a", "ok")]), "供应商基础诊断通过。");
    assert_eq!(doctor_summary(&[]), "供应商基础诊断通过。");
}

#[test]
fn preflight_separates_official_logins_and_missing_config() {
    let official = RelayProfile { relay_mode: RelayMode::Official, ..RelayProfile::default() };
    assert_eq!(doctor_preflight(&official, false), DoctorPreflight::OfficialLogin);
    assert_eq!(doctor_preflight(&official, true), DoctorPreflight::MissingConfig);
    let api = RelayProfile {
        relay_mode: RelayMode::PureApi,
        base_url: "https://relay.example/v1".to_string(),
        api_key: "sk-1".to_string(),
        ..RelayProfile::default()
    };
    assert_eq!(doctor_preflight(&api, false), DoctorPreflight::Ready);
    let no_key = RelayProfile { api_key: "  ".to_string(), ..api };
    assert_eq!(doctor_preflight(&no_key, false), DoctorPreflight::MissingConfig);
    assert_eq!(doctor_profile_name("  A  "), "A");
    assert_eq!(doctor_profile_name(" "), "未命名供应商");
}

#[test]
fn open_external_url_rejects_non_http_urls() {
    let result = external_url_to_open("file:///C:/Windows/win.ini");

    assert!(result.unwrap_err().contains("只允许打开 http 或 https 链接"));
    assert_eq!(external_url_to_open("  https://example.com/a ").unwrap(), "https://example.com/a");
    assert_eq!(external_url_to_open("http://x").unwrap(), "http://x");
}

#[test]
fn doctor_reports_early_outcomes_and_sums_up() {
    let official = official_login_doctor_payload("A".to_string(), "m".to_string());
    assert_eq!(official.summary, "官方登录供应商无需 API 诊断。");
    assert_eq!(official.checks[0].status, "ok");
    let missing = missing_config_doctor_payload("A".to_string(), "m".to_string());
    assert_eq!(missing.checks[0].detail, "Base URL 或 API Key 为空。");
    let oauth = oauth_unavailable_doctor_payload("A".to_string(), "expired".to_string());
    assert_eq!(oauth.checks[0].title, "OAuth 凭据");
    assert_eq!(oauth.model, "");
    let config = config_ok_check("https://r/v1", RelayProtocol::ChatCompletions);
    assert_eq!(config.detail, "https://r/v1 / Chat Completions");
    let checks = vec![config, failed_doctor_check("models", "模型列表", "timeout".to_string()), check("request", "ok")];
    let (failed, report) = doctor_report("A".to_string(), "m".to_string(), checks);
    assert!(failed);
    assert_eq!(report.summary, "发现 1 项失败，Codex 可能无法使用该供应商。");
    assert!(report.recommendation.contains("/v1/models"));
    let (failed, report) = doctor_report("A".to_string(), "m".to_string(), vec![check("config", "ok")]);
    assert!(!failed);
    assert_eq!(report.summary, "供应商基础诊断通过。");
}

fn begin(profile: RelayProfile, profile_model: &str, default_test_model: &str) -> (DoctorState, DoctorAction) {
    doctor_step(
        doctor_start(),
        DoctorEvent::Begin {
            profile,
            profile_model: profile_model.to_string(),
            default_test_model: default_test_model.to_string(),
        },
    )
}

fn api_profile(base_url: &str, test_model: &str) -> RelayProfile {
    RelayProfile {
        id: "relay-a".to_string(),
        name: "Relay A".to_string(),
        relay_mode: RelayMode::PureApi,
        protocol: RelayProtocol::Responses,
        base_url: base_url.to_string(),
        upstream_base_url: base_url.to_string(),
        api_key: "sk-test".to_string(),
        test_model: test_model.to_string(),
        ..RelayProfile::default()
    }
}

#[test]
fn diagnose_relay_profile_skips_api_checks_for_official_login_without_embedded_oauth() {
    let profile = RelayProfile {
        id: "official".to_string(),
        name: "official".to_string(),
        relay_mode: RelayMode::Official,
        auth_contents: "{}".to_string(),
        ..RelayProfile::default()
    };

    let (state, action) = begin(profile, "", "");

    assert_eq!(state.stage, DoctorStage::Done);
    match action {
        DoctorAction::Finish { status, message, payload } => {
            assert_eq!(status, "ok");
            assert_eq!(payload.checks.len(), 1);
            assert_eq!(payload.checks[0].id, "config");
            assert_eq!(payload.checks[0].status, "ok");
            assert!(message.contains("无需 API 诊断"));
        }
        other => panic!("unexpected action {:?}", other),
    }
}

#[test]
fn diagnose_relay_profile_reports_model_and_request_checks() {
    let server_url = "http://127.0.0.1:39201";
    let (state, action) = begin(api_profile(server_url, "demo-model"), "", "");
    assert!(matches!(action, DoctorAction::FetchModels));
    assert_eq!(state.stage, DoctorStage::FetchingModels);
    let (state, action) = doctor_step(
        state,
        DoctorEvent::ModelsFetched {
            models: vec!["demo-model".to_string(), "fallback-model".to_string()],
            endpoint: format!("{server_url}/v1/models"),
        },
    );
    match &action {
        DoctorAction::SendRequest { model } => assert_eq!(model, "demo-model"),
        other => panic!("unexpected action {:?}", other),
    }
    let (state, action) = doctor_step(
        state,
        DoctorEvent::RequestAnswered {
            endpoint: format!("{server_url}/responses"),
            http_status: 200,
            preview: "relay ok".to_string(),
        },
    );
    assert_eq!(state.stage, DoctorStage::Done);
    match action {
        DoctorAction::Finish { status, message, payload } => {
            assert_eq!(status, "ok");
            assert!(payload.summary.contains("基础诊断通过"));
            assert!(payload.checks.iter().all(|check| check.status == "ok"));
            assert_eq!(payload.checks.len(), 3);
            assert_eq!(payload.profile_name, "Relay A");
            assert_eq!(payload.model, "demo-model");
            assert_eq!(message, "Provider Doctor：供应商基础诊断通过。");
            assert_eq!(payload.checks[0].detail, format!("{server_url} / Responses API"));
            assert_eq!(payload.checks[2].detail, format!("{server_url}/responses 返回 HTTP 200：relay ok"));
        }
        other => panic!("unexpected action {:?}", other),
    }
}

#[test]
fn doctor_picks_the_test_model_by_precedence() {
    let (state, _) = begin(api_profile("https://r/v1", "  own  "), "cfg-model", "default");
    assert_eq!(state.test_model, "own");
    let (state, _) = begin(api_profile("https://r/v1", " "), "cfg-model", "default");
    assert_eq!(state.test_model, "cfg-model");
    let (state, _) = begin(api_profile("https://r/v1", ""), "  ", " default ");
    assert_eq!(state.test_model, "default");
}

#[test]
fn doctor_fails_without_base_url_or_key() {
    let profile = RelayProfile { api_key: String::new(), ..api_profile("https://r/v1", "m") };
    let (state, action) = begin(profile, "", "");
    assert_eq!(state.stage, DoctorStage::Done);
    match action {
        DoctorAction::Finish { status, message, payload } => {
            assert_eq!(status, "failed");
            assert_eq!(message, "Provider Doctor：配置不完整。");
            assert_eq!(payload.checks.len(), 1);
            assert_eq!(payload.checks[0].detail, "Base URL 或 API Key 为空。");
        }
        other => panic!("unexpected action {:?}", other),
    }
}

#[test]
fn doctor_run_fails_when_a_check_failed_and_warnings_stay_ok() {
    let (state, _) = begin(api_profile("https://r/v1", "missing-model"), "", "");
    let (state, _) = doctor_step(
        state,
        DoctorEvent::ModelsFetched { models: vec!["other".to_string()], endpoint: "E".to_string() },
    );
    let (_, action) = doctor_step(
        state,
        DoctorEvent::RequestAnswered { endpoint: "R".to_string(), http_status: 200, preview: String::new() },
    );
    match action {
        DoctorAction::Finish { status, payload, .. } => {
            assert_eq!(status, "ok");
            assert_eq!(payload.checks[1].status, "warning");
            assert_eq!(payload.summary, "基础连接可用，但有 1 项需要确认。");
        }
        other => panic!("unexpected action {:?}", other),
    }

    let (state, _) = begin(api_profile("https://r/v1", "m"), "", "");
    let (state, _) = doctor_step(state, DoctorEvent::ModelsFailed { error: "timeout".to_string() });
    let (_, action) = doctor_step(state, DoctorEvent::RequestFailed { error: "refused".to_string() });
    match action {
        DoctorAction::Finish { status, message, payload } => {
            assert_eq!(status, "failed");
            assert_eq!(message, "Provider Doctor：发现 2 项失败，Codex 可能无法使用该供应商。");
            assert_eq!(payload.checks[1].detail, "timeout");
            assert_eq!(payload.checks[2].detail, "refused");
        }
        other => panic!("unexpected action {:?}", other),
    }
}

#[test]
fn doctor_ignores_events_out_of_order() {
    let (state, action) = doctor_step(doctor_start(), DoctorEvent::RequestFailed { error: "x".to_string() });
    assert!(matches!(action, DoctorAction::Ignore));
    assert_eq!(state.stage, DoctorStage::Start);
}

#[test]
fn doctor_prepares_oauth_logins_and_reports_unusable_credentials() {
    let profile = RelayProfile {
        name: "acct".to_string(),
        relay_mode: RelayMode::Official,
        auth_contents: r#"{"tokens":{"access_token":"abc","refresh_token":"r"}}"#.to_string(),
        ..RelayProfile::default()
    };
    let (state, action) = begin(profile, "", "gpt-5");
    assert!(matches!(action, DoctorAction::PrepareProfile));
    assert_eq!(state.stage, DoctorStage::Preparing);
    assert!(state.oauth);
    let (state, action) = doctor_step(state, DoctorEvent::PrepareFailed { error: "expired".to_string() });
    assert_eq!(state.stage, DoctorStage::Done);
    match action {
        DoctorAction::Finish { status, message, payload } => {
            assert_eq!(status, "failed");
            assert_eq!(message, "Provider Doctor：OAuth 凭据不可用：expired");
            assert_eq!(payload.model, "");
            assert_eq!(payload.checks[0].title, "OAuth 凭据");
        }
        other => panic!("unexpected action {:?}", other),
    }
}
