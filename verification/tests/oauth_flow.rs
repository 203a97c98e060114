use base64::Engine;
use codex_plus_core::codex_oauth::{CodexOAuthTokens, LoginState};
use codex_plus_core::oauth_flow::{
    build_authorization_url, callback_response, callback_step, current_pending_login, keep_refresh_token,
    new_login_session, oauth_profile_with_tokens, oauth_refresh_plan, pkce_challenge, request_target,
    store_refreshed_auth, token_exchange_form, token_refresh_form, CallbackStep, OAuthPrepareError, OAuthRefreshPlan,
    REDIRECT_URI,
};
use codex_plus_core::settings::{BackendSettings, RelayProfile};

#[test]
fn authorization_url_carries_the_pkce_challenge_and_state() {
    let url = build_authorization_url(REDIRECT_URI, "chal", "st-1").unwrap();
    assert_eq!(
        url,
        "https://auth.openai.com/oauth/authorize?response_type=code&client_id=app_EMoamEEZ73f0CkXaXp7hrann\
&redirect_uri=http%3A%2F%2Flocalhost%3A1455%2Fauth%2Fcallback&scope=openid+profile+email+offline_access\
&code_challenge=chal&code_challenge_method=S256&id_token_add_organizations=true\
&codex_cli_simplified_flow=true&state=st-1&originator=codex_vscode"
    );
}

#[test]
fn pkce_challenge_follows_rfc_7636() {
    assert_eq!(
        pkce_challenge("dBjftJeZ4CVP-mB92K27uhbUJU1p1r_wW1gFWFOEjXk"),
        "E9Melhoa2OwvFrEMTJguCHaoeK1t8URWbuGJSstw-cM"
    );
}

#[test]
fn token_forms_are_form_encoded() {
    assert_eq!(
        token_exchange_form("c d", "v/1"),
        "grant_type=authorization_code&code=c+d&redirect_uri=http%3A%2F%2Flocalhost%3A1455%2Fauth%2Fcallback\
&client_id=app_EMoamEEZ73f0CkXaXp7hrann&code_verifier=v%2F1"
    );
    assert_eq!(
        token_refresh_form("r&1"),
        "grant_type=refresh_token&refresh_token=r%261&client_id=app_EMoamEEZ73f0CkXaXp7hrann"
    );
}

#[test]
fn refresh_keeps_the_old_refresh_token_when_none_is_sent() {
    let mut tokens = CodexOAuthTokens {
        id_token: "i".to_string(),
        access_token: "a".to_string(),
        refresh_token: None,
        account_id: None,
    };
    keep_refresh_token(&mut tokens, "old");
    assert_eq!(tokens.refresh_token.as_deref(), Some("old"));
    keep_refresh_token(&mut tokens, "other");
    assert_eq!(tokens.refresh_token.as_deref(), Some("old"));
}

#[test]
fn new_login_expires_after_five_minutes() {
    let s = new_login_session("L".to_string(), "U".to_string(), 1_000);
    assert_eq!(s.expires_at, 1_300);
    assert!(matches!(s.status, LoginState::Pending));
    assert_eq!(new_login_session("L".to_string(), "U".to_string(), u64::MAX).expires_at, u64::MAX);
}

#[test]
fn request_target_is_the_second_word_of_the_first_line() {
    assert_eq!(request_target("GET  /auth/callback?code=1  HTTP/1.1\r\nHost: x\r\n\r\n"), "/auth/callback?code=1");
    assert_eq!(request_target("GET\r\n"), "/");
    assert_eq!(request_target(""), "/");
    assert_eq!(request_target("\nGET /x HTTP/1.1"), "/");
}

#[test]
fn callback_requests_are_answered_or_end_the_login() {
    let ok = callback_step("GET /auth/callback?state=s1&code=%20abc%20 HTTP/1.1\r\n\r\n", "s1");
    assert_eq!(ok, CallbackStep::Exchange { code: "abc".to_string() });
    let other = callback_step("GET /favicon.ico HTTP/1.1\r\n\r\n", "s1");
    assert_eq!(other, CallbackStep::Reply { status: 404, message: "等待 Codex OAuth 授权".to_string() });
    let denied = callback_step("GET /auth/callback?error=access_denied&state=s1 HTTP/1.1\r\n", "s1");
    assert_eq!(
        denied,
        CallbackStep::Fail {
            reply: Some((400, "Codex OAuth 授权未完成".to_string())),
            error: "OAuth 授权失败：access_denied".to_string()
        }
    );
    let forged = callback_step("GET /auth/callback?state=s2&code=abc HTTP/1.1\r\n", "s1");
    assert_eq!(
        forged,
        CallbackStep::Fail { reply: Some((400, "OAuth state 校验失败".to_string())), error: "OAuth state 校验失败".to_string() }
    );
    let no_code = callback_step("GET /auth/callback?state=s1&code= HTTP/1.1\r\n", "s1");
    assert_eq!(no_code, CallbackStep::Fail { reply: None, error: "OAuth 回调缺少 code".to_string() });
    let bad = callback_step("GET http://[ HTTP/1.1\r\n", "s1");
    assert_eq!(bad, CallbackStep::Reply { status: 400, message: "授权回调地址无效".to_string() });
    let later_wins = callback_step("GET /auth/callback?state=x&state=s1&code=c HTTP/1.1\r\n", "s1");
    assert_eq!(later_wins, CallbackStep::Exchange { code: "c".to_string() });
}

#[test]
fn callback_response_counts_body_bytes() {
    let body = "<!doctype html><html lang=\"zh-CN\"><meta charset=\"utf-8\"><title>Codex Deck</title><body><h1>完成</h1></body></html>";
    assert_eq!(
        callback_response(200, "完成"),
        format!(
            "HTTP/1.1 200 OK\r\nContent-Type: text/html; charset=utf-8\r\nContent-Length: {}\r\nConnection: close\r\n\r\n{body}",
            body.len()
        )
    );
    assert!(callback_response(404, "x").starts_with("HTTP/1.1 404 Error\r\n"));
}

fn auth(access: &str, refresh: Option<&str>) -> String {
    match refresh {
        Some(r) => format!(r#"{{"tokens":{{"access_token":"{access}","refresh_token":"{r}","id_token":"id-1"}}}}"#),
        None => format!(r#"{{"tokens":{{"access_token":"{access}"}}}}"#),
    }
}

fn jwt_with_exp(exp: u64) -> String {
    let payload = base64::engine::general_purpose::URL_SAFE_NO_PAD.encode(format!(r#"{{"exp":{exp}}}"#));
    format!("h.{payload}.s")
}

#[test]
fn refresh_plan_uses_current_tokens_until_they_are_due() {
    let fresh = auth(&jwt_with_exp(10_000), Some("r-1"));
    assert!(matches!(oauth_refresh_plan(&fresh, false, 1_000).unwrap(), OAuthRefreshPlan::UseCurrent(_)));
    match oauth_refresh_plan(&fresh, true, 1_000).unwrap() {
        OAuthRefreshPlan::Refresh { refresh_token, id_token } => {
            assert_eq!(refresh_token, "r-1");
            assert_eq!(id_token, "id-1");
        }
        other => panic!("unexpected {other:?}"),
    }
    let due_without_refresh = auth(&jwt_with_exp(10_000), None);
    assert_eq!(oauth_refresh_plan(&due_without_refresh, false, 9_900).unwrap_err(), OAuthPrepareError::MissingRefreshToken);
    assert_eq!(oauth_refresh_plan("{}", false, 0).unwrap_err(), OAuthPrepareError::MissingAccessToken);
    assert_eq!(OAuthPrepareError::MissingAccessToken.message(), "OAuth 供应商缺少 access_token");
}

#[test]
fn prepared_oauth_profile_talks_to_the_codex_backend() {
    let tokens = CodexOAuthTokens {
        id_token: "i".to_string(),
        access_token: "acc".to_string(),
        refresh_token: Some("r".to_string()),
        account_id: Some("acct".to_string()),
    };
    let profile = RelayProfile { id: "p".to_string(), auth_contents: "{\"keep\":1}".to_string(), ..RelayProfile::default() };
    let kept = oauth_profile_with_tokens(profile.clone(), &tokens, false);
    assert_eq!(kept.base_url, "https://chatgpt.com/backend-api/codex");
    assert_eq!(kept.api_key, "acc");
    assert_eq!(kept.auth_contents, "{\"keep\":1}");
    let refreshed = oauth_profile_with_tokens(profile, &tokens, true);
    let doc: serde_json::Value = serde_json::from_str(&refreshed.auth_contents).unwrap();
    assert_eq!(doc["keep"], 1);
    assert_eq!(doc["tokens"]["access_token"], "acc");
}

#[test]
fn pending_login_and_refreshed_auth_storage() {
    let session = Some(new_login_session("L".to_string(), "U".to_string(), 100));
    assert_eq!(current_pending_login(&session, 399).unwrap().login_id, "L");
    assert!(current_pending_login(&session, 400).is_none());
    assert!(current_pending_login(&None, 0).is_none());
    let mut settings = BackendSettings {
        relay_profiles: vec![
            RelayProfile { id: "a".to_string(), name: "A".to_string(), ..RelayProfile::default() },
            RelayProfile { id: "b".to_string(), auth_contents: "old".to_string(), ..RelayProfile::default() },
        ],
        ..BackendSettings::default()
    };
    let refreshed = RelayProfile { id: "b".to_string(), auth_contents: "new".to_string(), ..RelayProfile::default() };
    assert!(store_refreshed_auth(&mut settings, &refreshed));
    assert_eq!(settings.relay_profiles[1].auth_contents, "new");
    assert_eq!(settings.relay_profiles[0].name, "A");
    let missing = RelayProfile { id: "zz".to_string(), ..RelayProfile::default() };
    assert!(!store_refreshed_auth(&mut settings, &missing));
}
