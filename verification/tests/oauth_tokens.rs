use base64::engine::general_purpose::URL_SAFE_NO_PAD;
use base64::Engine;
use codex_plus_core::codex_oauth::{token_needs_refresh, tokens_from_token_response, TokenResponseError};

fn jwt(payload_json: &str) -> String {
    format!("h.{}.s", URL_SAFE_NO_PAD.encode(payload_json.as_bytes()))
}

#[test]
fn token_response_keeps_the_current_id_token_when_none_is_sent() {
    let access = jwt(r#"{"https://api.openai.com/auth":{"chatgpt_account_id":"acct-1"}}"#);
    let body = format!(r#"{{"access_token":"{access}","refresh_token":"r-1"}}"#);
    let tokens = tokens_from_token_response(true, body.as_bytes(), Some("old-id")).unwrap();
    assert_eq!(tokens.access_token, access);
    assert_eq!(tokens.id_token, "old-id");
    assert_eq!(tokens.refresh_token.as_deref(), Some("r-1"));
    assert_eq!(tokens.account_id.as_deref(), Some("acct-1"));

    let with_id = format!(r#"{{"access_token":"{access}","id_token":"new-id"}}"#);
    let tokens = tokens_from_token_response(true, with_id.as_bytes(), Some("old-id")).unwrap();
    assert_eq!(tokens.id_token, "new-id");
    assert_eq!(tokens.refresh_token, None);
    let tokens = tokens_from_token_response(true, br#"{"access_token":"plain"}"#, None).unwrap();
    assert_eq!(tokens.id_token, "");
    assert_eq!(tokens.account_id, None);
}

#[test]
fn token_response_errors() {
    assert_eq!(tokens_from_token_response(false, b"oops", None).unwrap_err(), TokenResponseError::HttpFailure(4));
    assert_eq!(tokens_from_token_response(true, b"<html>", None).unwrap_err(), TokenResponseError::NotJson);
    assert_eq!(
        tokens_from_token_response(true, br#"{"access_token":"  "}"#, None).unwrap_err(),
        TokenResponseError::MissingAccessToken
    );
}

#[test]
fn tokens_are_refreshed_within_five_minutes_of_expiry() {
    let token = jwt(r#"{"exp":10000}"#);
    assert!(!token_needs_refresh(&token, 9_699));
    assert!(token_needs_refresh(&token, 9_700));
    assert!(token_needs_refresh(&token, 20_000));
    assert!(token_needs_refresh(&token, u64::MAX));
    assert!(!token_needs_refresh(&jwt(r#"{"sub":"x"}"#), 20_000));
    assert!(!token_needs_refresh("not-a-jwt", 20_000));
}
