use base64::engine::general_purpose::URL_SAFE_NO_PAD;
use base64::Engine;
use codex_plus_core::codex_oauth::{
    account_label_from_tokens, auth_contents_with_tokens, CodexOAuthTokens, chatgpt_account_id_from_access_token, is_oauth_profile, oauth_profile_from_auth,
    oauth_profile_identity, tokens_from_auth_contents, unique_profile_id, OAuthImportError,
};
use codex_plus_core::settings::{RelayMode, RelayProfile};

fn jwt(payload_json: &str) -> String {
    format!("header.{}.signature", URL_SAFE_NO_PAD.encode(payload_json.as_bytes()))
}

fn auth_json(access: &str, id: &str, refresh: &str) -> String {
    format!(
        r#"{{"auth_mode":"chatgpt","tokens":{{"access_token":"{access}","id_token":"{id}","refresh_token":"{refresh}"}}}}"#
    )
}

#[test]
fn parses_codex_auth_and_account_identity() {
    let access = jwt(r#"{"https://api.openai.com/auth":{"chatgpt_account_id":"acct-1"}}"#);
    let id = jwt(r#"{"email":"user@example.com"}"#);
    let auth = auth_json(&access, &id, "refresh-1");

    let tokens = tokens_from_auth_contents(&auth).unwrap();

    assert_eq!(tokens.account_id.as_deref(), Some("acct-1"));
    assert_eq!(account_label_from_tokens(&tokens).as_deref(), Some("user@example.com"));
}

#[test]
fn oauth_profile_uses_stable_non_secret_identity() {
    let access = jwt(r#"{"https://api.openai.com/auth":{"chatgpt_account_id":"acct-stable"}}"#);
    let id = jwt(r#"{"email":"stable@example.com"}"#);
    let auth = auth_json(&access, &id, "refresh");

    let profile = oauth_profile_from_auth(String::new(), auth, &[]).unwrap();

    assert!(profile.id.starts_with("oauth-"));
    assert_eq!(profile.name, "stable@example.com");
    assert_eq!(profile.relay_mode, RelayMode::Official);
    assert!(is_oauth_profile(&profile));
}

#[test]
fn oauth_profile_id_is_the_account_digest_and_stays_unique() {
    let access = jwt(r#"{"https://api.openai.com/auth":{"chatgpt_account_id":"abc"}}"#);
    let auth = auth_json(&access, "", "refresh");

    let first = oauth_profile_from_auth(String::new(), auth.clone(), &[]).unwrap();
    assert_eq!(first.id, "oauth-ba7816bf8f01");
    assert_eq!(first.name, "Codex OAuth");

    let taken = vec!["oauth-ba7816bf8f01".to_string(), "oauth-ba7816bf8f01-2".to_string()];
    let second = oauth_profile_from_auth("model = \"x\"".to_string(), auth, &taken).unwrap();
    assert_eq!(second.id, "oauth-ba7816bf8f01-3");
    assert_eq!(second.config_contents, "model = \"x\"");
}

#[test]
fn auth_without_access_token_is_refused() {
    let error = oauth_profile_from_auth(String::new(), r#"{"tokens":{"id_token":"x"}}"#.to_string(), &[]).unwrap_err();
    assert_eq!(error, OAuthImportError::NoTokens);
    assert!(error.message().contains("OAuth Token"));
    assert!(tokens_from_auth_contents("not json").is_none());
}

#[test]
fn tokens_are_read_from_the_root_and_camel_case_keys() {
    let tokens = tokens_from_auth_contents(r#"{"accessToken":"  tok  ","accountId":"acct-9"}"#).unwrap();
    assert_eq!(tokens.access_token, "tok");
    assert_eq!(tokens.id_token, "");
    assert_eq!(tokens.refresh_token, None);
    assert_eq!(tokens.account_id.as_deref(), Some("acct-9"));
}

#[test]
fn account_id_comes_from_the_access_token_claims() {
    let access = jwt(r#"{"https://api.openai.com/auth":{"account_id":"acct-2"}}"#);
    assert_eq!(chatgpt_account_id_from_access_token(&access).as_deref(), Some("acct-2"));
    assert_eq!(chatgpt_account_id_from_access_token("no-dots"), None);
}

#[test]
fn identity_prefers_account_then_label() {
    let id = jwt(r#"{"email":"who@example.com"}"#);
    let profile = RelayProfile {
        relay_mode: RelayMode::Official,
        auth_contents: format!(r#"{{"tokens":{{"access_token":"plain","id_token":"{id}"}}}}"#),
        ..RelayProfile::default()
    };
    assert_eq!(oauth_profile_identity(&profile).as_deref(), Some("who@example.com"));
    assert!(is_oauth_profile(&profile));
    let mixed = RelayProfile { official_mix_api_key: true, ..profile.clone() };
    assert!(!is_oauth_profile(&mixed));
}

#[test]
fn unique_ids_count_up_from_two() {
    assert_eq!(unique_profile_id("p", &[]), "p");
    assert_eq!(unique_profile_id("p", &["p".to_string()]), "p-2");
    assert_eq!(unique_profile_id("p", &["p".to_string(), "p-2".to_string(), "p-4".to_string()]), "p-3");
}

#[test]
fn auth_update_preserves_unrelated_fields() {
    let tokens = CodexOAuthTokens {
        id_token: "id-new".to_string(),
        access_token: "access-new".to_string(),
        refresh_token: Some("refresh-new".to_string()),
        account_id: Some("acct-new".to_string()),
    };

    let updated = auth_contents_with_tokens(r#"{"custom":true}"#, &tokens);
    let value: serde_json::Value = serde_json::from_str(&updated).unwrap();

    assert_eq!(value["custom"], true);
    assert_eq!(value["auth_mode"], "chatgpt");
    assert_eq!(value["tokens"]["access_token"], "access-new");
}

#[test]
fn auth_update_replaces_old_tokens_and_key() {
    let tokens = CodexOAuthTokens {
        id_token: String::new(),
        access_token: "a2".to_string(),
        refresh_token: None,
        account_id: None,
    };
    let updated = auth_contents_with_tokens(r#"{"OPENAI_API_KEY":"sk-old","tokens":{"access_token":"a1"}}"#, &tokens);
    assert!(updated.ends_with('\n'));
    let value: serde_json::Value = serde_json::from_str(&updated).unwrap();
    assert!(value["OPENAI_API_KEY"].is_null());
    assert_eq!(value["tokens"]["access_token"], "a2");
    assert!(value["tokens"]["refresh_token"].is_null());
    assert_eq!(tokens_from_auth_contents(&updated).unwrap().access_token, "a2");

    let from_nothing = auth_contents_with_tokens("not json", &tokens);
    let value: serde_json::Value = serde_json::from_str(&from_nothing).unwrap();
    assert_eq!(value.as_object().unwrap().len(), 3);
}

#[test]
fn tokens_written_to_auth_json_are_read_back() {
    let tokens = CodexOAuthTokens {
        id_token: "id-1".to_string(),
        access_token: "access-1".to_string(),
        refresh_token: Some("refresh-1".to_string()),
        account_id: Some("acct-1".to_string()),
    };
    let written = auth_contents_with_tokens(r#"{"custom":{"nested":[1,2]},"OPENAI_API_KEY":"sk-x"}"#, &tokens);
    let read = tokens_from_auth_contents(&written).unwrap();
    assert_eq!(read.id_token, "id-1");
    assert_eq!(read.access_token, "access-1");
    assert_eq!(read.refresh_token.as_deref(), Some("refresh-1"));
    assert_eq!(read.account_id.as_deref(), Some("acct-1"));
}
