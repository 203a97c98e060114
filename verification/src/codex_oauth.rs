//! Codex OAuth credentials: reading tokens out of `auth.json`, the account
//! they belong to, and the state of a browser login.
use base64::Engine;
use vstd::prelude::*;
use vstd::utf8::encode_utf8;

use crate::json::{
    members_get, JsonMember,
    json_get, json_get_exec, json_parse, json_parse_bytes, json_string, json_string_spec, parse_json,
    parse_json_bytes, JsonValue,
};
use crate::settings::{RelayMode, RelayProfile};
use crate::text::{split_any, split_by, starts_with, str_chars, string_from};

verus! {

/// What the `base64` URL-safe engine without padding decodes `bytes` to.
pub uninterp spec fn base64_url_nopad_decode(bytes: Seq<u8>) -> Option<Seq<u8>>;

/// What the `base64` URL-safe engine with padding decodes `bytes` to.
pub uninterp spec fn base64_url_pad_decode(bytes: Seq<u8>) -> Option<Seq<u8>>;

/// `base64::engine::general_purpose::URL_SAFE_NO_PAD.decode`: the decoded bytes,
/// or `None` where the input is not valid for that engine.
#[verifier::external_body]
fn decode_url_safe_no_pad(bytes: &[u8]) -> (r: Option<Vec<u8>>)
    ensures
        match r {
            Some(v) => base64_url_nopad_decode(bytes@) == Some(v@),
            None => base64_url_nopad_decode(bytes@) is None,
        },
{
    base64::engine::general_purpose::URL_SAFE_NO_PAD.decode(bytes).ok()
}

/// `base64::engine::general_purpose::URL_SAFE.decode`: the decoded bytes, or
/// `None` where the input is not valid for that engine.
#[verifier::external_body]
fn decode_url_safe(bytes: &[u8]) -> (r: Option<Vec<u8>>)
    ensures
        match r {
            Some(v) => base64_url_pad_decode(bytes@) == Some(v@),
            None => base64_url_pad_decode(bytes@) is None,
        },
{
    base64::engine::general_purpose::URL_SAFE.decode(bytes).ok()
}

/// The tokens of a Codex OAuth login.
#[derive(Debug, Clone)]
pub struct CodexOAuthTokens {
    pub id_token: String,
    pub access_token: String,
    pub refresh_token: Option<String>,
    pub account_id: Option<String>,
}

/// The tokens, as character sequences.
pub struct TokensView {
    pub id_token: Seq<char>,
    pub access_token: Seq<char>,
    pub refresh_token: Option<Seq<char>>,
    pub account_id: Option<Seq<char>>,
}

pub open spec fn opt_view(s: Option<String>) -> Option<Seq<char>> {
    match s {
        Some(x) => Some(x@),
        None => None,
    }
}

impl View for CodexOAuthTokens {
    type V = TokensView;

    open spec fn view(&self) -> TokensView {
        TokensView {
            id_token: self.id_token@,
            access_token: self.access_token@,
            refresh_token: opt_view(self.refresh_token),
            account_id: opt_view(self.account_id),
        }
    }
}

/// A login that was started: its id and the URL the browser opens.
#[derive(Debug, Clone)]
pub struct OAuthLoginStart {
    pub login_id: String,
    pub auth_url: String,
}

/// What polling a login answers.
#[derive(Debug, Clone)]
pub enum OAuthLoginPoll {
    Pending,
    Completed(CodexOAuthTokens),
    Failed(String),
}

/// Where a login stands.
#[derive(Debug, Clone)]
pub enum LoginState {
    Pending,
    Completed(CodexOAuthTokens),
    Failed(String),
}

/// The one login that is in progress.
#[derive(Debug, Clone)]
pub struct OAuthSession {
    pub login_id: String,
    pub auth_url: String,
    pub expires_at: u64,
    pub status: LoginState,
}

/// The second `.`-separated segment of a JWT.
pub open spec fn jwt_segment(token: Seq<char>) -> Option<Seq<char>> {
    let pieces = split_by(token, |c: char| seq!['.'].contains(c));
    if pieces.len() >= 2 {
        Some(pieces[1])
    } else {
        None
    }
}

/// The JSON payload of a JWT: its second segment, base64url-decoded (without
/// padding, else with), read as JSON.
pub open spec fn jwt_payload_spec(token: Seq<char>) -> Option<JsonValue> {
    match jwt_segment(token) {
        None => None,
        Some(seg) => match base64_url_nopad_decode(encode_utf8(seg)) {
            Some(d) => json_parse_bytes(d),
            None => match base64_url_pad_decode(encode_utf8(seg)) {
                Some(d) => json_parse_bytes(d),
                None => None,
            },
        },
    }
}

/// The payload of a JWT, when it has one that decodes to JSON.
fn jwt_payload(token: &str) -> (r: Option<JsonValue>)
    ensures
        r == jwt_payload_spec(token@),
{
    let chars = str_chars(token);
    let seps = vec!['.'];
    let pieces = split_any(chars.as_slice(), seps.as_slice());
    assert(seps@ =~= seq!['.']);
    if pieces.len() < 2 {
        return None;
    }
    let seg = string_from(pieces[1].as_slice());
    let bytes = seg.as_str().as_bytes();
    match decode_url_safe_no_pad(bytes) {
        Some(decoded) => parse_json_bytes(decoded.as_slice()),
        None => match decode_url_safe(bytes) {
            Some(decoded) => parse_json_bytes(decoded.as_slice()),
            None => None,
        },
    }
}

pub open spec fn claim_keys_account() -> Seq<Seq<char>> {
    seq!["chatgpt_account_id"@, "account_id"@]
}

/// The ChatGPT account id claimed in an access token.
pub open spec fn account_id_from_access_token(token: Seq<char>) -> Option<Seq<char>> {
    match jwt_payload_spec(token) {
        Some(payload) => match json_get(payload, "https://api.openai.com/auth"@) {
            Some(auth) => json_string_spec(auth, claim_keys_account()),
            None => None,
        },
        None => None,
    }
}

/// The ChatGPT account id that an access token claims under
/// `https://api.openai.com/auth`.
pub fn chatgpt_account_id_from_access_token(access_token: &str) -> (r: Option<String>)
    ensures
        opt_view(r) == account_id_from_access_token(access_token@),
{
    let payload = jwt_payload(access_token);
    match payload {
        Some(p) => match json_get_exec(&p, "https://api.openai.com/auth") {
            Some(auth) => {
                let keys = ["chatgpt_account_id", "account_id"];
                let r = json_string(auth, &keys);
                assert(keys@.map_values(|k: &str| k@) =~= claim_keys_account());
                r
            },
            None => None,
        },
        None => None,
    }
}


pub open spec fn keys_access() -> Seq<Seq<char>> {
    seq!["access_token"@, "accessToken"@]
}

pub open spec fn keys_id() -> Seq<Seq<char>> {
    seq!["id_token"@, "idToken"@]
}

pub open spec fn keys_refresh() -> Seq<Seq<char>> {
    seq!["refresh_token"@, "refreshToken"@]
}

pub open spec fn keys_account() -> Seq<Seq<char>> {
    seq!["account_id"@, "accountId"@]
}

/// The object that holds the tokens: `tokens` when present, else the root.
pub open spec fn token_holder(root: JsonValue) -> JsonValue {
    match json_get(root, "tokens"@) {
        Some(t) => t,
        None => root,
    }
}

/// The tokens that `auth.json` contents hold: an access token is required;
/// the id token defaults to empty; the account id falls back to the claim in
/// the access token.
pub open spec fn tokens_from_auth_spec(contents: Seq<char>) -> Option<TokensView> {
    match json_parse(contents) {
        None => None,
        Some(root) => {
            let t = token_holder(root);
            match json_string_spec(t, keys_access()) {
                None => None,
                Some(access) => Some(
                    TokensView {
                        id_token: match json_string_spec(t, keys_id()) {
                            Some(x) => x,
                            None => Seq::empty(),
                        },
                        access_token: access,
                        refresh_token: json_string_spec(t, keys_refresh()),
                        account_id: match json_string_spec(t, keys_account()) {
                            Some(x) => Some(x),
                            None => account_id_from_access_token(access),
                        },
                    },
                ),
            }
        },
    }
}

/// The tokens of an `auth.json` document, when it holds an access token.
pub fn tokens_from_auth_contents(contents: &str) -> (r: Option<CodexOAuthTokens>)
    ensures
        match r {
            Some(t) => tokens_from_auth_spec(contents@) == Some(t@),
            None => tokens_from_auth_spec(contents@) is None,
        },
{
    let root = match parse_json(contents) {
        Some(v) => v,
        None => return None,
    };
    let holder = match json_get_exec(&root, "tokens") {
        Some(t) => t,
        None => &root,
    };
    let ka = ["access_token", "accessToken"];
    let ki = ["id_token", "idToken"];
    let kr = ["refresh_token", "refreshToken"];
    let kc = ["account_id", "accountId"];
    assert(ka@.map_values(|k: &str| k@) =~= keys_access());
    assert(ki@.map_values(|k: &str| k@) =~= keys_id());
    assert(kr@.map_values(|k: &str| k@) =~= keys_refresh());
    assert(kc@.map_values(|k: &str| k@) =~= keys_account());
    let access_token = match json_string(holder, &ka) {
        Some(a) => a,
        None => return None,
    };
    let id_token = match json_string(holder, &ki) {
        Some(x) => x,
        None => String::new(),
    };
    let refresh_token = json_string(holder, &kr);
    let account_id = match json_string(holder, &kc) {
        Some(x) => Some(x),
        None => chatgpt_account_id_from_access_token(access_token.as_str()),
    };
    let t = CodexOAuthTokens { id_token, access_token, refresh_token, account_id };
    assert(t@ == tokens_from_auth_spec(contents@).unwrap());
    Some(t)
}

/// A provider that logs in with Codex OAuth: official mode without a mixed-in
/// API key, whose `auth.json` holds an access token.
pub open spec fn is_oauth_profile_spec(profile: RelayProfile) -> bool {
    profile.relay_mode == RelayMode::Official && !profile.official_mix_api_key
        && tokens_from_auth_spec(profile.auth_contents@) is Some
}

/// Whether `profile` logs in with Codex OAuth.
pub fn is_oauth_profile(profile: &RelayProfile) -> (r: bool)
    ensures
        r == is_oauth_profile_spec(*profile),
{
    profile.relay_mode == RelayMode::Official && !profile.official_mix_api_key
        && tokens_from_auth_contents(profile.auth_contents.as_str()).is_some()
}

pub open spec fn keys_label() -> Seq<Seq<char>> {
    seq!["email"@, "preferred_username"@, "name"@]
}

/// The account label in one token: its payload's e-mail, user name or name.
pub open spec fn label_from_token(token: Seq<char>) -> Option<Seq<char>> {
    if crate::text::trim(token).len() == 0 {
        None
    } else {
        match jwt_payload_spec(token) {
            Some(p) => json_string_spec(p, keys_label()),
            None => None,
        }
    }
}

/// The account label of a login: from the id token, else from the access token.
pub open spec fn account_label_spec(t: TokensView) -> Option<Seq<char>> {
    match label_from_token(t.id_token) {
        Some(l) => Some(l),
        None => label_from_token(t.access_token),
    }
}

fn label_from_token_exec(token: &str) -> (r: Option<String>)
    ensures
        opt_view(r) == label_from_token(token@),
{
    if crate::text::is_blank(token) {
        return None;
    }
    match jwt_payload(token) {
        Some(p) => {
            let keys = ["email", "preferred_username", "name"];
            assert(keys@.map_values(|k: &str| k@) =~= keys_label());
            json_string(&p, &keys)
        },
        None => None,
    }
}

/// The account label (e-mail or user name) that the tokens carry.
pub fn account_label_from_tokens(tokens: &CodexOAuthTokens) -> (r: Option<String>)
    ensures
        opt_view(r) == account_label_spec(tokens@),
{
    match label_from_token_exec(tokens.id_token.as_str()) {
        Some(l) => Some(l),
        None => label_from_token_exec(tokens.access_token.as_str()),
    }
}

/// The stable identity of an OAuth provider: its account id, else its label.
pub open spec fn oauth_identity_spec(profile: RelayProfile) -> Option<Seq<char>> {
    match tokens_from_auth_spec(profile.auth_contents@) {
        None => None,
        Some(t) => match t.account_id {
            Some(a) => Some(a),
            None => account_label_spec(t),
        },
    }
}

/// The account that an OAuth provider belongs to, which stays the same when
/// its tokens are refreshed.
pub fn oauth_profile_identity(profile: &RelayProfile) -> (r: Option<String>)
    ensures
        opt_view(r) == oauth_identity_spec(*profile),
{
    let tokens = match tokens_from_auth_contents(profile.auth_contents.as_str()) {
        Some(t) => t,
        None => return None,
    };
    match tokens.account_id {
        Some(a) => Some(a),
        None => account_label_from_tokens(&tokens),
    }
}

} // verus!

verus! {

/// A copy of an optional string.
fn copy_opt(s: &Option<String>) -> (r: Option<String>)
    ensures
        opt_view(r) == opt_view(*s),
{
    match s {
        Some(x) => Some(x.clone()),
        None => None,
    }
}

impl CodexOAuthTokens {
    /// A field-by-field copy.
    pub fn duplicate(&self) -> (r: CodexOAuthTokens)
        ensures
            r@ == self@,
    {
        CodexOAuthTokens {
            id_token: self.id_token.clone(),
            access_token: self.access_token.clone(),
            refresh_token: copy_opt(&self.refresh_token),
            account_id: copy_opt(&self.account_id),
        }
    }
}

/// The answer to polling login `login_id` at time `now` (seconds since the
/// Unix epoch): no such login, timed out, or where the login stands.
pub open spec fn poll_matches(session: Option<OAuthSession>, login_id: Seq<char>, now: int, r: OAuthLoginPoll) -> bool {
    match session {
        Some(s) if s.login_id@ == login_id => if s.expires_at <= now && s.status is Pending {
            r matches OAuthLoginPoll::Failed(m) && m@ == "OAuth 登录已超时，请重新发起"@
        } else {
            match s.status {
                LoginState::Pending => r is Pending,
                LoginState::Completed(t) => r matches OAuthLoginPoll::Completed(u) && u@ == t@,
                LoginState::Failed(e) => r matches OAuthLoginPoll::Failed(m) && m@ == e@,
            }
        },
        _ => r matches OAuthLoginPoll::Failed(m) && m@ == "OAuth 登录会话不存在或已经结束"@,
    }
}

/// Where login `login_id` stands, given the login in progress and the time
/// `now` in seconds since the Unix epoch.
pub fn poll_oauth_login(session: &Option<OAuthSession>, login_id: &str, now: u64) -> (r: OAuthLoginPoll)
    ensures
        poll_matches(*session, login_id@, now as int, r),
{
    let s = match session {
        Some(s) => s,
        None => return OAuthLoginPoll::Failed(crate::text::owned("OAuth 登录会话不存在或已经结束")),
    };
    if !crate::text::str_eq(s.login_id.as_str(), login_id) {
        return OAuthLoginPoll::Failed(crate::text::owned("OAuth 登录会话不存在或已经结束"));
    }
    let pending = match &s.status {
        LoginState::Pending => true,
        _ => false,
    };
    if s.expires_at <= now && pending {
        return OAuthLoginPoll::Failed(crate::text::owned("OAuth 登录已超时，请重新发起"));
    }
    match &s.status {
        LoginState::Pending => OAuthLoginPoll::Pending,
        LoginState::Completed(tokens) => OAuthLoginPoll::Completed(tokens.duplicate()),
        LoginState::Failed(error) => OAuthLoginPoll::Failed(error.clone()),
    }
}

/// Ends login `login_id` if it is the one in progress.
pub fn clear_oauth_login(session: &mut Option<OAuthSession>, login_id: &str)
    ensures
        match *old(session) {
            Some(s) => if s.login_id@ == login_id@ {
                *final(session) is None
            } else {
                *final(session) == *old(session)
            },
            None => *final(session) is None,
        },
{
    let matches = match session {
        Some(s) => crate::text::str_eq(s.login_id.as_str(), login_id),
        None => false,
    };
    if matches {
        *session = None;
    }
}

} // verus!

verus! {

/// `base` numbered `k`: `base-k`.
pub open spec fn numbered_id(base: Seq<char>, k: nat) -> Seq<char> {
    base + seq!['-'] + crate::text::decimal(k)
}

/// What a free id for a new provider is, given the ids in use: `base` when it
/// is free; else `base-k` for the least `k` from 2 whose id is free, where one
/// of `2..=n+2` is (`n` ids in use); else `base-` followed by other text.
pub open spec fn unique_id_ok(base: Seq<char>, ids: Seq<Seq<char>>, r: Seq<char>) -> bool {
    if !ids.contains(base) {
        r == base
    } else if exists|k: nat| 2 <= k <= ids.len() + 2 && !ids.contains(#[trigger] numbered_id(base, k)) {
        exists|k: nat|
            2 <= k <= ids.len() + 2 && r == #[trigger] numbered_id(base, k) && !ids.contains(r) && forall|j: nat|
                2 <= j < k ==> ids.contains(#[trigger] numbered_id(base, j))
    } else {
        starts_with(r, base + seq!['-'])
    }
}

/// Whether `id` is among `ids`.
fn id_in(ids: &[String], id: &str) -> (r: bool)
    ensures
        r == ids@.map_values(|s: String| s@).contains(id@),
{
    let ghost v = ids@.map_values(|s: String| s@);
    let mut i: usize = 0;
    while i < ids.len()
        invariant
            i <= ids@.len(),
            v == ids@.map_values(|s: String| s@),
            forall|j: int| 0 <= j < i ==> v[j] != id@,
        decreases ids@.len() - i,
    {
        if crate::text::str_eq(ids[i].as_str(), id) {
            assert(v[i as int] == id@);
            return true;
        }
        i = i + 1;
    }
    false
}

/// An id for a new provider that no provider in `existing_ids` has.
pub fn unique_profile_id(base_id: &str, existing_ids: &[String]) -> (r: String)
    requires
        existing_ids@.len() < usize::MAX - 3,
    ensures
        unique_id_ok(base_id@, existing_ids@.map_values(|s: String| s@), r@),
{
    let ghost ids = existing_ids@.map_values(|s: String| s@);
    if !id_in(existing_ids, base_id) {
        return crate::text::owned(base_id);
    }
    let n = existing_ids.len();
    let mut k: usize = 2;
    while k <= n + 2
        invariant
            2 <= k <= n + 3,
            n == ids.len(),
            n < usize::MAX - 3,
            ids == existing_ids@.map_values(|s: String| s@),
            ids.contains(base_id@),
            forall|j: nat| 2 <= j < k ==> ids.contains(#[trigger] numbered_id(base_id@, j)),
        decreases n + 3 - k,
    {
        let candidate = crate::text::concat3(base_id, "-", crate::text::decimal_string(k as u64).as_str());
        proof {
            reveal_strlit("-");
        }
        assert(candidate@ == numbered_id(base_id@, k as nat));
        if !id_in(existing_ids, candidate.as_str()) {
            assert(2 <= k <= ids.len() + 2 && !ids.contains(numbered_id(base_id@, k as nat)));
            return candidate;
        }
        k = k + 1;
    }
    let tail = crate::local_relay::random_uuid_simple();
    let r = crate::text::concat3(base_id, "-", tail.as_str());
    proof {
        reveal_strlit("-");
        assert forall|k: nat| 2 <= k <= ids.len() + 2 implies ids.contains(#[trigger] numbered_id(base_id@, k)) by {}
        assert(r@.subrange(0, base_id@.len() as int + 1) =~= base_id@ + seq!['-']);
    }
    r
}

/// Why an `auth.json` cannot become a provider.
#[derive(Debug, Clone, Copy, PartialEq, Eq, Structural)]
pub enum OAuthImportError {
    /// It holds no access token.
    NoTokens,
}

impl OAuthImportError {
    /// The message shown for this error.
    pub fn message(&self) -> (r: &'static str)
        ensures
            r@ == "auth.json 中未找到可导入的 Codex OAuth Token"@,
    {
        "auth.json 中未找到可导入的 Codex OAuth Token"
    }
}

/// The identity that names an OAuth provider: its account id, else its
/// label, else its access token.
pub open spec fn identity_of(t: TokensView) -> Seq<char> {
    match t.account_id {
        Some(a) => a,
        None => match account_label_spec(t) {
            Some(l) => l,
            None => t.access_token,
        },
    }
}

/// The id an OAuth provider starts from: `oauth-` and the first 12 hex digits
/// of the SHA-256 of its identity.
pub open spec fn oauth_base_id(identity: Seq<char>) -> Seq<char> {
    "oauth-"@ + crate::legacy_import::hex_lower(crate::legacy_import::sha256_of(encode_utf8(identity))).take(12)
}

/// The provider made from a Codex `auth.json`: official login, named after
/// the account, with an id derived from the account that no provider in
/// `existing_ids` has.
pub fn oauth_profile_from_auth(config_contents: String, auth_contents: String, existing_ids: &[String]) -> (r:
    Result<RelayProfile, OAuthImportError>)
    requires
        existing_ids@.len() < usize::MAX - 3,
    ensures
        match tokens_from_auth_spec(auth_contents@) {
            None => r == Err::<RelayProfile, OAuthImportError>(OAuthImportError::NoTokens),
            Some(t) => r matches Ok(p) && {
                &&& unique_id_ok(
                    oauth_base_id(identity_of(t)),
                    existing_ids@.map_values(|s: String| s@),
                    p.id@,
                )
                &&& p.name@ == match account_label_spec(t) {
                    Some(l) => l,
                    None => "Codex OAuth"@,
                }
                &&& p.relay_mode == RelayMode::Official
                &&& p.protocol == crate::settings::RelayProtocol::Responses
                &&& p.config_contents@ == config_contents@
                &&& p.auth_contents@ == auth_contents@
                &&& !p.official_mix_api_key && !p.use_common_config
                &&& p.base_url@.len() == 0 && p.upstream_base_url@.len() == 0 && p.api_key@.len() == 0
                &&& p.model_list@.len() == 0
            },
        },
{
    let tokens = match tokens_from_auth_contents(auth_contents.as_str()) {
        Some(t) => t,
        None => return Err(OAuthImportError::NoTokens),
    };
    let label = account_label_from_tokens(&tokens);
    let identity: String = match &tokens.account_id {
        Some(a) => a.clone(),
        None => match &label {
            Some(l) => l.clone(),
            None => tokens.access_token.clone(),
        },
    };
    let digest = crate::legacy_import::sha256_hex(identity.as_str().as_bytes());
    let d = str_chars(digest.as_str());
    let head = crate::text::slice_chars(d.as_slice(), 0, 12);
    let mut base = str_chars("oauth-");
    let prefix = string_from(head.as_slice());
    crate::text::append_str(&mut base, prefix.as_str());
    let base_id = string_from(base.as_slice());
    proof {
        reveal_strlit("oauth-");
    }
    assert(base_id@ =~= oauth_base_id(identity_of(tokens@)));
    let id = unique_profile_id(base_id.as_str(), existing_ids);
    let name = match label {
        Some(l) => l,
        None => crate::text::owned("Codex OAuth"),
    };
    let mut profile = RelayProfile::default();
    profile.id = id;
    profile.name = name;
    profile.relay_mode = RelayMode::Official;
    profile.config_contents = config_contents;
    profile.auth_contents = auth_contents;
    Ok(profile)
}

} // verus!

verus! {

/// A string value, or null.
pub open spec fn text_or_null(v: JsonValue, s: Option<Seq<char>>) -> bool {
    match s {
        Some(t) => v matches JsonValue::Str(x) && x@ == t,
        None => v == JsonValue::Null,
    }
}

/// The members of an `auth.json` that is a JSON object; none otherwise.
pub open spec fn auth_members(existing: Seq<char>) -> Seq<JsonMember> {
    match json_parse(existing) {
        Some(JsonValue::Object(ms)) => ms@,
        _ => Seq::empty(),
    }
}

/// The `auth.json` members `ms` that hold the tokens `t`: ChatGPT login, no
/// API key, the tokens, and every other member of `existing` as it was.
pub open spec fn auth_doc(ms: Seq<JsonMember>, existing: Seq<char>, t: TokensView) -> bool {
    &&& members_get(ms, "auth_mode"@) matches Some(JsonValue::Str(m)) && m@ == "chatgpt"@
    &&& members_get(ms, "OPENAI_API_KEY"@) == Some(JsonValue::Null)
    &&& members_get(ms, "tokens"@) matches Some(JsonValue::Object(ts)) && {
        &&& text_or_null(members_get(ts@, "id_token"@)->0, Some(t.id_token)) && members_get(ts@, "id_token"@) is Some
        &&& text_or_null(members_get(ts@, "access_token"@)->0, Some(t.access_token)) && members_get(ts@, "access_token"@) is Some
        &&& text_or_null(members_get(ts@, "refresh_token"@)->0, t.refresh_token) && members_get(ts@, "refresh_token"@) is Some
        &&& text_or_null(members_get(ts@, "account_id"@)->0, t.account_id) && members_get(ts@, "account_id"@) is Some
        &&& forall|k: Seq<char>|
            #[trigger] members_get(ts@, k) is Some ==> k == "id_token"@ || k == "access_token"@ || k == "refresh_token"@
                || k == "account_id"@
    }
    &&& forall|k: Seq<char>|
        k != "auth_mode"@ && k != "OPENAI_API_KEY"@ && k != "tokens"@ ==> #[trigger] members_get(ms, k) == members_get(
            auth_members(existing),
            k,
        )
}

/// A string value, or null.
fn text_or_null_exec(s: &Option<String>) -> (r: JsonValue)
    ensures
        text_or_null(r, opt_view(*s)),
{
    match s {
        Some(x) => JsonValue::Str(x.clone()),
        None => JsonValue::Null,
    }
}

/// The `auth.json` document that holds `tokens`, keeping the other members
/// of `existing` when it is a JSON object.
pub fn auth_document(existing: &str, tokens: &CodexOAuthTokens) -> (r: JsonValue)
    ensures
        r matches JsonValue::Object(ms) && auth_doc(ms@, existing@, tokens@),
{
    let mut ms: Vec<JsonMember> = match parse_json(existing) {
        Some(JsonValue::Object(ms)) => ms,
        _ => Vec::new(),
    };
    let ghost base = ms@;
    assert(base == auth_members(existing@));
    proof {
        reveal_strlit("id_token");
        reveal_strlit("access_token");
        reveal_strlit("refresh_token");
        reveal_strlit("account_id");
        reveal_strlit("auth_mode");
        reveal_strlit("OPENAI_API_KEY");
        reveal_strlit("tokens");
    }
    let mut ts: Vec<JsonMember> = Vec::new();
    crate::json::members_set(&mut ts, "id_token", JsonValue::Str(tokens.id_token.clone()));
    let ghost t1 = ts@;
    crate::json::members_set(&mut ts, "access_token", JsonValue::Str(tokens.access_token.clone()));
    let ghost t2 = ts@;
    crate::json::members_set(&mut ts, "refresh_token", text_or_null_exec(&tokens.refresh_token));
    let ghost t3 = ts@;
    crate::json::members_set(&mut ts, "account_id", text_or_null_exec(&tokens.account_id));
    let ghost t4 = ts@;
    assert("id_token"@.len() == 8);
    assert("account_id"@.len() == 10);
    assert("refresh_token"@.len() == 13);
    assert(members_get(t4, "id_token"@) == members_get(t3, "id_token"@));
    assert(members_get(t3, "id_token"@) == members_get(t2, "id_token"@));
    assert(members_get(t2, "id_token"@) == members_get(t1, "id_token"@));
    assert(members_get(t4, "access_token"@) == members_get(t3, "access_token"@));
    assert(members_get(t3, "access_token"@) == members_get(t2, "access_token"@));
    assert(members_get(t4, "refresh_token"@) == members_get(t3, "refresh_token"@));
    assert forall|k: Seq<char>| #[trigger] members_get(t4, k) is Some implies k == "id_token"@ || k == "access_token"@
        || k == "refresh_token"@ || k == "account_id"@ by {
        if k != "id_token"@ && k != "access_token"@ && k != "refresh_token"@ && k != "account_id"@ {
            assert(members_get(t4, k) == members_get(t3, k));
            assert(members_get(t3, k) == members_get(t2, k));
            assert(members_get(t2, k) == members_get(t1, k));
            assert(members_get(t1, k) == members_get(Seq::<JsonMember>::empty(), k));
        }
    }
    crate::json::members_set(&mut ms, "auth_mode", JsonValue::Str(crate::text::owned("chatgpt")));
    let ghost m1 = ms@;
    crate::json::members_set(&mut ms, "OPENAI_API_KEY", JsonValue::Null);
    let ghost m2 = ms@;
    crate::json::members_set(&mut ms, "tokens", JsonValue::Object(ts));
    let ghost m3 = ms@;
    assert("auth_mode"@.len() == 9);
    assert("OPENAI_API_KEY"@.len() == 14);
    assert("tokens"@.len() == 6);
    assert(members_get(m3, "auth_mode"@) == members_get(m2, "auth_mode"@));
    assert(members_get(m2, "auth_mode"@) == members_get(m1, "auth_mode"@));
    assert(members_get(m3, "OPENAI_API_KEY"@) == members_get(m2, "OPENAI_API_KEY"@));
    assert forall|k: Seq<char>| k != "auth_mode"@ && k != "OPENAI_API_KEY"@ && k != "tokens"@ implies #[trigger] members_get(
        m3,
        k,
    ) == members_get(base, k) by {
        assert(members_get(m3, k) == members_get(m2, k));
        assert(members_get(m2, k) == members_get(m1, k));
        assert(members_get(m1, k) == members_get(base, k));
    }
    JsonValue::Object(ms)
}

/// The text of an `auth.json` that holds `tokens`, keeping the other
/// members of `existing` when it is a JSON object: the document written out
/// by `serde_json`, with a final line break.
pub fn auth_contents_with_tokens(existing: &str, tokens: &CodexOAuthTokens) -> (r: String)
    ensures
        exists|ms: Vec<JsonMember>| auth_doc(ms@, existing@, tokens@) && r@ == crate::json::json_pretty(
            JsonValue::Object(ms),
        ) + seq!['\n'],
{
    let doc = auth_document(existing, tokens);
    let text = crate::json::json_to_string_pretty(&doc);
    let r = crate::text::concat2(text.as_str(), "\n");
    proof {
        reveal_strlit("\n");
        match doc {
            JsonValue::Object(ms) => {
                assert(auth_doc(ms@, existing@, tokens@) && r@ == crate::json::json_pretty(JsonValue::Object(ms))
                    + seq!['\n']);
            },
            _ => {},
        }
    }
    r
}


/// Why a token endpoint reply was refused.
#[derive(Debug, Clone, PartialEq, Eq)]
pub enum TokenResponseError {
    /// The endpoint answered with a status other than success; the reply had
    /// this many bytes.
    HttpFailure(usize),
    /// The reply is not JSON.
    NotJson,
    /// The reply holds no `access_token`.
    MissingAccessToken,
}

pub open spec fn keys_access_only() -> Seq<Seq<char>> {
    seq!["access_token"@]
}

pub open spec fn keys_id_only() -> Seq<Seq<char>> {
    seq!["id_token"@]
}

pub open spec fn keys_refresh_only() -> Seq<Seq<char>> {
    seq!["refresh_token"@]
}

/// The tokens that a successful token endpoint reply `body` holds: the
/// access token is required, the id token falls back to the one already held
/// (else empty), and the account id is the claim in the access token.
pub open spec fn token_response_spec(success: bool, body: Seq<u8>, current_id_token: Option<Seq<char>>) -> Result<
    TokensView,
    TokenResponseError,
> {
    if !success {
        Err(TokenResponseError::HttpFailure(body.len() as usize))
    } else {
        match json_parse_bytes(body) {
            None => Err(TokenResponseError::NotJson),
            Some(v) => match json_string_spec(v, keys_access_only()) {
                None => Err(TokenResponseError::MissingAccessToken),
                Some(access) => Ok(
                    TokensView {
                        id_token: match json_string_spec(v, keys_id_only()) {
                            Some(x) => x,
                            None => match current_id_token {
                                Some(c) => c,
                                None => Seq::empty(),
                            },
                        },
                        access_token: access,
                        refresh_token: json_string_spec(v, keys_refresh_only()),
                        account_id: account_id_from_access_token(access),
                    },
                ),
            },
        }
    }
}

/// Reads the reply of the OAuth token endpoint: `success` is whether the
/// HTTP status was a success, `body` the bytes of the reply.
pub fn tokens_from_token_response(success: bool, body: &[u8], current_id_token: Option<&str>) -> (r: Result<
    CodexOAuthTokens,
    TokenResponseError,
>)
    ensures
        match r {
            Ok(t) => token_response_spec(success, body@, match current_id_token {
                Some(c) => Some(c@),
                None => None,
            }) == Ok::<TokensView, TokenResponseError>(t@),
            Err(e) => token_response_spec(success, body@, match current_id_token {
                Some(c) => Some(c@),
                None => None,
            }) == Err::<TokensView, TokenResponseError>(e),
        },
{
    if !success {
        return Err(TokenResponseError::HttpFailure(body.len()));
    }
    let value = match parse_json_bytes(body) {
        Some(v) => v,
        None => return Err(TokenResponseError::NotJson),
    };
    let ka = ["access_token"];
    let ki = ["id_token"];
    let kr = ["refresh_token"];
    assert(ka@.map_values(|k: &str| k@) =~= keys_access_only());
    assert(ki@.map_values(|k: &str| k@) =~= keys_id_only());
    assert(kr@.map_values(|k: &str| k@) =~= keys_refresh_only());
    let access_token = match json_string(&value, &ka) {
        Some(a) => a,
        None => return Err(TokenResponseError::MissingAccessToken),
    };
    let id_token = match json_string(&value, &ki) {
        Some(x) => x,
        None => match current_id_token {
            Some(c) => c.to_string(),
            None => String::new(),
        },
    };
    let refresh_token = json_string(&value, &kr);
    let account_id = chatgpt_account_id_from_access_token(access_token.as_str());
    Ok(CodexOAuthTokens { id_token, access_token, refresh_token, account_id })
}

/// How long before its expiry an access token is refreshed, in seconds.
pub const TOKEN_REFRESH_SKEW_SECONDS: u64 = 300;

/// The `exp` claim of an access token, when its payload holds one that is a
/// non-negative integer.
pub open spec fn token_expiry(token: Seq<char>) -> Option<u64> {
    match jwt_payload_spec(token) {
        Some(p) => match json_get(p, "exp"@) {
            Some(JsonValue::Number(_, Some(e))) => Some(e),
            _ => None,
        },
        None => None,
    }
}

/// Whether a token is due for a refresh at `now` (Unix seconds): it has an
/// expiry, no later than the refresh margin from now (the sum saturating).
pub open spec fn refresh_due(token: Seq<char>, now: u64) -> bool {
    match token_expiry(token) {
        Some(exp) => exp <= if now + TOKEN_REFRESH_SKEW_SECONDS > u64::MAX {
            u64::MAX as int
        } else {
            now + TOKEN_REFRESH_SKEW_SECONDS
        },
        None => false,
    }
}

/// Whether an access token is due for a refresh at `now_secs` (Unix seconds):
/// its expiry lies no later than the refresh margin from now. A token
/// without a readable expiry is never refreshed.
pub fn token_needs_refresh(access_token: &str, now_secs: u64) -> (r: bool)
    ensures
        r == refresh_due(access_token@, now_secs),
{
    let payload = match jwt_payload(access_token) {
        Some(p) => p,
        None => return false,
    };
    match json_get_exec(&payload, "exp") {
        Some(JsonValue::Number(_, Some(exp))) => *exp <= now_secs.saturating_add(TOKEN_REFRESH_SKEW_SECONDS),
        _ => false,
    }
}


/// A token due for a refresh stays due: once it is due at one time, it is
/// due at every later time.
pub proof fn law_refresh_stays_due(token: Seq<char>, t1: u64, t2: u64)
    requires
        t1 <= t2,
        refresh_due(token, t1),
    ensures
        refresh_due(token, t2),
{
}

} // verus!
