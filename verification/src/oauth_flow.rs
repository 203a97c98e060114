//! The browser side of a Codex OAuth login: the authorization URL with its
//! PKCE challenge, the forms sent to the token endpoint, and what to do with
//! each request that reaches the local callback listener.
use base64::Engine;
use vstd::prelude::*;
use vstd::string::StringSliceAdditionalSpecFns;
use vstd::utf8::encode_utf8;

use crate::codex_oauth::{opt_view, CodexOAuthTokens, LoginState, OAuthSession};
use crate::json::{JsonMember, JsonValue};
use crate::text::{char_is_ws, concat2, concat3, decimal, decimal_string, is_ws, owned, str_eq, trim, trim_str};

verus! {

/// The OAuth client id of Codex.
pub const CLIENT_ID: &'static str = "app_EMoamEEZ73f0CkXaXp7hrann";

/// Where the browser is sent to authorize.
pub const AUTH_ENDPOINT: &'static str = "https://auth.openai.com/oauth/authorize";

/// Where codes and refresh tokens are exchanged for tokens.
pub const TOKEN_ENDPOINT: &'static str = "https://auth.openai.com/oauth/token";

/// The scopes asked for.
pub const SCOPES: &'static str = "openid profile email offline_access";

/// The originator reported to the authorization server.
pub const ORIGINATOR: &'static str = "codex_vscode";

/// The port of the local callback listener.
pub const CALLBACK_PORT: u16 = 1455;

/// How long a login may take, in seconds.
pub const LOGIN_TIMEOUT_SECS: u64 = 300;

/// Where the authorization server sends the browser back.
pub const REDIRECT_URI: &'static str = "http://localhost:1455/auth/callback";

/// Pairs as plain values.
pub open spec fn pairs_view(v: Seq<(String, String)>) -> Seq<(Seq<char>, Seq<char>)> {
    v.map_values(|p: (String, String)| (p.0@, p.1@))
}

/// What `url` makes of `base` with `pairs` appended to its query, each
/// form-encoded: the serialized URL, or nothing when `base` is not a URL.
pub uninterp spec fn url_with_query(base: Seq<char>, pairs: Seq<(Seq<char>, Seq<char>)>) -> Option<Seq<char>>;

/// `url::Url::parse(base)`, then `query_pairs_mut().extend_pairs(pairs)`,
/// then the URL as text. Nothing more is stated of the encoding than that the
/// same base and pairs give the same text.
#[verifier::external_body]
fn append_query_pairs(base: &str, pairs: &Vec<(String, String)>) -> (r: Option<String>)
    ensures
        opt_view(r) == url_with_query(base@, pairs_view(pairs@)),
{
    let mut url = url::Url::parse(base).ok()?;
    url.query_pairs_mut().extend_pairs(pairs.iter());
    Some(url.to_string())
}

/// What `form_urlencoded` writes for `pairs`: the body of a form request.
pub uninterp spec fn form_encoded(pairs: Seq<(Seq<char>, Seq<char>)>) -> Seq<char>;

/// `url::form_urlencoded::Serializer` fed with `pairs`, finished.
#[verifier::external_body]
fn encode_form(pairs: &Vec<(String, String)>) -> (r: String)
    ensures
        r@ == form_encoded(pairs_view(pairs@)),
{
    url::form_urlencoded::Serializer::new(String::new()).extend_pairs(pairs.iter()).finish()
}

/// What the `base64` URL-safe engine without padding writes for `bytes`:
/// RFC 4648 base64 with the URL-safe alphabet and no padding.
pub open spec fn base64_url_nopad_encode(bytes: Seq<u8>) -> Seq<char> {
    crate::text::base64_spec(bytes, true, false)
}

/// `base64::engine::general_purpose::URL_SAFE_NO_PAD.encode`: the crate
/// writes RFC 4648 base64 with the URL-safe alphabet and no padding.
#[verifier::external_body]
fn encode_url_safe_no_pad(bytes: &[u8]) -> (r: String)
    ensures
        r@ == base64_url_nopad_encode(bytes@),
{
    base64::engine::general_purpose::URL_SAFE_NO_PAD.encode(bytes)
}

/// What `url` makes of a callback address: its path and its query pairs,
/// decoded, in order; nothing when the text is not a URL.
pub uninterp spec fn callback_url_parts(text: Seq<char>) -> Option<(Seq<char>, Seq<(Seq<char>, Seq<char>)>)>;

/// `url::Url::parse(text)`, then its `path()` and its `query_pairs()`.
#[verifier::external_body]
fn parse_callback_url(text: &str) -> (r: Option<(String, Vec<(String, String)>)>)
    ensures
        match r {
            Some((p, q)) => callback_url_parts(text@) == Some((p@, pairs_view(q@))),
            None => callback_url_parts(text@) is None,
        },
{
    let url = url::Url::parse(text).ok()?;
    let pairs = url.query_pairs().map(|(k, v)| (k.into_owned(), v.into_owned())).collect();
    Some((url.path().to_string(), pairs))
}

/// The PKCE challenge of a code verifier: its SHA-256 digest, base64url
/// without padding.
pub fn pkce_challenge(code_verifier: &str) -> (r: String)
    ensures
        r@ == base64_url_nopad_encode(crate::legacy_import::sha256_of(encode_utf8(code_verifier@))),
{
    let digest = crate::legacy_import::sha256_digest(code_verifier.as_bytes());
    encode_url_safe_no_pad(digest.as_slice())
}

fn pair(k: &str, v: &str) -> (r: (String, String))
    ensures
        r.0@ == k@,
        r.1@ == v@,
{
    (owned(k), owned(v))
}

/// The query of the authorization URL, in order.
pub open spec fn authorization_pairs_spec(redirect_uri: Seq<char>, code_challenge: Seq<char>, state: Seq<char>) -> Seq<
    (Seq<char>, Seq<char>),
> {
    seq![
        ("response_type"@, "code"@),
        ("client_id"@, CLIENT_ID@),
        ("redirect_uri"@, redirect_uri),
        ("scope"@, SCOPES@),
        ("code_challenge"@, code_challenge),
        ("code_challenge_method"@, "S256"@),
        ("id_token_add_organizations"@, "true"@),
        ("codex_cli_simplified_flow"@, "true"@),
        ("state"@, state),
        ("originator"@, ORIGINATOR@),
    ]
}

/// The URL the browser opens to authorize: the authorization endpoint with
/// the client, the redirect, the scopes, the PKCE challenge and the state.
pub fn build_authorization_url(redirect_uri: &str, code_challenge: &str, state: &str) -> (r: Option<String>)
    ensures
        opt_view(r) == url_with_query(AUTH_ENDPOINT@, authorization_pairs_spec(redirect_uri@, code_challenge@, state@)),
{
    let pairs = vec![
        pair("response_type", "code"),
        pair("client_id", CLIENT_ID),
        pair("redirect_uri", redirect_uri),
        pair("scope", SCOPES),
        pair("code_challenge", code_challenge),
        pair("code_challenge_method", "S256"),
        pair("id_token_add_organizations", "true"),
        pair("codex_cli_simplified_flow", "true"),
        pair("state", state),
        pair("originator", ORIGINATOR),
    ];
    assert(pairs_view(pairs@) =~= authorization_pairs_spec(redirect_uri@, code_challenge@, state@));
    append_query_pairs(AUTH_ENDPOINT, &pairs)
}

/// The form that exchanges an authorization code for tokens.
pub open spec fn exchange_pairs_spec(code: Seq<char>, code_verifier: Seq<char>) -> Seq<(Seq<char>, Seq<char>)> {
    seq![
        ("grant_type"@, "authorization_code"@),
        ("code"@, code),
        ("redirect_uri"@, REDIRECT_URI@),
        ("client_id"@, CLIENT_ID@),
        ("code_verifier"@, code_verifier),
    ]
}

/// The body of the request that exchanges `code` for tokens.
pub fn token_exchange_form(code: &str, code_verifier: &str) -> (r: String)
    ensures
        r@ == form_encoded(exchange_pairs_spec(code@, code_verifier@)),
{
    let pairs = vec![
        pair("grant_type", "authorization_code"),
        pair("code", code),
        pair("redirect_uri", REDIRECT_URI),
        pair("client_id", CLIENT_ID),
        pair("code_verifier", code_verifier),
    ];
    assert(pairs_view(pairs@) =~= exchange_pairs_spec(code@, code_verifier@));
    encode_form(&pairs)
}

/// The form that refreshes tokens.
pub open spec fn refresh_pairs_spec(refresh_token: Seq<char>) -> Seq<(Seq<char>, Seq<char>)> {
    seq![("grant_type"@, "refresh_token"@), ("refresh_token"@, refresh_token), ("client_id"@, CLIENT_ID@)]
}

/// The body of the request that refreshes tokens with `refresh_token`.
pub fn token_refresh_form(refresh_token: &str) -> (r: String)
    ensures
        r@ == form_encoded(refresh_pairs_spec(refresh_token@)),
{
    let pairs = vec![
        pair("grant_type", "refresh_token"),
        pair("refresh_token", refresh_token),
        pair("client_id", CLIENT_ID),
    ];
    assert(pairs_view(pairs@) =~= refresh_pairs_spec(refresh_token@));
    encode_form(&pairs)
}

/// After a refresh, the tokens keep the refresh token they were refreshed
/// with when the server sent no new one.
pub fn keep_refresh_token(tokens: &mut CodexOAuthTokens, refresh_token: &str)
    ensures
        final(tokens).id_token == old(tokens).id_token,
        final(tokens).access_token == old(tokens).access_token,
        final(tokens).account_id == old(tokens).account_id,
        opt_view(final(tokens).refresh_token) == match old(tokens).refresh_token {
            Some(r) => Some(r@),
            None => Some(refresh_token@),
        },
{
    if tokens.refresh_token.is_none() {
        tokens.refresh_token = Some(owned(refresh_token));
    }
}

/// The login that starts now: pending until `now` plus the login timeout
/// (saturating).
pub fn new_login_session(login_id: String, auth_url: String, now: u64) -> (r: OAuthSession)
    ensures
        r.login_id == login_id,
        r.auth_url == auth_url,
        r.expires_at == (if now + LOGIN_TIMEOUT_SECS > u64::MAX { u64::MAX as int } else { now + LOGIN_TIMEOUT_SECS }),
        r.status is Pending,
{
    OAuthSession { login_id, auth_url, expires_at: now.saturating_add(LOGIN_TIMEOUT_SECS), status: LoginState::Pending }
}

/// The first position at or after `i` that does not hold whitespace.
pub open spec fn ws_end(s: Seq<char>, i: int) -> int
    decreases s.len() - i,
{
    if i < 0 || i >= s.len() {
        i
    } else if is_ws(s[i]) {
        ws_end(s, i + 1)
    } else {
        i
    }
}

/// The first position at or after `i` that holds whitespace.
pub open spec fn word_end(s: Seq<char>, i: int) -> int
    decreases s.len() - i,
{
    if i < 0 || i >= s.len() {
        i
    } else if is_ws(s[i]) {
        i
    } else {
        word_end(s, i + 1)
    }
}

/// The text before the first line break.
pub open spec fn first_line(s: Seq<char>) -> Seq<char> {
    match crate::text::first_where(s, |c: char| c == '\n') {
        Some(k) => s.take(k),
        None => s,
    }
}

/// The target of an HTTP request: the second whitespace-separated word of
/// its first line, `/` when there is none.
pub open spec fn request_target_spec(request: Seq<char>) -> Seq<char> {
    let l = first_line(request);
    let a = ws_end(l, 0);
    let b = word_end(l, a);
    let c = ws_end(l, b);
    let d = word_end(l, c);
    if c == d {
        "/"@
    } else {
        l.subrange(c, d)
    }
}

fn ws_end_exec(v: &[char], from: usize) -> (r: usize)
    requires
        from <= v@.len(),
    ensures
        r == ws_end(v@, from as int),
        from <= r <= v@.len(),
{
    let mut i = from;
    while i < v.len() && char_is_ws(v[i])
        invariant
            from <= i <= v@.len(),
            ws_end(v@, i as int) == ws_end(v@, from as int),
        decreases v@.len() - i,
    {
        i = i + 1;
    }
    i
}

fn word_end_exec(v: &[char], from: usize) -> (r: usize)
    requires
        from <= v@.len(),
    ensures
        r == word_end(v@, from as int),
        from <= r <= v@.len(),
{
    let mut i = from;
    while i < v.len() && !char_is_ws(v[i])
        invariant
            from <= i <= v@.len(),
            word_end(v@, i as int) == word_end(v@, from as int),
        decreases v@.len() - i,
    {
        i = i + 1;
    }
    i
}

/// The target of the HTTP request in `request`.
pub fn request_target(request: &str) -> (r: String)
    ensures
        r@ == request_target_spec(request@),
{
    let chars = crate::text::str_chars(request);
    let nl = crate::text::find_char_from(chars.as_slice(), '\n', 0);
    proof {
        crate::text::lemma_first_where_exact(chars@, |c: char| c == '\n', nl as int);
    }
    let line = crate::text::slice_chars(chars.as_slice(), 0, nl);
    assert(line@ =~= first_line(request@));
    let a = ws_end_exec(line.as_slice(), 0);
    let b = word_end_exec(line.as_slice(), a);
    let c = ws_end_exec(line.as_slice(), b);
    let d = word_end_exec(line.as_slice(), c);
    if c == d {
        proof {
            reveal_strlit("/");
        }
        owned("/")
    } else {
        let w = crate::text::slice_chars(line.as_slice(), c, d);
        crate::text::string_from(w.as_slice())
    }
}

/// The value of the last pair named `key` (a later pair wins, as in a map
/// built from the pairs).
pub open spec fn last_value(pairs: Seq<(Seq<char>, Seq<char>)>, key: Seq<char>) -> Option<Seq<char>>
    decreases pairs.len(),
{
    if pairs.len() == 0 {
        None
    } else if pairs.last().0 == key {
        Some(pairs.last().1)
    } else {
        last_value(pairs.drop_last(), key)
    }
}

fn last_value_exec(pairs: &Vec<(String, String)>, key: &str) -> (r: Option<String>)
    ensures
        opt_view(r) == last_value(pairs_view(pairs@), key@),
{
    let mut i = pairs.len();
    let ghost pv = pairs_view(pairs@);
    assert(pv.take(pv.len() as int) =~= pv);
    while i > 0
        invariant
            i <= pairs@.len(),
            pv == pairs_view(pairs@),
            last_value(pv, key@) == last_value(pv.take(i as int), key@),
        decreases i,
    {
        let ghost t = pv.take(i as int);
        assert(t.last() == pv[i - 1]);
        assert(t.drop_last() =~= pv.take(i - 1));
        if str_eq(pairs[i - 1].0.as_str(), key) {
            return Some(owned(pairs[i - 1].1.as_str()));
        }
        i = i - 1;
    }
    assert(pv.take(0) =~= Seq::<(Seq<char>, Seq<char>)>::empty());
    None
}

/// What the callback listener does with one request.
#[derive(Debug, Clone, PartialEq, Eq)]
pub enum CallbackStep {
    /// Answer the browser with this status and message, and keep waiting.
    Reply { status: u16, message: String },
    /// End the login with `error`, first answering the browser when `reply`
    /// is set.
    Fail { reply: Option<(u16, String)>, error: String },
    /// Exchange this authorization code for tokens; on success answer the
    /// browser that the login is complete.
    Exchange { code: String },
}

/// What the browser is told when the login completed.
pub const CALLBACK_SUCCESS_MESSAGE: &'static str = "Codex OAuth 授权完成，可以关闭此页面";

/// The decision for one callback request, as plain values: `(status,
/// message)` to answer with and keep waiting; a failure with its optional
/// answer and error; or the code to exchange.
pub open spec fn callback_step_spec(request: Seq<char>, expected_state: Seq<char>) -> CallbackStepView {
    match callback_url_parts("http://localhost:1455"@ + request_target_spec(request)) {
        None => CallbackStepView::Reply(400, "授权回调地址无效"@),
        Some((path, q)) => if path != "/auth/callback"@ {
            CallbackStepView::Reply(404, "等待 Codex OAuth 授权"@)
        } else {
            match last_value(q, "error"@) {
                Some(e) => CallbackStepView::Fail(Some((400, "Codex OAuth 授权未完成"@)), "OAuth 授权失败："@ + e),
                None => if last_value(q, "state"@) != Some(expected_state) {
                    CallbackStepView::Fail(Some((400, "OAuth state 校验失败"@)), "OAuth state 校验失败"@)
                } else {
                    match last_value(q, "code"@) {
                        Some(c) => if trim(c).len() > 0 {
                            CallbackStepView::Exchange(trim(c))
                        } else {
                            CallbackStepView::Fail(None, "OAuth 回调缺少 code"@)
                        },
                        None => CallbackStepView::Fail(None, "OAuth 回调缺少 code"@),
                    }
                }
            }
        },
    }
}

/// A callback step as plain values.
pub enum CallbackStepView {
    Reply(u16, Seq<char>),
    Fail(Option<(u16, Seq<char>)>, Seq<char>),
    Exchange(Seq<char>),
}

pub open spec fn step_view(s: CallbackStep) -> CallbackStepView {
    match s {
        CallbackStep::Reply { status, message } => CallbackStepView::Reply(status, message@),
        CallbackStep::Fail { reply, error } => CallbackStepView::Fail(
            match reply {
                Some((st, m)) => Some((st, m@)),
                None => None,
            },
            error@,
        ),
        CallbackStep::Exchange { code } => CallbackStepView::Exchange(code@),
    }
}

/// Decides what to do with a request that reached the callback listener.
pub fn callback_step(request: &str, expected_state: &str) -> (r: CallbackStep)
    ensures
        step_view(r) == callback_step_spec(request@, expected_state@),
{
    let target = request_target(request);
    let address = concat2("http://localhost:1455", target.as_str());
    proof {
        reveal_strlit("/auth/callback");
    }
    let (path, q) = match parse_callback_url(address.as_str()) {
        Some(parts) => parts,
        None => return CallbackStep::Reply { status: 400, message: owned("授权回调地址无效") },
    };
    if !str_eq(path.as_str(), "/auth/callback") {
        return CallbackStep::Reply { status: 404, message: owned("等待 Codex OAuth 授权") };
    }
    match last_value_exec(&q, "error") {
        Some(e) => {
            return CallbackStep::Fail {
                reply: Some((400, owned("Codex OAuth 授权未完成"))),
                error: concat2("OAuth 授权失败：", e.as_str()),
            };
        },
        None => {},
    }
    let state_ok = match last_value_exec(&q, "state") {
        Some(s) => str_eq(s.as_str(), expected_state),
        None => false,
    };
    if !state_ok {
        return CallbackStep::Fail {
            reply: Some((400, owned("OAuth state 校验失败"))),
            error: owned("OAuth state 校验失败"),
        };
    }
    match last_value_exec(&q, "code") {
        Some(c) => {
            let t = trim_str(c.as_str());
            if t.as_str().is_empty() {
                CallbackStep::Fail { reply: None, error: owned("OAuth 回调缺少 code") }
            } else {
                CallbackStep::Exchange { code: t }
            }
        },
        None => CallbackStep::Fail { reply: None, error: owned("OAuth 回调缺少 code") },
    }
}

/// The page shown in the browser.
pub open spec fn callback_body(message: Seq<char>) -> Seq<char> {
    "<!doctype html><html lang=\"zh-CN\"><meta charset=\"utf-8\"><title>Codex Deck</title><body><h1>"@ + message
        + "</h1></body></html>"@
}

/// The HTTP response the callback listener writes: status line (`OK` for
/// 200, else `Error`), an HTML content type, the body's length in bytes, and
/// the page with `message`.
pub fn callback_response(status: u16, message: &str) -> (r: String)
    ensures
        r@ == "HTTP/1.1 "@ + decimal(status as nat) + " "@ + (if status == 200 { "OK"@ } else { "Error"@ })
            + "\r\nContent-Type: text/html; charset=utf-8\r\nContent-Length: "@ + decimal(
            encode_utf8(callback_body(message@)).len(),
        ) + "\r\nConnection: close\r\n\r\n"@ + callback_body(message@),
{
    let body = concat3(
        "<!doctype html><html lang=\"zh-CN\"><meta charset=\"utf-8\"><title>Codex Deck</title><body><h1>",
        message,
        "</h1></body></html>",
    );
    let n = body.as_str().as_bytes().len();
    let reason = if status == 200 {
        "OK"
    } else {
        "Error"
    };
    let code = decimal_string(status as u64);
    let len = decimal_string(n as u64);
    let head = concat3("HTTP/1.1 ", code.as_str(), " ");
    let head = concat3(head.as_str(), reason, "\r\nContent-Type: text/html; charset=utf-8\r\nContent-Length: ");
    let head = concat3(head.as_str(), len.as_str(), "\r\nConnection: close\r\n\r\n");
    concat2(head.as_str(), body.as_str())
}


/// A code is exchanged only for a request to the callback path that carries
/// the expected state and no error: a forged or stale redirect never logs in.
pub proof fn law_exchange_needs_matching_state(request: Seq<char>, expected_state: Seq<char>)
    requires
        callback_step_spec(request, expected_state) is Exchange,
    ensures
        match callback_url_parts("http://localhost:1455"@ + request_target_spec(request)) {
            Some((path, q)) => path == "/auth/callback"@ && last_value(q, "error"@) is None && last_value(q, "state"@)
                == Some(expected_state),
            None => false,
        },
{
}


/// The base URL of the Codex backend that OAuth providers talk to.
pub const CODEX_OAUTH_BASE_URL: &'static str = "https://chatgpt.com/backend-api/codex";

/// What preparing an OAuth provider for a request needs first.
#[derive(Debug, Clone)]
pub enum OAuthRefreshPlan {
    /// The tokens in the provider's `auth.json` can be used as they are.
    UseCurrent(CodexOAuthTokens),
    /// The tokens must be refreshed with this refresh token; the id token
    /// currently held is kept if the server sends none.
    Refresh { refresh_token: String, id_token: String },
}

/// Why an OAuth provider cannot be prepared.
#[derive(Debug, Clone, Copy, PartialEq, Eq, Structural)]
pub enum OAuthPrepareError {
    /// Its `auth.json` holds no access token.
    MissingAccessToken,
    /// Its access token is due for a refresh and it has no refresh token.
    MissingRefreshToken,
}

impl OAuthPrepareError {
    /// The message shown for this error.
    pub fn message(&self) -> (r: &'static str)
        ensures
            r@ == match *self {
                OAuthPrepareError::MissingAccessToken => "OAuth 供应商缺少 access_token"@,
                OAuthPrepareError::MissingRefreshToken => "OAuth access_token 已过期且缺少 refresh_token"@,
            },
    {
        match self {
            OAuthPrepareError::MissingAccessToken => "OAuth 供应商缺少 access_token",
            OAuthPrepareError::MissingRefreshToken => "OAuth access_token 已过期且缺少 refresh_token",
        }
    }
}

/// Decides whether an OAuth provider's tokens are used as they are or
/// refreshed first (when asked to, or when the access token is due at
/// `now_secs`).
pub fn oauth_refresh_plan(auth_contents: &str, force_refresh: bool, now_secs: u64) -> (r: Result<
    OAuthRefreshPlan,
    OAuthPrepareError,
>)
    ensures
        match crate::codex_oauth::tokens_from_auth_spec(auth_contents@) {
            None => r == Err::<OAuthRefreshPlan, OAuthPrepareError>(OAuthPrepareError::MissingAccessToken),
            Some(t) => if force_refresh || crate::codex_oauth::refresh_due(t.access_token, now_secs) {
                match t.refresh_token {
                    Some(rt) => if trim(rt).len() > 0 {
                        r matches Ok(OAuthRefreshPlan::Refresh { refresh_token, id_token }) && refresh_token@ == trim(
                            rt,
                        ) && id_token@ == t.id_token
                    } else {
                        r == Err::<OAuthRefreshPlan, OAuthPrepareError>(OAuthPrepareError::MissingRefreshToken)
                    },
                    None => r == Err::<OAuthRefreshPlan, OAuthPrepareError>(OAuthPrepareError::MissingRefreshToken),
                }
            } else {
                r matches Ok(OAuthRefreshPlan::UseCurrent(u)) && u@ == t
            },
        },
{
    let tokens = match crate::codex_oauth::tokens_from_auth_contents(auth_contents) {
        Some(t) => t,
        None => return Err(OAuthPrepareError::MissingAccessToken),
    };
    let due = force_refresh || crate::codex_oauth::token_needs_refresh(tokens.access_token.as_str(), now_secs);
    if !due {
        return Ok(OAuthRefreshPlan::UseCurrent(tokens));
    }
    match &tokens.refresh_token {
        Some(rt) => {
            let t = trim_str(rt.as_str());
            if t.as_str().is_empty() {
                Err(OAuthPrepareError::MissingRefreshToken)
            } else {
                Ok(OAuthRefreshPlan::Refresh { refresh_token: t, id_token: owned(tokens.id_token.as_str()) })
            }
        },
        None => Err(OAuthPrepareError::MissingRefreshToken),
    }
}

/// An OAuth provider ready for a request with `tokens`: when the tokens were
/// refreshed its `auth.json` is rewritten to hold them; it talks to the Codex
/// backend over the Responses API with the access token as its key.
pub fn oauth_profile_with_tokens(profile: crate::settings::RelayProfile, tokens: &CodexOAuthTokens, refreshed: bool) -> (r:
    crate::settings::RelayProfile)
    ensures
        r.id == profile.id,
        r.name == profile.name,
        r.relay_mode == profile.relay_mode,
        r.official_mix_api_key == profile.official_mix_api_key,
        r.model_list == profile.model_list,
        r.config_contents == profile.config_contents,
        r.use_common_config == profile.use_common_config,
        r.base_url@ == CODEX_OAUTH_BASE_URL@,
        r.upstream_base_url@ == CODEX_OAUTH_BASE_URL@,
        r.protocol == crate::settings::RelayProtocol::Responses,
        r.api_key@ == tokens.access_token@,
        !refreshed ==> r.auth_contents == profile.auth_contents,
        refreshed ==> exists|ms: Vec<JsonMember>|
            crate::codex_oauth::auth_doc(ms@, profile.auth_contents@, tokens@) && r.auth_contents@
                == crate::json::json_pretty(JsonValue::Object(ms)) + seq!['\n'],
{
    let mut p = profile;
    if refreshed {
        p.auth_contents = crate::codex_oauth::auth_contents_with_tokens(p.auth_contents.as_str(), tokens);
    }
    p.base_url = owned(CODEX_OAUTH_BASE_URL);
    p.upstream_base_url = owned(CODEX_OAUTH_BASE_URL);
    p.protocol = crate::settings::RelayProtocol::Responses;
    p.api_key = owned(tokens.access_token.as_str());
    p
}

/// The login still waiting for the browser at `now`, if any.
pub fn current_pending_login(session: &Option<OAuthSession>, now: u64) -> (r: Option<crate::codex_oauth::OAuthLoginStart>)
    ensures
        match *session {
            Some(s) => if s.status is Pending && s.expires_at > now {
                r matches Some(st) && st.login_id@ == s.login_id@ && st.auth_url@ == s.auth_url@
            } else {
                r is None
            },
            None => r is None,
        },
{
    match session {
        Some(s) => {
            let pending = match &s.status {
                LoginState::Pending => true,
                _ => false,
            };
            if pending && s.expires_at > now {
                Some(
                    crate::codex_oauth::OAuthLoginStart {
                        login_id: owned(s.login_id.as_str()),
                        auth_url: owned(s.auth_url.as_str()),
                    },
                )
            } else {
                None
            }
        },
        None => None,
    }
}

/// Stores the refreshed `auth.json` of `profile` in the settings: `false`
/// (and nothing changed) when no provider has its id.
pub fn store_refreshed_auth(settings: &mut crate::settings::BackendSettings, profile: &crate::settings::RelayProfile) -> (r:
    bool)
    ensures
        match crate::settings::profile_index(old(settings).relay_profiles@, profile.id@) {
            Some(i) => {
                &&& r
                &&& final(settings).relay_profiles@.len() == old(settings).relay_profiles@.len()
                &&& forall|k: int|
                    0 <= k < old(settings).relay_profiles@.len() && k != i ==> final(settings).relay_profiles@[k]
                        == old(settings).relay_profiles@[k]
                &&& final(settings).relay_profiles@[i].auth_contents@ == profile.auth_contents@
                &&& final(settings).relay_profiles@[i] == (crate::settings::RelayProfile {
                    auth_contents: final(settings).relay_profiles@[i].auth_contents,
                    ..old(settings).relay_profiles@[i]
                })
            },
            None => !r && *final(settings) == *old(settings),
        },
{
    proof {
        crate::settings::lemma_profile_index(settings.relay_profiles@, profile.id@);
    }
    match crate::settings::profile_position(&settings.relay_profiles, profile.id.as_str()) {
        Some(i) => {
            let ghost before = settings.relay_profiles@;
            let mut stored = settings.relay_profiles.remove(i);
            stored.auth_contents = owned(profile.auth_contents.as_str());
            settings.relay_profiles.insert(i, stored);
            assert(settings.relay_profiles@ =~= before.update(i as int, settings.relay_profiles@[i as int]));
            true
        },
        None => false,
    }
}

} // verus!
