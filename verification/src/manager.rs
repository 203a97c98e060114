//! Decisions behind the manager's commands: checking the local relay's
//! provider pool, the provider doctor's verdicts, and start-up options.
use vstd::prelude::*;

use crate::codex_oauth::is_oauth_profile;
use crate::local_relay::{enabled_pred, LocalRelaySettings};
use crate::relay_rotation::{
    contains_str, ids_view, member_ready, relay_profile_api_key, relay_profile_api_key_spec,
    relay_profile_base_url, relay_profile_base_url_spec,
};
use crate::settings::{
    find_profile, lemma_profile_index, profile_index, profile_position, BackendSettings, RelayMode, RelayProfile,
    RelayProtocol,
};
use crate::text::{
    concat2, concat3, decimal, decimal_string, is_blank, owned, starts_with, str_eq, trim, trim_str,
};

verus! {

/// One line of the provider doctor's report.
#[derive(Debug, Clone)]
pub struct ProviderDoctorCheck {
    pub id: String,
    pub title: String,
    pub status: String,
    pub detail: String,
}

/// The provider doctor's report.
#[derive(Debug, Clone)]
pub struct ProviderDoctorPayload {
    pub profile_name: String,
    pub model: String,
    pub summary: String,
    pub recommendation: String,
    pub checks: Vec<ProviderDoctorCheck>,
}

/// What the manager reads at start-up.
#[derive(Debug, Clone)]
pub struct StartupPayload {
    pub show_update: bool,
}

pub const RECOMMEND_CONFIG: &'static str = "先补齐 Base URL 和 API Key；如果使用官方账号，请切换到官方登录模式。";

pub const RECOMMEND_MODELS: &'static str = "优先检查 Base URL 是否包含正确的 /v1 前缀，以及供应商是否支持 /v1/models。";

pub const RECOMMEND_REQUEST: &'static str = "优先检查测试模型名称、上游协议选择和 Key 权限；如果 Chat Completions 可用，请切到对应协议。";

pub const RECOMMEND_MODEL_WARNING: &'static str = "连接可用，但测试模型没有出现在模型列表里；建议改用上游返回的模型名。";

pub const RECOMMEND_READY: &'static str = "可以作为 Codex 供应商使用；如果真实对话仍失败，请查看协议代理日志里的上游响应。";

/// Some check has id `id` and status `status`.
pub open spec fn has_check(checks: Seq<ProviderDoctorCheck>, id: Seq<char>, status: Seq<char>) -> bool {
    exists|i: int| 0 <= i < checks.len() && (#[trigger] checks[i]).id@ == id && checks[i].status@ == status
}

/// Some check has status `status`.
pub open spec fn has_status(checks: Seq<ProviderDoctorCheck>, status: Seq<char>) -> bool {
    exists|i: int| 0 <= i < checks.len() && (#[trigger] checks[i]).status@ == status
}

/// The doctor's advice: the first failing area among configuration, model
/// list and real request, else a warning, else the all-clear.
pub open spec fn recommendation_spec(checks: Seq<ProviderDoctorCheck>) -> Seq<char> {
    if has_check(checks, "config"@, "failed"@) {
        RECOMMEND_CONFIG@
    } else if has_check(checks, "models"@, "failed"@) {
        RECOMMEND_MODELS@
    } else if has_check(checks, "request"@, "failed"@) {
        RECOMMEND_REQUEST@
    } else if has_status(checks, "warning"@) {
        RECOMMEND_MODEL_WARNING@
    } else {
        RECOMMEND_READY@
    }
}

/// Whether some check has id `id` (when given) and status `status`.
fn find_check(checks: &[ProviderDoctorCheck], id: Option<&str>, status: &str) -> (r: bool)
    ensures
        r == match id {
            Some(id) => has_check(checks@, id@, status@),
            None => has_status(checks@, status@),
        },
{
    let mut i: usize = 0;
    while i < checks.len()
        invariant
            i <= checks@.len(),
            forall|j: int|
                0 <= j < i ==> !(match id {
                    Some(id) => (#[trigger] checks@[j]).id@ == id@ && checks@[j].status@ == status@,
                    None => checks@[j].status@ == status@,
                }),
        decreases checks@.len() - i,
    {
        let c = &checks[i];
        let id_ok = match id {
            Some(x) => str_eq(c.id.as_str(), x),
            None => true,
        };
        if id_ok && str_eq(c.status.as_str(), status) {
            return true;
        }
        i = i + 1;
    }
    false
}

/// The provider doctor's advice for a list of checks.
pub fn provider_doctor_recommendation(checks: &[ProviderDoctorCheck]) -> (r: String)
    ensures
        r@ == recommendation_spec(checks@),
{
    if find_check(checks, Some("config"), "failed") {
        owned(RECOMMEND_CONFIG)
    } else if find_check(checks, Some("models"), "failed") {
        owned(RECOMMEND_MODELS)
    } else if find_check(checks, Some("request"), "failed") {
        owned(RECOMMEND_REQUEST)
    } else if find_check(checks, None, "warning") {
        owned(RECOMMEND_MODEL_WARNING)
    } else {
        owned(RECOMMEND_READY)
    }
}

/// The name the doctor reports for a provider: its trimmed name, or a placeholder.
pub open spec fn doctor_profile_name_spec(name: Seq<char>) -> Seq<char> {
    if trim(name).len() == 0 {
        "未命名供应商"@
    } else {
        trim(name)
    }
}

/// The name the doctor reports for a provider.
pub fn doctor_profile_name(name: &str) -> (r: String)
    ensures
        r@ == doctor_profile_name_spec(name@),
{
    if is_blank(name) {
        owned("未命名供应商")
    } else {
        trim_str(name)
    }
}

/// What the doctor can do with a provider before contacting it.
#[derive(Debug, Clone, Copy, PartialEq, Eq, Structural)]
pub enum DoctorPreflight {
    /// An official-login provider without API use: nothing to test.
    OfficialLogin,
    /// The base URL or the key is missing.
    MissingConfig,
    /// The provider can be contacted.
    Ready,
}

/// The doctor's first decision on a provider (`oauth`: it logs in with OAuth).
pub open spec fn doctor_preflight_spec(profile: RelayProfile, oauth: bool) -> DoctorPreflight {
    if !oauth && profile.relay_mode == RelayMode::Official && !profile.official_mix_api_key {
        DoctorPreflight::OfficialLogin
    } else if trim(relay_profile_base_url_spec(profile)).len() == 0 || trim(
        relay_profile_api_key_spec(profile),
    ).len() == 0 {
        DoctorPreflight::MissingConfig
    } else {
        DoctorPreflight::Ready
    }
}

/// The doctor's first decision on a provider (`oauth`: it logs in with OAuth).
pub fn doctor_preflight(profile: &RelayProfile, oauth: bool) -> (r: DoctorPreflight)
    ensures
        r == doctor_preflight_spec(*profile, oauth),
{
    if !oauth && profile.relay_mode == RelayMode::Official && !profile.official_mix_api_key {
        DoctorPreflight::OfficialLogin
    } else if is_blank(relay_profile_base_url(profile)) || is_blank(relay_profile_api_key(profile)) {
        DoctorPreflight::MissingConfig
    } else {
        DoctorPreflight::Ready
    }
}

/// The status of the model-list check: failed when the list is empty, a
/// warning when the test model is named but missing from it, else ok.
pub open spec fn models_status_spec(models: Seq<Seq<char>>, test_model: Seq<char>) -> Seq<char> {
    if models.len() == 0 {
        "failed"@
    } else if trim(test_model).len() == 0 || models.contains(trim(test_model)) {
        "ok"@
    } else {
        "warning"@
    }
}

/// The model-list check for the models an endpoint returned.
pub fn models_check(models: &Vec<String>, test_model: &str, endpoint: &str) -> (r: ProviderDoctorCheck)
    ensures
        r.id@ == "models"@,
        r.title@ == "模型列表"@,
        r.status@ == models_status_spec(ids_view(models@), test_model@),
        r.detail@ == (if models@.len() == 0 {
            endpoint@ + " 返回 0 个模型。"@
        } else if r.status@ == "ok"@ {
            endpoint@ + " 返回 "@ + decimal(models@.len()) + " 个模型。"@
        } else {
            endpoint@ + " 返回 "@ + decimal(models@.len()) + " 个模型，但未看到测试模型「"@ + test_model@
                + "」。"@
        }),
{
    let wanted = trim_str(test_model);
    let count = decimal_string(models.len() as u64);
    let (status, detail) = if models.len() == 0 {
        (owned("failed"), concat2(endpoint, " 返回 0 个模型。"))
    } else if is_blank(test_model) || contains_str(models, wanted.as_str()) {
        let head = concat3(endpoint, " 返回 ", count.as_str());
        (owned("ok"), concat2(head.as_str(), " 个模型。"))
    } else {
        let head = concat3(endpoint, " 返回 ", count.as_str());
        let mid = concat3(head.as_str(), " 个模型，但未看到测试模型「", test_model);
        (owned("warning"), concat2(mid.as_str(), "」。"))
    };
    proof {
        reveal_strlit("ok");
        reveal_strlit("warning");
        reveal_strlit("failed");
    }
    ProviderDoctorCheck { id: owned("models"), title: owned("模型列表"), status, detail }
}

/// The real-request check: ok below HTTP 400, else failed.
pub fn request_check(endpoint: &str, http_status: u16, preview: &str) -> (r: ProviderDoctorCheck)
    ensures
        r.id@ == "request"@,
        r.title@ == "真实请求"@,
        r.status@ == (if http_status < 400 { "ok"@ } else { "failed"@ }),
        r.detail@ == (if trim(preview@).len() == 0 {
            endpoint@ + " 返回 HTTP "@ + decimal(http_status as nat) + "，响应内容为空。"@
        } else {
            endpoint@ + " 返回 HTTP "@ + decimal(http_status as nat) + "："@ + trim(preview@)
        }),
{
    let code = decimal_string(http_status as u64);
    let head = concat3(endpoint, " 返回 HTTP ", code.as_str());
    let detail = if is_blank(preview) {
        concat2(head.as_str(), "，响应内容为空。")
    } else {
        let t = trim_str(preview);
        concat3(head.as_str(), "：", t.as_str())
    };
    let status = if http_status < 400 {
        owned("ok")
    } else {
        owned("failed")
    };
    ProviderDoctorCheck { id: owned("request"), title: owned("真实请求"), status, detail }
}

/// The number of checks with status `status`.
pub open spec fn count_status(checks: Seq<ProviderDoctorCheck>, status: Seq<char>) -> nat
    decreases checks.len(),
{
    if checks.len() == 0 {
        0
    } else {
        count_status(checks.drop_last(), status) + (if checks.last().status@ == status { 1nat } else { 0nat })
    }
}

fn count_checks(checks: &[ProviderDoctorCheck], status: &str) -> (r: usize)
    ensures
        r as nat == count_status(checks@, status@),
{
    let mut n: usize = 0;
    let mut i: usize = 0;
    while i < checks.len()
        invariant
            i <= checks@.len(),
            n as nat == count_status(checks@.take(i as int), status@),
            n <= i,
        decreases checks@.len() - i,
    {
        assert(checks@.take(i as int + 1).drop_last() =~= checks@.take(i as int));
        if str_eq(checks[i].status.as_str(), status) {
            n = n + 1;
        }
        i = i + 1;
    }
    assert(checks@.take(checks@.len() as int) =~= checks@);
    n
}

/// The doctor's overall summary: the number of failed checks, else the
/// number of warnings, else a pass.
pub fn doctor_summary(checks: &[ProviderDoctorCheck]) -> (r: String)
    ensures
        r@ == (if count_status(checks@, "failed"@) > 0 {
            "发现 "@ + decimal(count_status(checks@, "failed"@)) + " 项失败，Codex 可能无法使用该供应商。"@
        } else if count_status(checks@, "warning"@) > 0 {
            "基础连接可用，但有 "@ + decimal(count_status(checks@, "warning"@)) + " 项需要确认。"@
        } else {
            "供应商基础诊断通过。"@
        }),
{
    let failed = count_checks(checks, "failed");
    let warnings = count_checks(checks, "warning");
    if failed > 0 {
        let n = decimal_string(failed as u64);
        concat3("发现 ", n.as_str(), " 项失败，Codex 可能无法使用该供应商。")
    } else if warnings > 0 {
        let n = decimal_string(warnings as u64);
        concat3("基础连接可用，但有 ", n.as_str(), " 项需要确认。")
    } else {
        owned("供应商基础诊断通过。")
    }
}

/// Whether the manager should open on its update page: the
/// `--show-update` argument, or the environment value `1`.
pub fn should_show_update(args: &[&str], env_value: Option<&str>) -> (r: bool)
    ensures
        r == ((exists|i: int| 0 <= i < args@.len() && (#[trigger] args@[i])@ == "--show-update"@) || (
        env_value is Some && env_value->0@ == "1"@)),
{
    let mut i: usize = 0;
    while i < args.len()
        invariant
            i <= args@.len(),
            forall|j: int| 0 <= j < i ==> (#[trigger] args@[j])@ != "--show-update"@,
        decreases args@.len() - i,
    {
        if str_eq(args[i], "--show-update") {
            return true;
        }
        i = i + 1;
    }
    match env_value {
        Some(v) => str_eq(v, "1"),
        None => false,
    }
}

/// Why the local relay's provider pool cannot start, as character sequences.
pub enum LocalPoolErrorView {
    NoProviders,
    NoneEnabled,
    MissingProvider { id: Seq<char> },
    PoolMember { name: Seq<char> },
    MissingCredentials { name: Seq<char> },
}

/// Why the local relay's provider pool cannot start.
#[derive(Debug, Clone)]
pub enum LocalPoolError {
    /// No provider was added to the pool.
    NoProviders,
    /// Every provider of the pool is disabled.
    NoneEnabled,
    /// An enabled provider no longer exists.
    MissingProvider { id: String },
    /// An enabled provider is itself a pool.
    PoolMember { name: String },
    /// An enabled provider has neither OAuth credentials nor a base URL and key.
    MissingCredentials { name: String },
}

impl View for LocalPoolError {
    type V = LocalPoolErrorView;

    open spec fn view(&self) -> LocalPoolErrorView {
        match self {
            LocalPoolError::NoProviders => LocalPoolErrorView::NoProviders,
            LocalPoolError::NoneEnabled => LocalPoolErrorView::NoneEnabled,
            LocalPoolError::MissingProvider { id } => LocalPoolErrorView::MissingProvider { id: id@ },
            LocalPoolError::PoolMember { name } => LocalPoolErrorView::PoolMember { name: name@ },
            LocalPoolError::MissingCredentials { name } => LocalPoolErrorView::MissingCredentials { name: name@ },
        }
    }
}

/// The message shown for a pool error.
pub open spec fn pool_error_message(e: LocalPoolErrorView) -> Seq<char> {
    match e {
        LocalPoolErrorView::NoProviders => "请先从供应商列表添加至少一个供应商"@,
        LocalPoolErrorView::NoneEnabled => "请至少启用一个参与中转的供应商"@,
        LocalPoolErrorView::MissingProvider { id } => "供应商「"@ + id + "」已不存在"@,
        LocalPoolErrorView::PoolMember { name } => "供应商「"@ + name + "」不能加入本地中转"@,
        LocalPoolErrorView::MissingCredentials { name } => "供应商「"@ + name + "」缺少 OAuth 凭据或 Base URL / Key"@,
    }
}

impl LocalPoolError {
    /// The message shown for this error.
    pub fn message(&self) -> (r: String)
        ensures
            r@ == pool_error_message(self@),
    {
        match self {
            LocalPoolError::NoProviders => owned("请先从供应商列表添加至少一个供应商"),
            LocalPoolError::NoneEnabled => owned("请至少启用一个参与中转的供应商"),
            LocalPoolError::MissingProvider { id } => concat3("供应商「", id.as_str(), "」已不存在"),
            LocalPoolError::PoolMember { name } => concat3("供应商「", name.as_str(), "」不能加入本地中转"),
            LocalPoolError::MissingCredentials { name } => concat3(
                "供应商「",
                name.as_str(),
                "」缺少 OAuth 凭据或 Base URL / Key",
            ),
        }
    }
}

/// The problem with enabled provider `id`, if any.
pub open spec fn pool_problem(settings: BackendSettings, id: Seq<char>) -> Option<LocalPoolErrorView> {
    match find_profile(settings.relay_profiles@, id) {
        None => Some(LocalPoolErrorView::MissingProvider { id }),
        Some(p) => if p.relay_mode == RelayMode::Aggregate {
            Some(LocalPoolErrorView::PoolMember { name: p.name@ })
        } else if !member_ready(p) {
            Some(LocalPoolErrorView::MissingCredentials { name: p.name@ })
        } else {
            None
        },
    }
}

/// The first problem among the enabled providers from position `from` on.
pub open spec fn first_pool_problem(settings: BackendSettings, ids: Seq<Seq<char>>, from: int) -> Option<
    LocalPoolErrorView,
>
    decreases ids.len() - from,
{
    if from < 0 || from >= ids.len() {
        None
    } else if pool_problem(settings, ids[from]) is Some {
        pool_problem(settings, ids[from])
    } else {
        first_pool_problem(settings, ids, from + 1)
    }
}

/// The outcome of checking the local relay's pool: the provider whose files
/// the relay starts from (the active provider when it is in the pool, else
/// the first enabled one), or the first problem found.
pub open spec fn validate_pool_spec(settings: BackendSettings, local: LocalRelaySettings) -> Result<
    RelayProfile,
    LocalPoolErrorView,
> {
    let ids = ids_view(local.provider_ids@).filter(enabled_pred(local));
    if local.provider_ids@.len() == 0 {
        Err(LocalPoolErrorView::NoProviders)
    } else if ids.len() == 0 {
        Err(LocalPoolErrorView::NoneEnabled)
    } else {
        match first_pool_problem(settings, ids, 0) {
            Some(e) => Err(e),
            None => Ok(
                if ids.contains(settings.active_relay_id@) {
                    find_profile(settings.relay_profiles@, settings.active_relay_id@)->0
                } else {
                    find_profile(settings.relay_profiles@, ids[0])->0
                },
            ),
        }
    }
}

/// Checks the local relay's provider pool and picks the provider the relay starts from.
pub fn validate_local_relay_provider_pool(settings: &BackendSettings, local: &LocalRelaySettings) -> (r:
    Result<RelayProfile, LocalPoolError>)
    ensures
        match (r, validate_pool_spec(*settings, *local)) {
            (Ok(p), Ok(q)) => p == q,
            (Err(e), Err(f)) => e@ == f,
            _ => false,
        },
{
    if local.provider_ids.len() == 0 {
        return Err(LocalPoolError::NoProviders);
    }
    let enabled = local.enabled_provider_ids();
    if enabled.len() == 0 {
        return Err(LocalPoolError::NoneEnabled);
    }
    let ghost ids = ids_view(enabled@);
    let mut source: usize = 0;
    let mut i: usize = 0;
    while i < enabled.len()
        invariant
            i <= ids.len(),
            ids.len() > 0,
            ids == ids_view(enabled@),
            ids == ids_view(local.provider_ids@).filter(enabled_pred(*local)),
            local.provider_ids@.len() > 0,
            first_pool_problem(*settings, ids, 0) == first_pool_problem(*settings, ids, i as int),
            forall|j: int| 0 <= j < i ==> (#[trigger] pool_problem(*settings, ids[j])) is None,
            i > 0 ==> source < settings.relay_profiles@.len() && Some(settings.relay_profiles@[source as int])
                == (if ids.take(i as int).contains(settings.active_relay_id@) {
                find_profile(settings.relay_profiles@, settings.active_relay_id@)
            } else {
                find_profile(settings.relay_profiles@, ids[0])
            }),
        decreases ids.len() - i,
    {
        let id = enabled[i].as_str();
        proof {
            lemma_profile_index(settings.relay_profiles@, id@);
        }
        let k = match profile_position(&settings.relay_profiles, id) {
            Some(k) => k,
            None => {
                assert(pool_problem(*settings, ids[i as int]) == Some(LocalPoolErrorView::MissingProvider { id: ids[i as int] }));
                assert(first_pool_problem(*settings, ids, i as int) == pool_problem(*settings, ids[i as int]));
                return Err(LocalPoolError::MissingProvider { id: enabled[i].clone() });
            },
        };
        let profile = &settings.relay_profiles[k];
        if profile.relay_mode == RelayMode::Aggregate {
            return Err(LocalPoolError::PoolMember { name: profile.name.clone() });
        }
        let oauth_ready = is_oauth_profile(profile);
        let api_ready = !is_blank(relay_profile_base_url(profile)) && !is_blank(relay_profile_api_key(profile));
        if !oauth_ready && !api_ready {
            assert(!member_ready(settings.relay_profiles@[k as int]));
            assert(pool_problem(*settings, ids[i as int]) == Some(LocalPoolErrorView::MissingCredentials { name: profile.name@ }));
            assert(first_pool_problem(*settings, ids, i as int) == pool_problem(*settings, ids[i as int]));
            return Err(LocalPoolError::MissingCredentials { name: profile.name.clone() });
        }
        assert(ids.take(i as int + 1) =~= ids.take(i as int).push(ids[i as int]));
        if i == 0 || str_eq(profile.id.as_str(), settings.active_relay_id.as_str()) {
            source = k;
        }
        proof {
            assert(find_profile(settings.relay_profiles@, id@) == Some(settings.relay_profiles@[k as int]));
            assert(id@ == ids[i as int]);
            assert(profile.id@ == id@);
            if ids[i as int] == settings.active_relay_id@ {
                assert(find_profile(settings.relay_profiles@, settings.active_relay_id@) == Some(settings.relay_profiles@[k as int]));
            }
            let t0 = ids.take(i as int);
            let t1 = ids.take(i as int + 1);
            let a = settings.active_relay_id@;
            assert(t1 == t0.push(ids[i as int]));
            if t1.contains(a) && !t0.contains(a) {
                let w = choose|w: int| 0 <= w < t1.len() && #[trigger] t1[w] == a;
                if w < i {
                    assert(t0[w] == a);
                }
                assert(ids[i as int] == a);
            }
            if t0.contains(a) {
                let w = choose|w: int| 0 <= w < t0.len() && #[trigger] t0[w] == a;
                assert(t1[w] == a);
            }
            if ids[i as int] == a {
                assert(t1[i as int] == a);
            }
        }
        i = i + 1;
    }
    assert(ids.take(ids.len() as int) =~= ids);
    Ok(settings.relay_profiles[source].duplicate())
}

/// The address clients use to reach the local relay on `port`.
pub fn local_relay_base_url(port: u16) -> (r: String)
    ensures
        r@ == "http://127.0.0.1:"@ + decimal(port as nat) + "/v1"@,
{
    let p = decimal_string(port as u64);
    concat3("http://127.0.0.1:", p.as_str(), "/v1")
}

} // verus!

verus! {

/// Whether a provider has the files it needs: an official login with an API
/// key mixed in needs only its configuration, any other both configuration
/// and `auth.json`.
pub fn relay_has_complete_files(relay: &RelayProfile) -> (r: bool)
    ensures
        r == (if relay.relay_mode == RelayMode::Official && relay.official_mix_api_key {
            trim(relay.config_contents@).len() > 0
        } else {
            trim(relay.config_contents@).len() > 0 && trim(relay.auth_contents@).len() > 0
        }),
{
    if relay.relay_mode == RelayMode::Official && relay.official_mix_api_key {
        return !is_blank(relay.config_contents.as_str());
    }
    !is_blank(relay.config_contents.as_str()) && !is_blank(relay.auth_contents.as_str())
}

/// A character allowed in an event name; anything else becomes `_`.
pub open spec fn event_char(c: char) -> char {
    if crate::text::is_ascii_alnum(c) || c == '_' || c == '-' || c == '.' {
        c
    } else {
        '_'
    }
}

/// The separators trimmed off an event name.
pub open spec fn is_event_punct(c: char) -> bool {
    c == '.' || c == '_' || c == '-'
}

/// Number of separators at the start of `s`.
pub open spec fn lead_punct(s: Seq<char>) -> nat
    decreases s.len(),
{
    if s.len() == 0 {
        0
    } else if is_event_punct(s[0]) {
        1 + lead_punct(s.drop_first())
    } else {
        0
    }
}

/// Number of separators at the end of `s`.
pub open spec fn trail_punct(s: Seq<char>) -> nat
    decreases s.len(),
{
    if s.len() == 0 {
        0
    } else if is_event_punct(s.last()) {
        1 + trail_punct(s.drop_last())
    } else {
        0
    }
}

/// `s` without separators at either end.
pub open spec fn strip_punct(s: Seq<char>) -> Seq<char> {
    let a = s.subrange(lead_punct(s) as int, s.len() as int);
    a.subrange(0, a.len() - trail_punct(a))
}

/// The name under which an event from the manager's window is logged: its
/// allowed characters, without separators at either end, under
/// `manager.ui.` unless it already starts with `manager.`.
pub open spec fn manager_event_name(event: Seq<char>) -> Seq<char> {
    let suffix = trim(strip_punct(trim(event).map_values(|c: char| event_char(c))));
    if suffix.len() == 0 {
        "manager.ui.event"@
    } else if crate::text::starts_with(suffix, "manager."@) {
        suffix
    } else {
        "manager.ui."@ + suffix
    }
}

proof fn lemma_lead_punct_exact(s: Seq<char>, k: int)
    requires
        0 <= k <= s.len(),
        forall|i: int| 0 <= i < k ==> is_event_punct(#[trigger] s[i]),
        k < s.len() ==> !is_event_punct(s[k]),
    ensures
        lead_punct(s) == k,
    decreases s.len(),
{
    if k > 0 {
        assert(is_event_punct(s[0]));
        assert forall|i: int| 0 <= i < k - 1 implies is_event_punct(#[trigger] s.drop_first()[i]) by {
            assert(s.drop_first()[i] == s[i + 1]);
        }
        if k - 1 < s.drop_first().len() {
            assert(s.drop_first()[k - 1] == s[k]);
        }
        lemma_lead_punct_exact(s.drop_first(), k - 1);
    }
}

proof fn lemma_trail_punct_exact(s: Seq<char>, k: int)
    requires
        0 <= k <= s.len(),
        forall|i: int| s.len() - k <= i < s.len() ==> is_event_punct(#[trigger] s[i]),
        k < s.len() ==> !is_event_punct(s[s.len() - k - 1]),
    ensures
        trail_punct(s) == k,
    decreases s.len(),
{
    if k > 0 {
        assert(is_event_punct(s.last()));
        let t = s.drop_last();
        assert forall|i: int| t.len() - (k - 1) <= i < t.len() implies is_event_punct(#[trigger] t[i]) by {
            assert(t[i] == s[i]);
        }
        if k - 1 < t.len() {
            assert(t[t.len() - (k - 1) - 1] == s[s.len() - k - 1]);
        }
        lemma_trail_punct_exact(t, k - 1);
    }
}

/// The name under which an event from the manager's window is logged.
pub fn sanitize_manager_event(event: &str) -> (r: String)
    ensures
        r@ == manager_event_name(event@),
{
    let t = crate::text::trim_chars(crate::text::str_chars(event).as_slice());
    let mut m: Vec<char> = Vec::new();
    let mut i: usize = 0;
    while i < t.len()
        invariant
            i <= t@.len(),
            m@ == t@.take(i as int).map_values(|c: char| event_char(c)),
        decreases t@.len() - i,
    {
        let c = t[i];
        let d = if crate::text::char_is_ascii_alnum(c) || c == '_' || c == '-' || c == '.' { c } else { '_' };
        m.push(d);
        assert(t@.take(i + 1).map_values(|c: char| event_char(c)) =~= t@.take(i as int).map_values(
            |c: char| event_char(c),
        ).push(event_char(t@[i as int])));
        i = i + 1;
    }
    assert(t@.take(t@.len() as int) =~= t@);
    let n = m.len();
    let mut a: usize = 0;
    while a < n && (m[a] == '.' || m[a] == '_' || m[a] == '-')
        invariant
            a <= n,
            n == m@.len(),
            forall|j: int| 0 <= j < a ==> is_event_punct(#[trigger] m@[j]),
        decreases n - a,
    {
        a = a + 1;
    }
    proof {
        lemma_lead_punct_exact(m@, a as int);
    }
    let rest = crate::text::slice_chars(m.as_slice(), a, n);
    let k = rest.len();
    let mut b: usize = k;
    while b > 0 && (rest[b - 1] == '.' || rest[b - 1] == '_' || rest[b - 1] == '-')
        invariant
            b <= k,
            k == rest@.len(),
            forall|j: int| b <= j < k ==> is_event_punct(#[trigger] rest@[j]),
        decreases b,
    {
        b = b - 1;
    }
    proof {
        lemma_trail_punct_exact(rest@, (k - b) as int);
    }
    let stripped = crate::text::slice_chars(rest.as_slice(), 0, b);
    let suffix = crate::text::trim_chars(stripped.as_slice());
    let s = crate::text::string_from(suffix.as_slice());
    if suffix.len() == 0 {
        owned("manager.ui.event")
    } else if crate::text::str_starts_with(s.as_str(), "manager.") {
        s
    } else {
        concat2("manager.ui.", s.as_str())
    }
}

} // verus!

verus! {

/// A provider id worth keeping in a provider sync list: trimmed, not empty,
/// without control characters.
pub open spec fn sync_list_entry(v: Seq<char>) -> bool {
    trim(v).len() > 0 && !crate::text::has_control(trim(v))
}

/// The provider ids a list of entries names, each trimmed.
pub open spec fn sync_list_set(vs: Seq<Seq<char>>) -> Set<Seq<char>> {
    Set::new(|x: Seq<char>| exists|i: int| 0 <= i < vs.len() && sync_list_entry(vs[i]) && x == trim(#[trigger] vs[i]))
}

/// A provider sync list cleaned up: each id trimmed, empty ones and ones
/// with control characters dropped, each id once, in sorted order.
pub fn normalize_provider_sync_provider_list(values: Vec<String>) -> (r: Vec<String>)
    ensures
        crate::order::strictly_sorted(ids_view(r@)),
        ids_view(r@).to_set() == sync_list_set(ids_view(values@)),
{
    let ghost vs = ids_view(values@);
    let mut out: Vec<String> = Vec::new();
    assert(ids_view(out@).to_set() =~= sync_list_set(vs.take(0)));
    let mut i: usize = 0;
    while i < values.len()
        invariant
            i <= values@.len(),
            vs == ids_view(values@),
            crate::order::strictly_sorted(ids_view(out@)),
            ids_view(out@).to_set() == sync_list_set(vs.take(i as int)),
        decreases values@.len() - i,
    {
        let t = trim_str(values[i].as_str());
        let tc = crate::text::str_chars(t.as_str());
        let valid = tc.len() > 0 && !crate::text::has_control_exec(tc.as_slice());
        let ghost before = ids_view(out@).to_set();
        assert(vs[i as int] == values@[i as int]@);
        if valid {
            crate::order::insert_sorted(&mut out, t);
            assert(sync_list_set(vs.take(i + 1)) =~= before.insert(trim(vs[i as int]))) by {
                assert forall|x: Seq<char>| sync_list_set(vs.take(i + 1)).contains(x) implies before.insert(
                    trim(vs[i as int]),
                ).contains(x) by {
                    let j = choose|j: int|
                        0 <= j < vs.take(i + 1).len() && sync_list_entry(vs.take(i + 1)[j]) && x == trim(
                            #[trigger] vs.take(i + 1)[j],
                        );
                    if j < i {
                        assert(vs.take(i as int)[j] == vs.take(i + 1)[j]);
                        assert(sync_list_set(vs.take(i as int)).contains(x));
                    }
                }
                assert forall|x: Seq<char>| before.insert(trim(vs[i as int])).contains(x) implies sync_list_set(
                    vs.take(i + 1),
                ).contains(x) by {
                    if x == trim(vs[i as int]) {
                        assert(vs.take(i + 1)[i as int] == vs[i as int]);
                    } else {
                        let j = choose|j: int|
                            0 <= j < vs.take(i as int).len() && sync_list_entry(vs.take(i as int)[j]) && x == trim(
                                #[trigger] vs.take(i as int)[j],
                            );
                        assert(vs.take(i + 1)[j] == vs.take(i as int)[j]);
                    }
                }
            }
        } else {
            assert(sync_list_set(vs.take(i + 1)) =~= before) by {
                assert forall|x: Seq<char>| sync_list_set(vs.take(i + 1)).contains(x) implies before.contains(x) by {
                    let j = choose|j: int|
                        0 <= j < vs.take(i + 1).len() && sync_list_entry(vs.take(i + 1)[j]) && x == trim(
                            #[trigger] vs.take(i + 1)[j],
                        );
                    if j < i {
                        assert(vs.take(i as int)[j] == vs.take(i + 1)[j]);
                    } else {
                        assert(vs.take(i + 1)[j] == vs[i as int]);
                    }
                }
                assert forall|x: Seq<char>| before.contains(x) implies sync_list_set(vs.take(i + 1)).contains(x) by {
                    let j = choose|j: int|
                        0 <= j < vs.take(i as int).len() && sync_list_entry(vs.take(i as int)[j]) && x == trim(
                            #[trigger] vs.take(i as int)[j],
                        );
                    assert(vs.take(i + 1)[j] == vs.take(i as int)[j]);
                }
            }
        }
        i = i + 1;
    }
    assert(vs.take(vs.len() as int) =~= vs);
    out
}

} // verus!

verus! {

/// Records the provider last chosen for a sync: it becomes the last
/// selection and joins the saved providers (cleaned up as
/// `normalize_provider_sync_provider_list` does). A blank choice changes nothing.
pub fn remember_provider_sync_selection(settings: &mut BackendSettings, provider: &str)
    ensures
        trim(provider@).len() == 0 ==> *final(settings) == *old(settings),
        trim(provider@).len() > 0 ==> {
            &&& final(settings).provider_sync_last_selected_provider@ == trim(provider@)
            &&& crate::order::strictly_sorted(ids_view(final(settings).provider_sync_saved_providers@))
            &&& ids_view(final(settings).provider_sync_saved_providers@).to_set() == sync_list_set(
                ids_view(old(settings).provider_sync_saved_providers@).push(trim(provider@)),
            )
            &&& final(settings).relay_profiles == old(settings).relay_profiles
            &&& final(settings).aggregate_relay_profiles == old(settings).aggregate_relay_profiles
            &&& final(settings).active_relay_id == old(settings).active_relay_id
            &&& final(settings).active_aggregate_relay_id == old(settings).active_aggregate_relay_id
            &&& final(settings).relay_common_config_contents == old(settings).relay_common_config_contents
            &&& final(settings).relay_context_config_contents == old(settings).relay_context_config_contents
            &&& final(settings).provider_sync_manual_providers == old(settings).provider_sync_manual_providers
        },
{
    let trimmed = trim_str(provider);
    if crate::text::str_chars(trimmed.as_str()).len() == 0 {
        return;
    }
    let mut saved: Vec<String> = Vec::new();
    std::mem::swap(&mut saved, &mut settings.provider_sync_saved_providers);
    let ghost old_saved = ids_view(saved@);
    saved.push(trim_str(provider));
    assert(ids_view(saved@) =~= old_saved.push(trim(provider@)));
    settings.provider_sync_saved_providers = normalize_provider_sync_provider_list(saved);
    settings.provider_sync_last_selected_provider = trimmed;
}

/// A provider that a pool can hold: one with this id that is not itself an aggregate.
pub open spec fn pool_candidate(settings: BackendSettings, id: Seq<char>) -> bool {
    exists|j: int|
        0 <= j < settings.relay_profiles@.len() && (#[trigger] settings.relay_profiles@[j]).relay_mode
            != RelayMode::Aggregate && settings.relay_profiles@[j].id@ == id
}

/// The test that keeps the ids of providers a pool can hold.
pub open spec fn pool_candidate_pred(settings: BackendSettings) -> spec_fn(Seq<char>) -> bool {
    |id: Seq<char>| pool_candidate(settings, id)
}

/// Whether a provider a pool can hold has this id.
fn is_pool_candidate(settings: &BackendSettings, id: &str) -> (r: bool)
    ensures
        r == pool_candidate(*settings, id@),
{
    let mut j: usize = 0;
    while j < settings.relay_profiles.len()
        invariant
            j <= settings.relay_profiles@.len(),
            forall|k: int|
                0 <= k < j ==> !((#[trigger] settings.relay_profiles@[k]).relay_mode != RelayMode::Aggregate
                    && settings.relay_profiles@[k].id@ == id@),
        decreases settings.relay_profiles@.len() - j,
    {
        let p = &settings.relay_profiles[j];
        if p.relay_mode != RelayMode::Aggregate && str_eq(p.id.as_str(), id) {
            return true;
        }
        j = j + 1;
    }
    false
}

/// Drops from the local relay's pool the providers that the settings no
/// longer hold (or that became aggregates); says whether any was dropped.
pub fn retain_available_provider_ids(provider_ids: &mut Vec<String>, settings: &BackendSettings) -> (changed: bool)
    ensures
        ids_view(final(provider_ids)@) == ids_view(old(provider_ids)@).filter(pool_candidate_pred(*settings)),
        changed == (final(provider_ids)@.len() != old(provider_ids)@.len()),
{
    let ghost v = ids_view(provider_ids@);
    let ghost pred = pool_candidate_pred(*settings);
    let mut kept: Vec<String> = Vec::new();
    let mut i: usize = 0;
    while i < provider_ids.len()
        invariant
            i <= v.len(),
            v == ids_view(provider_ids@),
            provider_ids@ == old(provider_ids)@,
            pred == pool_candidate_pred(*settings),
            ids_view(kept@) == v.take(i as int).filter(pred),
            kept@.len() <= i,
        decreases v.len() - i,
    {
        proof {
            crate::relay_rotation::lemma_filter_take_step(v, pred, i as int);
        }
        assert(v[i as int] == provider_ids@[i as int]@);
        if is_pool_candidate(settings, provider_ids[i].as_str()) {
            let ghost before = ids_view(kept@);
            kept.push(provider_ids[i].clone());
            assert(ids_view(kept@) =~= before.push(v[i as int]));
        }
        i = i + 1;
    }
    assert(v.take(v.len() as int) =~= v);
    let changed = kept.len() != provider_ids.len();
    *provider_ids = kept;
    changed
}

} // verus!

verus! {

/// Position of the first provider whose OAuth identity is `ident`.
pub open spec fn identity_index(profiles: Seq<RelayProfile>, ident: Seq<char>) -> Option<int>
    decreases profiles.len(),
{
    if profiles.len() == 0 {
        None
    } else if crate::codex_oauth::oauth_identity_spec(profiles[0]) == Some(ident) {
        Some(0)
    } else {
        match identity_index(profiles.drop_first(), ident) {
            Some(i) => Some(i + 1),
            None => None,
        }
    }
}

proof fn lemma_identity_index(profiles: Seq<RelayProfile>, ident: Seq<char>)
    ensures
        match identity_index(profiles, ident) {
            Some(i) => 0 <= i < profiles.len() && crate::codex_oauth::oauth_identity_spec(profiles[i]) == Some(ident)
                && forall|j: int|
                0 <= j < i ==> crate::codex_oauth::oauth_identity_spec(#[trigger] profiles[j]) != Some(ident),
            None => forall|j: int|
                0 <= j < profiles.len() ==> crate::codex_oauth::oauth_identity_spec(#[trigger] profiles[j]) != Some(
                    ident,
                ),
        },
    decreases profiles.len(),
{
    if profiles.len() > 0 && crate::codex_oauth::oauth_identity_spec(profiles[0]) != Some(ident) {
        lemma_identity_index(profiles.drop_first(), ident);
        assert forall|j: int| 0 < j < profiles.len() implies profiles[j] == profiles.drop_first()[j - 1] by {}
    }
}

/// Why an OAuth login cannot be saved as a provider.
#[derive(Debug, Clone, Copy, PartialEq, Eq, Structural)]
pub enum OAuthUpsertError {
    /// The login's `auth.json` holds no access token.
    NoTokens,
    /// The tokens name neither an account nor a user.
    NoIdentity,
}

impl OAuthUpsertError {
    /// The message shown for this error.
    pub fn message(&self) -> (r: &'static str)
        ensures
            r@ == match self {
                OAuthUpsertError::NoTokens => "auth.json 中未找到可导入的 Codex OAuth Token"@,
                OAuthUpsertError::NoIdentity => "OAuth 登录结果缺少稳定账号标识"@,
            },
    {
        match self {
            OAuthUpsertError::NoTokens => "auth.json 中未找到可导入的 Codex OAuth Token",
            OAuthUpsertError::NoIdentity => "OAuth 登录结果缺少稳定账号标识",
        }
    }
}

/// The identity an OAuth login's `auth.json` names: its account id, else its label.
pub open spec fn auth_identity(auth: Seq<char>) -> Option<Seq<char>> {
    match crate::codex_oauth::tokens_from_auth_spec(auth) {
        None => None,
        Some(t) => match t.account_id {
            Some(a) => Some(a),
            None => crate::codex_oauth::account_label_spec(t),
        },
    }
}

/// A provider after a new login of its account: the new `auth.json`,
/// official login over the responses protocol without a mixed-in key, and
/// the account's name when it had none.
pub open spec fn refreshed_login(p: RelayProfile, q: RelayProfile, auth: Seq<char>, name: Seq<char>) -> bool {
    &&& q.auth_contents@ == auth
    &&& q.relay_mode == RelayMode::Official
    &&& q.protocol == RelayProtocol::Responses
    &&& !q.official_mix_api_key
    &&& q.name@ == (if trim(p.name@).len() == 0 { name } else { p.name@ })
    &&& q.id == p.id
    &&& q.base_url == p.base_url && q.upstream_base_url == p.upstream_base_url && q.api_key == p.api_key
    &&& q.model_list == p.model_list && q.config_contents == p.config_contents
    &&& q.use_common_config == p.use_common_config
}

/// The name a provider made from this `auth.json` takes: the account's
/// label, else `Codex OAuth`.
pub open spec fn oauth_label(auth: Seq<char>) -> Seq<char> {
    match crate::codex_oauth::tokens_from_auth_spec(auth) {
        Some(t) => match crate::codex_oauth::account_label_spec(t) {
            Some(l) => l,
            None => "Codex OAuth"@,
        },
        None => "Codex OAuth"@,
    }
}

/// A provider newly made from a login: an id free among `ids` derived from
/// the account, the account's name, official login over the responses
/// protocol, and the given files.
pub open spec fn new_login_profile(p: RelayProfile, ids: Seq<Seq<char>>, config: Seq<char>, auth: Seq<char>) -> bool {
    &&& crate::codex_oauth::unique_id_ok(
        crate::codex_oauth::oauth_base_id(crate::codex_oauth::identity_of(crate::codex_oauth::tokens_from_auth_spec(auth)->0)),
        ids,
        p.id@,
    )
    &&& p.name@ == oauth_label(auth)
    &&& p.relay_mode == RelayMode::Official
    &&& p.protocol == RelayProtocol::Responses
    &&& p.config_contents@ == config
    &&& p.auth_contents@ == auth
}

/// The providers after a login of the account `auth` names was saved
/// among `old_ps`, with the id of the provider that holds it: the provider of
/// the same account is refreshed in place, else a new one is added.
pub open spec fn upsert_outcome(
    old_ps: Seq<RelayProfile>,
    new_ps: Seq<RelayProfile>,
    config: Seq<char>,
    auth: Seq<char>,
    id: Seq<char>,
) -> bool {
    match auth_identity(auth) {
        None => false,
        Some(ident) => match identity_index(old_ps, ident) {
            Some(j) => {
                &&& new_ps.len() == old_ps.len()
                &&& forall|k: int| 0 <= k < old_ps.len() && k != j ==> new_ps[k] == old_ps[k]
                &&& refreshed_login(old_ps[j], new_ps[j], auth, oauth_label(auth))
                &&& id == old_ps[j].id@
            },
            None => {
                &&& new_ps.len() == old_ps.len() + 1
                &&& new_ps.drop_last() == old_ps
                &&& id == new_ps.last().id@
                &&& new_login_profile(new_ps.last(), old_ps.map_values(|q: RelayProfile| q.id@), config, auth)
            },
        },
    }
}

/// After a login is saved, its account has a provider.
pub proof fn law_saved_login_has_a_provider(
    old_ps: Seq<RelayProfile>,
    new_ps: Seq<RelayProfile>,
    config: Seq<char>,
    auth: Seq<char>,
    id: Seq<char>,
)
    requires
        upsert_outcome(old_ps, new_ps, config, auth, id),
    ensures
        identity_index(new_ps, auth_identity(auth)->0) is Some,
{
    let ident = auth_identity(auth)->0;
    lemma_identity_index(old_ps, ident);
    lemma_identity_index(new_ps, ident);
    match identity_index(old_ps, ident) {
        Some(j) => {
            assert(crate::codex_oauth::oauth_identity_spec(new_ps[j]) == Some(ident));
        },
        None => {
            assert(crate::codex_oauth::oauth_identity_spec(new_ps[new_ps.len() - 1]) == Some(ident));
        },
    }
}

/// Logging in again with the same account adds no provider: after two saved
/// logins of one account, the second leaves the number of providers as the
/// first left it.
pub proof fn law_relogin_adds_no_provider(
    ps0: Seq<RelayProfile>,
    ps1: Seq<RelayProfile>,
    ps2: Seq<RelayProfile>,
    config1: Seq<char>,
    auth1: Seq<char>,
    id1: Seq<char>,
    config2: Seq<char>,
    auth2: Seq<char>,
    id2: Seq<char>,
)
    requires
        upsert_outcome(ps0, ps1, config1, auth1, id1),
        upsert_outcome(ps1, ps2, config2, auth2, id2),
        auth_identity(auth1) == auth_identity(auth2),
    ensures
        ps2.len() == ps1.len(),
{
    law_saved_login_has_a_provider(ps0, ps1, config1, auth1, id1);
}

/// Saves a Codex OAuth login among the providers: the provider of the same
/// account is updated, else a new one is added. Gives the provider's id.
pub fn upsert_oauth_profile_into(settings: &mut BackendSettings, config_contents: String, auth_contents: String) -> (r:
    Result<String, OAuthUpsertError>)
    requires
        old(settings).relay_profiles@.len() < usize::MAX - 3,
    ensures
        crate::codex_oauth::tokens_from_auth_spec(auth_contents@) is None ==> r == Err::<String, OAuthUpsertError>(
            OAuthUpsertError::NoTokens,
        ) && *final(settings) == *old(settings),
        crate::codex_oauth::tokens_from_auth_spec(auth_contents@) is Some && auth_identity(auth_contents@) is None
            ==> r == Err::<String, OAuthUpsertError>(OAuthUpsertError::NoIdentity) && *final(settings) == *old(settings),
        auth_identity(auth_contents@) matches Some(ident) ==> r matches Ok(id) && {
            &&& upsert_outcome(
                old(settings).relay_profiles@,
                final(settings).relay_profiles@,
                config_contents@,
                auth_contents@,
                id@,
            )
            &&& final(settings).aggregate_relay_profiles == old(settings).aggregate_relay_profiles
            &&& final(settings).active_relay_id == old(settings).active_relay_id
            &&& final(settings).active_aggregate_relay_id == old(settings).active_aggregate_relay_id
        },
{
    let ghost old_ps = settings.relay_profiles@;
    let ghost ids = old_ps.map_values(|q: RelayProfile| q.id@);
    let ghost config = config_contents@;
    let ghost auth = auth_contents@;
    let mut existing_ids: Vec<String> = Vec::new();
    let mut i: usize = 0;
    while i < settings.relay_profiles.len()
        invariant
            i <= settings.relay_profiles@.len(),
            existing_ids@.map_values(|s: String| s@) == settings.relay_profiles@.take(i as int).map_values(
                |q: RelayProfile| q.id@,
            ),
        decreases settings.relay_profiles@.len() - i,
    {
        let ghost before = existing_ids@.map_values(|s: String| s@);
        existing_ids.push(settings.relay_profiles[i].id.clone());
        assert(existing_ids@.map_values(|s: String| s@) =~= before.push(settings.relay_profiles@[i as int].id@));
        assert(settings.relay_profiles@.take(i + 1).map_values(|q: RelayProfile| q.id@) =~= settings.relay_profiles@.take(
            i as int,
        ).map_values(|q: RelayProfile| q.id@).push(settings.relay_profiles@[i as int].id@));
        i = i + 1;
    }
    assert(settings.relay_profiles@.take(settings.relay_profiles@.len() as int) =~= settings.relay_profiles@);
    assert(existing_ids@.map_values(|s: String| s@) == ids);
    let profile = match crate::codex_oauth::oauth_profile_from_auth(config_contents, auth_contents, existing_ids.as_slice()) {
        Ok(p) => p,
        Err(_) => return Err(OAuthUpsertError::NoTokens),
    };
    assert(new_login_profile(profile, ids, config, auth));
    let identity = match crate::codex_oauth::oauth_profile_identity(&profile) {
        Some(x) => x,
        None => return Err(OAuthUpsertError::NoIdentity),
    };
    assert(auth_identity(auth) == Some(identity@));
    proof {
        lemma_identity_index(old_ps, identity@);
    }
    let mut j: usize = 0;
    while j < settings.relay_profiles.len()
        invariant
            j <= old_ps.len(),
            old_ps == old(settings).relay_profiles@,
            *settings == *old(settings),
            auth == auth_contents@,
            config == config_contents@,
            auth_identity(auth) == Some(identity@),
            crate::codex_oauth::tokens_from_auth_spec(auth) is Some,
            new_login_profile(profile, ids, config, auth),
            ids == old_ps.map_values(|q: RelayProfile| q.id@),
            forall|k: int| 0 <= k < j ==> crate::codex_oauth::oauth_identity_spec(#[trigger] old_ps[k]) != Some(identity@),
            match identity_index(old_ps, identity@) {
                Some(m) => 0 <= m < old_ps.len() && crate::codex_oauth::oauth_identity_spec(old_ps[m]) == Some(identity@)
                    && forall|k: int|
                    0 <= k < m ==> crate::codex_oauth::oauth_identity_spec(#[trigger] old_ps[k]) != Some(identity@),
                None => forall|k: int|
                    0 <= k < old_ps.len() ==> crate::codex_oauth::oauth_identity_spec(#[trigger] old_ps[k]) != Some(
                        identity@,
                    ),
            },
        decreases old_ps.len() - j,
    {
        let found = match crate::codex_oauth::oauth_profile_identity(&settings.relay_profiles[j]) {
            Some(x) => str_eq(x.as_str(), identity.as_str()),
            None => false,
        };
        if found {
            assert(identity_index(old_ps, identity@) == Some(j as int)) by {
                match identity_index(old_ps, identity@) {
                    Some(m) => {
                        if m > j {
                            assert(crate::codex_oauth::oauth_identity_spec(old_ps[j as int]) == Some(identity@));
                        }
                    },
                    None => {
                        assert(crate::codex_oauth::oauth_identity_spec(old_ps[j as int]) == Some(identity@));
                    },
                }
            }
            let mut updated = settings.relay_profiles[j].duplicate();
            updated.auth_contents = profile.auth_contents;
            updated.relay_mode = RelayMode::Official;
            updated.protocol = RelayProtocol::Responses;
            updated.official_mix_api_key = false;
            if is_blank(updated.name.as_str()) {
                updated.name = profile.name;
            }
            let id = updated.id.clone();
            settings.relay_profiles.set(j, updated);
            return Ok(id);
        }
        j = j + 1;
    }
    let id = profile.id.clone();
    settings.relay_profiles.push(profile);
    assert(settings.relay_profiles@.drop_last() =~= old_ps);
    Ok(id)
}


/// The link `url` names, trimmed, when it is an `http` or `https` link: the
/// manager opens nothing else in the system browser.
pub fn external_url_to_open(url: &str) -> (r: Result<String, String>)
    ensures
        ({
            let t = trim(url@);
            if starts_with(t, "https://"@) || starts_with(t, "http://"@) {
                r matches Ok(u) && u@ == t
            } else {
                r matches Err(m) && m@ == "只允许打开 http 或 https 链接。"@
            }
        }),
{
    let t = trim_str(url);
    if crate::text::str_starts_with(t.as_str(), "https://") || crate::text::str_starts_with(t.as_str(), "http://") {
        Ok(t)
    } else {
        Err(owned("只允许打开 http 或 https 链接。"))
    }
}


fn doctor_check(id: &str, title: &str, status: &str, detail: String) -> (r: ProviderDoctorCheck)
    ensures
        r.id@ == id@,
        r.title@ == title@,
        r.status@ == status@,
        r.detail == detail,
{
    ProviderDoctorCheck { id: owned(id), title: owned(title), status: owned(status), detail }
}

/// The doctor's report on a provider that logs in officially: nothing to
/// test over the API.
pub fn official_login_doctor_payload(profile_name: String, model: String) -> (r: ProviderDoctorPayload)
    ensures
        r.profile_name == profile_name,
        r.model == model,
        r.summary@ == "官方登录供应商无需 API 诊断。"@,
        r.recommendation@ == "如果 Codex 官方账号可用，直接使用官方登录模式即可。"@,
        r.checks@.len() == 1,
        r.checks@[0].id@ == "config"@,
        r.checks@[0].title@ == "配置完整性"@,
        r.checks@[0].status@ == "ok"@,
        r.checks@[0].detail@ == "官方登录供应商不需要 Base URL / API Key。"@,
{
    let check = doctor_check("config", "配置完整性", "ok", owned("官方登录供应商不需要 Base URL / API Key。"));
    ProviderDoctorPayload {
        profile_name,
        model,
        summary: owned("官方登录供应商无需 API 诊断。"),
        recommendation: owned("如果 Codex 官方账号可用，直接使用官方登录模式即可。"),
        checks: vec![check],
    }
}

/// The doctor's report on a provider without a base URL or key.
pub fn missing_config_doctor_payload(profile_name: String, model: String) -> (r: ProviderDoctorPayload)
    ensures
        r.profile_name == profile_name,
        r.model == model,
        r.summary@ == "配置不完整，无法发起上游诊断。"@,
        r.recommendation@ == "先填写 Base URL 和 API Key；如果是官方账号，请切换到官方登录模式。"@,
        r.checks@.len() == 1,
        r.checks@[0].id@ == "config"@,
        r.checks@[0].title@ == "配置完整性"@,
        r.checks@[0].status@ == "failed"@,
        r.checks@[0].detail@ == "Base URL 或 API Key 为空。"@,
{
    let check = doctor_check("config", "配置完整性", "failed", owned("Base URL 或 API Key 为空。"));
    ProviderDoctorPayload {
        profile_name,
        model,
        summary: owned("配置不完整，无法发起上游诊断。"),
        recommendation: owned("先填写 Base URL 和 API Key；如果是官方账号，请切换到官方登录模式。"),
        checks: vec![check],
    }
}

/// The doctor's report when the OAuth credentials of a provider cannot be
/// used; `error` says why.
pub fn oauth_unavailable_doctor_payload(profile_name: String, error: String) -> (r: ProviderDoctorPayload)
    ensures
        r.profile_name == profile_name,
        r.model@ == Seq::<char>::empty(),
        r.summary@ == "OAuth 凭据不可用，无法发起诊断。"@,
        r.recommendation@ == "重新执行浏览器 OAuth 登录或从本机 auth.json 导入。"@,
        r.checks@.len() == 1,
        r.checks@[0].id@ == "config"@,
        r.checks@[0].title@ == "OAuth 凭据"@,
        r.checks@[0].status@ == "failed"@,
        r.checks@[0].detail == error,
{
    let check = doctor_check("config", "OAuth 凭据", "failed", error);
    ProviderDoctorPayload {
        profile_name,
        model: String::new(),
        summary: owned("OAuth 凭据不可用，无法发起诊断。"),
        recommendation: owned("重新执行浏览器 OAuth 登录或从本机 auth.json 导入。"),
        checks: vec![check],
    }
}

/// The name of a protocol in the doctor's report.
pub open spec fn protocol_label(p: RelayProtocol) -> Seq<char> {
    match p {
        RelayProtocol::Responses => "Responses API"@,
        RelayProtocol::ChatCompletions => "Chat Completions"@,
    }
}

/// The configuration check of a provider that can be contacted: its base
/// URL and protocol.
pub fn config_ok_check(base_url: &str, protocol: RelayProtocol) -> (r: ProviderDoctorCheck)
    ensures
        r.id@ == "config"@,
        r.title@ == "配置完整性"@,
        r.status@ == "ok"@,
        r.detail@ == base_url@ + " / "@ + protocol_label(protocol),
{
    let label = match protocol {
        RelayProtocol::Responses => "Responses API",
        RelayProtocol::ChatCompletions => "Chat Completions",
    };
    doctor_check("config", "配置完整性", "ok", concat3(base_url, " / ", label))
}

/// A check that failed with `error` (the model list or the real request
/// could not be fetched).
pub fn failed_doctor_check(id: &str, title: &str, error: String) -> (r: ProviderDoctorCheck)
    ensures
        r.id@ == id@,
        r.title@ == title@,
        r.status@ == "failed"@,
        r.detail == error,
{
    doctor_check(id, title, "failed", error)
}

/// The doctor's final report: the summary of the checks and the advice;
/// also whether the run counts as failed (some check failed).
pub fn doctor_report(profile_name: String, model: String, checks: Vec<ProviderDoctorCheck>) -> (r: (
    bool,
    ProviderDoctorPayload,
))
    ensures
        r.0 == (count_status(checks@, "failed"@) > 0),
        r.1.profile_name == profile_name,
        r.1.model == model,
        r.1.checks == checks,
        r.1.summary@ == (if count_status(checks@, "failed"@) > 0 {
            "发现 "@ + decimal(count_status(checks@, "failed"@)) + " 项失败，Codex 可能无法使用该供应商。"@
        } else if count_status(checks@, "warning"@) > 0 {
            "基础连接可用，但有 "@ + decimal(count_status(checks@, "warning"@)) + " 项需要确认。"@
        } else {
            "供应商基础诊断通过。"@
        }),
        r.1.recommendation@ == recommendation_spec(checks@),
{
    let failed = count_checks(checks.as_slice(), "failed") > 0;
    let summary = doctor_summary(checks.as_slice());
    let recommendation = provider_doctor_recommendation(checks.as_slice());
    (failed, ProviderDoctorPayload { profile_name, model, summary, recommendation, checks })
}

/// The doctor's advice follows the failed areas in order. When neither the
/// configuration nor the model list failed but the real request did, the
/// advice is the one about the request; and the all-clear is given only when
/// no check warned and none of the configuration, model list and request
/// checks failed (a check under another id does not count).
pub proof fn law_recommendation_follows_failures(checks: Seq<ProviderDoctorCheck>)
    ensures
        (forall|i: int|
            0 <= i < checks.len() ==> !((#[trigger] checks[i]).id@ == "config"@ && checks[i].status@ == "failed"@))
            && (forall|i: int|
            0 <= i < checks.len() ==> !((#[trigger] checks[i]).id@ == "models"@ && checks[i].status@ == "failed"@))
            && (exists|i: int|
            0 <= i < checks.len() && (#[trigger] checks[i]).id@ == "request"@ && checks[i].status@ == "failed"@)
            ==> recommendation_spec(checks) == RECOMMEND_REQUEST@,
        recommendation_spec(checks) == RECOMMEND_READY@ ==> forall|i: int|
            0 <= i < checks.len() ==> (#[trigger] checks[i]).status@ != "warning"@ && !(checks[i].status@ == "failed"@
                && (checks[i].id@ == "config"@ || checks[i].id@ == "models"@ || checks[i].id@ == "request"@)),
{
    reveal_strlit("可以作为 Codex 供应商使用；如果真实对话仍失败，请查看协议代理日志里的上游响应。");
    reveal_strlit("先补齐 Base URL 和 API Key；如果使用官方账号，请切换到官方登录模式。");
    reveal_strlit("优先检查 Base URL 是否包含正确的 /v1 前缀，以及供应商是否支持 /v1/models。");
    reveal_strlit("优先检查测试模型名称、上游协议选择和 Key 权限；如果 Chat Completions 可用，请切到对应协议。");
    reveal_strlit("连接可用，但测试模型没有出现在模型列表里；建议改用上游返回的模型名。");
    assert(RECOMMEND_READY@[0] != RECOMMEND_CONFIG@[0]);
    assert(RECOMMEND_READY@[0] != RECOMMEND_MODELS@[0]);
    assert(RECOMMEND_READY@[0] != RECOMMEND_REQUEST@[0]);
    assert(RECOMMEND_READY@[0] != RECOMMEND_MODEL_WARNING@[0]);
    if recommendation_spec(checks) == RECOMMEND_READY@ {
        assert forall|i: int| 0 <= i < checks.len() implies (#[trigger] checks[i]).status@ != "warning"@ && !(
        checks[i].status@ == "failed"@ && (checks[i].id@ == "config"@ || checks[i].id@ == "models"@ || checks[i].id@
            == "request"@)) by {
            if checks[i].status@ == "warning"@ {
                assert(has_status(checks, "warning"@));
            }
            if checks[i].status@ == "failed"@ {
                if checks[i].id@ == "config"@ {
                    assert(has_check(checks, "config"@, "failed"@));
                }
                if checks[i].id@ == "models"@ {
                    assert(has_check(checks, "models"@, "failed"@));
                }
                if checks[i].id@ == "request"@ {
                    assert(has_check(checks, "request"@, "failed"@));
                }
            }
        }
    }
}

proof fn lemma_no_pool_problem(settings: BackendSettings, ids: Seq<Seq<char>>, from: int)
    requires
        0 <= from,
        first_pool_problem(settings, ids, from) is None,
    ensures
        forall|j: int| from <= j < ids.len() ==> #[trigger] pool_problem(settings, ids[j]) is None,
    decreases ids.len() - from,
{
    if from < ids.len() {
        lemma_no_pool_problem(settings, ids, from + 1);
    }
}

/// An enabled provider without a problem is a configured provider with that id.
proof fn lemma_pool_member_found(settings: BackendSettings, id: Seq<char>)
    requires
        pool_problem(settings, id) is None,
    ensures
        find_profile(settings.relay_profiles@, id) matches Some(p) && p.id@ == id && p.relay_mode
            != RelayMode::Aggregate && exists|k: int|
            0 <= k < settings.relay_profiles@.len() && #[trigger] settings.relay_profiles@[k] == p,
{
    lemma_profile_index(settings.relay_profiles@, id);
    let k = profile_index(settings.relay_profiles@, id)->0;
    assert(settings.relay_profiles@[k] == find_profile(settings.relay_profiles@, id)->0);
}

/// The local relay starts from the active provider when the pool lets it in:
/// once the pool passes its checks, the provider it starts from is one of the
/// configured providers, enabled in the pool and not itself a pool; and when
/// the active provider is enabled in the pool, it is the active provider.
pub proof fn law_pool_starts_from_active_provider(settings: BackendSettings, local: LocalRelaySettings)
    requires
        validate_pool_spec(settings, local) is Ok,
    ensures
        ({
            let p = validate_pool_spec(settings, local)->Ok_0;
            let a = settings.active_relay_id@;
            &&& ids_view(local.provider_ids@).contains(a) && !ids_view(local.disabled_provider_ids@).contains(a)
                ==> p.id@ == a
            &&& ids_view(local.provider_ids@).contains(p.id@)
            &&& !ids_view(local.disabled_provider_ids@).contains(p.id@)
            &&& p.relay_mode != RelayMode::Aggregate
            &&& exists|k: int| 0 <= k < settings.relay_profiles@.len() && #[trigger] settings.relay_profiles@[k] == p
        }),
{
    let all = ids_view(local.provider_ids@);
    let ids = all.filter(enabled_pred(local));
    let a = settings.active_relay_id@;
    broadcast use vstd::seq_lib::group_filter_ensures;
    lemma_no_pool_problem(settings, ids, 0);
    if all.contains(a) && !ids_view(local.disabled_provider_ids@).contains(a) {
        let w = choose|w: int| 0 <= w < all.len() && all[w] == a;
        assert(enabled_pred(local)(all[w]));
        assert(ids.contains(a));
    }
    if ids.contains(a) {
        let w = choose|w: int| 0 <= w < ids.len() && ids[w] == a;
        assert(pool_problem(settings, ids[w]) is None);
        lemma_pool_member_found(settings, a);
        assert(enabled_pred(local)(ids[w]));
    } else {
        assert(pool_problem(settings, ids[0]) is None);
        lemma_pool_member_found(settings, ids[0]);
        assert(enabled_pred(local)(ids[0]));
    }
}

} // verus!
