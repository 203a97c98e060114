//! The provider doctor as a state machine: each step takes what the last
//! outside action gave (the prepared provider, the model list, the answer to
//! a test request) and decides the next action, down to the command's final
//! status, message and report. The caller only carries out the actions.
use vstd::prelude::*;

use crate::codex_oauth::is_oauth_profile_spec;
use crate::manager::{
    config_ok_check, count_status, doctor_preflight, doctor_preflight_spec, doctor_profile_name,
    doctor_profile_name_spec, doctor_report, failed_doctor_check, missing_config_doctor_payload, models_check,
    models_status_spec, oauth_unavailable_doctor_payload, official_login_doctor_payload, protocol_label,
    recommendation_spec, request_check, DoctorPreflight, ProviderDoctorCheck, ProviderDoctorPayload,
};
use crate::relay_rotation::{ids_view, relay_profile_base_url_spec};
use crate::settings::RelayProfile;
use crate::text::{concat2, decimal, owned, trim, trim_str};

verus! {

/// Where a doctor run stands.
#[derive(Debug, Clone, Copy, PartialEq, Eq, Structural)]
pub enum DoctorStage {
    /// Nothing has happened yet.
    Start,
    /// Waiting for the OAuth provider to be prepared (its tokens refreshed).
    Preparing,
    /// Waiting for the provider's model list.
    FetchingModels,
    /// Waiting for the answer to the test request.
    Requesting,
    /// The run is over.
    Done,
}

/// The state of a doctor run.
#[derive(Debug)]
pub struct DoctorState {
    pub stage: DoctorStage,
    /// The name the report gives the provider.
    pub profile_name: String,
    /// Whether the provider logs in with Codex OAuth.
    pub oauth: bool,
    /// The model the run tests with.
    pub test_model: String,
    /// The checks made so far.
    pub checks: Vec<ProviderDoctorCheck>,
    /// The provider as prepared for requests.
    pub profile: RelayProfile,
}

/// What happened outside since the last step.
#[derive(Debug)]
pub enum DoctorEvent {
    /// A run starts on `profile`; `profile_model` is the model its
    /// configuration names and `default_test_model` the settings' test model.
    Begin { profile: RelayProfile, profile_model: String, default_test_model: String },
    /// The OAuth provider was prepared.
    Prepared { profile: RelayProfile },
    /// The OAuth provider could not be prepared.
    PrepareFailed { error: String },
    /// The model list was fetched from `endpoint`.
    ModelsFetched { models: Vec<String>, endpoint: String },
    /// The model list could not be fetched.
    ModelsFailed { error: String },
    /// The test request to `endpoint` was answered with `http_status`;
    /// `preview` is the start of the reply.
    RequestAnswered { endpoint: String, http_status: u16, preview: String },
    /// The test request could not be made.
    RequestFailed { error: String },
}

/// What to do next.
#[derive(Debug)]
pub enum DoctorAction {
    /// Prepare `state.profile` (refresh its OAuth tokens), then send
    /// `Prepared` or `PrepareFailed`.
    PrepareProfile,
    /// Fetch the model list of `state.profile`, then send `ModelsFetched` or
    /// `ModelsFailed`.
    FetchModels,
    /// Send a test request to `state.profile` with `model`, then send
    /// `RequestAnswered` or `RequestFailed`.
    SendRequest { model: String },
    /// The run is over: the command answers with `status` (`ok` or
    /// `failed`), `message` and `payload`.
    Finish { status: String, message: String, payload: ProviderDoctorPayload },
    /// The event does not fit the stage; nothing changes.
    Ignore,
}

/// The model a run tests with: the provider's own test model, else the
/// model its configuration names, else the settings' test model.
pub open spec fn test_model_spec(own: Seq<char>, profile_model: Seq<char>, default_model: Seq<char>) -> Seq<char> {
    if trim(own).len() > 0 {
        trim(own)
    } else if trim(profile_model).len() > 0 {
        profile_model
    } else {
        trim(default_model)
    }
}

/// A model-list check as `models_check` makes it.
pub open spec fn is_models_check(c: ProviderDoctorCheck, models: Seq<Seq<char>>, test_model: Seq<char>, endpoint: Seq<
    char,
>) -> bool {
    &&& c.id@ == "models"@
    &&& c.title@ == "模型列表"@
    &&& c.status@ == models_status_spec(models, test_model)
    &&& c.detail@ == (if models.len() == 0 {
        endpoint + " 返回 0 个模型。"@
    } else if c.status@ == "ok"@ {
        endpoint + " 返回 "@ + decimal(models.len()) + " 个模型。"@
    } else {
        endpoint + " 返回 "@ + decimal(models.len()) + " 个模型，但未看到测试模型「"@ + test_model + "」。"@
    })
}

/// A test-request check as `request_check` makes it.
pub open spec fn is_request_check(c: ProviderDoctorCheck, endpoint: Seq<char>, http_status: u16, preview: Seq<char>) -> bool {
    &&& c.id@ == "request"@
    &&& c.title@ == "真实请求"@
    &&& c.status@ == (if http_status < 400 { "ok"@ } else { "failed"@ })
    &&& c.detail@ == (if trim(preview).len() == 0 {
        endpoint + " 返回 HTTP "@ + decimal(http_status as nat) + "，响应内容为空。"@
    } else {
        endpoint + " 返回 HTTP "@ + decimal(http_status as nat) + "："@ + trim(preview)
    })
}

/// A failed check with the given id, title and error.
pub open spec fn is_failed_check(c: ProviderDoctorCheck, id: Seq<char>, title: Seq<char>, error: Seq<char>) -> bool {
    c.id@ == id && c.title@ == title && c.status@ == "failed"@ && c.detail@ == error
}

/// The summary `doctor_report` writes for `checks`.
pub open spec fn summary_spec(checks: Seq<ProviderDoctorCheck>) -> Seq<char> {
    if count_status(checks, "failed"@) > 0 {
        "发现 "@ + decimal(count_status(checks, "failed"@)) + " 项失败，Codex 可能无法使用该供应商。"@
    } else if count_status(checks, "warning"@) > 0 {
        "基础连接可用，但有 "@ + decimal(count_status(checks, "warning"@)) + " 项需要确认。"@
    } else {
        "供应商基础诊断通过。"@
    }
}

/// What every end of a run satisfies: the status is `ok` or `failed`, and
/// `failed` exactly when some check failed; the report has checks.
pub open spec fn finish_consistent(a: DoctorAction) -> bool {
    a matches DoctorAction::Finish { status, message, payload } ==> {
        &&& status@ == "ok"@ || status@ == "failed"@
        &&& (status@ == "failed"@ <==> count_status(payload.checks@, "failed"@) > 0)
        &&& payload.checks@.len() > 0
    }
}

/// The outcome once the provider `p` is ready to be looked at (prepared, or
/// needing no preparation), from the state `s`: official logins end at
/// once, providers without a base URL or key end failed, others get their
/// configuration check and their model list fetched.
pub open spec fn after_preflight(s: DoctorState, p: RelayProfile, r: (DoctorState, DoctorAction)) -> bool {
    match doctor_preflight_spec(p, s.oauth) {
        DoctorPreflight::OfficialLogin => {
            &&& r.0.stage == DoctorStage::Done
            &&& r.1 matches DoctorAction::Finish { status, message, payload } && {
                &&& status@ == "ok"@
                &&& message@ == "Provider Doctor：官方登录供应商无需 API 诊断。"@
                &&& payload.profile_name@ == s.profile_name@
                &&& payload.model@ == s.test_model@
                &&& payload.summary@ == "官方登录供应商无需 API 诊断。"@
                &&& payload.checks@.len() == 1
                &&& payload.checks@[0].id@ == "config"@
                &&& payload.checks@[0].status@ == "ok"@
            }
        },
        DoctorPreflight::MissingConfig => {
            &&& r.0.stage == DoctorStage::Done
            &&& r.1 matches DoctorAction::Finish { status, message, payload } && {
                &&& status@ == "failed"@
                &&& message@ == "Provider Doctor：配置不完整。"@
                &&& payload.profile_name@ == s.profile_name@
                &&& payload.model@ == s.test_model@
                &&& payload.summary@ == "配置不完整，无法发起上游诊断。"@
                &&& payload.checks@.len() == 1
                &&& is_failed_check(payload.checks@[0], "config"@, "配置完整性"@, "Base URL 或 API Key 为空。"@)
            }
        },
        DoctorPreflight::Ready => {
            &&& r.0.stage == DoctorStage::FetchingModels
            &&& r.1 is FetchModels
            &&& r.0.profile == p
            &&& r.0.profile_name@ == s.profile_name@
            &&& r.0.oauth == s.oauth
            &&& r.0.test_model@ == s.test_model@
            &&& r.0.checks@.len() == 1
            &&& r.0.checks@[0].id@ == "config"@
            &&& r.0.checks@[0].title@ == "配置完整性"@
            &&& r.0.checks@[0].status@ == "ok"@
            &&& r.0.checks@[0].detail@ == relay_profile_base_url_spec(p) + " / "@ + protocol_label(p.protocol)
        },
    }
}

/// A state that keeps the run's name, flag, model and provider of `s`.
pub open spec fn same_run(s: DoctorState, t: DoctorState) -> bool {
    t.profile_name@ == s.profile_name@ && t.oauth == s.oauth && t.test_model@ == s.test_model@ && t.profile == s.profile
}

/// The end of a run after its last check `c`: the report on all checks,
/// `failed` when one failed, the message naming the summary.
pub open spec fn final_report(s: DoctorState, c: ProviderDoctorCheck, r: (DoctorState, DoctorAction)) -> bool {
    let checks = s.checks@.push(c);
    &&& r.0.stage == DoctorStage::Done
    &&& r.1 matches DoctorAction::Finish { status, message, payload } && {
        &&& status@ == (if count_status(checks, "failed"@) > 0 { "failed"@ } else { "ok"@ })
        &&& message@ == "Provider Doctor："@ + summary_spec(checks)
        &&& payload.profile_name@ == s.profile_name@
        &&& payload.model@ == s.test_model@
        &&& payload.checks@ == checks
        &&& payload.summary@ == summary_spec(checks)
        &&& payload.recommendation@ == recommendation_spec(checks)
    }
}

/// The state a run starts in.
pub fn doctor_start() -> (r: DoctorState)
    ensures
        r.stage == DoctorStage::Start,
        r.checks@.len() == 0,
{
    DoctorState {
        stage: DoctorStage::Start,
        profile_name: String::new(),
        oauth: false,
        test_model: String::new(),
        checks: Vec::new(),
        profile: RelayProfile::default(),
    }
}

proof fn lemma_count_push(checks: Seq<ProviderDoctorCheck>, c: ProviderDoctorCheck, status: Seq<char>)
    ensures
        count_status(checks.push(c), status) == count_status(checks, status) + (if c.status@ == status {
            1nat
        } else {
            0nat
        }),
{
    assert(checks.push(c).drop_last() =~= checks);
}

proof fn lemma_count_one(c: ProviderDoctorCheck, status: Seq<char>)
    ensures
        count_status(seq![c], status) == (if c.status@ == status { 1nat } else { 0nat }),
{
    lemma_count_push(Seq::empty(), c, status);
    assert(Seq::<ProviderDoctorCheck>::empty().push(c) =~= seq![c]);
}

fn status_text(failed: bool) -> (r: String)
    ensures
        r@ == (if failed { "failed"@ } else { "ok"@ }),
{
    if failed {
        owned("failed")
    } else {
        owned("ok")
    }
}

/// Decides on a provider once it is ready to be looked at.
fn preflight_step(s: DoctorState, p: RelayProfile) -> (r: (DoctorState, DoctorAction))
    ensures
        after_preflight(s, p, r),
        finish_consistent(r.1),
        r.0.profile_name == s.profile_name,
        r.0.oauth == s.oauth,
        r.0.test_model == s.test_model,
{
    proof {
        reveal_strlit("failed");
        reveal_strlit("ok");
    }
    match doctor_preflight(&p, s.oauth) {
        DoctorPreflight::OfficialLogin => {
            let payload = official_login_doctor_payload(owned(s.profile_name.as_str()), owned(s.test_model.as_str()));
            proof {
                lemma_count_one(payload.checks@[0], "failed"@);
                assert(payload.checks@ =~= seq![payload.checks@[0]]);
            }
            let state = DoctorState { stage: DoctorStage::Done, ..s };
            (state, DoctorAction::Finish { status: owned("ok"), message: owned("Provider Doctor：官方登录供应商无需 API 诊断。"), payload })
        },
        DoctorPreflight::MissingConfig => {
            let payload = missing_config_doctor_payload(owned(s.profile_name.as_str()), owned(s.test_model.as_str()));
            proof {
                lemma_count_one(payload.checks@[0], "failed"@);
                assert(payload.checks@ =~= seq![payload.checks@[0]]);
            }
            let state = DoctorState { stage: DoctorStage::Done, ..s };
            (state, DoctorAction::Finish { status: owned("failed"), message: owned("Provider Doctor：配置不完整。"), payload })
        },
        DoctorPreflight::Ready => {
            let check = config_ok_check(p.base_url.as_str(), p.protocol);
            let state = DoctorState { stage: DoctorStage::FetchingModels, checks: vec![check], profile: p, ..s };
            (state, DoctorAction::FetchModels)
        },
    }
}

/// Ends a run after its last check `c`.
fn finish_step(s: DoctorState, c: ProviderDoctorCheck) -> (r: (DoctorState, DoctorAction))
    ensures
        final_report(s, c, r),
        finish_consistent(r.1),
{
    let ghost all = s.checks@.push(c);
    let mut checks = s.checks;
    checks.push(c);
    let (failed, payload) = doctor_report(owned(s.profile_name.as_str()), owned(s.test_model.as_str()), checks);
    let status = status_text(failed);
    let message = concat2("Provider Doctor：", payload.summary.as_str());
    proof {
        reveal_strlit("failed");
        reveal_strlit("ok");
        assert(payload.checks@ == all);
        assert(all.len() > 0);
        assert("ok"@ != "failed"@) by {
            assert("ok"@.len() != "failed"@.len());
        }
        assert(status@ == "failed"@ <==> count_status(payload.checks@, "failed"@) > 0);
    }
    let state = DoctorState {
        stage: DoctorStage::Done,
        profile_name: s.profile_name,
        oauth: s.oauth,
        test_model: s.test_model,
        checks: Vec::new(),
        profile: s.profile,
    };
    (state, DoctorAction::Finish { status, message, payload })
}

/// One step of the provider doctor: from the run's state and what happened
/// outside, the next state and action.
pub fn doctor_step(state: DoctorState, event: DoctorEvent) -> (r: (DoctorState, DoctorAction))
    ensures
        finish_consistent(r.1),
        match (state.stage, event) {
            (DoctorStage::Start, DoctorEvent::Begin { profile, profile_model, default_test_model }) => {
                let s = DoctorState {
                    stage: DoctorStage::Start,
                    profile_name: r.0.profile_name,
                    oauth: is_oauth_profile_spec(profile),
                    test_model: r.0.test_model,
                    checks: state.checks,
                    profile: profile,
                };
                &&& r.0.profile_name@ == doctor_profile_name_spec(profile.name@)
                &&& r.0.test_model@ == test_model_spec(profile.test_model@, profile_model@, default_test_model@)
                &&& r.0.oauth == is_oauth_profile_spec(profile)
                &&& if is_oauth_profile_spec(profile) {
                    &&& r.0.stage == DoctorStage::Preparing
                    &&& r.1 is PrepareProfile
                    &&& r.0.profile == profile
                } else {
                    after_preflight(s, profile, r)
                }
            },
            (DoctorStage::Preparing, DoctorEvent::Prepared { profile }) => after_preflight(state, profile, r),
            (DoctorStage::Preparing, DoctorEvent::PrepareFailed { error }) => {
                &&& r.0.stage == DoctorStage::Done
                &&& r.1 matches DoctorAction::Finish { status, message, payload } && {
                    &&& status@ == "failed"@
                    &&& message@ == "Provider Doctor：OAuth 凭据不可用："@ + error@
                    &&& payload.profile_name@ == state.profile_name@
                    &&& payload.model@ == Seq::<char>::empty()
                    &&& payload.summary@ == "OAuth 凭据不可用，无法发起诊断。"@
                    &&& payload.checks@.len() == 1
                    &&& is_failed_check(payload.checks@[0], "config"@, "OAuth 凭据"@, error@)
                }
            },
            (DoctorStage::FetchingModels, DoctorEvent::ModelsFetched { models, endpoint }) => {
                &&& r.0.stage == DoctorStage::Requesting
                &&& same_run(state, r.0)
                &&& r.0.checks@.len() == state.checks@.len() + 1
                &&& r.0.checks@.drop_last() == state.checks@
                &&& is_models_check(r.0.checks@.last(), ids_view(models@), state.test_model@, endpoint@)
                &&& r.1 matches DoctorAction::SendRequest { model } && model@ == state.test_model@
            },
            (DoctorStage::FetchingModels, DoctorEvent::ModelsFailed { error }) => {
                &&& r.0.stage == DoctorStage::Requesting
                &&& same_run(state, r.0)
                &&& r.0.checks@.len() == state.checks@.len() + 1
                &&& r.0.checks@.drop_last() == state.checks@
                &&& is_failed_check(r.0.checks@.last(), "models"@, "模型列表"@, error@)
                &&& r.1 matches DoctorAction::SendRequest { model } && model@ == state.test_model@
            },
            (DoctorStage::Requesting, DoctorEvent::RequestAnswered { endpoint, http_status, preview }) => exists|
                c: ProviderDoctorCheck,
            |
                #![trigger is_request_check(c, endpoint@, http_status, preview@)]
                is_request_check(c, endpoint@, http_status, preview@) && final_report(state, c, r),
            (DoctorStage::Requesting, DoctorEvent::RequestFailed { error }) => exists|c: ProviderDoctorCheck|
                #![trigger is_failed_check(c, "request"@, "真实请求"@, error@)]
                is_failed_check(c, "request"@, "真实请求"@, error@) && final_report(state, c, r),
            _ => r.1 is Ignore && r.0 == state,
        },
{
    match event {
        DoctorEvent::Begin { profile, profile_model, default_test_model } => {
            if state.stage != DoctorStage::Start {
                return (state, DoctorAction::Ignore);
            }
            let own = trim_str(profile.test_model.as_str());
            let test_model = if !own.as_str().is_empty() {
                own
            } else if !crate::text::is_blank(profile_model.as_str()) {
                profile_model
            } else {
                trim_str(default_test_model.as_str())
            };
            let profile_name = doctor_profile_name(profile.name.as_str());
            let oauth = crate::codex_oauth::is_oauth_profile(&profile);
            if oauth {
                let s = DoctorState {
                    stage: DoctorStage::Preparing,
                    profile_name,
                    oauth,
                    test_model,
                    checks: state.checks,
                    profile,
                };
                (s, DoctorAction::PrepareProfile)
            } else {
                let s = DoctorState {
                    stage: DoctorStage::Start,
                    profile_name,
                    oauth,
                    test_model,
                    checks: state.checks,
                    profile: profile.duplicate(),
                };
                preflight_step(s, profile)
            }
        },
        DoctorEvent::Prepared { profile } => {
            if state.stage != DoctorStage::Preparing {
                return (state, DoctorAction::Ignore);
            }
            preflight_step(state, profile)
        },
        DoctorEvent::PrepareFailed { error } => {
            if state.stage != DoctorStage::Preparing {
                return (state, DoctorAction::Ignore);
            }
            let message = concat2("Provider Doctor：OAuth 凭据不可用：", error.as_str());
            let payload = oauth_unavailable_doctor_payload(owned(state.profile_name.as_str()), error);
            proof {
                reveal_strlit("failed");
                lemma_count_one(payload.checks@[0], "failed"@);
                assert(payload.checks@ =~= seq![payload.checks@[0]]);
            }
            let s = DoctorState { stage: DoctorStage::Done, ..state };
            (s, DoctorAction::Finish { status: owned("failed"), message, payload })
        },
        DoctorEvent::ModelsFetched { models, endpoint } => {
            if state.stage != DoctorStage::FetchingModels {
                return (state, DoctorAction::Ignore);
            }
            let check = models_check(&models, state.test_model.as_str(), endpoint.as_str());
            let mut checks = state.checks;
            checks.push(check);
            let model = owned(state.test_model.as_str());
            let s = DoctorState { stage: DoctorStage::Requesting, checks, ..state };
            (s, DoctorAction::SendRequest { model })
        },
        DoctorEvent::ModelsFailed { error } => {
            if state.stage != DoctorStage::FetchingModels {
                return (state, DoctorAction::Ignore);
            }
            let check = failed_doctor_check("models", "模型列表", error);
            let mut checks = state.checks;
            checks.push(check);
            let model = owned(state.test_model.as_str());
            let s = DoctorState { stage: DoctorStage::Requesting, checks, ..state };
            (s, DoctorAction::SendRequest { model })
        },
        DoctorEvent::RequestAnswered { endpoint, http_status, preview } => {
            if state.stage != DoctorStage::Requesting {
                return (state, DoctorAction::Ignore);
            }
            let check = request_check(endpoint.as_str(), http_status, preview.as_str());
            proof {
                assert(is_request_check(check, endpoint@, http_status, preview@));
            }
            finish_step(state, check)
        },
        DoctorEvent::RequestFailed { error } => {
            if state.stage != DoctorStage::Requesting {
                return (state, DoctorAction::Ignore);
            }
            let check = failed_doctor_check("request", "真实请求", error);
            proof {
                assert(is_failed_check(check, "request"@, "真实请求"@, error@));
            }
            finish_step(state, check)
        },
    }
}

} // verus!
