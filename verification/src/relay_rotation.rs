//! Picking one provider of an aggregate provider pool for each request, by
//! failover, per-conversation or per-request round robin, or weights.
use vstd::prelude::*;

use crate::codex_oauth::{is_oauth_profile, is_oauth_profile_spec};
use crate::model_suffix::{model_base, model_base_chars};
use crate::codex_oauth::opt_view;
use crate::settings::{active_aggregate_spec, aggregates_equal, is_default_profile, same_aggregate, same_members, aggregate_position, find_profile, lemma_aggregate_index, lemma_profile_index, profile_position, AggregateRelayMember, AggregateRelayProfile, AggregateRelayStrategy, BackendSettings, RelayMode, RelayProfile};
use crate::text::{
    chars_eq, is_blank, lower, lower_chars, owned, rows, split_any, split_by, str_chars, str_eq,
    trim, trim_chars,
};

verus! {

/// The pieces of a model list between its separators.
pub open spec fn model_list_pieces(model_list: Seq<char>) -> Seq<Seq<char>> {
    split_by(model_list, |c: char| seq!['\r', '\n', ','].contains(c))
}

/// The entry of a model list at piece `i`: trimmed, without its size suffix.
pub open spec fn model_entry(pieces: Seq<Seq<char>>, i: int) -> Seq<char> {
    model_base(trim(pieces[i]))
}

/// A provider's model list lets it serve `model`: no model asked for, or the
/// list names no model, or it names `model` (ignoring ASCII case and size suffixes).
pub open spec fn supports_model(model_list: Seq<char>, model: Option<Seq<char>>) -> bool {
    let pieces = model_list_pieces(model_list);
    match model {
        None => true,
        Some(m) => {
            ||| trim(m).len() == 0
            ||| forall|i: int| 0 <= i < pieces.len() ==> trim(#[trigger] pieces[i]).len() == 0
            ||| exists|i: int|
                0 <= i < pieces.len() && trim(#[trigger] pieces[i]).len() > 0 && lower(
                    model_entry(pieces, i),
                ) == lower(trim(m))
        },
    }
}

pub open spec fn opt_str_view(m: Option<&str>) -> Option<Seq<char>> {
    match m {
        Some(s) => Some(s@),
        None => None,
    }
}

/// Whether `profile` can serve `model`.
pub fn profile_supports_model(profile: &RelayProfile, model: Option<&str>) -> (r: bool)
    ensures
        r == supports_model(profile.model_list@, opt_str_view(model)),
{
    let m = match model {
        None => return true,
        Some(m) => m,
    };
    let mv = str_chars(m);
    let mt = trim_chars(mv.as_slice());
    if mt.len() == 0 {
        return true;
    }
    let wanted = lower_chars(mt.as_slice());
    let list = str_chars(profile.model_list.as_str());
    let seps = vec!['\r', '\n', ','];
    let pieces = split_any(list.as_slice(), seps.as_slice());
    let ghost ps = model_list_pieces(profile.model_list@);
    assert(seps@ =~= seq!['\r', '\n', ',']);
    assert(rows(pieces@) == ps);
    let mut any_configured = false;
    let mut i: usize = 0;
    while i < pieces.len()
        invariant
            i <= pieces@.len(),
            rows(pieces@) == ps,
            ps == model_list_pieces(profile.model_list@),
            wanted@ == lower(trim(m@)),
            trim(m@).len() > 0,
            opt_str_view(model) == Some(m@),
            any_configured == exists|j: int| 0 <= j < i && trim(#[trigger] ps[j]).len() > 0,
            forall|j: int|
                0 <= j < i && trim(#[trigger] ps[j]).len() > 0 ==> lower(model_entry(ps, j)) != wanted@,
        decreases pieces@.len() - i,
    {
        assert(ps[i as int] == pieces@[i as int]@);
        let t = trim_chars(pieces[i].as_slice());
        if t.len() > 0 {
            any_configured = true;
            let base = model_base_chars(t.as_slice());
            let lb = lower_chars(base.as_slice());
            if chars_eq(lb.as_slice(), wanted.as_slice()) {
                assert(trim(ps[i as int]).len() > 0 && lower(model_entry(ps, i as int)) == lower(trim(m@)));
                return true;
            }
        }
        i = i + 1;
    }
    !any_configured
}

/// The API key of a provider.
pub open spec fn relay_profile_api_key_spec(profile: RelayProfile) -> Seq<char> {
    profile.api_key@
}

/// The API key of a provider.
pub fn relay_profile_api_key(profile: &RelayProfile) -> (r: &str)
    ensures
        r@ == relay_profile_api_key_spec(*profile),
{
    profile.api_key.as_str()
}

/// The base URL of a provider.
pub open spec fn relay_profile_base_url_spec(profile: RelayProfile) -> Seq<char> {
    profile.base_url@
}

/// The base URL of a provider.
pub fn relay_profile_base_url(profile: &RelayProfile) -> (r: &str)
    ensures
        r@ == relay_profile_base_url_spec(*profile),
{
    profile.base_url.as_str()
}

/// Position of the last provider whose id is `id`.
pub open spec fn last_profile_index(profiles: Seq<RelayProfile>, id: Seq<char>) -> Option<int>
    decreases profiles.len(),
{
    if profiles.len() == 0 {
        None
    } else if profiles.last().id@ == id {
        Some(profiles.len() - 1)
    } else {
        last_profile_index(profiles.drop_last(), id)
    }
}

pub proof fn lemma_last_profile_index(profiles: Seq<RelayProfile>, id: Seq<char>)
    ensures
        match last_profile_index(profiles, id) {
            Some(i) => 0 <= i < profiles.len() && profiles[i].id@ == id && forall|j: int|
                i < j < profiles.len() ==> (#[trigger] profiles[j]).id@ != id,
            None => forall|j: int| 0 <= j < profiles.len() ==> (#[trigger] profiles[j]).id@ != id,
        },
    decreases profiles.len(),
{
    if profiles.len() > 0 && profiles.last().id@ != id {
        lemma_last_profile_index(profiles.drop_last(), id);
        assert forall|j: int| 0 <= j < profiles.len() - 1 implies profiles[j]
            == profiles.drop_last()[j] by {}
    }
}

/// A member is usable when its provider logs in with OAuth or has both a base URL and a key.
pub open spec fn member_ready(p: RelayProfile) -> bool {
    is_oauth_profile_spec(p) || (trim(p.base_url@).len() > 0 && trim(
        relay_profile_api_key_spec(p),
    ).len() > 0)
}

/// The problem with member `i` of a pool, when there is one: its provider is
/// missing (`true`) or not usable (`false`). Providers are looked up by id,
/// the last one of an id counting.
pub open spec fn member_problem(settings: BackendSettings, members: Seq<AggregateRelayMember>, i: int) -> Option<bool> {
    match last_profile_index(settings.relay_profiles@, members[i].relay_id@) {
        None => Some(true),
        Some(k) => if member_ready(settings.relay_profiles@[k]) {
            None
        } else {
            Some(false)
        },
    }
}

/// Why an aggregate provider cannot serve, as character sequences.
pub enum SelectionErrorView {
    NoActiveAggregate,
    EmptyAggregateMembers { aggregate_id: Seq<char> },
    UnknownMemberRelay { aggregate_id: Seq<char>, relay_id: Seq<char> },
    InvalidMemberRelay { aggregate_id: Seq<char>, relay_id: Seq<char> },
    NoCompatibleModel { aggregate_id: Seq<char>, model: Seq<char> },
}

/// Why an aggregate provider cannot serve a request.
#[derive(Debug, Clone)]
pub enum SelectionError {
    NoActiveAggregate,
    EmptyAggregateMembers { aggregate_id: String },
    UnknownMemberRelay { aggregate_id: String, relay_id: String },
    InvalidMemberRelay { aggregate_id: String, relay_id: String },
    NoCompatibleModel { aggregate_id: String, model: String },
}

impl View for SelectionError {
    type V = SelectionErrorView;

    open spec fn view(&self) -> SelectionErrorView {
        match self {
            SelectionError::NoActiveAggregate => SelectionErrorView::NoActiveAggregate,
            SelectionError::EmptyAggregateMembers { aggregate_id } =>
                SelectionErrorView::EmptyAggregateMembers { aggregate_id: aggregate_id@ },
            SelectionError::UnknownMemberRelay { aggregate_id, relay_id } =>
                SelectionErrorView::UnknownMemberRelay { aggregate_id: aggregate_id@, relay_id: relay_id@ },
            SelectionError::InvalidMemberRelay { aggregate_id, relay_id } =>
                SelectionErrorView::InvalidMemberRelay { aggregate_id: aggregate_id@, relay_id: relay_id@ },
            SelectionError::NoCompatibleModel { aggregate_id, model } =>
                SelectionErrorView::NoCompatibleModel { aggregate_id: aggregate_id@, model: model@ },
        }
    }
}

/// The first problem among the members from position `from` on.
pub open spec fn first_member_problem(
    settings: BackendSettings,
    members: Seq<AggregateRelayMember>,
    from: int,
) -> Option<int>
    decreases members.len() - from,
{
    if from >= members.len() || from < 0 {
        None
    } else if member_problem(settings, members, from) is Some {
        Some(from)
    } else {
        first_member_problem(settings, members, from + 1)
    }
}

/// The outcome of checking an aggregate provider's members against the providers.
pub open spec fn validate_spec(
    settings: BackendSettings,
    aggregate_id: Seq<char>,
    members: Seq<AggregateRelayMember>,
) -> Option<SelectionErrorView> {
    if members.len() == 0 {
        Some(SelectionErrorView::EmptyAggregateMembers { aggregate_id })
    } else {
        match first_member_problem(settings, members, 0) {
            None => None,
            Some(i) => match member_problem(settings, members, i) {
                Some(true) => Some(
                    SelectionErrorView::UnknownMemberRelay {
                        aggregate_id,
                        relay_id: members[i].relay_id@,
                    },
                ),
                _ => Some(
                    SelectionErrorView::InvalidMemberRelay {
                        aggregate_id,
                        relay_id: members[i].relay_id@,
                    },
                ),
            },
        }
    }
}

/// Position of the last provider whose id is `id`.
fn last_profile_position(profiles: &Vec<RelayProfile>, id: &str) -> (r: Option<usize>)
    ensures
        match r {
            Some(i) => last_profile_index(profiles@, id@) == Some(i as int),
            None => last_profile_index(profiles@, id@) is None,
        },
{
    let mut i: usize = profiles.len();
    while i > 0
        invariant
            i <= profiles@.len(),
            forall|j: int| i <= j < profiles@.len() ==> (#[trigger] profiles@[j]).id@ != id@,
        decreases i,
    {
        if str_eq(profiles[i - 1].id.as_str(), id) {
            proof {
                lemma_last_profile_index(profiles@, id@);
                let k = last_profile_index(profiles@, id@);
                if k != Some((i - 1) as int) {
                    match k {
                        Some(k) => {
                            if k < i - 1 {
                                assert(profiles@[i - 1].id@ == id@);
                            }
                        },
                        None => {},
                    }
                }
            }
            return Some(i - 1);
        }
        i = i - 1;
    }
    proof {
        lemma_last_profile_index(profiles@, id@);
    }
    None
}

/// Checks that an aggregate provider has members and that each member's
/// provider exists and can serve.
pub fn validate_aggregate_members(settings: &BackendSettings, aggregate: &AggregateRelayProfile) -> (r:
    Result<(), SelectionError>)
    ensures
        match r {
            Ok(()) => validate_spec(*settings, aggregate.id@, aggregate.members@) is None,
            Err(e) => validate_spec(*settings, aggregate.id@, aggregate.members@) == Some(e@),
        },
{
    if aggregate.members.len() == 0 {
        return Err(SelectionError::EmptyAggregateMembers { aggregate_id: aggregate.id.clone() });
    }
    let ghost members = aggregate.members@;
    let mut i: usize = 0;
    while i < aggregate.members.len()
        invariant
            i <= members.len(),
            members == aggregate.members@,
            members.len() > 0,
            first_member_problem(*settings, members, 0) == first_member_problem(*settings, members, i as int),
        decreases members.len() - i,
    {
        let member = &aggregate.members[i];
        match last_profile_position(&settings.relay_profiles, member.relay_id.as_str()) {
            None => {
                return Err(
                    SelectionError::UnknownMemberRelay {
                        aggregate_id: aggregate.id.clone(),
                        relay_id: member.relay_id.clone(),
                    },
                );
            },
            Some(k) => {
                proof {
                    lemma_last_profile_index(settings.relay_profiles@, member.relay_id@);
                }
                let relay = &settings.relay_profiles[k];
                let oauth_ready = is_oauth_profile(relay);
                if (!oauth_ready && is_blank(relay.base_url.as_str())) || (!oauth_ready && is_blank(
                    relay_profile_api_key(relay),
                )) {
                    return Err(
                        SelectionError::InvalidMemberRelay {
                            aggregate_id: aggregate.id.clone(),
                            relay_id: member.relay_id.clone(),
                        },
                    );
                }
            },
        }
        i = i + 1;
    }
    Ok(())
}

} // verus!

verus! {

/// `std::time::Instant`, kept by a selector to measure cool-down periods.
#[verifier::external_type_specification]
#[verifier::external_body]
pub struct ExInstant(std::time::Instant);

/// `Instant::now`. Nothing is stated of the reading.
#[verifier::external_body]
fn instant_now() -> std::time::Instant {
    std::time::Instant::now()
}

/// `Instant::elapsed` in whole milliseconds. Nothing is stated of the reading:
/// it depends on the clock.
#[verifier::external_body]
fn elapsed_ms(since: &std::time::Instant) -> u64 {
    since.elapsed().as_millis() as u64
}

/// How long a failed provider is left out, in milliseconds.
pub const COOLDOWN_MS: u64 = 30000;

/// The request a selection is made for.
#[derive(Debug, Clone)]
pub struct RotationContext {
    pub conversation_id: Option<String>,
    pub model: Option<String>,
}

/// The outcome of a request sent to a selected provider.
#[derive(Debug, Clone, Copy, PartialEq, Eq, Structural)]
pub enum RotationEvent {
    Success,
    Failure,
}

/// The value stored under `k` in a list of pairs: the first match.
pub open spec fn pairs_get<V>(s: Seq<(Seq<char>, V)>, k: Seq<char>) -> Option<V>
    decreases s.len(),
{
    if s.len() == 0 {
        None
    } else if s[0].0 == k {
        Some(s[0].1)
    } else {
        pairs_get(s.drop_first(), k)
    }
}

/// Position of the first pair with key `k`.
pub open spec fn pairs_index<V>(s: Seq<(Seq<char>, V)>, k: Seq<char>) -> Option<int>
    decreases s.len(),
{
    if s.len() == 0 {
        None
    } else if s[0].0 == k {
        Some(0)
    } else {
        match pairs_index(s.drop_first(), k) {
            Some(i) => Some(i + 1),
            None => None,
        }
    }
}

/// Stores `v` under `k`: the first pair with key `k` gets the value, else a pair is added.
pub open spec fn pairs_insert<V>(s: Seq<(Seq<char>, V)>, k: Seq<char>, v: V) -> Seq<(Seq<char>, V)> {
    match pairs_index(s, k) {
        Some(i) => s.update(i, (k, v)),
        None => s.push((k, v)),
    }
}

pub proof fn lemma_pairs_index<V>(s: Seq<(Seq<char>, V)>, k: Seq<char>)
    ensures
        match pairs_index(s, k) {
            Some(i) => 0 <= i < s.len() && s[i].0 == k && forall|j: int| 0 <= j < i ==> (#[trigger] s[j]).0 != k,
            None => forall|j: int| 0 <= j < s.len() ==> (#[trigger] s[j]).0 != k,
        },
        match pairs_index(s, k) {
            Some(i) => pairs_get(s, k) == Some(s[i].1),
            None => pairs_get(s, k) is None,
        },
    decreases s.len(),
{
    if s.len() > 0 && s[0].0 != k {
        lemma_pairs_index(s.drop_first(), k);
        assert forall|j: int| 0 < j < s.len() implies s[j] == s.drop_first()[j - 1] by {}
    }
}

/// After storing `v` under `k`, `k` gives `v` and every other key what it gave before.
pub proof fn lemma_pairs_insert<V>(s: Seq<(Seq<char>, V)>, k: Seq<char>, v: V, q: Seq<char>)
    ensures
        pairs_get(pairs_insert(s, k, v), q) == (if q == k { Some(v) } else { pairs_get(s, q) }),
    decreases s.len(),
{
    lemma_pairs_index(s, k);
    let t = pairs_insert(s, k, v);
    lemma_pairs_index(t, q);
    lemma_pairs_index(s, q);
    match pairs_index(s, k) {
        Some(i) => {
            match pairs_index(t, q) {
                Some(j) => {
                    if q != k {
                        assert(j != i);
                        match pairs_index(s, q) {
                            Some(j2) => {
                                if j2 < j { assert(t[j2] == s[j2]); }
                                if j < j2 { assert(t[j] == s[j]); }
                            },
                            None => { assert(t[j] == s[j]); },
                        }
                    } else {
                        if j < i { assert(t[j] == s[j]); }
                        if i < j { assert(t[i].0 == k); }
                    }
                },
                None => {
                    if q == k { assert(t[i].0 == k); }
                    match pairs_index(s, q) {
                        Some(j2) => { assert(t[j2] == s[j2] || j2 == i); },
                        None => {},
                    }
                },
            }
        },
        None => {
            match pairs_index(t, q) {
                Some(j) => {
                    if j < s.len() {
                        assert(t[j] == s[j]);
                        match pairs_index(s, q) {
                            Some(j2) => { if j2 < j { assert(t[j2] == s[j2]); } },
                            None => {},
                        }
                    } else {
                        match pairs_index(s, q) {
                            Some(j2) => { assert(t[j2] == s[j2]); },
                            None => {},
                        }
                    }
                },
                None => {
                    if q == k { assert(t[s.len() as int].0 == k); }
                    match pairs_index(s, q) {
                        Some(j2) => { assert(t[j2] == s[j2]); },
                        None => {},
                    }
                },
            }
        },
    }
}

} // verus!

verus! {

/// The character sequences of a list of strings.
pub open spec fn ids_view(v: Seq<String>) -> Seq<Seq<char>> {
    v.map_values(|s: String| s@)
}

/// The provider ids of a pool's members, in member order.
pub open spec fn member_ids(ms: Seq<AggregateRelayMember>) -> Seq<Seq<char>> {
    ms.map_values(|m: AggregateRelayMember| m.relay_id@)
}

/// Provider `id` exists (the first of that id counting) and can serve `model`.
pub open spec fn relay_supports(settings: BackendSettings, id: Seq<char>, model: Option<Seq<char>>) -> bool {
    match find_profile(settings.relay_profiles@, id) {
        Some(p) => supports_model(p.model_list@, model),
        None => false,
    }
}

/// The members, in order, whose provider can serve `model`.
pub open spec fn compatible_ids(
    ms: Seq<AggregateRelayMember>,
    settings: BackendSettings,
    model: Option<Seq<char>>,
) -> Seq<Seq<char>> {
    member_ids(ms).filter(supports_pred(settings, model))
}

/// The test that keeps the ids of providers able to serve `model`.
pub open spec fn supports_pred(settings: BackendSettings, model: Option<Seq<char>>) -> spec_fn(Seq<char>) -> bool {
    |id: Seq<char>| relay_supports(settings, id, model)
}

/// The test that keeps the cool-downs still running at `now`.
pub open spec fn live_pred(now: int) -> spec_fn((Seq<char>, int)) -> bool {
    |e: (Seq<char>, int)| e.1 > now
}

/// The test that keeps the ids not cooling down.
pub open spec fn healthy_pred(cds: Seq<(Seq<char>, int)>) -> spec_fn(Seq<char>) -> bool {
    |id: Seq<char>| pairs_get(cds, id) is None
}

/// The cool-downs that have not run out at `now`.
pub open spec fn live_cooldowns(cds: Seq<(Seq<char>, int)>, now: int) -> Seq<(Seq<char>, int)> {
    cds.filter(live_pred(now))
}

/// The ids that are not cooling down.
pub open spec fn healthy_ids(ids: Seq<Seq<char>>, cds: Seq<(Seq<char>, int)>) -> Seq<Seq<char>> {
    ids.filter(healthy_pred(cds))
}

/// The ids to choose from: the healthy ones, or all when none is healthy.
pub open spec fn candidates_from(comp: Seq<Seq<char>>, cds: Seq<(Seq<char>, int)>) -> Seq<Seq<char>> {
    if healthy_ids(comp, cds).len() == 0 {
        comp
    } else {
        healthy_ids(comp, cds)
    }
}

/// Walking the members from `start`, the first one at offset `o` or later that is a candidate.
pub open spec fn failover_pick(ids: Seq<Seq<char>>, start: int, cands: Seq<Seq<char>>, o: int) -> Option<
    Seq<char>,
>
    decreases ids.len() - o,
{
    if o < 0 || o >= ids.len() {
        None
    } else if cands.contains(ids[(start + o) % (ids.len() as int)]) {
        Some(ids[(start + o) % (ids.len() as int)])
    } else {
        failover_pick(ids, start, cands, o + 1)
    }
}

/// The id failover chooses: the first candidate at or after the failover position.
pub open spec fn failover_choice(ids: Seq<Seq<char>>, start: int, cands: Seq<Seq<char>>) -> Seq<char> {
    match failover_pick(ids, start, cands, 0) {
        Some(id) => id,
        None => cands[0],
    }
}

/// One member's share of the weighted schedule: its id, `max(weight, 1)` times.
pub open spec fn member_slots(m: AggregateRelayMember) -> Seq<Seq<char>> {
    Seq::new(if m.weight == 0 { 1nat } else { m.weight as nat }, |_i: int| m.relay_id@)
}

/// The weighted schedule: each candidate member's id repeated by its weight, in member order.
pub open spec fn schedule(ms: Seq<AggregateRelayMember>, cands: Seq<Seq<char>>) -> Seq<Seq<char>>
    decreases ms.len(),
{
    if ms.len() == 0 {
        Seq::empty()
    } else {
        (if cands.contains(ms[0].relay_id@) {
            member_slots(ms[0])
        } else {
            Seq::empty()
        }) + schedule(ms.drop_first(), cands)
    }
}

/// The sum of `max(weight, 1)` over all members.
pub open spec fn total_weight(ms: Seq<AggregateRelayMember>) -> nat
    decreases ms.len(),
{
    if ms.len() == 0 {
        0
    } else {
        (if ms[0].weight == 0 { 1nat } else { ms[0].weight as nat }) + total_weight(ms.drop_first())
    }
}

pub proof fn lemma_schedule_len(ms: Seq<AggregateRelayMember>, cands: Seq<Seq<char>>)
    ensures
        schedule(ms, cands).len() <= total_weight(ms),
        (forall|i: int| 0 <= i < ms.len() ==> cands.contains(#[trigger] ms[i].relay_id@)) ==> schedule(ms, cands).len() == total_weight(ms),
    decreases ms.len(),
{
    if ms.len() > 0 {
        lemma_schedule_len(ms.drop_first(), cands);
        if forall|i: int| 0 <= i < ms.len() ==> cands.contains(#[trigger] ms[i].relay_id@) {
            assert forall|i: int| 0 <= i < ms.drop_first().len() implies cands.contains(#[trigger] ms.drop_first()[i].relay_id@) by {
                assert(ms.drop_first()[i] == ms[i + 1]);
            }
            assert(cands.contains(ms[0].relay_id@));
        }
    }
}

/// What a selector remembers, as plain values.
#[verifier::ext_equal]
pub struct SelectorView {
    pub aggregate_id: Seq<char>,
    pub aggregate_name: Seq<char>,
    pub strategy: AggregateRelayStrategy,
    pub members: Seq<AggregateRelayMember>,
    pub failover_index: int,
    pub request_index: int,
    pub weighted_index: int,
    pub assignments: Seq<(Seq<char>, Seq<char>)>,
    pub cooldowns: Seq<(Seq<char>, int)>,
    pub last_selected: Option<Seq<char>>,
    /// The latest reading of the selector's clock, in milliseconds.
    pub clock_ms: int,
}

/// The rotation state of one aggregate provider.
#[derive(Debug)]
pub struct RelayRotationSelector {
    aggregate: AggregateRelayProfile,
    failover_index: usize,
    request_index: usize,
    weighted_index: u128,
    conversation_assignments: Vec<(String, String)>,
    cooldowns: Vec<(String, u64)>,
    last_selected_id: Option<String>,
    clock: std::time::Instant,
    last_reading: u64,
}

pub open spec fn str_pairs_view(v: Seq<(String, String)>) -> Seq<(Seq<char>, Seq<char>)> {
    v.map_values(|p: (String, String)| (p.0@, p.1@))
}

pub open spec fn cooldowns_view(v: Seq<(String, u64)>) -> Seq<(Seq<char>, int)> {
    v.map_values(|p: (String, u64)| (p.0@, p.1 as int))
}

impl View for RelayRotationSelector {
    type V = SelectorView;

    closed spec fn view(&self) -> SelectorView {
        SelectorView {
            aggregate_id: self.aggregate.id@,
            aggregate_name: self.aggregate.name@,
            strategy: self.aggregate.strategy,
            members: self.aggregate.members@,
            failover_index: self.failover_index as int,
            request_index: self.request_index as int,
            weighted_index: self.weighted_index as int,
            assignments: str_pairs_view(self.conversation_assignments@),
            cooldowns: cooldowns_view(self.cooldowns@),
            last_selected: match self.last_selected_id {
                Some(s) => Some(s@),
                None => None,
            },
            clock_ms: self.last_reading as int,
        }
    }
}

} // verus!

verus! {

/// Filtering a prefix one element longer adds that element when it passes.
pub proof fn lemma_filter_take_step<A>(s: Seq<A>, p: spec_fn(A) -> bool, i: int)
    requires
        0 <= i < s.len(),
    ensures
        s.take(i + 1).filter(p) == (if p(s[i]) {
            s.take(i).filter(p).push(s[i])
        } else {
            s.take(i).filter(p)
        }),
{
    reveal(Seq::filter);
    assert(s.take(i + 1).drop_last() =~= s.take(i));
    assert(s.take(i + 1).last() == s[i]);
}

/// The label used for a missing model in error messages.
pub open spec fn model_label(model: Option<Seq<char>>) -> Seq<char> {
    match model {
        Some(m) => m,
        None => "未指定"@,
    }
}

/// Per-request round robin: the candidate at the request position, which then advances.
pub open spec fn rr_step(st: SelectorView, cands: Seq<Seq<char>>) -> (SelectorView, Seq<char>) {
    (
        SelectorView { request_index: (st.request_index + 1) % (cands.len() as int), ..st },
        cands[st.request_index % (cands.len() as int)],
    )
}

/// Per-conversation round robin: a conversation keeps the provider it was
/// given while that provider is a candidate; otherwise it gets the next one
/// by request round robin, which is remembered for it.
pub open spec fn conversation_step(st: SelectorView, conv: Option<Seq<char>>, cands: Seq<Seq<char>>) -> (
    SelectorView,
    Seq<char>,
) {
    match conv {
        None => rr_step(st, cands),
        Some(c) => match pairs_get(st.assignments, c) {
            Some(r) if cands.contains(r) => (st, r),
            _ => {
                let (s2, id) = rr_step(st, cands);
                (SelectorView { assignments: pairs_insert(s2.assignments, c, id), ..s2 }, id)
            },
        },
    }
}

/// Weighted round robin: the schedule entry at the weighted position, which then advances.
pub open spec fn weighted_step(st: SelectorView, cands: Seq<Seq<char>>) -> (SelectorView, Seq<char>) {
    let sch = schedule(st.members, cands);
    (
        SelectorView { weighted_index: (st.weighted_index + 1) % (sch.len() as int), ..st },
        sch[st.weighted_index % (sch.len() as int)],
    )
}

/// The choice among `cands` that the pool's strategy makes.
pub open spec fn strategy_step(st: SelectorView, conv: Option<Seq<char>>, cands: Seq<Seq<char>>) -> (
    SelectorView,
    Seq<char>,
) {
    match st.strategy {
        AggregateRelayStrategy::Failover => (
            st,
            failover_choice(member_ids(st.members), st.failover_index, cands),
        ),
        AggregateRelayStrategy::ConversationRoundRobin => conversation_step(st, conv, cands),
        AggregateRelayStrategy::RequestRoundRobin => rr_step(st, cands),
        AggregateRelayStrategy::WeightedRoundRobin => weighted_step(st, cands),
    }
}

/// One selection at time `now` (milliseconds on the selector's clock): the
/// next state and the chosen provider id, or why there is none.
pub open spec fn select_spec(
    st: SelectorView,
    settings: BackendSettings,
    model: Option<Seq<char>>,
    conv: Option<Seq<char>>,
    now: int,
) -> (SelectorView, Result<Seq<char>, SelectionErrorView>) {
    match validate_spec(settings, st.aggregate_id, st.members) {
        Some(e) => (st, Err(e)),
        None => {
            let comp = compatible_ids(st.members, settings, model);
            if comp.len() == 0 {
                (
                    st,
                    Err(
                        SelectionErrorView::NoCompatibleModel {
                            aggregate_id: st.aggregate_id,
                            model: model_label(model),
                        },
                    ),
                )
            } else {
                let cds = live_cooldowns(st.cooldowns, now);
                let cands = candidates_from(comp, cds);
                let (s2, id) = strategy_step(SelectorView { cooldowns: cds, ..st }, conv, cands);
                (SelectorView { last_selected: Some(id), ..s2 }, Ok(id))
            }
        },
    }
}

/// The provider for a selection result: the provider of the chosen id, or
/// the error for an id no provider has.
pub open spec fn selected_profile(
    settings: BackendSettings,
    aggregate_id: Seq<char>,
    r: Result<Seq<char>, SelectionErrorView>,
) -> Result<RelayProfile, SelectionErrorView> {
    match r {
        Err(e) => Err(e),
        Ok(id) => match find_profile(settings.relay_profiles@, id) {
            Some(p) => Ok(p),
            None => Err(SelectionErrorView::UnknownMemberRelay { aggregate_id, relay_id: id }),
        },
    }
}

pub open spec fn result_view(r: Result<RelayProfile, SelectionError>) -> Result<RelayProfile, SelectionErrorView> {
    match r {
        Ok(p) => Ok(p),
        Err(e) => Err(e@),
    }
}

/// Whether `v` holds a string equal to `s`.
pub fn contains_str(v: &Vec<String>, s: &str) -> (r: bool)
    ensures
        r == ids_view(v@).contains(s@),
{
    let mut i: usize = 0;
    while i < v.len()
        invariant
            i <= v@.len(),
            forall|j: int| 0 <= j < i ==> v@[j]@ != s@,
        decreases v@.len() - i,
    {
        if str_eq(v[i].as_str(), s) {
            assert(ids_view(v@)[i as int] == s@);
            return true;
        }
        i = i + 1;
    }
    proof {
        if ids_view(v@).contains(s@) {
            let k = choose|k: int| 0 <= k < ids_view(v@).len() && ids_view(v@)[k] == s@;
            assert(v@[k]@ == s@);
        }
    }
    false
}

/// Position of the first pair whose key is `k`.
pub fn pair_position<V>(v: &Vec<(String, V)>, k: &str) -> (r: Option<usize>)
    ensures
        match r {
            Some(i) => i < v@.len() && v@[i as int].0@ == k@ && forall|j: int| 0 <= j < i ==> (#[trigger] v@[j]).0@ != k@,
            None => forall|j: int| 0 <= j < v@.len() ==> (#[trigger] v@[j]).0@ != k@,
        },
{
    let mut i: usize = 0;
    while i < v.len()
        invariant
            i <= v@.len(),
            forall|j: int| 0 <= j < i ==> (#[trigger] v@[j]).0@ != k@,
        decreases v@.len() - i,
    {
        if str_eq(v[i].0.as_str(), k) {
            return Some(i);
        }
        i = i + 1;
    }
    None
}

} // verus!

verus! {

/// A selector is well formed: it has members, and its positions are in range.
pub open spec fn selector_wf(st: SelectorView) -> bool {
    &&& st.members.len() > 0
    &&& 0 <= st.failover_index < st.members.len()
    &&& 0 <= st.request_index < st.members.len()
    &&& 0 <= st.weighted_index < total_weight(st.members)
}

/// The state of a new selector for an aggregate provider.
pub open spec fn fresh_selector(a: AggregateRelayProfile) -> SelectorView {
    SelectorView {
        aggregate_id: a.id@,
        aggregate_name: a.name@,
        strategy: a.strategy,
        members: a.members@,
        failover_index: 0,
        request_index: 0,
        weighted_index: 0,
        assignments: Seq::empty(),
        cooldowns: Seq::empty(),
        last_selected: None,
        clock_ms: 0,
    }
}

pub proof fn lemma_total_weight(ms: Seq<AggregateRelayMember>)
    ensures
        ms.len() > 0 ==> total_weight(ms) > 0,
        total_weight(ms) <= ms.len() * 4294967295,
    decreases ms.len(),
{
    if ms.len() > 0 {
        lemma_total_weight(ms.drop_first());
    }
}

/// Which key a list of pairs holds, by a linear search.
proof fn lemma_pairs_get_none<V>(s: Seq<(Seq<char>, V)>, k: Seq<char>)
    ensures
        (pairs_get(s, k) is None) <==> (forall|j: int| 0 <= j < s.len() ==> (#[trigger] s[j]).0 != k),
{
    lemma_pairs_index(s, k);
}

impl RelayRotationSelector {
    /// A selector for the aggregate provider in use, checked against the providers.
    pub fn from_settings(settings: &BackendSettings) -> (r: Result<RelayRotationSelector, SelectionError>)
        ensures
            match (active_aggregate_spec(*settings), r) {
                (None, Err(e)) => e@ == SelectionErrorView::NoActiveAggregate,
                (Some(a), Err(e)) => validate_spec(*settings, a.id@, a.members@) == Some(e@),
                (Some(a), Ok(sel)) => validate_spec(*settings, a.id@, a.members@) is None
                    && sel@ == fresh_selector(a) && selector_wf(sel@),
                (None, Ok(_)) => false,
            },
    {
        proof {
            lemma_profile_index(settings.relay_profiles@, settings.active_relay_id@);
            lemma_aggregate_index(settings.aggregate_relay_profiles@, settings.active_aggregate_relay_id@);
        }
        let p = match profile_position(&settings.relay_profiles, settings.active_relay_id.as_str()) {
            Some(p) => p,
            None => return Err(SelectionError::NoActiveAggregate),
        };
        if settings.relay_profiles[p].relay_mode != RelayMode::Aggregate {
            return Err(SelectionError::NoActiveAggregate);
        }
        let k = match aggregate_position(
            &settings.aggregate_relay_profiles,
            settings.active_aggregate_relay_id.as_str(),
        ) {
            Some(k) => k,
            None => return Err(SelectionError::NoActiveAggregate),
        };
        let aggregate = settings.aggregate_relay_profiles[k].duplicate();
        match validate_aggregate_members(settings, &aggregate) {
            Err(e) => return Err(e),
            Ok(()) => {},
        }
        proof {
            lemma_total_weight(aggregate.members@);
        }
        let sel = RelayRotationSelector {
            aggregate,
            failover_index: 0,
            request_index: 0,
            weighted_index: 0,
            conversation_assignments: Vec::new(),
            cooldowns: Vec::new(),
            last_selected_id: None,
            clock: instant_now(),
            last_reading: 0,
        };
        assert(sel@ =~= fresh_selector(settings.aggregate_relay_profiles@[k as int]));
        Ok(sel)
    }

    /// The ids of the members whose provider can serve `model`, in member order.
    fn compatible_member_ids(&self, settings: &BackendSettings, model: Option<&str>) -> (r: Vec<String>)
        ensures
            ids_view(r@) == compatible_ids(self@.members, *settings, opt_str_view(model)),
    {
        let ghost ms = self.aggregate.members@;
        let ghost pred = supports_pred(*settings, opt_str_view(model));
        let mut out: Vec<String> = Vec::new();
        let mut i: usize = 0;
        while i < self.aggregate.members.len()
            invariant
                i <= ms.len(),
                ms == self.aggregate.members@,
                pred == supports_pred(*settings, opt_str_view(model)),
                ids_view(out@) == member_ids(ms).take(i as int).filter(pred),
            decreases ms.len() - i,
        {
            proof {
                lemma_filter_take_step(member_ids(ms), pred, i as int);
                lemma_profile_index(settings.relay_profiles@, ms[i as int].relay_id@);
            }
            let member = &self.aggregate.members[i];
            let ok = match profile_position(&settings.relay_profiles, member.relay_id.as_str()) {
                Some(k) => profile_supports_model(&settings.relay_profiles[k], model),
                None => false,
            };
            assert(ok == pred(member_ids(ms)[i as int]));
            if ok {
                let ghost before = out@;
                out.push(member.relay_id.clone());
                assert(ids_view(out@) =~= ids_view(before).push(ms[i as int].relay_id@));
            }
            i = i + 1;
        }
        assert(member_ids(ms).take(ms.len() as int) =~= member_ids(ms));
        out
    }

    /// Drops the cool-downs that have run out at `now`.
    fn prune_cooldowns(&mut self, now: u64)
        ensures
            final(self)@ == (SelectorView { cooldowns: live_cooldowns(old(self)@.cooldowns, now as int), ..old(self)@ }),
    {
        let ghost cv = cooldowns_view(self.cooldowns@);
        let mut kept: Vec<(String, u64)> = Vec::new();
        let mut i: usize = 0;
        while i < self.cooldowns.len()
            invariant
                i <= cv.len(),
                cv == cooldowns_view(self.cooldowns@),
                cooldowns_view(kept@) == cv.take(i as int).filter(live_pred(now as int)),
            decreases cv.len() - i,
        {
            proof {
                lemma_filter_take_step(cv, live_pred(now as int), i as int);
            }
            let e = &self.cooldowns[i];
            if e.1 > now {
                let ghost before = kept@;
                kept.push((e.0.clone(), e.1));
                assert(cooldowns_view(kept@) =~= cooldowns_view(before).push(cv[i as int]));
            }
            i = i + 1;
        }
        assert(cv.take(cv.len() as int) =~= cv);
        self.cooldowns = kept;
    }

    /// The ids among `ids` that are not cooling down.
    fn healthy_among(&self, ids: &Vec<String>) -> (r: Vec<String>)
        ensures
            ids_view(r@) == healthy_ids(ids_view(ids@), self@.cooldowns),
    {
        let ghost iv = ids_view(ids@);
        let ghost cds = self@.cooldowns;
        let mut out: Vec<String> = Vec::new();
        let mut i: usize = 0;
        while i < ids.len()
            invariant
                i <= iv.len(),
                iv == ids_view(ids@),
                cds == self@.cooldowns,
                cds == cooldowns_view(self.cooldowns@),
                ids_view(out@) == iv.take(i as int).filter(healthy_pred(cds)),
            decreases iv.len() - i,
        {
            proof {
                lemma_filter_take_step(iv, healthy_pred(cds), i as int);
                lemma_pairs_get_none(cds, iv[i as int]);
            }
            let found = pair_position(&self.cooldowns, ids[i].as_str());
            assert(found.is_none() == healthy_pred(cds)(iv[i as int])) by {
                match found {
                    Some(j) => assert(cds[j as int].0 == iv[i as int]),
                    None => {
                        assert forall|j: int| 0 <= j < cds.len() implies (#[trigger] cds[j]).0 != iv[i as int] by {
                            assert(self.cooldowns@[j].0@ != ids@[i as int]@);
                        }
                    },
                }
            }
            if found.is_none() {
                let ghost before = out@;
                out.push(ids[i].clone());
                assert(ids_view(out@) =~= ids_view(before).push(iv[i as int]));
            }
            i = i + 1;
        }
        assert(iv.take(iv.len() as int) =~= iv);
        out
    }

    /// The ids to choose from at `now`, after dropping run-out cool-downs,
    /// or the error when no member can serve `model`.
    fn candidate_ids(&mut self, settings: &BackendSettings, model: Option<&str>, now: u64) -> (r: Result<
        Vec<String>,
        SelectionError,
    >)
        ensures
            ({
                let comp = compatible_ids(old(self)@.members, *settings, opt_str_view(model));
                match r {
                    Err(e) => comp.len() == 0 && final(self)@ == old(self)@ && e@
                        == (SelectionErrorView::NoCompatibleModel {
                        aggregate_id: old(self)@.aggregate_id,
                        model: model_label(opt_str_view(model)),
                    }),
                    Ok(c) => comp.len() > 0 && final(self)@ == (SelectorView {
                        cooldowns: live_cooldowns(old(self)@.cooldowns, now as int),
                        ..old(self)@
                    }) && ids_view(c@) == candidates_from(comp, final(self)@.cooldowns),
                }
            }),
    {
        let compatible = self.compatible_member_ids(settings, model);
        if compatible.len() == 0 {
            let label = match model {
                Some(m) => owned(m),
                None => owned("未指定"),
            };
            return Err(SelectionError::NoCompatibleModel { aggregate_id: self.aggregate.id.clone(), model: label });
        }
        self.prune_cooldowns(now);
        let healthy = self.healthy_among(&compatible);
        if healthy.len() == 0 {
            Ok(compatible)
        } else {
            Ok(healthy)
        }
    }
}

} // verus!

verus! {

/// `(a + b) % n` without overflow, for `a <= n` and `b < n`.
fn wrap_add(a: usize, b: usize, n: usize) -> (r: usize)
    requires
        a <= n,
        b < n,
    ensures
        r as int == (a + b) % (n as int),
        r < n,
{
    proof {
        if a + b >= n {
            vstd::arithmetic::div_mod::lemma_mod_sub_multiples_vanish((a + b) as int, n as int);
            vstd::arithmetic::div_mod::lemma_small_mod((a + b - n) as nat, n as nat);
        } else {
            vstd::arithmetic::div_mod::lemma_small_mod((a + b) as nat, n as nat);
        }
    }
    if a >= n - b {
        a - (n - b)
    } else {
        a + b
    }
}

/// Every element kept by a filter comes from the filtered sequence.
pub proof fn lemma_filter_subset<A>(s: Seq<A>, p: spec_fn(A) -> bool)
    ensures
        forall|i: int| 0 <= i < s.filter(p).len() ==> s.contains(#[trigger] s.filter(p)[i]),
        s.filter(p).len() <= s.len(),
    decreases s.len(),
{
    reveal(Seq::filter);
    if s.len() > 0 {
        lemma_filter_subset(s.drop_last(), p);
        let f = s.filter(p);
        assert forall|i: int| 0 <= i < f.len() implies s.contains(#[trigger] f[i]) by {
            let g = s.drop_last().filter(p);
            if i < g.len() {
                assert(f[i] == g[i]);
                let k = choose|k: int| 0 <= k < s.drop_last().len() && s.drop_last()[k] == g[i];
                assert(s[k] == f[i]);
            } else {
                assert(f[i] == s[s.len() - 1]);
            }
        }
    }
}

/// The first pair with key `k` is at `j`.
proof fn lemma_first_key<V>(s: Seq<(Seq<char>, V)>, k: Seq<char>, j: int)
    requires
        0 <= j < s.len(),
        s[j].0 == k,
        forall|i: int| 0 <= i < j ==> (#[trigger] s[i]).0 != k,
    ensures
        pairs_index(s, k) == Some(j),
        pairs_get(s, k) == Some(s[j].1),
{
    lemma_pairs_index(s, k);
}

/// The share of one member in a weighted schedule.
pub open spec fn member_share(m: AggregateRelayMember, cands: Seq<Seq<char>>) -> Seq<Seq<char>> {
    if cands.contains(m.relay_id@) {
        member_slots(m)
    } else {
        Seq::empty()
    }
}

proof fn lemma_schedule_skip(ms: Seq<AggregateRelayMember>, cands: Seq<Seq<char>>, i: int)
    requires
        0 <= i < ms.len(),
    ensures
        schedule(ms.skip(i), cands) == member_share(ms[i], cands) + schedule(ms.skip(i + 1), cands),
{
    assert(ms.skip(i).drop_first() =~= ms.skip(i + 1));
    assert(ms.skip(i)[0] == ms[i]);
}

/// A schedule holds only candidates.
pub proof fn lemma_schedule_in(ms: Seq<AggregateRelayMember>, cands: Seq<Seq<char>>)
    ensures
        forall|k: int| 0 <= k < schedule(ms, cands).len() ==> cands.contains(#[trigger] schedule(ms, cands)[k]),
    decreases ms.len(),
{
    if ms.len() > 0 {
        lemma_schedule_in(ms.drop_first(), cands);
        let a = member_share(ms[0], cands);
        assert forall|k: int| 0 <= k < schedule(ms, cands).len() implies cands.contains(#[trigger] schedule(ms, cands)[k]) by {
            if k >= a.len() {
                assert(schedule(ms, cands)[k] == schedule(ms.drop_first(), cands)[k - a.len()]);
            }
        }
    }
}

/// A schedule is not empty when some member is a candidate.
pub proof fn lemma_schedule_nonempty(ms: Seq<AggregateRelayMember>, cands: Seq<Seq<char>>, i: int)
    requires
        0 <= i < ms.len(),
        cands.contains(ms[i].relay_id@),
    ensures
        schedule(ms, cands).len() > 0,
    decreases ms.len(),
{
    if i > 0 {
        assert(ms.drop_first()[i - 1] == ms[i]);
        lemma_schedule_nonempty(ms.drop_first(), cands, i - 1);
    }
}

/// A candidate list drawn from the members names only members, and is no longer than them.
pub proof fn lemma_candidates_members(
    ms: Seq<AggregateRelayMember>,
    settings: BackendSettings,
    model: Option<Seq<char>>,
    cds: Seq<(Seq<char>, int)>,
)
    ensures
        ({
            let comp = compatible_ids(ms, settings, model);
            let cands = candidates_from(comp, cds);
            &&& cands.len() <= ms.len()
            &&& comp.len() > 0 ==> cands.len() > 0
            &&& forall|k: int| 0 <= k < cands.len() ==> member_ids(ms).contains(#[trigger] cands[k])
            &&& forall|k: int| 0 <= k < cands.len() ==> comp.contains(#[trigger] cands[k])
        }),
{
    let comp = compatible_ids(ms, settings, model);
    lemma_filter_subset(member_ids(ms), supports_pred(settings, model));
    lemma_filter_subset(comp, healthy_pred(cds));
    let cands = candidates_from(comp, cds);
    assert forall|k: int| 0 <= k < cands.len() implies comp.contains(#[trigger] cands[k]) by {
        if healthy_ids(comp, cds).len() != 0 {
            assert(comp.contains(healthy_ids(comp, cds)[k]));
        } else {
            assert(comp[k] == cands[k]);
        }
    }
    assert forall|k: int| 0 <= k < cands.len() implies member_ids(ms).contains(#[trigger] cands[k]) by {
        assert(comp.contains(cands[k]));
        let j = choose|j: int| 0 <= j < comp.len() && comp[j] == cands[k];
        assert(member_ids(ms).contains(comp[j]));
    }
}

impl RelayRotationSelector {
    /// Failover: the first candidate at or after the failover position.
    fn failover_pick_exec(&self, cands: &Vec<String>) -> (r: String)
        requires
            selector_wf(self@),
            cands@.len() > 0,
        ensures
            r@ == failover_choice(member_ids(self@.members), self@.failover_index, ids_view(cands@)),
    {
        let n = self.aggregate.members.len();
        let ghost ids = member_ids(self@.members);
        let ghost cv = ids_view(cands@);
        let mut o: usize = 0;
        while o < n
            invariant
                o <= n,
                n == ids.len(),
                ids == member_ids(self@.members),
                cv == ids_view(cands@),
                selector_wf(self@),
                failover_pick(ids, self@.failover_index, cv, 0) == failover_pick(ids, self@.failover_index, cv, o as int),
            decreases n - o,
        {
            let idx = wrap_add(self.failover_index, o, n);
            let id = &self.aggregate.members[idx].relay_id;
            if contains_str(cands, id.as_str()) {
                return id.clone();
            }
            o = o + 1;
        }
        cands[0].clone()
    }

    /// Request round robin: the candidate at the request position, which then advances.
    fn next_request(&mut self, cands: &Vec<String>) -> (r: String)
        requires
            selector_wf(old(self)@),
            cands@.len() > 0,
            cands@.len() <= old(self)@.members.len(),
        ensures
            final(self)@ == rr_step(old(self)@, ids_view(cands@)).0,
            r@ == rr_step(old(self)@, ids_view(cands@)).1,
            selector_wf(final(self)@),
    {
        let n = cands.len();
        let _members = self.aggregate.members.len();
        let id = cands[self.request_index % n].clone();
        self.request_index = (self.request_index + 1) % n;
        id
    }

    /// Remembers provider `id` for conversation `c`.
    fn assign(&mut self, c: String, id: String)
        ensures
            final(self)@ == (SelectorView { assignments: pairs_insert(old(self)@.assignments, c@, id@), ..old(self)@ }),
    {
        let ghost s = str_pairs_view(self.conversation_assignments@);
        match pair_position(&self.conversation_assignments, c.as_str()) {
            Some(j) => {
                proof {
                    lemma_first_key(s, c@, j as int);
                }
                let ghost before = self.conversation_assignments@;
                self.conversation_assignments.set(j, (c, id));
                assert(str_pairs_view(self.conversation_assignments@) =~= s.update(j as int, (c@, id@)));
            },
            None => {
                proof {
                    lemma_pairs_index(s, c@);
                    if pairs_index(s, c@) is Some {
                        let k = pairs_index(s, c@)->0;
                        assert(self.conversation_assignments@[k].0@ == c@);
                    }
                }
                self.conversation_assignments.push((c, id));
                assert(str_pairs_view(self.conversation_assignments@) =~= s.push((c@, id@)));
            },
        }
    }

    /// Per-conversation round robin.
    fn select_for_conversation(&mut self, conv: Option<String>, cands: &Vec<String>) -> (r: String)
        requires
            selector_wf(old(self)@),
            cands@.len() > 0,
            cands@.len() <= old(self)@.members.len(),
        ensures
            final(self)@ == conversation_step(old(self)@, opt_view(conv), ids_view(cands@)).0,
            r@ == conversation_step(old(self)@, opt_view(conv), ids_view(cands@)).1,
            selector_wf(final(self)@),
    {
        let c = match conv {
            None => return self.next_request(cands),
            Some(c) => c,
        };
        let ghost s = str_pairs_view(self.conversation_assignments@);
        match pair_position(&self.conversation_assignments, c.as_str()) {
            Some(j) => {
                proof {
                    lemma_first_key(s, c@, j as int);
                }
                let assigned = &self.conversation_assignments[j].1;
                if contains_str(cands, assigned.as_str()) {
                    return assigned.clone();
                }
            },
            None => {
                proof {
                    lemma_pairs_index(s, c@);
                    if pairs_index(s, c@) is Some {
                        let k = pairs_index(s, c@)->0;
                        assert(self.conversation_assignments@[k].0@ == c@);
                    }
                }
            },
        }
        let id = self.next_request(cands);
        self.assign(c, id.clone());
        id
    }

    /// The length of the weighted schedule over `cands`.
    fn schedule_len(&self, cands: &Vec<String>) -> (r: u128)
        ensures
            r as int == schedule(self@.members, ids_view(cands@)).len(),
    {
        let ghost ms = self.aggregate.members@;
        let ghost cv = ids_view(cands@);
        let mut acc: u128 = 0;
        let mut i: usize = self.aggregate.members.len();
        assert(ms.skip(ms.len() as int) =~= Seq::<AggregateRelayMember>::empty());
        while i > 0
            invariant
                i <= ms.len(),
                ms == self.aggregate.members@,
                cv == ids_view(cands@),
                acc as int == schedule(ms.skip(i as int), cv).len(),
                acc as int <= (ms.len() - i) * 4294967295,
                ms.len() <= usize::MAX,
            decreases i,
        {
            proof {
                lemma_schedule_skip(ms, cv, i - 1);
            }
            let m = &self.aggregate.members[i - 1];
            if contains_str(cands, m.relay_id.as_str()) {
                let w: u128 = if m.weight == 0 {
                    1
                } else {
                    m.weight as u128
                };
                acc = acc + w;
            }
            i = i - 1;
        }
        assert(ms.skip(0) =~= ms);
        acc
    }

    /// The weighted schedule over `cands` at position `pos`.
    fn schedule_entry(&self, cands: &Vec<String>, pos: u128) -> (r: String)
        requires
            pos < schedule(self@.members, ids_view(cands@)).len(),
        ensures
            r@ == schedule(self@.members, ids_view(cands@))[pos as int],
    {
        let ghost ms = self.aggregate.members@;
        let ghost cv = ids_view(cands@);
        let ghost sch = schedule(ms, cv);
        let mut rem: u128 = pos;
        let mut i: usize = 0;
        assert(ms.skip(0) =~= ms);
        while i < self.aggregate.members.len()
            invariant
                i <= ms.len(),
                ms == self.aggregate.members@,
                cv == ids_view(cands@),
                sch == schedule(ms, cv),
                0 <= pos < sch.len(),
                rem < schedule(ms.skip(i as int), cv).len(),
                schedule(ms.skip(i as int), cv)[rem as int] == sch[pos as int],
            decreases ms.len() - i,
        {
            proof {
                lemma_schedule_skip(ms, cv, i as int);
            }
            let m = &self.aggregate.members[i];
            if contains_str(cands, m.relay_id.as_str()) {
                let w: u128 = if m.weight == 0 {
                    1
                } else {
                    m.weight as u128
                };
                if rem < w {
                    return m.relay_id.clone();
                }
                rem = rem - w;
            }
            i = i + 1;
        }
        assert(ms.skip(ms.len() as int) =~= Seq::<AggregateRelayMember>::empty());
        String::new()
    }

    /// Weighted round robin: the schedule entry at the weighted position, which then advances.
    fn next_weighted(&mut self, cands: &Vec<String>) -> (r: String)
        requires
            selector_wf(old(self)@),
            schedule(old(self)@.members, ids_view(cands@)).len() > 0,
        ensures
            final(self)@ == weighted_step(old(self)@, ids_view(cands@)).0,
            r@ == weighted_step(old(self)@, ids_view(cands@)).1,
            selector_wf(final(self)@),
    {
        proof {
            lemma_schedule_len(self@.members, ids_view(cands@));
            lemma_total_weight(self@.members);
        }
        let len = self.schedule_len(cands);
        let _members = self.aggregate.members.len();
        let id = self.schedule_entry(cands, self.weighted_index % len);
        self.weighted_index = (self.weighted_index + 1) % len;
        id
    }

    /// Picks a provider for a request at time `now` (milliseconds on the
    /// selector's clock) and updates the rotation state.
    pub fn select_at(&mut self, settings: &BackendSettings, context: RotationContext, now: u64) -> (r:
        Result<RelayProfile, SelectionError>)
        requires
            selector_wf(old(self)@),
        ensures
            selector_wf(final(self)@),
            final(self)@ == select_spec(
                old(self)@,
                *settings,
                opt_view(context.model),
                opt_view(context.conversation_id),
                now as int,
            ).0,
            result_view(r) == selected_profile(
                *settings,
                old(self)@.aggregate_id,
                select_spec(
                    old(self)@,
                    *settings,
                    opt_view(context.model),
                    opt_view(context.conversation_id),
                    now as int,
                ).1,
            ),
    {
        match validate_aggregate_members(settings, &self.aggregate) {
            Err(e) => return Err(e),
            Ok(()) => {},
        }
        let model = match &context.model {
            Some(m) => Some(m.as_str()),
            None => None,
        };
        let ghost st0 = self@;
        let cands = match self.candidate_ids(settings, model, now) {
            Err(e) => return Err(e),
            Ok(c) => c,
        };
        proof {
            lemma_candidates_members(st0.members, *settings, opt_str_view(model), self@.cooldowns);
            lemma_schedule_nonempty_of_cands(self@.members, ids_view(cands@));
        }
        let relay_id = match self.aggregate.strategy {
            AggregateRelayStrategy::Failover => self.failover_pick_exec(&cands),
            AggregateRelayStrategy::ConversationRoundRobin => self.select_for_conversation(
                context.conversation_id,
                &cands,
            ),
            AggregateRelayStrategy::RequestRoundRobin => self.next_request(&cands),
            AggregateRelayStrategy::WeightedRoundRobin => self.next_weighted(&cands),
        };
        self.last_selected_id = Some(relay_id.clone());
        proof {
            lemma_profile_index(settings.relay_profiles@, relay_id@);
        }
        match profile_position(&settings.relay_profiles, relay_id.as_str()) {
            Some(k) => Ok(settings.relay_profiles[k].duplicate()),
            None => Err(SelectionError::UnknownMemberRelay { aggregate_id: self.aggregate.id.clone(), relay_id }),
        }
    }
}

/// A schedule over a non-empty list of member ids is not empty.
pub proof fn lemma_schedule_nonempty_of_cands(ms: Seq<AggregateRelayMember>, cands: Seq<Seq<char>>)
    requires
        cands.len() > 0,
        member_ids(ms).contains(cands[0]),
    ensures
        schedule(ms, cands).len() > 0,
{
    let j = choose|j: int| 0 <= j < member_ids(ms).len() && member_ids(ms)[j] == cands[0];
    assert(cands.contains(ms[j].relay_id@));
    lemma_schedule_nonempty(ms, cands, j);
}

} // verus!

verus! {

/// Position of the first occurrence of `x` in `s`.
pub open spec fn seq_index(s: Seq<Seq<char>>, x: Seq<char>) -> Option<int>
    decreases s.len(),
{
    if s.len() == 0 {
        None
    } else if s[0] == x {
        Some(0)
    } else {
        match seq_index(s.drop_first(), x) {
            Some(i) => Some(i + 1),
            None => None,
        }
    }
}

pub proof fn lemma_seq_index(s: Seq<Seq<char>>, x: Seq<char>)
    ensures
        match seq_index(s, x) {
            Some(i) => 0 <= i < s.len() && s[i] == x && forall|j: int| 0 <= j < i ==> s[j] != x,
            None => forall|j: int| 0 <= j < s.len() ==> s[j] != x,
        },
    decreases s.len(),
{
    if s.len() > 0 && s[0] != x {
        lemma_seq_index(s.drop_first(), x);
        assert forall|j: int| 0 < j < s.len() implies s[j] == s.drop_first()[j - 1] by {}
    }
}

/// Position of the first member whose provider id is `id`.
fn member_position(members: &Vec<AggregateRelayMember>, id: &str) -> (r: Option<usize>)
    ensures
        match r {
            Some(i) => i < members@.len() && seq_index(member_ids(members@), id@) == Some(i as int),
            None => seq_index(member_ids(members@), id@) is None,
        },
{
    let mut i: usize = 0;
    while i < members.len()
        invariant
            i <= members@.len(),
            forall|j: int| 0 <= j < i ==> (#[trigger] members@[j]).relay_id@ != id@,
        decreases members@.len() - i,
    {
        if str_eq(members[i].relay_id.as_str(), id) {
            proof {
                lemma_seq_index(member_ids(members@), id@);
                match seq_index(member_ids(members@), id@) {
                    Some(k) => {
                        if k < i {
                            assert(members@[k].relay_id@ == id@);
                        }
                        assert(member_ids(members@)[i as int] == id@);
                    },
                    None => {
                        assert(member_ids(members@)[i as int] == id@);
                    },
                }
            }
            return Some(i);
        }
        i = i + 1;
    }
    proof {
        lemma_seq_index(member_ids(members@), id@);
        if seq_index(member_ids(members@), id@) is Some {
            let k = seq_index(member_ids(members@), id@)->0;
            assert(members@[k].relay_id@ == id@);
        }
    }
    None
}

/// The id `peek` reports: the member at the failover or request position,
/// or the weighted schedule entry over all members, after checking the members.
pub open spec fn peek_spec(st: SelectorView, settings: BackendSettings) -> Result<Seq<char>, SelectionErrorView> {
    match validate_spec(settings, st.aggregate_id, st.members) {
        Some(e) => Err(e),
        None => {
            let ids = member_ids(st.members);
            let n = ids.len() as int;
            Ok(
                match st.strategy {
                    AggregateRelayStrategy::Failover => ids[st.failover_index % n],
                    AggregateRelayStrategy::ConversationRoundRobin => ids[st.request_index % n],
                    AggregateRelayStrategy::RequestRoundRobin => ids[st.request_index % n],
                    AggregateRelayStrategy::WeightedRoundRobin => {
                        let sch = schedule(st.members, ids);
                        sch[st.weighted_index % (sch.len() as int)]
                    },
                },
            )
        },
    }
}

/// The selector state `st` with its clock read at `now`.
pub open spec fn at_clock(st: SelectorView, now: int) -> SelectorView {
    SelectorView { clock_ms: now, ..st }
}

/// The latest end of a cool-down started at `now`.
pub open spec fn cooldown_until(now: int) -> int {
    if now + COOLDOWN_MS > u64::MAX {
        u64::MAX as int
    } else {
        now + COOLDOWN_MS
    }
}

/// The test that keeps the cool-downs of other providers than `id`.
pub open spec fn other_key_pred(id: Seq<char>) -> spec_fn((Seq<char>, int)) -> bool {
    |e: (Seq<char>, int)| e.0 != id
}

/// The test that keeps the conversations assigned to other providers than `id`.
pub open spec fn other_value_pred(id: Seq<char>) -> spec_fn((Seq<char>, Seq<char>)) -> bool {
    |p: (Seq<char>, Seq<char>)| p.1 != id
}

/// The state after the outcome `event` of a request to `relay` (or, when
/// none is given, to the last selected provider) at time `now`.
pub open spec fn record_spec(
    st: SelectorView,
    relay: Option<Seq<char>>,
    conv: Option<Seq<char>>,
    event: RotationEvent,
    now: int,
) -> SelectorView {
    let target = match relay {
        Some(r) => Some(r),
        None => st.last_selected,
    };
    match target {
        None => st,
        Some(id) => match event {
            RotationEvent::Success => {
                let s1 = SelectorView { cooldowns: st.cooldowns.filter(other_key_pred(id)), ..st };
                match conv {
                    Some(c) => if st.strategy == AggregateRelayStrategy::ConversationRoundRobin {
                        SelectorView { assignments: pairs_insert(s1.assignments, c, id), ..s1 }
                    } else {
                        s1
                    },
                    None => s1,
                }
            },
            RotationEvent::Failure => {
                let s1 = SelectorView {
                    cooldowns: pairs_insert(st.cooldowns, id, cooldown_until(now)),
                    assignments: st.assignments.filter(other_value_pred(id)),
                    ..st
                };
                if st.strategy == AggregateRelayStrategy::Failover && st.members.len() > 0 {
                    let n = st.members.len() as int;
                    SelectorView {
                        failover_index: match seq_index(member_ids(st.members), id) {
                            Some(i) => (i + 1) % n,
                            None => (st.failover_index + 1) % n,
                        },
                        ..s1
                    }
                } else {
                    s1
                }
            },
        },
    }
}

impl RelayRotationSelector {
    /// Picks a provider for a request and updates the rotation state; the time
    /// is read from the selector's clock.
    pub fn select(&mut self, settings: &BackendSettings, context: RotationContext) -> (r: Result<
        RelayProfile,
        SelectionError,
    >)
        requires
            selector_wf(old(self)@),
        ensures
            selector_wf(final(self)@),
            exists|now: int|
                old(self)@.clock_ms <= now <= u64::MAX && final(self)@ == select_spec(
                    at_clock(old(self)@, now),
                    *settings,
                    opt_view(context.model),
                    opt_view(context.conversation_id),
                    now,
                ).0 && result_view(r) == selected_profile(
                    *settings,
                    old(self)@.aggregate_id,
                    select_spec(
                        at_clock(old(self)@, now),
                        *settings,
                        opt_view(context.model),
                        opt_view(context.conversation_id),
                        now,
                    ).1,
                ),
    {
        let now = self.read_clock();
        let r = self.select_at(settings, context, now);
        assert(0 <= now as int <= u64::MAX);
        r
    }

    /// The provider the next request would most likely get, without changing the state.
    pub fn peek(&self, settings: &BackendSettings) -> (r: Result<RelayProfile, SelectionError>)
        requires
            selector_wf(self@),
        ensures
            result_view(r) == selected_profile(*settings, self@.aggregate_id, peek_spec(self@, *settings)),
    {
        match validate_aggregate_members(settings, &self.aggregate) {
            Err(e) => return Err(e),
            Ok(()) => {},
        }
        let n = self.aggregate.members.len();
        let relay_id = match self.aggregate.strategy {
            AggregateRelayStrategy::Failover => self.aggregate.members[self.failover_index % n].relay_id.clone(),
            AggregateRelayStrategy::ConversationRoundRobin => self.aggregate.members[self.request_index
                % n].relay_id.clone(),
            AggregateRelayStrategy::RequestRoundRobin => self.aggregate.members[self.request_index
                % n].relay_id.clone(),
            AggregateRelayStrategy::WeightedRoundRobin => {
                let mut all: Vec<String> = Vec::new();
                let mut i: usize = 0;
                while i < n
                    invariant
                        i <= n,
                        n == self.aggregate.members@.len(),
                        ids_view(all@) == member_ids(self@.members).take(i as int),
                    decreases n - i,
                {
                    let ghost before = all@;
                    all.push(self.aggregate.members[i].relay_id.clone());
                    assert(ids_view(all@) =~= ids_view(before).push(self.aggregate.members@[i as int].relay_id@));
                    assert(ids_view(all@) =~= member_ids(self@.members).take(i as int + 1));
                    i = i + 1;
                }
                assert(member_ids(self@.members).take(n as int) =~= member_ids(self@.members));
                proof {
                    assert(member_ids(self@.members).contains(member_ids(self@.members)[0]));
                    lemma_schedule_nonempty_of_cands(self@.members, ids_view(all@));
                }
                let len = self.schedule_len(&all);
                self.schedule_entry(&all, self.weighted_index % len)
            },
        };
        proof {
            lemma_profile_index(settings.relay_profiles@, relay_id@);
        }
        match profile_position(&settings.relay_profiles, relay_id.as_str()) {
            Some(k) => Ok(settings.relay_profiles[k].duplicate()),
            None => Err(SelectionError::UnknownMemberRelay { aggregate_id: self.aggregate.id.clone(), relay_id }),
        }
    }

    /// Ends the cool-down of provider `id`.
    fn clear_cooldown(&mut self, id: &str)
        ensures
            final(self)@ == (SelectorView { cooldowns: old(self)@.cooldowns.filter(other_key_pred(id@)), ..old(self)@ }),
    {
        let ghost cv = cooldowns_view(self.cooldowns@);
        let mut kept: Vec<(String, u64)> = Vec::new();
        let mut i: usize = 0;
        while i < self.cooldowns.len()
            invariant
                i <= cv.len(),
                cv == cooldowns_view(self.cooldowns@),
                cooldowns_view(kept@) == cv.take(i as int).filter(other_key_pred(id@)),
            decreases cv.len() - i,
        {
            proof {
                lemma_filter_take_step(cv, other_key_pred(id@), i as int);
            }
            let e = &self.cooldowns[i];
            if !str_eq(e.0.as_str(), id) {
                let ghost before = kept@;
                kept.push((e.0.clone(), e.1));
                assert(cooldowns_view(kept@) =~= cooldowns_view(before).push(cv[i as int]));
            }
            i = i + 1;
        }
        assert(cv.take(cv.len() as int) =~= cv);
        self.cooldowns = kept;
    }

    /// Starts (or restarts) the cool-down of provider `id`, until `until`.
    fn start_cooldown(&mut self, id: String, until: u64)
        ensures
            final(self)@ == (SelectorView { cooldowns: pairs_insert(old(self)@.cooldowns, id@, until as int), ..old(self)@ }),
    {
        let ghost s = cooldowns_view(self.cooldowns@);
        match pair_position(&self.cooldowns, id.as_str()) {
            Some(j) => {
                proof {
                    lemma_first_key(s, id@, j as int);
                }
                let ghost before = self.cooldowns@;
                self.cooldowns.set(j, (id, until));
                assert(cooldowns_view(self.cooldowns@) =~= s.update(j as int, (id@, until as int)));
            },
            None => {
                proof {
                    lemma_pairs_index(s, id@);
                    if pairs_index(s, id@) is Some {
                        let k = pairs_index(s, id@)->0;
                        assert(self.cooldowns@[k].0@ == id@);
                    }
                }
                let ghost id_view = id@;
                self.cooldowns.push((id, until));
                assert(cooldowns_view(self.cooldowns@) =~= s.push((id_view, until as int)));
            },
        }
    }

    /// Forgets the conversations assigned to provider `id`.
    fn drop_assignments_to(&mut self, id: &str)
        ensures
            final(self)@ == (SelectorView { assignments: old(self)@.assignments.filter(other_value_pred(id@)), ..old(self)@ }),
    {
        let ghost av = str_pairs_view(self.conversation_assignments@);
        let mut kept: Vec<(String, String)> = Vec::new();
        let mut i: usize = 0;
        while i < self.conversation_assignments.len()
            invariant
                i <= av.len(),
                av == str_pairs_view(self.conversation_assignments@),
                str_pairs_view(kept@) == av.take(i as int).filter(other_value_pred(id@)),
            decreases av.len() - i,
        {
            proof {
                lemma_filter_take_step(av, other_value_pred(id@), i as int);
            }
            let e = &self.conversation_assignments[i];
            if !str_eq(e.1.as_str(), id) {
                let ghost before = kept@;
                kept.push((e.0.clone(), e.1.clone()));
                assert(str_pairs_view(kept@) =~= str_pairs_view(before).push(av[i as int]));
            }
            i = i + 1;
        }
        assert(av.take(av.len() as int) =~= av);
        self.conversation_assignments = kept;
    }

    /// Records the outcome of a request at time `now`: a success ends the
    /// provider's cool-down (and, per conversation, assigns the conversation to
    /// it); a failure starts a cool-down, forgets the conversations assigned to
    /// it and, for failover, moves past it.
    pub fn record_result_at(
        &mut self,
        relay_id: Option<&str>,
        conversation_id: Option<&str>,
        event: RotationEvent,
        now: u64,
    )
        requires
            selector_wf(old(self)@),
        ensures
            selector_wf(final(self)@),
            final(self)@ == record_spec(
                old(self)@,
                opt_str_view(relay_id),
                opt_str_view(conversation_id),
                event,
                now as int,
            ),
    {
        let target = match relay_id {
            Some(r) => owned(r),
            None => match &self.last_selected_id {
                Some(s) => s.clone(),
                None => return ,
            },
        };
        match event {
            RotationEvent::Success => {
                self.clear_cooldown(target.as_str());
                if self.aggregate.strategy == AggregateRelayStrategy::ConversationRoundRobin {
                    match conversation_id {
                        Some(c) => self.assign(owned(c), target),
                        None => {},
                    }
                }
            },
            RotationEvent::Failure => {
                let until = now.saturating_add(COOLDOWN_MS);
                self.start_cooldown(target.clone(), until);
                self.drop_assignments_to(target.as_str());
                if self.aggregate.strategy == AggregateRelayStrategy::Failover {
                    let n = self.aggregate.members.len();
                    let next = match member_position(&self.aggregate.members, target.as_str()) {
                        Some(i) => (i + 1) % n,
                        None => (self.failover_index + 1) % n,
                    };
                    self.failover_index = next;
                }
            },
        }
    }

    /// Records the outcome of a request; the time is read from the selector's clock.
    pub fn record_result(&mut self, relay_id: Option<&str>, conversation_id: Option<&str>, event: RotationEvent)
        requires
            selector_wf(old(self)@),
        ensures
            selector_wf(final(self)@),
            exists|now: int|
                old(self)@.clock_ms <= now <= u64::MAX && final(self)@ == record_spec(
                    at_clock(old(self)@, now),
                    opt_str_view(relay_id),
                    opt_str_view(conversation_id),
                    event,
                    now,
                ),
    {
        let now = self.read_clock();
        self.record_result_at(relay_id, conversation_id, event, now);
        assert(0 <= now as int <= u64::MAX);
    }

    /// Records the outcome of a request to the last selected provider.
    pub fn record_event(&mut self, event: RotationEvent)
        requires
            selector_wf(old(self)@),
        ensures
            selector_wf(final(self)@),
            exists|now: int|
                old(self)@.clock_ms <= now <= u64::MAX && final(self)@ == record_spec(
                    at_clock(old(self)@, now),
                    None,
                    None,
                    event,
                    now,
                ),
    {
        self.record_result(None, None, event);
    }

    /// Reads the selector's clock, in milliseconds since the selector was
    /// made. std documents `Instant` as never going back, so a reading is at
    /// least the one before; keeping the larger of the two makes that hold
    /// here whatever the clock answers.
    fn read_clock(&mut self) -> (now: u64)
        ensures
            final(self)@ == at_clock(old(self)@, now as int),
            old(self)@.clock_ms <= now,
            selector_wf(old(self)@) ==> selector_wf(final(self)@),
    {
        let reading = elapsed_ms(&self.clock);
        let now = if reading < self.last_reading {
            self.last_reading
        } else {
            reading
        };
        self.last_reading = now;
        now
    }
}

} // verus!

verus! {

/// The selector held in a slot, as plain values.
pub open spec fn slot_view(slot: Option<RelayRotationSelector>) -> Option<SelectorView> {
    match slot {
        Some(s) => Some(s@),
        None => None,
    }
}

/// A slot is empty or holds a well-formed selector.
pub open spec fn slot_wf(slot: Option<SelectorView>) -> bool {
    match slot {
        Some(v) => selector_wf(v),
        None => true,
    }
}

/// The selector in the slot was not made for aggregate provider `a` (or there is none).
pub open spec fn needs_new_selector(slot: Option<SelectorView>, a: AggregateRelayProfile) -> bool {
    match slot {
        None => true,
        Some(v) => !(v.aggregate_id == a.id@ && v.aggregate_name == a.name@ && v.strategy == a.strategy
            && same_members(v.members, a.members@)),
    }
}

/// The selector a request to aggregate provider `a` works with.
pub open spec fn working_selector(slot: Option<SelectorView>, a: AggregateRelayProfile) -> SelectorView {
    if needs_new_selector(slot, a) {
        fresh_selector(a)
    } else {
        slot->0
    }
}

/// `p` is the active provider of `s`, or a default one when there is none.
pub open spec fn is_active_profile(s: BackendSettings, p: RelayProfile) -> bool {
    match find_profile(s.relay_profiles@, s.active_relay_id@) {
        Some(q) => p == q,
        None => is_default_profile(p),
    }
}

/// Makes sure the slot holds a selector for the aggregate provider in use;
/// a new selector replaces one made for another aggregate provider.
fn prepare_slot(slot: &mut Option<RelayRotationSelector>, settings: &BackendSettings, active: &AggregateRelayProfile) -> (r: Result<(), SelectionError>)
    requires
        slot_wf(slot_view(*old(slot))),
        active_aggregate_spec(*settings) is Some,
        same_aggregate(*active, active_aggregate_spec(*settings)->0),
        active.id@ == active_aggregate_spec(*settings)->0.id@,
        active.members@ == active_aggregate_spec(*settings)->0.members@,
    ensures
        ({
            let a = active_aggregate_spec(*settings)->0;
            match r {
                Err(e) => needs_new_selector(slot_view(*old(slot)), a)
                    && validate_spec(*settings, a.id@, a.members@) == Some(e@)
                    && slot_view(*final(slot)) == slot_view(*old(slot)),
                Ok(()) => (needs_new_selector(slot_view(*old(slot)), a) ==> validate_spec(*settings, a.id@, a.members@) is None)
                    && slot_view(*final(slot)) == Some(working_selector(slot_view(*old(slot)), a))
                    && selector_wf(working_selector(slot_view(*old(slot)), a)),
            }
        }),
{
    let needs_new = match slot {
        Some(sel) => !aggregates_equal(&sel.aggregate, active),
        None => true,
    };
    if needs_new {
        match RelayRotationSelector::from_settings(settings) {
            Err(e) => return Err(e),
            Ok(sel) => {
                *slot = Some(sel);
            },
        }
    }
    Ok(())
}

/// Picks the provider for a request: the active provider when no aggregate
/// provider is in use (the slot is then emptied), else the choice of the
/// slot's selector, which is replaced first when it was made for another
/// aggregate provider.
pub fn select_relay_for_request(
    slot: &mut Option<RelayRotationSelector>,
    settings: &BackendSettings,
    context: RotationContext,
) -> (r: Result<RelayProfile, SelectionError>)
    requires
        slot_wf(slot_view(*old(slot))),
    ensures
        slot_wf(slot_view(*final(slot))),
        match active_aggregate_spec(*settings) {
            None => slot_view(*final(slot)) is None && r is Ok && is_active_profile(*settings, r->Ok_0),
            Some(a) => if needs_new_selector(slot_view(*old(slot)), a) && validate_spec(
                *settings,
                a.id@,
                a.members@,
            ) is Some {
                slot_view(*final(slot)) == slot_view(*old(slot)) && result_view(r) == Err::<
                    RelayProfile,
                    SelectionErrorView,
                >(validate_spec(*settings, a.id@, a.members@)->0)
            } else {
                exists|now: int|
                    working_selector(slot_view(*old(slot)), a).clock_ms <= now <= u64::MAX && slot_view(*final(slot)) == Some(
                        select_spec(
                            at_clock(working_selector(slot_view(*old(slot)), a), now),
                            *settings,
                            opt_view(context.model),
                            opt_view(context.conversation_id),
                            now,
                        ).0,
                    ) && result_view(r) == selected_profile(
                        *settings,
                        working_selector(slot_view(*old(slot)), a).aggregate_id,
                        select_spec(
                            at_clock(working_selector(slot_view(*old(slot)), a), now),
                            *settings,
                            opt_view(context.model),
                            opt_view(context.conversation_id),
                            now,
                        ).1,
                    )
            },
        },
{
    let active = match settings.active_aggregate_relay_profile() {
        None => {
            *slot = None;
            return Ok(settings.active_relay_profile());
        },
        Some(a) => a,
    };
    match prepare_slot(slot, settings, &active) {
        Err(e) => return Err(e),
        Ok(()) => {},
    }
    let mut sel = match slot.take() {
        Some(s) => s,
        None => return Err(SelectionError::NoActiveAggregate),
    };
    let now = sel.read_clock();
    let r = sel.select_at(settings, context, now);
    *slot = Some(sel);
    assert(0 <= now as int <= u64::MAX);
    r
}

/// The provider a probe would reach, without moving the rotation; the slot
/// is handled as for a request.
pub fn select_relay_for_probe(slot: &mut Option<RelayRotationSelector>, settings: &BackendSettings) -> (r:
    Result<RelayProfile, SelectionError>)
    requires
        slot_wf(slot_view(*old(slot))),
    ensures
        slot_wf(slot_view(*final(slot))),
        match active_aggregate_spec(*settings) {
            None => slot_view(*final(slot)) is None && r is Ok && is_active_profile(*settings, r->Ok_0),
            Some(a) => if needs_new_selector(slot_view(*old(slot)), a) && validate_spec(
                *settings,
                a.id@,
                a.members@,
            ) is Some {
                slot_view(*final(slot)) == slot_view(*old(slot)) && result_view(r) == Err::<
                    RelayProfile,
                    SelectionErrorView,
                >(validate_spec(*settings, a.id@, a.members@)->0)
            } else {
                slot_view(*final(slot)) == Some(working_selector(slot_view(*old(slot)), a))
                    && result_view(r) == selected_profile(
                    *settings,
                    working_selector(slot_view(*old(slot)), a).aggregate_id,
                    peek_spec(working_selector(slot_view(*old(slot)), a), *settings),
                )
            },
        },
{
    let active = match settings.active_aggregate_relay_profile() {
        None => {
            *slot = None;
            return Ok(settings.active_relay_profile());
        },
        Some(a) => a,
    };
    match prepare_slot(slot, settings, &active) {
        Err(e) => return Err(e),
        Ok(()) => {},
    }
    match slot {
        Some(sel) => sel.peek(settings),
        None => Err(SelectionError::NoActiveAggregate),
    }
}

/// Records the outcome of a request with the slot's selector; the slot is
/// emptied when no aggregate provider is in use.
pub fn record_relay_request_result(
    slot: &mut Option<RelayRotationSelector>,
    settings: &BackendSettings,
    relay_id: Option<&str>,
    context: &RotationContext,
    event: RotationEvent,
)
    requires
        slot_wf(slot_view(*old(slot))),
    ensures
        slot_wf(slot_view(*final(slot))),
        match (active_aggregate_spec(*settings), slot_view(*old(slot))) {
            (None, _) => slot_view(*final(slot)) is None,
            (Some(_), None) => slot_view(*final(slot)) is None,
            (Some(_), Some(v)) => exists|now: int|
                v.clock_ms <= now <= u64::MAX && slot_view(*final(slot)) == Some(
                    record_spec(at_clock(v, now), opt_str_view(relay_id), opt_view(context.conversation_id), event, now),
                ),
        },
{
    let active = settings.active_aggregate_relay_profile();
    if active.is_none() {
        *slot = None;
        return ;
    }
    let mut sel = match slot.take() {
        Some(s) => s,
        None => return ,
    };
    let conversation = match &context.conversation_id {
        Some(c) => Some(c.as_str()),
        None => None,
    };
    let now = sel.read_clock();
    sel.record_result_at(relay_id, conversation, event, now);
    *slot = Some(sel);
    assert(0 <= now as int <= u64::MAX);
}

/// Records the outcome of a request to the last selected provider.
pub fn record_relay_request_event(slot: &mut Option<RelayRotationSelector>, settings: &BackendSettings, event: RotationEvent)
    requires
        slot_wf(slot_view(*old(slot))),
    ensures
        slot_wf(slot_view(*final(slot))),
        match (active_aggregate_spec(*settings), slot_view(*old(slot))) {
            (None, _) => slot_view(*final(slot)) is None,
            (Some(_), None) => slot_view(*final(slot)) is None,
            (Some(_), Some(v)) => exists|now: int|
                v.clock_ms <= now <= u64::MAX && slot_view(*final(slot)) == Some(
                    record_spec(at_clock(v, now), None, None, event, now),
                ),
        },
{
    let context = RotationContext::default();
    record_relay_request_result(slot, settings, None, &context, event);
}

/// Records a failed request to the last selected provider.
pub fn record_relay_request_failure(slot: &mut Option<RelayRotationSelector>, settings: &BackendSettings)
    requires
        slot_wf(slot_view(*old(slot))),
    ensures
        slot_wf(slot_view(*final(slot))),
        match (active_aggregate_spec(*settings), slot_view(*old(slot))) {
            (None, _) => slot_view(*final(slot)) is None,
            (Some(_), None) => slot_view(*final(slot)) is None,
            (Some(_), Some(v)) => exists|now: int|
                v.clock_ms <= now <= u64::MAX && slot_view(*final(slot)) == Some(
                    record_spec(at_clock(v, now), None, None, RotationEvent::Failure, now),
                ),
        },
{
    record_relay_request_event(slot, settings, RotationEvent::Failure);
}

impl Default for RotationContext {
    fn default() -> (r: RotationContext)
        ensures
            r.conversation_id is None,
            r.model is None,
    {
        RotationContext { conversation_id: None, model: None }
    }
}

impl RotationContext {
    /// The context of a request in conversation `conversation_id`, for no particular model.
    pub fn for_conversation(conversation_id: &str) -> (r: RotationContext)
        ensures
            opt_view(r.conversation_id) == Some(conversation_id@),
            r.model is None,
    {
        RotationContext { conversation_id: Some(owned(conversation_id)), model: None }
    }
}

/// Where the fallback walk starts: just after the first member with id `relay_id`, else at the first member.
pub open spec fn fallback_start(ids: Seq<Seq<char>>, relay_id: Seq<char>) -> int {
    match seq_index(ids, relay_id) {
        Some(i) => i + 1,
        None => 0,
    }
}

/// The member ids met walking the pool once round from `start`, all but one.
pub open spec fn fallback_ring(ids: Seq<Seq<char>>, start: int) -> Seq<Seq<char>> {
    Seq::new(
        if ids.len() == 0 {
            0nat
        } else {
            (ids.len() - 1) as nat
        },
        |o: int| ids[(start + o) % (ids.len() as int)],
    )
}

/// The provider with id `id`.
pub open spec fn profile_of(settings: BackendSettings, id: Seq<char>) -> RelayProfile {
    find_profile(settings.relay_profiles@, id)->0
}

/// The fallback providers after `relay_id`: the walk round the pool, keeping
/// the providers that can serve `model`.
pub open spec fn fallback_spec(
    settings: BackendSettings,
    a: AggregateRelayProfile,
    relay_id: Seq<char>,
    model: Option<Seq<char>>,
) -> Seq<RelayProfile> {
    let ids = member_ids(a.members@);
    fallback_ring(ids, fallback_start(ids, relay_id)).filter(supports_pred(settings, model)).map_values(
        |id: Seq<char>| profile_of(settings, id),
    )
}

/// The providers to try after `relay_id` failed, in pool order, for a request in `context`.
pub fn fallback_relays_after_for_context(
    settings: &BackendSettings,
    relay_id: &str,
    context: &RotationContext,
) -> (r: Result<Vec<RelayProfile>, SelectionError>)
    ensures
        match active_aggregate_spec(*settings) {
            None => r is Ok && r->Ok_0@.len() == 0,
            Some(a) => match validate_spec(*settings, a.id@, a.members@) {
                Some(e) => r is Err && r->Err_0@ == e,
                None => r is Ok && r->Ok_0@ == fallback_spec(*settings, a, relay_id@, opt_view(context.model)),
            },
        },
{
    let active = match settings.active_aggregate_relay_profile() {
        None => return Ok(Vec::new()),
        Some(a) => a,
    };
    match validate_aggregate_members(settings, &active) {
        Err(e) => return Err(e),
        Ok(()) => {},
    }
    let model = match &context.model {
        Some(m) => Some(m.as_str()),
        None => None,
    };
    let n = active.members.len();
    let start = match member_position(&active.members, relay_id) {
        Some(i) => i + 1,
        None => 0,
    };
    let ghost ids = member_ids(active.members@);
    let ghost ring = fallback_ring(ids, start as int);
    let ghost pred = supports_pred(*settings, opt_str_view(model));
    let ghost f = |id: Seq<char>| profile_of(*settings, id);
    let mut out: Vec<RelayProfile> = Vec::new();
    let mut o: usize = 0;
    while o + 1 < n
        invariant
            n == active.members@.len(),
            n > 0,
            ids == member_ids(active.members@),
            start <= n,
            ring == fallback_ring(ids, start as int),
            ring.len() == n - 1,
            o <= n - 1,
            pred == supports_pred(*settings, opt_str_view(model)),
            f == (|id: Seq<char>| profile_of(*settings, id)),
            out@ == ring.take(o as int).filter(pred).map_values(f),
        decreases n - o,
    {
        proof {
            lemma_filter_take_step(ring, pred, o as int);
        }
        let idx = wrap_add(start, o, n);
        let id = &active.members[idx].relay_id;
        assert(ring[o as int] == id@);
        proof {
            lemma_profile_index(settings.relay_profiles@, id@);
        }
        match profile_position(&settings.relay_profiles, id.as_str()) {
            Some(k) => {
                if profile_supports_model(&settings.relay_profiles[k], model) {
                    let ghost before = out@;
                    out.push(settings.relay_profiles[k].duplicate());
                    assert(out@ =~= ring.take(o as int + 1).filter(pred).map_values(f));
                } else {
                    assert(out@ =~= ring.take(o as int + 1).filter(pred).map_values(f));
                }
            },
            None => {
                assert(out@ =~= ring.take(o as int + 1).filter(pred).map_values(f));
            },
        }
        o = o + 1;
    }
    assert(ring.take(ring.len() as int) =~= ring);
    Ok(out)
}

/// The providers to try after `relay_id` failed, in pool order.
pub fn fallback_relays_after(settings: &BackendSettings, relay_id: &str) -> (r: Result<
    Vec<RelayProfile>,
    SelectionError,
>)
    ensures
        match active_aggregate_spec(*settings) {
            None => r is Ok && r->Ok_0@.len() == 0,
            Some(a) => match validate_spec(*settings, a.id@, a.members@) {
                Some(e) => r is Err && r->Err_0@ == e,
                None => r is Ok && r->Ok_0@ == fallback_spec(*settings, a, relay_id@, None),
            },
        },
{
    let context = RotationContext::default();
    fallback_relays_after_for_context(settings, relay_id, &context)
}

} // verus!

verus! {

/// The ids a selection at `now` chooses from.
pub open spec fn candidates_at(st: SelectorView, settings: BackendSettings, model: Option<Seq<char>>, now: int) -> Seq<
    Seq<char>,
> {
    candidates_from(compatible_ids(st.members, settings, model), live_cooldowns(st.cooldowns, now))
}

proof fn lemma_failover_pick_in(ids: Seq<Seq<char>>, start: int, cands: Seq<Seq<char>>, o: int)
    ensures
        failover_pick(ids, start, cands, o) matches Some(x) ==> cands.contains(x),
    decreases ids.len() - o,
{
    if 0 <= o < ids.len() && !cands.contains(ids[(start + o) % (ids.len() as int)]) {
        lemma_failover_pick_in(ids, start, cands, o + 1);
    }
}

/// Each strategy chooses one of the candidates.
pub proof fn lemma_strategy_in_candidates(st: SelectorView, conv: Option<Seq<char>>, cands: Seq<Seq<char>>)
    requires
        cands.len() > 0,
        forall|k: int| 0 <= k < cands.len() ==> member_ids(st.members).contains(#[trigger] cands[k]),
    ensures
        cands.contains(strategy_step(st, conv, cands).1),
{
    match st.strategy {
        AggregateRelayStrategy::Failover => {
            lemma_failover_pick_in(member_ids(st.members), st.failover_index, cands, 0);
            assert(cands.contains(cands[0]));
        },
        AggregateRelayStrategy::ConversationRoundRobin => {
            let k = st.request_index % (cands.len() as int);
            assert(cands.contains(cands[k]));
        },
        AggregateRelayStrategy::RequestRoundRobin => {
            let k = st.request_index % (cands.len() as int);
            assert(cands.contains(cands[k]));
        },
        AggregateRelayStrategy::WeightedRoundRobin => {
            lemma_schedule_nonempty_of_cands(st.members, cands);
            lemma_schedule_in(st.members, cands);
            let sch = schedule(st.members, cands);
            let k = st.weighted_index % (sch.len() as int);
            assert(cands.contains(sch[k]));
        },
    }
}

/// A successful selection chooses a candidate, and the candidates are the
/// compatible members not cooling down (or all compatible ones when every one is).
pub proof fn lemma_selection_in_candidates(
    st: SelectorView,
    settings: BackendSettings,
    model: Option<Seq<char>>,
    conv: Option<Seq<char>>,
    now: int,
)
    requires
        select_spec(st, settings, model, conv, now).1 is Ok,
    ensures
        candidates_at(st, settings, model, now).contains(select_spec(st, settings, model, conv, now).1->Ok_0),
        compatible_ids(st.members, settings, model).contains(select_spec(st, settings, model, conv, now).1->Ok_0),
{
    let cds = live_cooldowns(st.cooldowns, now);
    let comp = compatible_ids(st.members, settings, model);
    lemma_candidates_members(st.members, settings, model, cds);
    let cands = candidates_from(comp, cds);
    lemma_strategy_in_candidates(SelectorView { cooldowns: cds, ..st }, conv, cands);
    let id = select_spec(st, settings, model, conv, now).1->Ok_0;
    let k = choose|k: int| 0 <= k < cands.len() && cands[k] == id;
    assert(comp.contains(cands[k]));
}

/// Whatever a selection picks can serve the request's model.
pub proof fn law_selection_serves_model(
    st: SelectorView,
    settings: BackendSettings,
    model: Option<Seq<char>>,
    conv: Option<Seq<char>>,
    now: int,
)
    requires
        selected_profile(settings, st.aggregate_id, select_spec(st, settings, model, conv, now).1) is Ok,
    ensures
        supports_model(
            selected_profile(settings, st.aggregate_id, select_spec(st, settings, model, conv, now).1)->Ok_0.model_list@,
            model,
        ),
{
    lemma_selection_in_candidates(st, settings, model, conv, now);
    let comp = compatible_ids(st.members, settings, model);
    let id = select_spec(st, settings, model, conv, now).1->Ok_0;
    let k = choose|k: int| 0 <= k < comp.len() && comp[k] == id;
    broadcast use vstd::seq_lib::group_filter_ensures;
    assert(supports_pred(settings, model)(comp[k]));
}

/// A conversation keeps its provider: once a per-conversation selection gave
/// a provider to conversation `c`, the next selection for `c` gives the same
/// provider while it is still among the candidates.
pub proof fn law_conversation_keeps_provider(
    st: SelectorView,
    settings: BackendSettings,
    model: Option<Seq<char>>,
    c: Seq<char>,
    now1: int,
    now2: int,
)
    requires
        st.strategy == AggregateRelayStrategy::ConversationRoundRobin,
        select_spec(st, settings, model, Some(c), now1).1 is Ok,
        candidates_at(select_spec(st, settings, model, Some(c), now1).0, settings, model, now2).contains(
            select_spec(st, settings, model, Some(c), now1).1->Ok_0,
        ),
    ensures
        select_spec(select_spec(st, settings, model, Some(c), now1).0, settings, model, Some(c), now2).1
            == select_spec(st, settings, model, Some(c), now1).1,
{
    let st2 = select_spec(st, settings, model, Some(c), now1).0;
    let id = select_spec(st, settings, model, Some(c), now1).1->Ok_0;
    let cds = live_cooldowns(st.cooldowns, now1);
    let cands = candidates_from(compatible_ids(st.members, settings, model), cds);
    let pruned = SelectorView { cooldowns: cds, ..st };
    match pairs_get(pruned.assignments, c) {
        Some(r) => {
            if !cands.contains(r) {
                let s2 = rr_step(pruned, cands).0;
                lemma_pairs_insert(s2.assignments, c, id, c);
            }
        },
        None => {
            let s2 = rr_step(pruned, cands).0;
            lemma_pairs_insert(s2.assignments, c, id, c);
        },
    }
    assert(pairs_get(st2.assignments, c) == Some(id));
}

/// A success ends the provider's cool-down.
pub proof fn law_success_ends_cooldown(st: SelectorView, id: Seq<char>, conv: Option<Seq<char>>, now: int)
    ensures
        pairs_get(record_spec(st, Some(id), conv, RotationEvent::Success, now).cooldowns, id) is None,
{
    let cds = st.cooldowns.filter(other_key_pred(id));
    lemma_pairs_get_none(cds, id);
    broadcast use vstd::seq_lib::group_filter_ensures;
    assert forall|j: int| 0 <= j < cds.len() implies (#[trigger] cds[j]).0 != id by {
        assert(other_key_pred(id)(cds[j]));
    }
}

/// A failure starts the provider's cool-down and frees the conversations it served.
pub proof fn law_failure_starts_cooldown(st: SelectorView, id: Seq<char>, conv: Option<Seq<char>>, now: int)
    ensures
        pairs_get(record_spec(st, Some(id), conv, RotationEvent::Failure, now).cooldowns, id) == Some(
            cooldown_until(now),
        ),
        forall|j: int|
            0 <= j < record_spec(st, Some(id), conv, RotationEvent::Failure, now).assignments.len() ==> (
            #[trigger] record_spec(st, Some(id), conv, RotationEvent::Failure, now).assignments[j]).1 != id,
{
    lemma_pairs_insert(st.cooldowns, id, cooldown_until(now), id);
    let a = st.assignments.filter(other_value_pred(id));
    broadcast use vstd::seq_lib::group_filter_ensures;
    assert forall|j: int| 0 <= j < a.len() implies (#[trigger] a[j]).1 != id by {
        assert(other_value_pred(id)(a[j]));
    }
}

/// A provider that failed is not chosen during its cool-down, as long as
/// another provider able to serve the request is healthy.
pub proof fn law_failed_provider_rests(
    st: SelectorView,
    settings: BackendSettings,
    model: Option<Seq<char>>,
    conv: Option<Seq<char>>,
    id: Seq<char>,
    t: int,
    now: int,
)
    requires
        t <= now < t + COOLDOWN_MS,
        t + COOLDOWN_MS <= u64::MAX,
        healthy_ids(
            compatible_ids(st.members, settings, model),
            live_cooldowns(record_spec(st, Some(id), None, RotationEvent::Failure, t).cooldowns, now),
        ).len() > 0,
        select_spec(record_spec(st, Some(id), None, RotationEvent::Failure, t), settings, model, conv, now).1 is Ok,
    ensures
        select_spec(record_spec(st, Some(id), None, RotationEvent::Failure, t), settings, model, conv, now).1->Ok_0
            != id,
{
    let st2 = record_spec(st, Some(id), None, RotationEvent::Failure, t);
    lemma_selection_in_candidates(st2, settings, model, conv, now);
    law_failure_starts_cooldown(st, id, None, t);
    let cds = live_cooldowns(st2.cooldowns, now);
    let comp = compatible_ids(st2.members, settings, model);
    let h = healthy_ids(comp, cds);
    broadcast use vstd::seq_lib::group_filter_ensures;
    lemma_pairs_index(st2.cooldowns, id);
    let i = pairs_index(st2.cooldowns, id)->0;
    assert(live_pred(now)(st2.cooldowns[i]));
    assert(cds.contains(st2.cooldowns[i]));
    let j = choose|j: int| 0 <= j < cds.len() && cds[j] == st2.cooldowns[i];
    lemma_pairs_get_none(cds, id);
    assert(pairs_get(cds, id) is Some);
    let chosen = select_spec(st2, settings, model, conv, now).1->Ok_0;
    let k = choose|k: int| 0 <= k < h.len() && h[k] == chosen;
    assert(healthy_pred(cds)(h[k]));
}

/// The fallback providers can all serve the request's model, and there is
/// at most one fewer of them than there are members.
pub proof fn law_fallback_serves_model(
    settings: BackendSettings,
    a: AggregateRelayProfile,
    relay_id: Seq<char>,
    model: Option<Seq<char>>,
)
    ensures
        forall|i: int|
            0 <= i < fallback_spec(settings, a, relay_id, model).len() ==> supports_model(
                (#[trigger] fallback_spec(settings, a, relay_id, model)[i]).model_list@,
                model,
            ),
        fallback_spec(settings, a, relay_id, model).len() <= a.members@.len(),
{
    let ids = member_ids(a.members@);
    let ring = fallback_ring(ids, fallback_start(ids, relay_id));
    let kept = ring.filter(supports_pred(settings, model));
    broadcast use vstd::seq_lib::group_filter_ensures;
    assert forall|i: int| 0 <= i < fallback_spec(settings, a, relay_id, model).len() implies supports_model(
        (#[trigger] fallback_spec(settings, a, relay_id, model)[i]).model_list@,
        model,
    ) by {
        assert(supports_pred(settings, model)(kept[i]));
    }
}

} // verus!

verus! {

/// The provider with id `relay_id`, the first one when several share it.
pub fn relay_profile_by_id(settings: &BackendSettings, relay_id: &str) -> (r: Option<RelayProfile>)
    ensures
        r == find_profile(settings.relay_profiles@, relay_id@),
{
    proof {
        lemma_profile_index(settings.relay_profiles@, relay_id@);
    }
    match profile_position(&settings.relay_profiles, relay_id) {
        Some(i) => Some(settings.relay_profiles[i].duplicate()),
        None => None,
    }
}

/// The aggregate provider in use, or why there is none.
pub fn active_aggregate(settings: &BackendSettings) -> (r: Result<AggregateRelayProfile, SelectionError>)
    ensures
        match (r, active_aggregate_spec(*settings)) {
            (Ok(a), Some(b)) => same_aggregate(a, b) && a.id@ == b.id@ && a.members@ == b.members@,
            (Err(e), None) => e@ == SelectionErrorView::NoActiveAggregate,
            _ => false,
        },
{
    match settings.active_aggregate_relay_profile() {
        Some(a) => Ok(a),
        None => Err(SelectionError::NoActiveAggregate),
    }
}

} // verus!
