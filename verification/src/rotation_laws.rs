//! What a selector does over several requests: round robin walks the
//! members in turn, failover stays on a member until it fails, `peek` names
//! the member the next selection gives, and a probe leaves the rotation where
//! it was.
use vstd::prelude::*;

use crate::relay_rotation::{
    at_clock, candidates_from, compatible_ids, cooldown_until, failover_pick, first_member_problem, healthy_ids,
    healthy_pred, last_profile_index, lemma_last_profile_index, lemma_pairs_insert, lemma_seq_index, member_problem,
    supports_pred, live_cooldowns, live_pred, member_ids, needs_new_selector, pairs_get,
    peek_spec, record_spec, seq_index, select_spec, selector_wf, validate_spec, working_selector, RotationEvent,
    SelectionErrorView, SelectorView, COOLDOWN_MS,
};
use crate::settings::{
    lemma_profile_index, profile_index, AggregateRelayMember, AggregateRelayProfile, AggregateRelayStrategy,
    BackendSettings,
};

verus! {

/// The results of successive selections from `st`, the `k`-th one made with
/// the clock reading `nows[k]`, each for a request of `model` in `conv`.
pub open spec fn select_many(
    st: SelectorView,
    settings: BackendSettings,
    model: Option<Seq<char>>,
    conv: Option<Seq<char>>,
    nows: Seq<int>,
) -> Seq<Result<Seq<char>, SelectionErrorView>>
    decreases nows.len(),
{
    if nows.len() == 0 {
        Seq::empty()
    } else {
        let step = select_spec(at_clock(st, nows[0]), settings, model, conv, nows[0]);
        seq![step.1] + select_many(step.0, settings, model, conv, nows.drop_first())
    }
}

proof fn lemma_filter_keeps_all<A>(s: Seq<A>, p: spec_fn(A) -> bool)
    requires
        forall|i: int| 0 <= i < s.len() ==> p(#[trigger] s[i]),
    ensures
        s.filter(p) == s,
    decreases s.len(),
{
    reveal(Seq::filter);
    if s.len() > 0 {
        lemma_filter_keeps_all(s.drop_last(), p);
        assert(s.drop_last().push(s.last()) =~= s);
    }
}

proof fn lemma_filter_of_empty<A>(p: spec_fn(A) -> bool)
    ensures
        Seq::<A>::empty().filter(p) == Seq::<A>::empty(),
{
    reveal(Seq::filter);
}

/// Without live cool-downs every compatible member is a candidate.
proof fn lemma_all_candidates(comp: Seq<Seq<char>>, cds: Seq<(Seq<char>, int)>)
    requires
        forall|i: int| 0 <= i < comp.len() ==> pairs_get(cds, #[trigger] comp[i]) is None,
    ensures
        healthy_ids(comp, cds) == comp,
        comp.len() > 0 ==> candidates_from(comp, cds) == comp,
{
    assert forall|i: int| 0 <= i < comp.len() implies healthy_pred(cds)(#[trigger] comp[i]) by {}
    lemma_filter_keeps_all(comp, healthy_pred(cds));
}

/// Per-request round robin walks the members in turn: with no provider
/// cooling down and every member able to serve the model, the `k`-th of
/// successive selections gives the member `k` places after the selector's
/// request position (on a new selector, member `k mod n`).
pub proof fn law_request_round_robin_cycles(
    st: SelectorView,
    settings: BackendSettings,
    model: Option<Seq<char>>,
    conv: Option<Seq<char>>,
    nows: Seq<int>,
)
    requires
        selector_wf(st),
        st.strategy == AggregateRelayStrategy::RequestRoundRobin,
        validate_spec(settings, st.aggregate_id, st.members) is None,
        compatible_ids(st.members, settings, model) == member_ids(st.members),
        st.cooldowns.len() == 0,
    ensures
        select_many(st, settings, model, conv, nows).len() == nows.len(),
        forall|k: int|
            0 <= k < nows.len() ==> #[trigger] select_many(st, settings, model, conv, nows)[k] == Ok::<
                Seq<char>,
                SelectionErrorView,
            >(member_ids(st.members)[(st.request_index + k) % (st.members.len() as int)]),
    decreases nows.len(),
{
    if nows.len() > 0 {
        let n = st.members.len() as int;
        let ids = member_ids(st.members);
        let s0 = at_clock(st, nows[0]);
        let cds = live_cooldowns(s0.cooldowns, nows[0]);
        lemma_filter_of_empty(live_pred(nows[0]));
        assert(st.cooldowns =~= Seq::<(Seq<char>, int)>::empty());
        assert(cds == Seq::<(Seq<char>, int)>::empty());
        lemma_all_candidates(ids, cds);
        let step = select_spec(s0, settings, model, conv, nows[0]);
        assert(step.1 == Ok::<Seq<char>, SelectionErrorView>(ids[st.request_index % n]));
        let next = step.0;
        assert(next.request_index == (st.request_index + 1) % n);
        assert(next.cooldowns.len() == 0);
        law_request_round_robin_cycles(next, settings, model, conv, nows.drop_first());
        let rest = select_many(next, settings, model, conv, nows.drop_first());
        assert forall|k: int| 0 <= k < nows.len() implies #[trigger] select_many(st, settings, model, conv, nows)[k]
            == Ok::<Seq<char>, SelectionErrorView>(ids[(st.request_index + k) % n]) by {
            if k > 0 {
                assert(select_many(st, settings, model, conv, nows)[k] == rest[k - 1]);
                assert(rest[k - 1] == Ok::<Seq<char>, SelectionErrorView>(
                    ids[(next.request_index + (k - 1)) % n],
                ));
                if st.request_index + 1 < n {
                    vstd::arithmetic::div_mod::lemma_small_mod((st.request_index + 1) as nat, n as nat);
                    assert(next.request_index == st.request_index + 1);
                } else {
                    vstd::arithmetic::div_mod::lemma_mod_self_0(n);
                    assert(next.request_index == 0);
                    vstd::arithmetic::div_mod::lemma_mod_add_multiples_vanish(k - 1, n);
                    assert(st.request_index + k == n + (k - 1));
                }
            } else {
                assert(st.request_index + k == st.request_index);
            }
        }
    }
}

proof fn lemma_no_member_problem(settings: BackendSettings, ms: Seq<AggregateRelayMember>, from: int)
    requires
        0 <= from,
        first_member_problem(settings, ms, from) is None,
    ensures
        forall|i: int| from <= i < ms.len() ==> #[trigger] member_problem(settings, ms, i) is None,
    decreases ms.len() - from,
{
    if from < ms.len() {
        lemma_no_member_problem(settings, ms, from + 1);
    }
}

/// When every member names a usable provider, every member can serve a
/// request for no particular model.
proof fn lemma_valid_members_serve_any_model(settings: BackendSettings, aggregate_id: Seq<char>, ms: Seq<AggregateRelayMember>)
    requires
        validate_spec(settings, aggregate_id, ms) is None,
    ensures
        compatible_ids(ms, settings, None) == member_ids(ms),
{
    let ids = member_ids(ms);
    let profiles = settings.relay_profiles@;
    lemma_no_member_problem(settings, ms, 0);
    assert forall|i: int| 0 <= i < ids.len() implies supports_pred(settings, None)(#[trigger] ids[i]) by {
        assert(member_problem(settings, ms, i) is None);
        lemma_last_profile_index(profiles, ms[i].relay_id@);
        lemma_profile_index(profiles, ids[i]);
        let k = last_profile_index(profiles, ms[i].relay_id@)->0;
        assert(profiles[k].id@ == ids[i]);
        assert(profile_index(profiles, ids[i]) is Some);
    }
    lemma_filter_keeps_all(ids, supports_pred(settings, None));
}

/// `peek` names the provider the next selection gives: when every member
/// names a usable provider and none is cooling down at the reading `now`, a
/// selection at `now` for a request outside any conversation, for no
/// particular model, gives what `peek` gives (`peek` itself changes nothing).
pub proof fn law_peek_is_next_select(st: SelectorView, settings: BackendSettings, now: int)
    requires
        selector_wf(st),
        validate_spec(settings, st.aggregate_id, st.members) is None,
        forall|i: int|
            0 <= i < st.members.len() ==> pairs_get(live_cooldowns(st.cooldowns, now), #[trigger] member_ids(st.members)[i])
                is None,
    ensures
        peek_spec(st, settings) == select_spec(at_clock(st, now), settings, None, None, now).1,
{
    let ids = member_ids(st.members);
    let n = ids.len() as int;
    let cds = live_cooldowns(st.cooldowns, now);
    lemma_valid_members_serve_any_model(settings, st.aggregate_id, st.members);
    lemma_all_candidates(ids, cds);
    assert(candidates_from(ids, cds) == ids);
    if st.strategy == AggregateRelayStrategy::Failover {
        let j = (st.failover_index + 0) % n;
        assert(ids.contains(ids[j]));
        assert(failover_pick(ids, st.failover_index, ids, 0) == Some(ids[j]));
        assert(j == st.failover_index % n);
    }
}

/// Failover stays on a member until it fails. From a selector at failover
/// position `i` with nothing cooling down, whose members have distinct
/// providers that can all serve the model, a selection at `t0` gives member
/// `i`; without a failure the next selection gives member `i` again, and
/// after a failure of member `i` recorded at `t`, a selection during its
/// cool-down gives the member after it.
pub proof fn law_failover_moves_on_after_failure(
    st: SelectorView,
    settings: BackendSettings,
    model: Option<Seq<char>>,
    conv: Option<Seq<char>>,
    t0: int,
    t: int,
    now: int,
)
    requires
        selector_wf(st),
        st.strategy == AggregateRelayStrategy::Failover,
        validate_spec(settings, st.aggregate_id, st.members) is None,
        compatible_ids(st.members, settings, model) == member_ids(st.members),
        st.cooldowns.len() == 0,
        st.members.len() >= 2,
        forall|i: int, j: int|
            0 <= i < j < st.members.len() ==> #[trigger] member_ids(st.members)[i] != #[trigger] member_ids(
                st.members,
            )[j],
        t <= now < t + COOLDOWN_MS,
        t + COOLDOWN_MS <= u64::MAX,
    ensures
        ({
            let ids = member_ids(st.members);
            let first = select_spec(at_clock(st, t0), settings, model, conv, t0);
            let failed = record_spec(
                at_clock(first.0, t),
                Some(ids[st.failover_index]),
                None,
                RotationEvent::Failure,
                t,
            );
            &&& first.1 == Ok::<Seq<char>, SelectionErrorView>(ids[st.failover_index])
            &&& select_spec(at_clock(first.0, now), settings, model, conv, now).1 == Ok::<
                Seq<char>,
                SelectionErrorView,
            >(ids[st.failover_index])
            &&& select_spec(at_clock(failed, now), settings, model, conv, now).1 == Ok::<
                Seq<char>,
                SelectionErrorView,
            >(ids[(st.failover_index + 1) % (st.members.len() as int)])
        }),
{
    let ids = member_ids(st.members);
    let n = ids.len() as int;
    let fi = st.failover_index;
    let id = ids[fi];
    vstd::arithmetic::div_mod::lemma_small_mod(fi as nat, n as nat);
    assert(st.cooldowns =~= Seq::<(Seq<char>, int)>::empty());
    // The first selection, and one without a failure in between.
    lemma_filter_of_empty(live_pred(t0));
    lemma_filter_of_empty(live_pred(now));
    lemma_all_candidates(ids, Seq::<(Seq<char>, int)>::empty());
    assert(ids.contains(ids[(fi + 0) % n]));
    assert(failover_pick(ids, fi, ids, 0) == Some(ids[fi]));
    let first = select_spec(at_clock(st, t0), settings, model, conv, t0);
    assert(first.1 == Ok::<Seq<char>, SelectionErrorView>(id));
    assert(first.0.failover_index == fi);
    assert(first.0.cooldowns =~= Seq::<(Seq<char>, int)>::empty());
    // The failure: a cool-down for member `i`, and the position past it.
    let failed = record_spec(at_clock(first.0, t), Some(id), None, RotationEvent::Failure, t);
    lemma_seq_index(ids, id);
    assert(seq_index(ids, id) == Some(fi));
    let next = (fi + 1) % n;
    assert(failed.failover_index == next);
    let entry = (id, cooldown_until(t));
    assert(failed.cooldowns =~= seq![entry]) by {
        lemma_pairs_insert(Seq::<(Seq<char>, int)>::empty(), id, cooldown_until(t), id);
    }
    let cds = live_cooldowns(failed.cooldowns, now);
    assert(cds =~= seq![entry]) by {
        reveal(Seq::filter);
        assert(seq![entry].drop_last() =~= Seq::<(Seq<char>, int)>::empty());
        lemma_filter_of_empty(live_pred(now));
    }
    assert(0 <= next < n);
    assert(next != fi) by {
        if fi + 1 < n {
            vstd::arithmetic::div_mod::lemma_small_mod((fi + 1) as nat, n as nat);
        } else {
            vstd::arithmetic::div_mod::lemma_mod_self_0(n);
        }
    }
    assert(ids[next] != id);
    assert(pairs_get(cds, ids[next]) is None) by {
        assert(cds.drop_first() =~= Seq::<(Seq<char>, int)>::empty());
    }
    let healthy = healthy_ids(ids, cds);
    broadcast use vstd::seq_lib::group_filter_ensures;
    assert(healthy_pred(cds)(ids[next]));
    assert(healthy.contains(ids[next]));
    assert(candidates_from(ids, cds) == healthy);
    vstd::arithmetic::div_mod::lemma_small_mod(next as nat, n as nat);
    assert((next + 0) % n == next);
    assert(failover_pick(ids, next, healthy, 0) == Some(ids[next]));
}

/// A probe leaves the rotation where it was: the selector a probe leaves in
/// the slot for aggregate provider `a` is the very one the next request (or
/// probe) works with, so two probes in a row give the same provider and a
/// probe before a request does not change what the request gets.
pub proof fn law_probe_keeps_rotation(slot: Option<SelectorView>, a: AggregateRelayProfile)
    ensures
        working_selector(Some(working_selector(slot, a)), a) == working_selector(slot, a),
{
    let w = working_selector(slot, a);
    assert(!needs_new_selector(Some(w), a));
}

/// Selections for other requests keep a conversation's provider: a
/// selection for a request outside conversation `c` leaves the provider
/// assigned to `c` as it was.
pub proof fn law_other_requests_keep_assignment(
    st: SelectorView,
    settings: BackendSettings,
    model: Option<Seq<char>>,
    conv: Option<Seq<char>>,
    c: Seq<char>,
    now: int,
)
    requires
        conv != Some(c),
    ensures
        pairs_get(select_spec(st, settings, model, conv, now).0.assignments, c) == pairs_get(st.assignments, c),
{
    match conv {
        Some(d) => {
            let cds = live_cooldowns(st.cooldowns, now);
            let s1 = SelectorView { cooldowns: cds, ..st };
            let cands = candidates_from(compatible_ids(st.members, settings, model), cds);
            let s2 = crate::relay_rotation::rr_step(s1, cands).0;
            lemma_pairs_insert(s2.assignments, d, crate::relay_rotation::rr_step(s1, cands).1, c);
        },
        None => {},
    }
}

/// A conversation gets the provider assigned to it while that provider is
/// among the candidates of the selection.
pub proof fn law_assigned_conversation_keeps_provider(
    st: SelectorView,
    settings: BackendSettings,
    model: Option<Seq<char>>,
    c: Seq<char>,
    r: Seq<char>,
    now: int,
)
    requires
        st.strategy == AggregateRelayStrategy::ConversationRoundRobin,
        validate_spec(settings, st.aggregate_id, st.members) is None,
        pairs_get(st.assignments, c) == Some(r),
        crate::relay_rotation::candidates_at(st, settings, model, now).contains(r),
    ensures
        select_spec(st, settings, model, Some(c), now).1 == Ok::<Seq<char>, SelectionErrorView>(r),
{
    let comp = compatible_ids(st.members, settings, model);
    let cds = live_cooldowns(st.cooldowns, now);
    let cands = candidates_from(comp, cds);
    let k = choose|k: int| 0 <= k < cands.len() && cands[k] == r;
    if comp.len() == 0 {
        assert(healthy_ids(comp, cds).len() <= comp.len()) by {
            broadcast use vstd::seq_lib::group_filter_ensures;
        }
        assert(cands.len() == 0);
    }
}

/// No two cool-downs are kept for one provider.
pub open spec fn distinct_keys(s: Seq<(Seq<char>, int)>) -> bool {
    forall|i: int, j: int| 0 <= i < j < s.len() ==> #[trigger] s[i].0 != #[trigger] s[j].0
}

/// A cool-down runs out: once the selector's clock reads `now`, at least the
/// cool-down length after a failure of provider `id` recorded at `t`, that
/// provider counts as healthy again (the selector keeps one cool-down per
/// provider).
pub proof fn law_cooldown_runs_out(
    st: SelectorView,
    id: Seq<char>,
    conv: Option<Seq<char>>,
    t: int,
    now: int,
)
    requires
        distinct_keys(st.cooldowns),
        now >= cooldown_until(t),
    ensures
        pairs_get(live_cooldowns(record_spec(st, Some(id), conv, RotationEvent::Failure, t).cooldowns, now), id)
            is None,
{
    let cds = record_spec(st, Some(id), conv, RotationEvent::Failure, t).cooldowns;
    let u = cooldown_until(t);
    assert(cds == crate::relay_rotation::pairs_insert(st.cooldowns, id, u));
    crate::relay_rotation::lemma_pairs_index(st.cooldowns, id);
    assert forall|j: int| 0 <= j < cds.len() && (#[trigger] cds[j]).0 == id implies cds[j].1 == u by {
        match crate::relay_rotation::pairs_index(st.cooldowns, id) {
            Some(i) => {
                if j != i {
                    assert(cds[j] == st.cooldowns[j]);
                    if j < i {
                        assert(st.cooldowns[j].0 != st.cooldowns[i].0);
                    } else {
                        assert(st.cooldowns[i].0 != st.cooldowns[j].0);
                    }
                }
            },
            None => {
                if j < st.cooldowns.len() {
                    assert(cds[j] == st.cooldowns[j]);
                }
            },
        }
    }
    let live = live_cooldowns(cds, now);
    broadcast use vstd::seq_lib::group_filter_ensures;
    crate::relay_rotation::lemma_pairs_index(live, id);
    crate::relay_rotation::lemma_filter_subset(cds, live_pred(now));
    assert forall|j: int| 0 <= j < live.len() implies (#[trigger] live[j]).0 != id by {
        assert(live_pred(now)(live[j]));
        assert(cds.contains(live[j]));
        let k = choose|k: int| 0 <= k < cds.len() && cds[k] == live[j];
        if live[j].0 == id {
            assert(cds[k].1 == u);
        }
    }
}

/// The state after successive selections from `st`, the `k`-th one at the
/// clock reading `nows[k]` for a request in `convs[k]`.
pub open spec fn after_selects(
    st: SelectorView,
    settings: BackendSettings,
    model: Option<Seq<char>>,
    convs: Seq<Option<Seq<char>>>,
    nows: Seq<int>,
) -> SelectorView
    decreases convs.len(),
{
    if convs.len() == 0 || nows.len() == 0 {
        st
    } else {
        after_selects(
            select_spec(at_clock(st, nows[0]), settings, model, convs[0], nows[0]).0,
            settings,
            model,
            convs.drop_first(),
            nows.drop_first(),
        )
    }
}

/// A per-conversation selection for `c` that gives a provider leaves that
/// provider assigned to `c`.
proof fn lemma_selection_assigns(st: SelectorView, settings: BackendSettings, model: Option<Seq<char>>, c: Seq<char>, now: int)
    requires
        st.strategy == AggregateRelayStrategy::ConversationRoundRobin,
        select_spec(st, settings, model, Some(c), now).1 is Ok,
    ensures
        pairs_get(select_spec(st, settings, model, Some(c), now).0.assignments, c) == Some(
            select_spec(st, settings, model, Some(c), now).1->Ok_0,
        ),
{
    let id = select_spec(st, settings, model, Some(c), now).1->Ok_0;
    let cds = live_cooldowns(st.cooldowns, now);
    let cands = candidates_from(compatible_ids(st.members, settings, model), cds);
    let pruned = SelectorView { cooldowns: cds, ..st };
    match pairs_get(pruned.assignments, c) {
        Some(r) => {
            if !cands.contains(r) {
                let s2 = crate::relay_rotation::rr_step(pruned, cands).0;
                lemma_pairs_insert(s2.assignments, c, id, c);
            }
        },
        None => {
            let s2 = crate::relay_rotation::rr_step(pruned, cands).0;
            lemma_pairs_insert(s2.assignments, c, id, c);
        },
    }
}

/// Selections for other requests keep what a selector is made of and the
/// provider assigned to `c`.
proof fn lemma_other_selects_keep(
    st: SelectorView,
    settings: BackendSettings,
    model: Option<Seq<char>>,
    convs: Seq<Option<Seq<char>>>,
    nows: Seq<int>,
    c: Seq<char>,
)
    requires
        forall|k: int| 0 <= k < convs.len() ==> #[trigger] convs[k] != Some(c),
    ensures
        pairs_get(after_selects(st, settings, model, convs, nows).assignments, c) == pairs_get(st.assignments, c),
        after_selects(st, settings, model, convs, nows).aggregate_id == st.aggregate_id,
        after_selects(st, settings, model, convs, nows).members == st.members,
        after_selects(st, settings, model, convs, nows).strategy == st.strategy,
    decreases convs.len(),
{
    if convs.len() > 0 && nows.len() > 0 {
        let s1 = select_spec(at_clock(st, nows[0]), settings, model, convs[0], nows[0]).0;
        law_other_requests_keep_assignment(at_clock(st, nows[0]), settings, model, convs[0], c, nows[0]);
        assert forall|k: int| 0 <= k < convs.drop_first().len() implies #[trigger] convs.drop_first()[k] != Some(c) by {
            assert(convs.drop_first()[k] == convs[k + 1]);
        }
        lemma_other_selects_keep(s1, settings, model, convs.drop_first(), nows.drop_first(), c);
    }
}

/// A conversation keeps its provider across other requests: once a
/// per-conversation selection gave conversation `c` a provider, any number
/// of selections for requests outside `c` may follow, and the next selection
/// for `c` still gives that provider while it is among the candidates.
pub proof fn law_conversation_sticks_across_other_requests(
    st: SelectorView,
    settings: BackendSettings,
    model: Option<Seq<char>>,
    c: Seq<char>,
    now1: int,
    convs: Seq<Option<Seq<char>>>,
    nows: Seq<int>,
    now2: int,
)
    requires
        st.strategy == AggregateRelayStrategy::ConversationRoundRobin,
        select_spec(at_clock(st, now1), settings, model, Some(c), now1).1 is Ok,
        forall|k: int| 0 <= k < convs.len() ==> #[trigger] convs[k] != Some(c),
        crate::relay_rotation::candidates_at(
            after_selects(select_spec(at_clock(st, now1), settings, model, Some(c), now1).0, settings, model, convs, nows),
            settings,
            model,
            now2,
        ).contains(select_spec(at_clock(st, now1), settings, model, Some(c), now1).1->Ok_0),
    ensures
        select_spec(
            at_clock(
                after_selects(select_spec(at_clock(st, now1), settings, model, Some(c), now1).0, settings, model, convs, nows),
                now2,
            ),
            settings,
            model,
            Some(c),
            now2,
        ).1 == select_spec(at_clock(st, now1), settings, model, Some(c), now1).1,
{
    let s0 = at_clock(st, now1);
    let first = select_spec(s0, settings, model, Some(c), now1);
    let p = first.1->Ok_0;
    lemma_selection_assigns(s0, settings, model, c, now1);
    lemma_other_selects_keep(first.0, settings, model, convs, nows, c);
    let mid = after_selects(first.0, settings, model, convs, nows);
    assert(validate_spec(settings, st.aggregate_id, st.members) is None);
    law_assigned_conversation_keeps_provider(at_clock(mid, now2), settings, model, c, p, now2);
}

/// Recording an outcome with no provider named, on a selector that has
/// selected nothing yet (a new one, for instance), changes nothing but the
/// clock reading: every later selection and `peek` give what they would have
/// given without it.
pub proof fn law_record_without_target_changes_nothing(
    st: SelectorView,
    conv: Option<Seq<char>>,
    event: RotationEvent,
    now: int,
    settings: BackendSettings,
    model: Option<Seq<char>>,
    later_conv: Option<Seq<char>>,
    later: int,
)
    requires
        st.last_selected is None,
    ensures
        record_spec(at_clock(st, now), None, conv, event, now) == at_clock(st, now),
        select_spec(at_clock(record_spec(at_clock(st, now), None, conv, event, now), later), settings, model, later_conv, later)
            == select_spec(at_clock(st, later), settings, model, later_conv, later),
        peek_spec(record_spec(at_clock(st, now), None, conv, event, now), settings) == peek_spec(st, settings),
{
    assert(at_clock(at_clock(st, now), later) =~= at_clock(st, later));
}

} // verus!
