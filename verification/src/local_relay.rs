//! The local relay: a proxy on this machine that serves a pool of the
//! configured providers, and the settings it keeps.
use vstd::prelude::*;
use vstd::string::StringSliceAdditionalSpecFns;
use vstd::utf8::{decode_utf8, encode_utf8, encode_utf8_decode_utf8, encode_utf8_valid_utf8, is_char_boundary};

use crate::relay_rotation::{contains_str, ids_view, member_ids};
use crate::settings::{active_aggregate_spec, lemma_aggregate_index, lemma_profile_index, AggregateRelayMember, AggregateRelayProfile, AggregateRelayStrategy, BackendSettings, RelayMode, RelayProfile};
use crate::text::{
    is_blank, lemma_trim_idem, owned, slice_chars, str_chars, str_eq, string_from, trim, trim_chars,
    trim_str,
};

verus! {

/// The port the local relay listens on unless told otherwise.
pub const DEFAULT_LOCAL_RELAY_PORT: u16 = 57321;

/// The id of the provider pool that the local relay routes through.
pub const LOCAL_RELAY_POOL_ID: &'static str = "__codex_deck_local_pool__";

/// The display name of the local relay's provider pool.
pub const LOCAL_RELAY_POOL_NAME: &'static str = "本地中转供应商池";

/// The routing strategy the local relay always uses.
pub const LOCAL_RELAY_ROUTING_STRATEGY: &'static str = "conversation-sticky";

/// The settings of the local relay.
#[derive(Debug, Clone)]
pub struct LocalRelaySettings {
    pub enabled: bool,
    pub port: u16,
    pub api_key: String,
    pub routing_strategy: String,
    pub provider_ids: Vec<String>,
    pub disabled_provider_ids: Vec<String>,
    pub hourly_quota: Option<u64>,
    pub weekly_quota: Option<u64>,
}

/// A lowercase hexadecimal digit.
pub open spec fn is_lower_hex(c: char) -> bool {
    ('0' <= c && c <= '9') || ('a' <= c && c <= 'f')
}

/// A key made by the local relay: `cdx_` and 32 lowercase hexadecimal digits.
pub open spec fn is_generated_key(k: Seq<char>) -> bool {
    &&& k.len() == 36
    &&& k.take(4) == seq!['c', 'd', 'x', '_']
    &&& forall|i: int| 4 <= i < 36 ==> is_lower_hex(#[trigger] k[i])
}

/// `uuid::Uuid::new_v4()` printed in its simple form. The uuid crate prints
/// that form as 32 lowercase hexadecimal digits; the digits themselves are
/// random and nothing more is stated of them.
#[verifier::external_body]
pub(crate) fn random_uuid_simple() -> (r: String)
    ensures
        r@.len() == 32,
        forall|i: int| 0 <= i < 32 ==> is_lower_hex(#[trigger] r@[i]),
{
    uuid::Uuid::new_v4().simple().to_string()
}

/// A fresh random key for the local relay.
pub fn generate_api_key() -> (r: String)
    ensures
        is_generated_key(r@),
{
    let u = str_chars(random_uuid_simple().as_str());
    let mut v: Vec<char> = vec!['c', 'd', 'x', '_'];
    let mut i: usize = 0;
    while i < u.len()
        invariant
            u@.len() == 32,
            i <= 32,
            forall|j: int| 0 <= j < 32 ==> is_lower_hex(#[trigger] u@[j]),
            v@.len() == 4 + i,
            v@.take(4) == seq!['c', 'd', 'x', '_'],
            forall|j: int| 4 <= j < 4 + i ==> is_lower_hex(#[trigger] v@[j]),
        decreases 32 - i,
    {
        v.push(u[i]);
        assert(v@.take(4) =~= v@.drop_last().take(4));
        i = i + 1;
    }
    string_from(v.as_slice())
}

/// The settings a new local relay starts with.
pub open spec fn is_fresh_local(s: LocalRelaySettings) -> bool {
    &&& !s.enabled
    &&& s.port == DEFAULT_LOCAL_RELAY_PORT
    &&& is_generated_key(s.api_key@)
    &&& s.routing_strategy@ == LOCAL_RELAY_ROUTING_STRATEGY@
    &&& s.provider_ids@.len() == 0
    &&& s.disabled_provider_ids@.len() == 0
    &&& s.hourly_quota is None
    &&& s.weekly_quota is None
}

impl Default for LocalRelaySettings {
    fn default() -> (r: LocalRelaySettings)
        ensures
            is_fresh_local(r),
    {
        LocalRelaySettings {
            enabled: false,
            port: DEFAULT_LOCAL_RELAY_PORT,
            api_key: generate_api_key(),
            routing_strategy: owned(LOCAL_RELAY_ROUTING_STRATEGY),
            provider_ids: Vec::new(),
            disabled_provider_ids: Vec::new(),
            hourly_quota: None,
            weekly_quota: None,
        }
    }
}

/// One step of normalising a list of provider ids: the trimmed id is added
/// unless it is empty or already there.
pub open spec fn norm_step(acc: Seq<Seq<char>>, raw: Seq<char>) -> Seq<Seq<char>> {
    if trim(raw).len() == 0 || acc.contains(trim(raw)) {
        acc
    } else {
        acc.push(trim(raw))
    }
}

/// A list of provider ids, trimmed, without empty ones, each kept once where it first occurs.
pub open spec fn normalized_ids(s: Seq<Seq<char>>) -> Seq<Seq<char>>
    decreases s.len(),
{
    if s.len() == 0 {
        Seq::empty()
    } else {
        norm_step(normalized_ids(s.drop_last()), s.last())
    }
}

/// Ids that are trimmed, not empty and pairwise different.
pub open spec fn clean_ids(s: Seq<Seq<char>>) -> bool {
    &&& forall|i: int| 0 <= i < s.len() ==> (#[trigger] s[i]).len() > 0 && trim(s[i]) == s[i]
    &&& forall|i: int, j: int| 0 <= i < j < s.len() ==> s[i] != s[j]
}

/// Normalised ids are trimmed, not empty and pairwise different.
pub proof fn law_normalized_ids_clean(s: Seq<Seq<char>>)
    ensures
        clean_ids(normalized_ids(s)),
    decreases s.len(),
{
    if s.len() > 0 {
        law_normalized_ids_clean(s.drop_last());
        lemma_trim_idem(s.last());
    }
}

/// Normalising clean ids changes nothing.
pub proof fn lemma_normalized_clean(s: Seq<Seq<char>>)
    requires
        clean_ids(s),
    ensures
        normalized_ids(s) == s,
    decreases s.len(),
{
    if s.len() > 0 {
        let d = s.drop_last();
        assert forall|i: int, j: int| 0 <= i < j < d.len() implies d[i] != d[j] by {
            assert(d[i] == s[i] && d[j] == s[j]);
        }
        assert forall|i: int| 0 <= i < d.len() implies (#[trigger] d[i]).len() > 0 && trim(d[i]) == d[i] by {
            assert(d[i] == s[i]);
        }
        lemma_normalized_clean(d);
        assert(s[s.len() - 1].len() > 0);
        if d.contains(s.last()) {
            let k = choose|k: int| 0 <= k < d.len() && d[k] == s.last();
            assert(s[k] == s[s.len() - 1]);
        }
        assert(d.push(s.last()) =~= s);
    }
}

/// Normalising twice is normalising once.
pub proof fn law_normalized_ids_idempotent(s: Seq<Seq<char>>)
    ensures
        normalized_ids(normalized_ids(s)) == normalized_ids(s),
{
    law_normalized_ids_clean(s);
    lemma_normalized_clean(normalized_ids(s));
}

/// Normalises a list of provider ids in place.
pub fn normalize_provider_ids(provider_ids: &mut Vec<String>)
    ensures
        ids_view(final(provider_ids)@) == normalized_ids(ids_view(old(provider_ids)@)),
{
    let ghost src = ids_view(provider_ids@);
    let mut out: Vec<String> = Vec::new();
    let mut i: usize = 0;
    while i < provider_ids.len()
        invariant
            i <= src.len(),
            src == ids_view(provider_ids@),
            ids_view(out@) == normalized_ids(src.take(i as int)),
        decreases src.len() - i,
    {
        assert(src.take(i as int + 1).drop_last() =~= src.take(i as int));
        assert(src.take(i as int + 1).last() == src[i as int]);
        let t = trim_str(provider_ids[i].as_str());
        if !is_blank(provider_ids[i].as_str()) && !contains_str(&out, t.as_str()) {
            let ghost before = out@;
            out.push(t);
            assert(ids_view(out@) =~= ids_view(before).push(trim(src[i as int])));
        }
        i = i + 1;
    }
    assert(src.take(src.len() as int) =~= src);
    *provider_ids = out;
}

/// The test that keeps the ids found in `ids`.
pub open spec fn member_of_pred(ids: Seq<Seq<char>>) -> spec_fn(Seq<char>) -> bool {
    |id: Seq<char>| ids.contains(id)
}

/// The settings after repair: a zero port and a blank key are replaced, the
/// routing strategy is fixed, the provider lists are normalised and the
/// disabled providers are limited to the pool's providers.
pub open spec fn repaired(s: LocalRelaySettings, r: LocalRelaySettings) -> bool {
    &&& r.enabled == s.enabled
    &&& r.port == (if s.port == 0 { DEFAULT_LOCAL_RELAY_PORT } else { s.port })
    &&& (if trim(s.api_key@).len() == 0 { is_generated_key(r.api_key@) } else { r.api_key@ == s.api_key@ })
    &&& r.routing_strategy@ == LOCAL_RELAY_ROUTING_STRATEGY@
    &&& ids_view(r.provider_ids@) == normalized_ids(ids_view(s.provider_ids@))
    &&& ids_view(r.disabled_provider_ids@) == normalized_ids(ids_view(s.disabled_provider_ids@)).filter(
        member_of_pred(normalized_ids(ids_view(s.provider_ids@))),
    )
    &&& r.hourly_quota == s.hourly_quota
    &&& r.weekly_quota == s.weekly_quota
}

/// Settings as loading leaves them: a port, a key, the fixed routing
/// strategy, clean provider lists, and only pool providers disabled.
pub open spec fn valid_local(s: LocalRelaySettings) -> bool {
    &&& s.port != 0
    &&& trim(s.api_key@).len() > 0
    &&& s.routing_strategy@ == LOCAL_RELAY_ROUTING_STRATEGY@
    &&& clean_ids(ids_view(s.provider_ids@))
    &&& clean_ids(ids_view(s.disabled_provider_ids@))
    &&& forall|i: int|
        0 <= i < s.disabled_provider_ids@.len() ==> ids_view(s.provider_ids@).contains(
            #[trigger] ids_view(s.disabled_provider_ids@)[i],
        )
}

/// Repaired settings are valid, whatever was read: what loading gives back
/// has a port, a key, the fixed routing strategy, trimmed provider lists
/// without blanks or repeats, and disables only providers of the pool.
pub proof fn law_repaired_settings_are_valid(s: LocalRelaySettings, r: LocalRelaySettings)
    requires
        repaired(s, r),
    ensures
        valid_local(r),
{
    let p = normalized_ids(ids_view(s.provider_ids@));
    let d = normalized_ids(ids_view(s.disabled_provider_ids@));
    law_normalized_ids_clean(ids_view(s.provider_ids@));
    law_normalized_ids_clean(ids_view(s.disabled_provider_ids@));
    if trim(s.api_key@).len() == 0 {
        assert(r.api_key@[0] == 'c') by {
            assert(r.api_key@.take(4)[0] == r.api_key@[0]);
        }
        assert(trim(r.api_key@).len() > 0) by {
            crate::text::lemma_lead_ws(r.api_key@);
            crate::text::lemma_trail_ws(r.api_key@.subrange(crate::text::lead_ws(r.api_key@) as int, r.api_key@.len() as int));
        }
    }
    let kept = ids_view(r.disabled_provider_ids@);
    broadcast use vstd::seq_lib::group_filter_ensures;
    crate::relay_rotation::lemma_filter_subset(d, member_of_pred(p));
    assert forall|i: int| 0 <= i < kept.len() implies p.contains(#[trigger] kept[i]) by {
        assert(member_of_pred(p)(kept[i]));
    }
    assert forall|i: int| 0 <= i < kept.len() implies (#[trigger] kept[i]).len() > 0 && trim(kept[i]) == kept[i] by {
        let k = choose|k: int| 0 <= k < d.len() && d[k] == kept[i];
    }
    lemma_filter_distinct(d, member_of_pred(p));
}

/// Filtering a list whose items are pairwise different keeps them so.
proof fn lemma_filter_distinct(s: Seq<Seq<char>>, p: spec_fn(Seq<char>) -> bool)
    requires
        forall|i: int, j: int| 0 <= i < j < s.len() ==> s[i] != s[j],
    ensures
        forall|i: int, j: int| 0 <= i < j < s.filter(p).len() ==> s.filter(p)[i] != s.filter(p)[j],
    decreases s.len(),
{
    reveal(Seq::filter);
    if s.len() > 0 {
        let d = s.drop_last();
        assert forall|i: int, j: int| 0 <= i < j < d.len() implies d[i] != d[j] by {
            assert(d[i] == s[i] && d[j] == s[j]);
        }
        lemma_filter_distinct(d, p);
        crate::relay_rotation::lemma_filter_subset(d, p);
        let f = d.filter(p);
        if p(s.last()) {
            assert(s.filter(p) == f.push(s.last()));
            assert forall|i: int, j: int| 0 <= i < j < f.len() + 1 implies f.push(s.last())[i] != f.push(
                s.last(),
            )[j] by {
                if j == f.len() {
                    assert(d.contains(f[i]));
                    let k = choose|k: int| 0 <= k < d.len() && d[k] == f[i];
                    assert(s[k] != s[s.len() - 1]);
                }
            }
        }
    }
}

/// Repairing valid settings changes nothing, so settings that were saved
/// (repaired on the way out) load back as they were.
pub proof fn law_repairing_valid_settings_keeps_them(s: LocalRelaySettings, r: LocalRelaySettings)
    requires
        valid_local(s),
        repaired(s, r),
    ensures
        r.enabled == s.enabled,
        r.port == s.port,
        r.api_key@ == s.api_key@,
        r.routing_strategy@ == s.routing_strategy@,
        ids_view(r.provider_ids@) == ids_view(s.provider_ids@),
        ids_view(r.disabled_provider_ids@) == ids_view(s.disabled_provider_ids@),
        r.hourly_quota == s.hourly_quota,
        r.weekly_quota == s.weekly_quota,
{
    let p = ids_view(s.provider_ids@);
    let d = ids_view(s.disabled_provider_ids@);
    lemma_normalized_clean(p);
    lemma_normalized_clean(d);
    assert forall|i: int| 0 <= i < d.len() implies member_of_pred(p)(#[trigger] d[i]) by {}
    lemma_filter_keeps_every(d, member_of_pred(p));
}

proof fn lemma_filter_keeps_every(s: Seq<Seq<char>>, p: spec_fn(Seq<char>) -> bool)
    requires
        forall|i: int| 0 <= i < s.len() ==> p(#[trigger] s[i]),
    ensures
        s.filter(p) == s,
    decreases s.len(),
{
    reveal(Seq::filter);
    if s.len() > 0 {
        lemma_filter_keeps_every(s.drop_last(), p);
        assert(s.drop_last().push(s.last()) =~= s);
    }
}

/// Keeps the ids of `v` that occur in `keep`.
fn retain_members(v: &Vec<String>, keep: &Vec<String>) -> (r: Vec<String>)
    ensures
        ids_view(r@) == ids_view(v@).filter(member_of_pred(ids_view(keep@))),
{
    let ghost src = ids_view(v@);
    let ghost pred = member_of_pred(ids_view(keep@));
    let mut out: Vec<String> = Vec::new();
    let mut i: usize = 0;
    while i < v.len()
        invariant
            i <= src.len(),
            src == ids_view(v@),
            pred == member_of_pred(ids_view(keep@)),
            ids_view(out@) == src.take(i as int).filter(pred),
        decreases src.len() - i,
    {
        proof {
            crate::relay_rotation::lemma_filter_take_step(src, pred, i as int);
        }
        if contains_str(keep, v[i].as_str()) {
            let ghost before = out@;
            out.push(v[i].clone());
            assert(ids_view(out@) =~= ids_view(before).push(src[i as int]));
        }
        i = i + 1;
    }
    assert(src.take(src.len() as int) =~= src);
    out
}

/// Where the key can be masked without cutting a character: when its
/// trimmed text is longer than eight bytes, byte 4 and the fourth byte from
/// the end both start a character.
pub open spec fn maskable_key(key: Seq<char>) -> bool {
    let b = encode_utf8(trim(key));
    b.len() <= 8 || (is_char_boundary(b, 4) && is_char_boundary(b, b.len() - 4))
}

/// The masked form of a key: eight stars when its trimmed text is at most
/// eight bytes long, else its first four and last four bytes around three dots.
pub open spec fn masked_key(key: Seq<char>) -> Seq<char> {
    let b = encode_utf8(trim(key));
    if b.len() <= 8 {
        seq!['*', '*', '*', '*', '*', '*', '*', '*']
    } else {
        decode_utf8(b.subrange(0, 4)) + seq!['.', '.', '.'] + decode_utf8(b.subrange(b.len() - 4, b.len() as int))
    }
}

impl LocalRelaySettings {
    /// The settings with invalid values repaired.
    pub fn ensure_valid(self) -> (r: LocalRelaySettings)
        ensures
            repaired(self, r),
    {
        let mut s = self;
        if s.port == 0 {
            s.port = DEFAULT_LOCAL_RELAY_PORT;
        }
        if is_blank(s.api_key.as_str()) {
            s.api_key = generate_api_key();
        }
        s.routing_strategy = owned(LOCAL_RELAY_ROUTING_STRATEGY);
        normalize_provider_ids(&mut s.provider_ids);
        normalize_provider_ids(&mut s.disabled_provider_ids);
        s.disabled_provider_ids = retain_members(&s.disabled_provider_ids, &s.provider_ids);
        s
    }

    /// The key with all but its first and last four bytes hidden.
    pub fn masked_api_key(&self) -> (r: String)
        requires
            maskable_key(self.api_key@),
        ensures
            r@ == masked_key(self.api_key@),
    {
        let key = trim_str(self.api_key.as_str());
        let k = key.as_str();
        let n = k.as_bytes().len();
        proof {
            encode_utf8_valid_utf8(k@);
            assert(k.spec_bytes() == encode_utf8(trim(self.api_key@)));
        }
        if n <= 8 {
            let stars: Vec<char> = vec!['*', '*', '*', '*', '*', '*', '*', '*'];
            let r = string_from(stars.as_slice());
            assert(r@ =~= seq!['*', '*', '*', '*', '*', '*', '*', '*']);
            return r;
        }
        let (head, _) = k.split_at(4);
        let (_, tail) = k.split_at(n - 4);
        proof {
            encode_utf8_decode_utf8(head@);
            encode_utf8_decode_utf8(tail@);
            reveal_strlit("...");
            assert("..."@ =~= seq!['.', '.', '.']);
        }
        crate::text::concat3(head, "...", tail)
    }

    /// Replaces the key with a fresh random one.
    pub fn regenerate_api_key(&mut self)
        ensures
            is_generated_key(final(self).api_key@),
            final(self).enabled == old(self).enabled,
            final(self).port == old(self).port,
            final(self).routing_strategy == old(self).routing_strategy,
            final(self).provider_ids == old(self).provider_ids,
            final(self).disabled_provider_ids == old(self).disabled_provider_ids,
            final(self).hourly_quota == old(self).hourly_quota,
            final(self).weekly_quota == old(self).weekly_quota,
    {
        self.api_key = generate_api_key();
    }

    /// Whether provider `provider_id` is in the pool and not disabled.
    pub fn is_provider_enabled(&self, provider_id: &str) -> (r: bool)
        ensures
            r == enabled_in(*self, provider_id@),
    {
        contains_str(&self.provider_ids, provider_id) && !contains_str(&self.disabled_provider_ids, provider_id)
    }

    /// The pool's providers that are not disabled, in pool order.
    pub fn enabled_provider_ids(&self) -> (r: Vec<String>)
        ensures
            ids_view(r@) == ids_view(self.provider_ids@).filter(enabled_pred(*self)),
    {
        let ghost src = ids_view(self.provider_ids@);
        let ghost pred = enabled_pred(*self);
        let mut out: Vec<String> = Vec::new();
        let mut i: usize = 0;
        while i < self.provider_ids.len()
            invariant
                i <= src.len(),
                src == ids_view(self.provider_ids@),
                pred == enabled_pred(*self),
                ids_view(out@) == src.take(i as int).filter(pred),
            decreases src.len() - i,
        {
            proof {
                crate::relay_rotation::lemma_filter_take_step(src, pred, i as int);
            }
            if self.is_provider_enabled(self.provider_ids[i].as_str()) {
                let ghost before = out@;
                out.push(self.provider_ids[i].clone());
                assert(ids_view(out@) =~= ids_view(before).push(src[i as int]));
            }
            i = i + 1;
        }
        assert(src.take(src.len() as int) =~= src);
        out
    }
}

/// Provider `id` is in the pool and not disabled.
pub open spec fn enabled_in(local: LocalRelaySettings, id: Seq<char>) -> bool {
    ids_view(local.provider_ids@).contains(id) && !ids_view(local.disabled_provider_ids@).contains(id)
}

/// The test that keeps the enabled providers of the pool.
pub open spec fn enabled_pred(local: LocalRelaySettings) -> spec_fn(Seq<char>) -> bool {
    |id: Seq<char>| enabled_in(local, id)
}


/// The test that keeps provider ids naming a provider that is not a pool.
pub open spec fn plain_provider_pred(settings: BackendSettings) -> spec_fn(Seq<char>) -> bool {
    |id: Seq<char>|
        exists|i: int|
            0 <= i < settings.relay_profiles@.len() && (#[trigger] settings.relay_profiles@[i]).relay_mode
                != RelayMode::Aggregate && settings.relay_profiles@[i].id@ == id
}

/// The providers of the local pool: the enabled ones, in pool order, that
/// name a configured provider which is not itself a pool.
pub open spec fn local_pool_ids(settings: BackendSettings, local: LocalRelaySettings) -> Seq<Seq<char>> {
    ids_view(local.provider_ids@).filter(enabled_pred(local)).filter(plain_provider_pred(settings))
}

/// The test that keeps providers whose id is not `id`.
pub open spec fn other_profile_pred(id: Seq<char>) -> spec_fn(RelayProfile) -> bool {
    |p: RelayProfile| p.id@ != id
}

/// The test that keeps aggregate providers whose id is not `id`.
pub open spec fn other_aggregate_pred(id: Seq<char>) -> spec_fn(AggregateRelayProfile) -> bool {
    |a: AggregateRelayProfile| a.id@ != id
}

/// The provider entry of the local pool: an aggregate provider with no address or key of its own.
pub open spec fn is_pool_profile(p: RelayProfile) -> bool {
    &&& p.id@ == LOCAL_RELAY_POOL_ID@
    &&& p.name@ == LOCAL_RELAY_POOL_NAME@
    &&& p.relay_mode == RelayMode::Aggregate
    &&& p.protocol == crate::settings::RelayProtocol::Responses
    &&& !p.official_mix_api_key
    &&& p.base_url@ == Seq::<char>::empty()
    &&& p.upstream_base_url@ == Seq::<char>::empty()
    &&& p.api_key@ == Seq::<char>::empty()
    &&& p.model_list@ == Seq::<char>::empty()
    &&& p.config_contents@ == Seq::<char>::empty()
    &&& p.auth_contents@ == Seq::<char>::empty()
    &&& !p.use_common_config
}

/// The aggregate entry of the local pool: per-conversation rotation over
/// `ids`, each with weight one.
pub open spec fn is_pool_aggregate(a: AggregateRelayProfile, ids: Seq<Seq<char>>) -> bool {
    &&& a.id@ == LOCAL_RELAY_POOL_ID@
    &&& a.name@ == LOCAL_RELAY_POOL_NAME@
    &&& a.strategy == AggregateRelayStrategy::ConversationRoundRobin
    &&& member_ids(a.members@) == ids
    &&& forall|i: int| 0 <= i < a.members@.len() ==> (#[trigger] a.members@[i]).weight == 1
}

/// `r` is `s` routed through the local pool: when the relay is on and the
/// pool has providers, the pool's provider and aggregate entries replace any
/// earlier ones of its id and become the active ones; otherwise nothing changes.
pub open spec fn routed_through_pool(s: BackendSettings, local: LocalRelaySettings, r: BackendSettings) -> bool {
    if !local.enabled || local_pool_ids(s, local).len() == 0 {
        r == s
    } else {
        &&& r.relay_profiles@.len() > 0
        &&& r.relay_profiles@.drop_last() == s.relay_profiles@.filter(other_profile_pred(LOCAL_RELAY_POOL_ID@))
        &&& is_pool_profile(r.relay_profiles@.last())
        &&& r.aggregate_relay_profiles@.len() > 0
        &&& r.aggregate_relay_profiles@.drop_last() == s.aggregate_relay_profiles@.filter(
            other_aggregate_pred(LOCAL_RELAY_POOL_ID@),
        )
        &&& is_pool_aggregate(r.aggregate_relay_profiles@.last(), local_pool_ids(s, local))
        &&& r.active_relay_id@ == LOCAL_RELAY_POOL_ID@
        &&& r.active_aggregate_relay_id@ == LOCAL_RELAY_POOL_ID@
        &&& r.relay_common_config_contents == s.relay_common_config_contents
        &&& r.relay_context_config_contents == s.relay_context_config_contents
        &&& r.provider_sync_saved_providers == s.provider_sync_saved_providers
        &&& r.provider_sync_manual_providers == s.provider_sync_manual_providers
        &&& r.provider_sync_last_selected_provider == s.provider_sync_last_selected_provider
        &&& r.codex_app_image_overlay_enabled == s.codex_app_image_overlay_enabled
        &&& r.codex_app_image_overlay_path == s.codex_app_image_overlay_path
        &&& r.codex_app_image_overlay_opacity == s.codex_app_image_overlay_opacity
        &&& r.codex_app_image_overlay_fit_mode == s.codex_app_image_overlay_fit_mode
        &&& r.relay_test_model == s.relay_test_model
    }
}

/// Whether `id` names a configured provider that is not a pool.
fn is_plain_provider(profiles: &Vec<RelayProfile>, id: &str) -> (r: bool)
    ensures
        r == exists|i: int|
            0 <= i < profiles@.len() && (#[trigger] profiles@[i]).relay_mode != RelayMode::Aggregate
                && profiles@[i].id@ == id@,
{
    let mut i: usize = 0;
    while i < profiles.len()
        invariant
            i <= profiles@.len(),
            forall|j: int|
                0 <= j < i ==> !((#[trigger] profiles@[j]).relay_mode != RelayMode::Aggregate && profiles@[j].id@ == id@),
        decreases profiles@.len() - i,
    {
        if profiles[i].relay_mode != RelayMode::Aggregate && str_eq(profiles[i].id.as_str(), id) {
            return true;
        }
        i = i + 1;
    }
    false
}

/// The providers of `v` whose id is not `id`, in order.
fn without_profile(v: Vec<RelayProfile>, id: &str) -> (r: Vec<RelayProfile>)
    ensures
        r@ == v@.filter(other_profile_pred(id@)),
{
    let ghost src = v@;
    let mut out: Vec<RelayProfile> = Vec::new();
    for p in it: v.into_iter()
        invariant
            it.seq() == src,
            out@ == src.take(it.index() as int).filter(other_profile_pred(id@)),
    {
        proof {
            crate::relay_rotation::lemma_filter_take_step(src, other_profile_pred(id@), it.index() as int);
        }
        if !str_eq(p.id.as_str(), id) {
            out.push(p);
        }
    }
    assert(src.take(src.len() as int) =~= src);
    out
}

/// The aggregate providers of `v` whose id is not `id`, in order.
fn without_aggregate(v: Vec<AggregateRelayProfile>, id: &str) -> (r: Vec<AggregateRelayProfile>)
    ensures
        r@ == v@.filter(other_aggregate_pred(id@)),
{
    let ghost src = v@;
    let mut out: Vec<AggregateRelayProfile> = Vec::new();
    for a in it: v.into_iter()
        invariant
            it.seq() == src,
            out@ == src.take(it.index() as int).filter(other_aggregate_pred(id@)),
    {
        proof {
            crate::relay_rotation::lemma_filter_take_step(src, other_aggregate_pred(id@), it.index() as int);
        }
        if !str_eq(a.id.as_str(), id) {
            out.push(a);
        }
    }
    assert(src.take(src.len() as int) =~= src);
    out
}

/// Routes the settings through the local relay's provider pool when the
/// relay is on and the pool has usable providers. The pool refers to the
/// existing providers by id: no address or key is copied into it.
pub fn settings_with_local_pool(settings: BackendSettings, local: &LocalRelaySettings) -> (r: BackendSettings)
    ensures
        routed_through_pool(settings, *local, r),
{
    if !local.enabled {
        return settings;
    }
    let enabled = local.enabled_provider_ids();
    let ghost src = ids_view(enabled@);
    let ghost pred = plain_provider_pred(settings);
    let mut members: Vec<AggregateRelayMember> = Vec::new();
    let mut i: usize = 0;
    while i < enabled.len()
        invariant
            i <= src.len(),
            src == ids_view(enabled@),
            src == ids_view(local.provider_ids@).filter(enabled_pred(*local)),
            pred == plain_provider_pred(settings),
            member_ids(members@) == src.take(i as int).filter(pred),
            forall|j: int| 0 <= j < members@.len() ==> (#[trigger] members@[j]).weight == 1,
        decreases src.len() - i,
    {
        proof {
            crate::relay_rotation::lemma_filter_take_step(src, pred, i as int);
        }
        if is_plain_provider(&settings.relay_profiles, enabled[i].as_str()) {
            let ghost before = members@;
            members.push(AggregateRelayMember { relay_id: enabled[i].clone(), weight: 1 });
            assert(member_ids(members@) =~= member_ids(before).push(src[i as int]));
        }
        i = i + 1;
    }
    assert(src.take(src.len() as int) =~= src);
    if members.len() == 0 {
        return settings;
    }
    let mut s = settings;
    let mut profiles = without_profile(s.relay_profiles, LOCAL_RELAY_POOL_ID);
    let mut pool = RelayProfile::default();
    pool.id = owned(LOCAL_RELAY_POOL_ID);
    pool.name = owned(LOCAL_RELAY_POOL_NAME);
    pool.relay_mode = RelayMode::Aggregate;
    let ghost kept = profiles@;
    profiles.push(pool);
    assert(profiles@.drop_last() =~= kept);
    s.relay_profiles = profiles;
    let mut aggregates = without_aggregate(s.aggregate_relay_profiles, LOCAL_RELAY_POOL_ID);
    let ghost kept_aggregates = aggregates@;
    aggregates.push(
        AggregateRelayProfile {
            id: owned(LOCAL_RELAY_POOL_ID),
            name: owned(LOCAL_RELAY_POOL_NAME),
            strategy: AggregateRelayStrategy::ConversationRoundRobin,
            members,
        },
    );
    assert(aggregates@.drop_last() =~= kept_aggregates);
    s.aggregate_relay_profiles = aggregates;
    s.active_relay_id = owned(LOCAL_RELAY_POOL_ID);
    s.active_aggregate_relay_id = owned(LOCAL_RELAY_POOL_ID);
    s
}

/// Routing through the local pool makes the pool the aggregate provider in
/// use, with the enabled, existing, non-pool providers as its members.
pub proof fn law_pool_becomes_active(s: BackendSettings, local: LocalRelaySettings, r: BackendSettings)
    requires
        routed_through_pool(s, local, r),
        local.enabled,
        local_pool_ids(s, local).len() > 0,
    ensures
        active_aggregate_spec(r) == Some(r.aggregate_relay_profiles@.last()),
        is_pool_aggregate(r.aggregate_relay_profiles@.last(), local_pool_ids(s, local)),
{
    broadcast use vstd::seq_lib::group_filter_ensures;
    let ps = r.relay_profiles@;
    let kept = s.relay_profiles@.filter(other_profile_pred(LOCAL_RELAY_POOL_ID@));
    assert forall|j: int| 0 <= j < ps.len() - 1 implies (#[trigger] ps[j]).id@ != LOCAL_RELAY_POOL_ID@ by {
        assert(ps[j] == kept[j]);
        assert(other_profile_pred(LOCAL_RELAY_POOL_ID@)(kept[j]));
    }
    lemma_profile_index(ps, LOCAL_RELAY_POOL_ID@);
    let ag = r.aggregate_relay_profiles@;
    let kept_ag = s.aggregate_relay_profiles@.filter(other_aggregate_pred(LOCAL_RELAY_POOL_ID@));
    assert forall|j: int| 0 <= j < ag.len() - 1 implies (#[trigger] ag[j]).id@ != LOCAL_RELAY_POOL_ID@ by {
        assert(ag[j] == kept_ag[j]);
        assert(other_aggregate_pred(LOCAL_RELAY_POOL_ID@)(kept_ag[j]));
    }
    lemma_aggregate_index(ag, LOCAL_RELAY_POOL_ID@);
}

} // verus!

verus! {

/// The file that holds the local relay's settings.
pub const STATE_FILE: &'static str = "local-relay.json";

/// Where the local relay's settings are kept: in the app's state directory.
pub fn state_path() -> (r: String)
    ensures
        exists|home: Option<Seq<char>>| r@ == crate::paths::join_path(
            crate::paths::state_dir_in(home, crate::paths::APP_STATE_DIR@),
            STATE_FILE@,
        ),
{
    let dir = crate::paths::default_app_state_dir();
    crate::paths::join_path_exec(dir.as_str(), STATE_FILE)
}


/// What the manager shows of the local relay.
#[derive(Debug, Clone)]
pub struct LocalRelayPayload {
    pub settings: LocalRelaySettings,
    pub api_key_masked: String,
    pub running: bool,
    pub base_url: String,
    pub state_path: String,
}

/// The manager's view of the local relay: the settings, the masked key, the
/// address clients use, and where the settings are kept.
pub fn local_relay_payload(settings: LocalRelaySettings, running: bool) -> (r: LocalRelayPayload)
    requires
        maskable_key(settings.api_key@),
    ensures
        r.settings == settings,
        r.api_key_masked@ == masked_key(settings.api_key@),
        r.running == running,
        r.base_url@ == "http://127.0.0.1:"@ + crate::text::decimal(settings.port as nat) + "/v1"@,
        exists|home: Option<Seq<char>>| r.state_path@ == crate::paths::join_path(
            crate::paths::state_dir_in(home, crate::paths::APP_STATE_DIR@),
            STATE_FILE@,
        ),
{
    let api_key_masked = settings.masked_api_key();
    let base_url = crate::manager::local_relay_base_url(settings.port);
    LocalRelayPayload { settings, api_key_masked, running, base_url, state_path: state_path() }
}

} // verus!
