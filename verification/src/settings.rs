//! The part of the back-end settings that relay selection and the local
//! relay pool read and write.
use vstd::prelude::*;

use crate::text::str_eq;

verus! {

/// How a provider reaches the model service.
#[derive(Debug, Clone, Copy, PartialEq, Eq, Structural)]
pub enum RelayMode {
    /// Official login (ChatGPT account), optionally mixed with an API key.
    Official,
    /// A plain API endpoint with a key.
    PureApi,
    /// A pool of other providers.
    Aggregate,
}

/// The wire protocol a provider speaks.
#[derive(Debug, Clone, Copy, PartialEq, Eq, Structural)]
pub enum RelayProtocol {
    Responses,
    ChatCompletions,
}

/// One configured provider.
#[derive(Debug, Clone)]
pub struct RelayProfile {
    pub id: String,
    pub name: String,
    pub relay_mode: RelayMode,
    pub protocol: RelayProtocol,
    pub official_mix_api_key: bool,
    pub base_url: String,
    pub upstream_base_url: String,
    pub api_key: String,
    pub model_list: String,
    pub config_contents: String,
    pub auth_contents: String,
    pub use_common_config: bool,
    /// The model the provider doctor tests with, when set.
    pub test_model: String,
}

/// How an aggregate provider picks among its members.
#[derive(Debug, Clone, Copy, PartialEq, Eq, Structural)]
pub enum AggregateRelayStrategy {
    Failover,
    ConversationRoundRobin,
    RequestRoundRobin,
    WeightedRoundRobin,
}

/// One member of an aggregate provider.
#[derive(Debug, Clone)]
pub struct AggregateRelayMember {
    pub relay_id: String,
    pub weight: u32,
}

/// A pool of providers with a rotation strategy.
#[derive(Debug, Clone)]
pub struct AggregateRelayProfile {
    pub id: String,
    pub name: String,
    pub strategy: AggregateRelayStrategy,
    pub members: Vec<AggregateRelayMember>,
}

/// The back-end settings that provider selection depends on.
#[derive(Debug, Clone)]
pub struct BackendSettings {
    pub relay_profiles: Vec<RelayProfile>,
    pub aggregate_relay_profiles: Vec<AggregateRelayProfile>,
    pub active_relay_id: String,
    pub active_aggregate_relay_id: String,
    pub relay_common_config_contents: String,
    pub relay_context_config_contents: String,
    pub provider_sync_saved_providers: Vec<String>,
    pub provider_sync_manual_providers: Vec<String>,
    pub provider_sync_last_selected_provider: String,
    /// Whether an image is laid over the Codex app window.
    pub codex_app_image_overlay_enabled: bool,
    /// The image file laid over the window.
    pub codex_app_image_overlay_path: String,
    /// Its opacity, in percent.
    pub codex_app_image_overlay_opacity: u32,
    /// How it is fitted to the window (`fit`, `fill`, ...).
    pub codex_app_image_overlay_fit_mode: String,
    /// The model the provider doctor tests with when a provider names none.
    pub relay_test_model: String,
}

/// Position of the first provider whose id is `id`.
pub open spec fn profile_index(profiles: Seq<RelayProfile>, id: Seq<char>) -> Option<int>
    decreases profiles.len(),
{
    if profiles.len() == 0 {
        None
    } else if profiles[0].id@ == id {
        Some(0)
    } else {
        match profile_index(profiles.drop_first(), id) {
            Some(i) => Some(i + 1),
            None => None,
        }
    }
}

/// The first provider whose id is `id`.
pub open spec fn find_profile(profiles: Seq<RelayProfile>, id: Seq<char>) -> Option<RelayProfile> {
    match profile_index(profiles, id) {
        Some(i) => Some(profiles[i]),
        None => None,
    }
}

/// Position of the first aggregate provider whose id is `id`.
pub open spec fn aggregate_index(aggregates: Seq<AggregateRelayProfile>, id: Seq<char>) -> Option<int>
    decreases aggregates.len(),
{
    if aggregates.len() == 0 {
        None
    } else if aggregates[0].id@ == id {
        Some(0)
    } else {
        match aggregate_index(aggregates.drop_first(), id) {
            Some(i) => Some(i + 1),
            None => None,
        }
    }
}

/// The first aggregate provider whose id is `id`.
pub open spec fn find_aggregate(aggregates: Seq<AggregateRelayProfile>, id: Seq<char>) -> Option<
    AggregateRelayProfile,
> {
    match aggregate_index(aggregates, id) {
        Some(i) => Some(aggregates[i]),
        None => None,
    }
}

pub proof fn lemma_profile_index(profiles: Seq<RelayProfile>, id: Seq<char>)
    ensures
        match profile_index(profiles, id) {
            Some(i) => 0 <= i < profiles.len() && profiles[i].id@ == id && forall|j: int|
                0 <= j < i ==> (#[trigger] profiles[j]).id@ != id,
            None => forall|j: int| 0 <= j < profiles.len() ==> (#[trigger] profiles[j]).id@ != id,
        },
    decreases profiles.len(),
{
    if profiles.len() > 0 && profiles[0].id@ != id {
        lemma_profile_index(profiles.drop_first(), id);
        assert forall|j: int| 0 < j < profiles.len() implies profiles[j] == profiles.drop_first()[j
            - 1] by {}
    }
}

pub proof fn lemma_aggregate_index(aggregates: Seq<AggregateRelayProfile>, id: Seq<char>)
    ensures
        match aggregate_index(aggregates, id) {
            Some(i) => 0 <= i < aggregates.len() && aggregates[i].id@ == id && forall|j: int|
                0 <= j < i ==> (#[trigger] aggregates[j]).id@ != id,
            None => forall|j: int|
                0 <= j < aggregates.len() ==> (#[trigger] aggregates[j]).id@ != id,
        },
    decreases aggregates.len(),
{
    if aggregates.len() > 0 && aggregates[0].id@ != id {
        lemma_aggregate_index(aggregates.drop_first(), id);
        assert forall|j: int| 0 < j < aggregates.len() implies aggregates[j]
            == aggregates.drop_first()[j - 1] by {}
    }
}

impl RelayProfile {
    /// A field-by-field copy.
    pub fn duplicate(&self) -> (r: RelayProfile)
        ensures
            r == *self,
    {
        RelayProfile {
            id: self.id.clone(),
            name: self.name.clone(),
            relay_mode: self.relay_mode,
            protocol: self.protocol,
            official_mix_api_key: self.official_mix_api_key,
            base_url: self.base_url.clone(),
            upstream_base_url: self.upstream_base_url.clone(),
            api_key: self.api_key.clone(),
            model_list: self.model_list.clone(),
            config_contents: self.config_contents.clone(),
            auth_contents: self.auth_contents.clone(),
            use_common_config: self.use_common_config,
            test_model: self.test_model.clone(),
        }
    }
}

/// Position of the provider with id `id` in `profiles`, searching from the start.
pub fn profile_position(profiles: &Vec<RelayProfile>, id: &str) -> (r: Option<usize>)
    ensures
        match r {
            Some(i) => profile_index(profiles@, id@) == Some(i as int),
            None => profile_index(profiles@, id@) is None,
        },
{
    let mut i: usize = 0;
    while i < profiles.len()
        invariant
            i <= profiles@.len(),
            forall|j: int| 0 <= j < i ==> (#[trigger] profiles@[j]).id@ != id@,
        decreases profiles@.len() - i,
    {
        if str_eq(profiles[i].id.as_str(), id) {
            proof {
                lemma_profile_index(profiles@, id@);
            }
            return Some(i);
        }
        i = i + 1;
    }
    proof {
        lemma_profile_index(profiles@, id@);
    }
    None
}


impl AggregateRelayMember {
    /// A field-by-field copy.
    pub fn duplicate(&self) -> (r: AggregateRelayMember)
        ensures
            r == *self,
    {
        AggregateRelayMember { relay_id: self.relay_id.clone(), weight: self.weight }
    }
}

/// Two aggregate providers with the same id, name, strategy and members.
pub open spec fn same_aggregate(a: AggregateRelayProfile, b: AggregateRelayProfile) -> bool {
    &&& a.id@ == b.id@
    &&& a.name@ == b.name@
    &&& a.strategy == b.strategy
    &&& same_members(a.members@, b.members@)
}

/// Two member lists naming the same providers with the same weights, in order.
pub open spec fn same_members(a: Seq<AggregateRelayMember>, b: Seq<AggregateRelayMember>) -> bool {
    &&& a.len() == b.len()
    &&& forall|j: int| 0 <= j < a.len() ==> (#[trigger] a[j]).relay_id@ == b[j].relay_id@ && a[j].weight == b[j].weight
}

/// Copies a list of members.
pub fn duplicate_members(members: &Vec<AggregateRelayMember>) -> (r: Vec<AggregateRelayMember>)
    ensures
        r@ == members@,
{
    let mut out: Vec<AggregateRelayMember> = Vec::new();
    let mut i: usize = 0;
    while i < members.len()
        invariant
            i <= members@.len(),
            out@ == members@.take(i as int),
        decreases members@.len() - i,
    {
        out.push(members[i].duplicate());
        assert(members@.take(i as int + 1) =~= members@.take(i as int).push(members@[i as int]));
        i = i + 1;
    }
    assert(members@.take(members@.len() as int) =~= members@);
    out
}

impl AggregateRelayProfile {
    /// A copy with the same id, name, strategy and members.
    pub fn duplicate(&self) -> (r: AggregateRelayProfile)
        ensures
            same_aggregate(r, *self),
            r.id@ == self.id@,
            r.strategy == self.strategy,
            r.members@ == self.members@,
    {
        AggregateRelayProfile {
            id: self.id.clone(),
            name: self.name.clone(),
            strategy: self.strategy,
            members: duplicate_members(&self.members),
        }
    }
}

/// Whether two aggregate providers have the same id, name, strategy and members.
pub fn aggregates_equal(a: &AggregateRelayProfile, b: &AggregateRelayProfile) -> (r: bool)
    ensures
        r == same_aggregate(*a, *b),
{
    if !str_eq(a.id.as_str(), b.id.as_str()) || !str_eq(a.name.as_str(), b.name.as_str())
        || a.strategy != b.strategy || a.members.len() != b.members.len() {
        return false;
    }
    let mut i: usize = 0;
    while i < a.members.len()
        invariant
            i <= a.members@.len(),
            a.members@.len() == b.members@.len(),
            forall|j: int| 0 <= j < i ==> (#[trigger] a.members@[j]).relay_id@ == b.members@[j].relay_id@ && a.members@[j].weight == b.members@[j].weight,
        decreases a.members@.len() - i,
    {
        let x = &a.members[i];
        let y = &b.members[i];
        if !str_eq(x.relay_id.as_str(), y.relay_id.as_str()) || x.weight != y.weight {
            return false;
        }
        i = i + 1;
    }
    true
}



/// Position of the first aggregate provider with id `id`, searching from the start.
pub fn aggregate_position(aggregates: &Vec<AggregateRelayProfile>, id: &str) -> (r: Option<usize>)
    ensures
        match r {
            Some(i) => aggregate_index(aggregates@, id@) == Some(i as int),
            None => aggregate_index(aggregates@, id@) is None,
        },
{
    let mut i: usize = 0;
    while i < aggregates.len()
        invariant
            i <= aggregates@.len(),
            forall|j: int| 0 <= j < i ==> (#[trigger] aggregates@[j]).id@ != id@,
        decreases aggregates@.len() - i,
    {
        if str_eq(aggregates[i].id.as_str(), id) {
            proof {
                lemma_aggregate_index(aggregates@, id@);
            }
            return Some(i);
        }
        i = i + 1;
    }
    proof {
        lemma_aggregate_index(aggregates@, id@);
    }
    None
}

/// The aggregate provider in use: the active provider is an aggregate one,
/// and the aggregate provider with the active aggregate id exists.
pub open spec fn active_aggregate_spec(s: BackendSettings) -> Option<AggregateRelayProfile> {
    match find_profile(s.relay_profiles@, s.active_relay_id@) {
        Some(p) => if p.relay_mode == RelayMode::Aggregate {
            find_aggregate(s.aggregate_relay_profiles@, s.active_aggregate_relay_id@)
        } else {
            None
        },
        None => None,
    }
}

/// A provider with empty text fields, official login and the responses protocol.
pub open spec fn is_default_profile(p: RelayProfile) -> bool {
    &&& p.id@ == Seq::<char>::empty()
    &&& p.name@ == Seq::<char>::empty()
    &&& p.relay_mode == RelayMode::Official
    &&& p.protocol == RelayProtocol::Responses
    &&& !p.official_mix_api_key
    &&& p.base_url@ == Seq::<char>::empty()
    &&& p.upstream_base_url@ == Seq::<char>::empty()
    &&& p.api_key@ == Seq::<char>::empty()
    &&& p.model_list@ == Seq::<char>::empty()
    &&& p.config_contents@ == Seq::<char>::empty()
    &&& p.auth_contents@ == Seq::<char>::empty()
    &&& !p.use_common_config
    &&& p.test_model@ == Seq::<char>::empty()
}

impl Default for RelayProfile {
    fn default() -> (r: RelayProfile)
        ensures
            is_default_profile(r),
    {
        RelayProfile {
            id: String::new(),
            name: String::new(),
            relay_mode: RelayMode::Official,
            protocol: RelayProtocol::Responses,
            official_mix_api_key: false,
            base_url: String::new(),
            upstream_base_url: String::new(),
            api_key: String::new(),
            model_list: String::new(),
            config_contents: String::new(),
            auth_contents: String::new(),
            use_common_config: false,
            test_model: String::new(),
        }
    }
}

/// Settings with no providers and empty text fields.
pub open spec fn is_default_settings(s: BackendSettings) -> bool {
    &&& s.relay_profiles@.len() == 0
    &&& s.aggregate_relay_profiles@.len() == 0
    &&& s.active_relay_id@ == Seq::<char>::empty()
    &&& s.active_aggregate_relay_id@ == Seq::<char>::empty()
    &&& s.relay_common_config_contents@ == Seq::<char>::empty()
    &&& s.relay_context_config_contents@ == Seq::<char>::empty()
    &&& s.provider_sync_saved_providers@.len() == 0
    &&& s.provider_sync_manual_providers@.len() == 0
    &&& s.provider_sync_last_selected_provider@ == Seq::<char>::empty()
    &&& !s.codex_app_image_overlay_enabled
    &&& s.codex_app_image_overlay_path@ == Seq::<char>::empty()
    &&& s.codex_app_image_overlay_opacity == 35
    &&& s.codex_app_image_overlay_fit_mode@ == "fit"@
    &&& s.relay_test_model@ == Seq::<char>::empty()
}

impl Default for BackendSettings {
    fn default() -> (r: BackendSettings)
        ensures
            is_default_settings(r),
    {
        BackendSettings {
            relay_profiles: Vec::new(),
            aggregate_relay_profiles: Vec::new(),
            active_relay_id: String::new(),
            active_aggregate_relay_id: String::new(),
            relay_common_config_contents: String::new(),
            relay_context_config_contents: String::new(),
            provider_sync_saved_providers: Vec::new(),
            provider_sync_manual_providers: Vec::new(),
            provider_sync_last_selected_provider: String::new(),
            codex_app_image_overlay_enabled: false,
            codex_app_image_overlay_path: String::new(),
            codex_app_image_overlay_opacity: 35,
            codex_app_image_overlay_fit_mode: crate::text::owned("fit"),
            relay_test_model: String::new(),
        }
    }
}

impl BackendSettings {
    /// The aggregate provider in use, if the active provider is one.
    pub fn active_aggregate_relay_profile(&self) -> (r: Option<AggregateRelayProfile>)
        ensures
            match (r, active_aggregate_spec(*self)) {
                (Some(a), Some(b)) => same_aggregate(a, b) && a.id@ == b.id@ && a.members@ == b.members@,
                (None, None) => true,
                _ => false,
            },
    {
        proof {
            lemma_profile_index(self.relay_profiles@, self.active_relay_id@);
            lemma_aggregate_index(self.aggregate_relay_profiles@, self.active_aggregate_relay_id@);
        }
        let p = match profile_position(&self.relay_profiles, self.active_relay_id.as_str()) {
            Some(p) => p,
            None => return None,
        };
        if self.relay_profiles[p].relay_mode != RelayMode::Aggregate {
            return None;
        }
        match aggregate_position(&self.aggregate_relay_profiles, self.active_aggregate_relay_id.as_str()) {
            Some(k) => Some(self.aggregate_relay_profiles[k].duplicate()),
            None => None,
        }
    }

    /// The active provider: the first one with the active id, or a default one.
    pub fn active_relay_profile(&self) -> (r: RelayProfile)
        ensures
            match find_profile(self.relay_profiles@, self.active_relay_id@) {
                Some(p) => r == p,
                None => is_default_profile(r),
            },
    {
        proof {
            lemma_profile_index(self.relay_profiles@, self.active_relay_id@);
        }
        match profile_position(&self.relay_profiles, self.active_relay_id.as_str()) {
            Some(p) => self.relay_profiles[p].duplicate(),
            None => RelayProfile::default(),
        }
    }
}

} // verus!
