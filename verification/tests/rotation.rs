use codex_plus_core::relay_rotation::{
    fallback_relays_after, profile_supports_model, record_relay_request_event, record_relay_request_result,
    select_relay_for_probe, select_relay_for_request, RelayRotationSelector, RotationContext, RotationEvent,
    SelectionError,
};
use codex_plus_core::settings::{
    AggregateRelayMember, AggregateRelayProfile, AggregateRelayStrategy, BackendSettings, RelayMode, RelayProfile,
};

fn relay(id: &str, models: &str) -> RelayProfile {
    RelayProfile {
        id: id.to_string(),
        name: id.to_uppercase(),
        relay_mode: RelayMode::PureApi,
        base_url: format!("https://{id}.example/v1"),
        api_key: format!("sk-{id}"),
        model_list: models.to_string(),
        ..RelayProfile::default()
    }
}

fn pool(strategy: AggregateRelayStrategy, members: &[(&str, u32)], profiles: Vec<RelayProfile>) -> BackendSettings {
    let mut relay_profiles = profiles;
    relay_profiles.push(RelayProfile {
        id: "pool".to_string(),
        name: "Pool".to_string(),
        relay_mode: RelayMode::Aggregate,
        ..RelayProfile::default()
    });
    BackendSettings {
        relay_profiles,
        aggregate_relay_profiles: vec![AggregateRelayProfile {
            id: "agg".to_string(),
            name: "Agg".to_string(),
            strategy,
            members: members
                .iter()
                .map(|(id, weight)| AggregateRelayMember { relay_id: id.to_string(), weight: *weight })
                .collect(),
        }],
        active_relay_id: "pool".to_string(),
        active_aggregate_relay_id: "agg".to_string(),
        ..BackendSettings::default()
    }
}

fn model(m: &str) -> RotationContext {
    RotationContext { conversation_id: None, model: Some(m.to_string()) }
}

#[test]
fn failover_stays_on_the_first_member_until_it_fails() {
    let settings = pool(AggregateRelayStrategy::Failover, &[("a", 1), ("b", 1)], vec![relay("a", ""), relay("b", "")]);
    let mut sel = RelayRotationSelector::from_settings(&settings).unwrap();
    assert_eq!(sel.select_at(&settings, RotationContext::default(), 0).unwrap().id, "a");
    assert_eq!(sel.select_at(&settings, RotationContext::default(), 1).unwrap().id, "a");
    sel.record_result_at(Some("a"), None, RotationEvent::Failure, 2);
    assert_eq!(sel.select_at(&settings, RotationContext::default(), 3).unwrap().id, "b");
    sel.record_result_at(Some("a"), None, RotationEvent::Success, 4);
    assert_eq!(sel.peek(&settings).unwrap().id, "b");
}

#[test]
fn request_round_robin_takes_turns() {
    let settings =
        pool(AggregateRelayStrategy::RequestRoundRobin, &[("a", 1), ("b", 1), ("c", 1)], vec![relay("a", ""), relay("b", ""), relay("c", "")]);
    let mut sel = RelayRotationSelector::from_settings(&settings).unwrap();
    let picks: Vec<String> =
        (0..4).map(|t| sel.select_at(&settings, RotationContext::default(), t).unwrap().id).collect();
    assert_eq!(picks, vec!["a", "b", "c", "a"]);
}

#[test]
fn weighted_round_robin_follows_the_weights() {
    let settings =
        pool(AggregateRelayStrategy::WeightedRoundRobin, &[("a", 2), ("b", 1)], vec![relay("a", ""), relay("b", "")]);
    let mut sel = RelayRotationSelector::from_settings(&settings).unwrap();
    let picks: Vec<String> =
        (0..6).map(|t| sel.select_at(&settings, RotationContext::default(), t).unwrap().id).collect();
    assert_eq!(picks.iter().filter(|id| *id == "a").count(), 4);
    assert_eq!(picks.iter().filter(|id| *id == "b").count(), 2);
}

#[test]
fn a_conversation_keeps_its_provider() {
    let settings = pool(
        AggregateRelayStrategy::ConversationRoundRobin,
        &[("a", 1), ("b", 1)],
        vec![relay("a", ""), relay("b", "")],
    );
    let mut sel = RelayRotationSelector::from_settings(&settings).unwrap();
    let first = sel.select_at(&settings, RotationContext::for_conversation("c1"), 0).unwrap().id;
    sel.record_result_at(Some(&first), Some("c1"), RotationEvent::Success, 1);
    let other = sel.select_at(&settings, RotationContext::for_conversation("c2"), 2).unwrap().id;
    assert_ne!(first, other);
    for t in 3..6 {
        assert_eq!(sel.select_at(&settings, RotationContext::for_conversation("c1"), t).unwrap().id, first);
    }
}

#[test]
fn a_failed_provider_rests_while_another_is_healthy() {
    let settings =
        pool(AggregateRelayStrategy::RequestRoundRobin, &[("a", 1), ("b", 1)], vec![relay("a", ""), relay("b", "")]);
    let mut sel = RelayRotationSelector::from_settings(&settings).unwrap();
    sel.record_result_at(Some("a"), None, RotationEvent::Failure, 0);
    for t in 1..5 {
        assert_eq!(sel.select_at(&settings, RotationContext::default(), t).unwrap().id, "b");
    }
    sel.record_result_at(Some("a"), None, RotationEvent::Success, 6);
    let picks: Vec<String> =
        (7..9).map(|t| sel.select_at(&settings, RotationContext::default(), t).unwrap().id).collect();
    assert!(picks.contains(&"a".to_string()));
}

#[test]
fn selection_respects_the_model_lists() {
    let settings = pool(
        AggregateRelayStrategy::RequestRoundRobin,
        &[("a", 1), ("b", 1)],
        vec![relay("a", "gpt-4o"), relay("b", "gpt-5, o3")],
    );
    let mut sel = RelayRotationSelector::from_settings(&settings).unwrap();
    for t in 0..3 {
        assert_eq!(sel.select_at(&settings, model("o3"), t).unwrap().id, "b");
    }
    let error = sel.select_at(&settings, model("llama"), 9).unwrap_err();
    assert!(matches!(error, SelectionError::NoCompatibleModel { .. }));
    assert!(profile_supports_model(&relay("x", ""), Some("anything")));
    assert!(!profile_supports_model(&relay("x", "gpt-4o"), Some("gpt-5")));
}

#[test]
fn fallback_lists_the_members_after_the_failed_one() {
    let settings = pool(
        AggregateRelayStrategy::Failover,
        &[("a", 1), ("b", 1), ("c", 1)],
        vec![relay("a", ""), relay("b", ""), relay("c", "")],
    );
    let ids: Vec<String> = fallback_relays_after(&settings, "b").unwrap().into_iter().map(|p| p.id).collect();
    assert_eq!(ids, vec!["c", "a"]);
    let direct = BackendSettings { active_relay_id: "a".to_string(), ..settings };
    assert!(fallback_relays_after(&direct, "a").unwrap().is_empty());
}

#[test]
fn invalid_pools_are_refused() {
    let settings = pool(AggregateRelayStrategy::Failover, &[("missing", 1)], vec![relay("a", "")]);
    assert!(matches!(
        RelayRotationSelector::from_settings(&settings),
        Err(SelectionError::UnknownMemberRelay { .. })
    ));
    let empty = pool(AggregateRelayStrategy::Failover, &[], vec![relay("a", "")]);
    assert!(matches!(
        RelayRotationSelector::from_settings(&empty),
        Err(SelectionError::EmptyAggregateMembers { .. })
    ));
    let direct = BackendSettings { relay_profiles: vec![relay("a", "")], active_relay_id: "a".to_string(), ..BackendSettings::default() };
    assert!(matches!(RelayRotationSelector::from_settings(&direct), Err(SelectionError::NoActiveAggregate)));
}

#[test]
fn the_shared_slot_follows_the_settings() {
    let settings =
        pool(AggregateRelayStrategy::RequestRoundRobin, &[("a", 1), ("b", 1)], vec![relay("a", ""), relay("b", "")]);
    let mut slot: Option<RelayRotationSelector> = None;
    let first = select_relay_for_request(&mut slot, &settings, RotationContext::default()).unwrap().id;
    assert!(slot.is_some());
    let second = select_relay_for_request(&mut slot, &settings, RotationContext::default()).unwrap().id;
    assert_ne!(first, second);
    record_relay_request_result(&mut slot, &settings, Some("a"), &RotationContext::default(), RotationEvent::Failure);
    record_relay_request_event(&mut slot, &settings, RotationEvent::Success);
    assert!(select_relay_for_probe(&mut slot, &settings).is_ok());

    let direct = BackendSettings { active_relay_id: "a".to_string(), ..settings };
    assert_eq!(select_relay_for_request(&mut slot, &direct, RotationContext::default()).unwrap().id, "a");
    assert!(slot.is_none());
}

#[test]
fn peek_names_the_next_selection_and_probes_leave_the_rotation_alone() {
    for strategy in [
        AggregateRelayStrategy::Failover,
        AggregateRelayStrategy::RequestRoundRobin,
        AggregateRelayStrategy::ConversationRoundRobin,
        AggregateRelayStrategy::WeightedRoundRobin,
    ] {
        let settings = pool(strategy, &[("a", 2), ("b", 1), ("c", 1)], vec![relay("a", ""), relay("b", ""), relay("c", "")]);
        let mut sel = RelayRotationSelector::from_settings(&settings).unwrap();
        for t in 0..5 {
            let peeked = sel.peek(&settings).unwrap().id;
            assert_eq!(sel.peek(&settings).unwrap().id, peeked);
            assert_eq!(sel.select_at(&settings, RotationContext::default(), t).unwrap().id, peeked);
        }
    }

    let settings =
        pool(AggregateRelayStrategy::RequestRoundRobin, &[("a", 1), ("b", 1)], vec![relay("a", ""), relay("b", "")]);
    let mut probed: Option<RelayRotationSelector> = None;
    let mut plain: Option<RelayRotationSelector> = None;
    let first = select_relay_for_probe(&mut probed, &settings).unwrap().id;
    assert_eq!(select_relay_for_probe(&mut probed, &settings).unwrap().id, first);
    for _ in 0..3 {
        let with_probe = select_relay_for_request(&mut probed, &settings, RotationContext::default()).unwrap().id;
        let without = select_relay_for_request(&mut plain, &settings, RotationContext::default()).unwrap().id;
        assert_eq!(with_probe, without);
        let _ = select_relay_for_probe(&mut probed, &settings);
    }
}

#[test]
fn a_cooldown_runs_out_after_thirty_seconds() {
    let settings =
        pool(AggregateRelayStrategy::RequestRoundRobin, &[("a", 1), ("b", 1)], vec![relay("a", ""), relay("b", "")]);
    let mut sel = RelayRotationSelector::from_settings(&settings).unwrap();
    sel.record_result_at(Some("a"), None, RotationEvent::Failure, 1_000);
    assert_eq!(sel.select_at(&settings, RotationContext::default(), 30_999).unwrap().id, "b");
    assert_eq!(sel.select_at(&settings, RotationContext::default(), 30_999).unwrap().id, "b");
    assert_eq!(sel.select_at(&settings, RotationContext::default(), 31_000).unwrap().id, "a");
}

#[test]
fn successive_selections_on_the_selector_clock_follow_the_strategies() {
    let settings =
        pool(AggregateRelayStrategy::RequestRoundRobin, &[("a", 1), ("b", 1), ("c", 1)], vec![relay("a", ""), relay("b", ""), relay("c", "")]);
    let mut sel = RelayRotationSelector::from_settings(&settings).unwrap();
    sel.record_event(RotationEvent::Failure);
    let mut picks = Vec::new();
    for _ in 0..6 {
        let peeked = sel.peek(&settings).unwrap().id;
        let picked = sel.select(&settings, RotationContext::default()).unwrap().id;
        assert_eq!(peeked, picked);
        picks.push(picked);
    }
    assert_eq!(picks, vec!["a", "b", "c", "a", "b", "c"]);

    let settings = pool(AggregateRelayStrategy::Failover, &[("a", 1), ("b", 1)], vec![relay("a", ""), relay("b", "")]);
    let mut sel = RelayRotationSelector::from_settings(&settings).unwrap();
    assert_eq!(sel.select(&settings, RotationContext::default()).unwrap().id, "a");
    assert_eq!(sel.select(&settings, RotationContext::default()).unwrap().id, "a");
    sel.record_result(Some("a"), None, RotationEvent::Failure);
    assert_eq!(sel.select(&settings, RotationContext::default()).unwrap().id, "b");
}
