use orynth::ids::{
    choose_prefix, fallback_seed, AgentId, AssumptionId, BranchId, ConflictId, EventId, FailureId,
    IdSource, MessageId, PluginId, RunId, TaskId, ToolTransactionId,
};
use orynth::kernel::{
    AgentIdentity, CancellationToken, Event, EventKind, EventTrace, ModelClass, ModelRef, Run,
    Task, TrustOrigin, Usage,
};

#[test]
fn trust_combination_never_upgrades_an_untrusted_input() {
    assert_eq!(
        TrustOrigin::TrustedProject.combine(TrustOrigin::WebUntrusted),
        TrustOrigin::WebUntrusted
    );
    assert_eq!(
        TrustOrigin::Generated.combine(TrustOrigin::McpResult),
        TrustOrigin::McpResult
    );
    assert!(TrustOrigin::Runtime.is_trusted());
    assert!(!TrustOrigin::RemoteAgent.is_trusted());
}

#[test]
fn ids_are_distinct_and_displayable() {
    let mut ids = IdSource::from_system(17);
    let first = AgentId::new(&mut ids);
    let second = AgentId::new(&mut ids);

    assert_ne!(first, second);
    assert!(first.to_text().starts_with("agent-"));
}

#[test]
fn durable_identity_families_use_process_unique_values() {
    let mut ids = IdSource::from_system(17);
    let values = [
        RunId::new(&mut ids).value(),
        TaskId::new(&mut ids).value(),
        AgentId::new(&mut ids).value(),
        EventId::new(&mut ids).value(),
        BranchId::new(&mut ids).value(),
        MessageId::new(&mut ids).value(),
        AssumptionId::new(&mut ids).value(),
        ConflictId::new(&mut ids).value(),
        FailureId::new(&mut ids).value(),
        ToolTransactionId::new(&mut ids).value(),
        PluginId::new(&mut ids).value(),
    ];
    let unique = values
        .iter()
        .copied()
        .collect::<std::collections::BTreeSet<_>>();
    assert_eq!(unique.len(), values.len());
    assert!(values.iter().all(|value| *value != 0));
}

#[test]
fn cancellation_is_shared_by_clones() {
    let token = CancellationToken::new();
    let clone = token.clone();

    clone.cancel();

    assert!(token.is_cancelled());
}

#[test]
fn a_fresh_token_is_not_cancelled() {
    assert!(!CancellationToken::new().is_cancelled());
    assert!(!CancellationToken::default().is_cancelled());
}

#[test]
fn usage_addition_is_explicit() {
    let total = Usage::new(2, 3).saturating_add(Usage::new(4, 5));

    assert_eq!(total, Usage::new(6, 8));
}

#[test]
fn usage_addition_stops_at_the_largest_number() {
    let total = Usage::new(u64::MAX, 3).saturating_add(Usage::new(4, 5));
    assert_eq!(total, Usage::new(u64::MAX, 8));
    assert_eq!(Usage::new(2, 3).total_tokens(), 5);
}

#[test]
fn cache_usage_metadata_is_optional_and_preserved_when_explicit() {
    let usage = Usage::new(10, 3).with_cached_input_tokens(7);
    assert_eq!(usage.cached_input_tokens, Some(7));
    assert_eq!(
        usage.saturating_add(Usage::new(2, 1).with_cached_input_tokens(1)),
        Usage::new(12, 4).with_cached_input_tokens(8)
    );
    assert_eq!(
        usage.saturating_add(Usage::new(2, 1)).cached_input_tokens,
        None
    );
}

#[test]
fn identities_hold_a_prefix_and_a_counter() {
    let mut ids = IdSource::with_prefix(7);
    assert_eq!(RunId::new(&mut ids).value(), (7u64 << 32) | 1);
    assert_eq!(RunId::new(&mut ids).value(), (7u64 << 32) | 2);
    assert_eq!(ids.remaining(), u32::MAX - 3);
    assert_eq!(RunId::from_u64(0x13).to_text(), "run-0000000000000013");
    assert_eq!(BranchId::from_u64(0xabc).to_text(), "branch-0000000000000abc");
}

#[test]
fn a_zero_prefix_is_never_used() {
    assert_eq!(choose_prefix(Some([0, 0, 0, 0]), 9), 1);
    assert_eq!(choose_prefix(Some([1, 2, 0, 0]), 9), 0x0201);
    assert_eq!(choose_prefix(None, 9), 9);
    assert_eq!(choose_prefix(None, 0), 1);
    assert_eq!(fallback_seed(5, 0, 3), 6);
}

#[test]
fn two_sources_from_the_system_differ() {
    let prefixes: std::collections::BTreeSet<u64> = (0..8)
        .map(|_| RunId::new(&mut IdSource::from_system(17)).value() >> 32)
        .collect();
    assert!(prefixes.len() > 1);
    assert!(!prefixes.contains(&0));
}

#[test]
fn events_carry_what_they_were_made_with() {
    let mut ids = IdSource::with_prefix(3);
    let run = Run::new(&mut ids);
    let task = Task::new(&mut ids, run.id, "title");
    let model = ModelRef::new("mock", "m", ModelClass::Custom("tiny".to_owned()));
    let agent = AgentIdentity::new(&mut ids, "a", "b", model.clone());
    assert_eq!(task.run_id, run.id);
    assert_eq!(agent.model, model);
    let event = Event::new(&mut ids, 42, run.id, EventKind::AgentCreated { agent });
    assert_eq!(event.occurred_at_ms, 42);
    let mut trace = EventTrace::new();
    assert!(trace.is_empty());
    trace.record(event);
    assert_eq!(trace.len(), 1);
    assert_eq!(trace.events()[0].run_id, run.id);
}
