use orynth::assumptions::AssumptionGraph;
use orynth::context::ContextIdSource;
use orynth::context_graph::ContextGraph;
use orynth::demo::{
    demo_agent_count, demo_assumptions, demo_cache_kind, demo_core_events, demo_draft,
    demo_inspection, demo_manager, demo_message, demo_script, demo_specialists, DemoDeed,
    DemoWording, ToolProposal, ToolProvenance, ToolState, ToolTransition, DEMO_AUTH, DEMO_MANAGER,
    DEMO_RUN, DEMO_SEC, DEMO_TASK, DEMO_TRANSACTION,
};
use orynth::event_store::EventStore;
use orynth::ids::{AgentId, IdSource, RunId, TaskId, ToolTransactionId};
use orynth::kernel::{EventKind, ModelClass, ModelRef, TrustOrigin};
use orynth::memory_store::InMemoryEventStore;

const WORDING: DemoWording<'static> = DemoWording {
    local_model: "local-small",
    security_role: "Security specialist",
};

#[test]
fn demonstrations_have_as_many_specialists_as_asked() {
    assert_eq!(demo_specialists(4, WORDING).len(), 3);
    assert_eq!(demo_specialists(1, WORDING).len(), 3);
    let many = demo_specialists(12, WORDING);
    assert_eq!(many.len(), 11);
    assert_eq!(many[3].agent.name, "WORK-04");
    assert_eq!(many[10].agent.name, "WORK-11");
    assert_eq!(many[10].scope, vec!["workstream-11/**".to_owned()]);
    assert_eq!(many[10].agent.id.value(), 0xD3E0_010B);
    assert!(many[0].promotable);
    assert_eq!(many[2].agent.model.model, "local-small");
    assert_eq!(many[2].role, "Security specialist");
    assert_eq!(demo_specialists(64, WORDING).len(), 63);
    assert_eq!(demo_manager().name, "MANAGER");
}

#[test]
fn settings_outside_the_range_are_ignored() {
    assert_eq!(demo_agent_count(None), 4);
    assert_eq!(demo_agent_count(Some("7")), 7);
    assert_eq!(demo_agent_count(Some("65")), 4);
    assert_eq!(demo_agent_count(Some("0")), 4);
    assert_eq!(demo_agent_count(Some("x")), 4);
}

#[test]
fn the_demonstration_replays() {
    let mut ids = IdSource::with_prefix(5);
    let events = demo_core_events(&mut ids, 1);
    let mut store = InMemoryEventStore::new();
    store.append_batch(&events).unwrap();
    let state = store.reconstruct(RunId::from_u64(DEMO_RUN)).unwrap();
    assert_eq!(state.agents.len(), 1);
    assert_eq!(state.tasks.len(), 1);

    let mut graph = ContextGraph::new();
    let publication = graph
        .publish(&mut ContextIdSource::new(), demo_draft())
        .unwrap();
    assert_eq!(publication.block.namespace, "auth.schema");

    let (first, second) = demo_assumptions(&mut ids);
    let mut assumptions = AssumptionGraph::new();
    assumptions.publish(&mut ids, first).unwrap();
    let conflicting = assumptions.publish(&mut ids, second).unwrap();
    assert_eq!(conflicting.conflicts.len(), 1);

    let message = demo_message(&mut ids);
    assert_eq!(message.recipient.value(), DEMO_AUTH);
    assert!(message.encode().is_ok());
    assert!(matches!(
        demo_cache_kind(),
        EventKind::CacheObserved { cached_input_tokens: 512, .. }
    ));
}

#[test]
fn demonstrations_follow_a_script() {
    let script = demo_script(4, WORDING);
    assert_eq!(script.len(), 2 + 2 * 3 + 7 + 8);
    assert_eq!(script[0].deed, DemoDeed::AppendCoreEvents);
    assert_eq!(
        script[1].deed,
        DemoDeed::ConfigureBudget {
            agent_id: AgentId::from_u64(DEMO_MANAGER),
            max_tokens: 50_000,
            max_child_agents: Some(4),
            max_context_tokens: 16_384,
        }
    );
    let specialists = demo_specialists(4, WORDING);
    for (index, specialist) in specialists.iter().enumerate() {
        assert_eq!(
            script[2 + 2 * index].deed,
            DemoDeed::SpawnSpecialist {
                parent: AgentId::from_u64(DEMO_MANAGER),
                specialist: specialist.clone(),
                subscriptions: vec!["assumption.*".to_owned(), "tool.*".to_owned()],
            }
        );
        assert_eq!(script[3 + 2 * index].label, "specialist budget");
    }
    assert_eq!(
        script[10].deed,
        DemoDeed::SelectModel {
            agent_id: AgentId::from_u64(DEMO_SEC),
            model: ModelRef::new("mock", "local-small", ModelClass::Local),
        }
    );
    assert_eq!(
        script.last().unwrap().deed,
        DemoDeed::PauseAgent { agent_id: AgentId::from_u64(DEMO_SEC) }
    );
    assert_eq!(
        script.last().unwrap().complaint("no such agent"),
        "demo pause failed: no such agent"
    );
    assert_eq!(demo_script(64, WORDING).len(), 2 + 2 * 63 + 15);
}

#[test]
fn the_inspection_is_proposed_and_verified() {
    let (proposed, confirmed) = demo_inspection();
    let transaction_id = ToolTransactionId::from_u64(DEMO_TRANSACTION);
    assert_eq!(
        proposed,
        ToolTransition::Proposed {
            transaction_id,
            proposal: ToolProposal {
                run_id: RunId::from_u64(DEMO_RUN),
                task_id: Some(TaskId::from_u64(DEMO_TASK)),
                agent_id: AgentId::from_u64(DEMO_AUTH),
                tool_name: "filesystem.inspect".to_owned(),
                input: vec![("path".to_owned(), "src/auth/schema.rs".to_owned())],
                provenance: ToolProvenance::Agent,
                input_origins: vec![TrustOrigin::Generated],
            },
            state: ToolState::AwaitingApproval,
        }
    );
    assert_eq!(
        confirmed,
        ToolTransition::StateChanged {
            transaction_id,
            state: ToolState::Verified,
            detail: Some("read-only schema inspection verified".to_owned()),
        }
    );
    let script = demo_script(4, WORDING);
    let deed = |label: &str| {
        let step = script.iter().find(|step| step.label == label);
        step.map(|step| step.deed.clone())
    };
    assert_eq!(deed("tool proposal"), Some(DemoDeed::RecordTool { transition: proposed }));
    assert_eq!(deed("tool verification"), Some(DemoDeed::RecordTool { transition: confirmed }));
}
