use orynth::assumptions::{
    decode_transition, encode_transition, normalize, Assumption, AssumptionError, AssumptionGraph,
    AssumptionState, AssumptionTransition, ASSUMPTION_SCHEMA_VERSION,
    LEGACY_ASSUMPTION_SCHEMA_VERSION,
};
use orynth::ids::{AgentId, IdSource, RunId};
use orynth::kernel::{Event, EventKind, TrustOrigin};

fn assumption(ids: &mut IdSource, run_id: RunId, owner: AgentId, value: &str) -> Assumption {
    let claim = format!("users.id is {value}");
    Assumption::new(ids, run_id, owner, "schema.users.id", value, &claim)
}

#[test]
fn normalized_contradictions_mark_both_assumptions_and_notify_owners() {
    let mut ids = IdSource::with_prefix(5);
    let run_id = RunId::new(&mut ids);
    let first_owner = AgentId::new(&mut ids);
    let second_owner = AgentId::new(&mut ids);
    let first = assumption(&mut ids, run_id, first_owner, "UUID");
    let second = assumption(&mut ids, run_id, second_owner, " BIGINT ");
    let first_id = first.id;
    let second_id = second.id;
    let mut graph = AssumptionGraph::new();
    graph.publish(&mut ids, first).expect("first assumption");
    let publication = graph
        .publish(&mut ids, second)
        .expect("conflict should publish");

    assert_eq!(publication.conflicts.len(), 1);
    assert_eq!(
        graph.assumptions().get(&first_id).unwrap().state,
        AssumptionState::Conflicted
    );
    assert_eq!(
        graph.assumptions().get(&second_id).unwrap().state,
        AssumptionState::Conflicted
    );
    assert_eq!(
        publication.conflicts[0].affected_agents,
        vec![first_owner, second_owner]
    );
}

#[test]
fn equal_normalized_values_do_not_conflict() {
    let mut ids = IdSource::with_prefix(5);
    let run_id = RunId::new(&mut ids);
    let mut graph = AssumptionGraph::new();
    let owner = AgentId::new(&mut ids);
    let first = assumption(&mut ids, run_id, owner, "UUID");
    graph.publish(&mut ids, first).expect("first assumption");
    let owner = AgentId::new(&mut ids);
    let second = assumption(&mut ids, run_id, owner, " uuid ");
    let publication = graph
        .publish(&mut ids, second)
        .expect("same normalized value should be accepted");
    assert!(publication.conflicts.is_empty());
}

#[test]
fn transitions_round_trip_and_replay_deterministically() {
    let mut ids = IdSource::with_prefix(5);
    let run_id = RunId::new(&mut ids);
    let owner = AgentId::new(&mut ids);
    let mut graph = AssumptionGraph::new();
    let made = assumption(&mut ids, run_id, owner, "UUID");
    let publication = graph
        .publish(&mut ids, made)
        .expect("assumption should publish");
    let mut replayed = AssumptionGraph::new();
    for transition in &publication.transitions {
        let bytes = encode_transition(transition).expect("transition should encode");
        let decoded = decode_transition(ASSUMPTION_SCHEMA_VERSION, &bytes)
            .expect("transition should decode");
        replayed.apply(&decoded).expect("transition should replay");
    }
    assert_eq!(replayed, graph);
}

#[test]
fn material_input_origins_downgrade_claims_without_upgrading_trust() {
    let mut ids = IdSource::with_prefix(5);
    let run_id = RunId::new(&mut ids);
    let owner = AgentId::new(&mut ids);
    let assumption = assumption(&mut ids, run_id, owner, "UUID")
        .with_trust(TrustOrigin::TrustedProject)
        .with_input_origin(TrustOrigin::WebUntrusted);
    let mut graph = AssumptionGraph::new();
    let publication = graph
        .publish(&mut ids, assumption)
        .expect("assumption should publish");
    assert_eq!(publication.assumption.trust, TrustOrigin::WebUntrusted);

    let forged = Assumption {
        trust: TrustOrigin::Generated,
        input_origins: vec![TrustOrigin::WebUntrusted],
        ..publication.assumption.clone()
    };
    assert!(matches!(
        AssumptionGraph::new().apply(&AssumptionTransition::Created { assumption: forged }),
        Err(AssumptionError::TrustUpgrade { .. })
    ));
}

#[test]
fn legacy_assumption_payloads_decode_as_generated() {
    let mut ids = IdSource::with_prefix(5);
    let run_id = RunId::new(&mut ids);
    let owner = AgentId::new(&mut ids);
    let assumption = assumption(&mut ids, run_id, owner, "UUID");
    let mut bytes = encode_transition(&AssumptionTransition::Created { assumption })
        .expect("transition should encode");
    bytes.truncate(bytes.len() - 3);
    let decoded = decode_transition(LEGACY_ASSUMPTION_SCHEMA_VERSION, &bytes)
        .expect("legacy transition should decode");
    let AssumptionTransition::Created { assumption } = decoded else {
        panic!("expected created assumption");
    };
    assert_eq!(assumption.trust, TrustOrigin::Generated);
    assert!(assumption.input_origins.is_empty());
}

#[test]
fn malformed_versions_and_trailing_bytes_are_rejected() {
    assert!(matches!(
        decode_transition(99, &[]),
        Err(AssumptionError::UnsupportedVersion(99))
    ));
    let mut ids = IdSource::with_prefix(5);
    let run_id = RunId::new(&mut ids);
    let owner = AgentId::new(&mut ids);
    let assumption = assumption(&mut ids, run_id, owner, "UUID");
    let mut bytes = encode_transition(&AssumptionTransition::Created { assumption })
        .expect("transition should encode");
    bytes.push(1);
    assert!(matches!(
        decode_transition(ASSUMPTION_SCHEMA_VERSION, &bytes),
        Err(AssumptionError::InvalidEncoding(_))
    ));
}

#[test]
fn values_are_compared_in_lower_case_with_single_spaces() {
    assert_eq!(normalize("  Big \t INT\n"), "big int");
    assert_eq!(normalize("STRA\u{00DF}E \u{0130}"), "stra\u{00DF}e i\u{0307}");
    assert_eq!(normalize("   "), "");
}

#[test]
fn conflicting_publications_replay_from_events() {
    let mut ids = IdSource::with_prefix(5);
    let run_id = RunId::new(&mut ids);
    let mut graph = AssumptionGraph::new();
    let mut events = Vec::new();
    for value in ["UUID", "BIGINT", "TEXT"] {
        let owner = AgentId::new(&mut ids);
        let made = assumption(&mut ids, run_id, owner, value);
        let publication = graph.publish(&mut ids, made).expect("should publish");
        for transition in &publication.transitions {
            events.push(Event::new(
                &mut ids,
                1,
                run_id,
                EventKind::AssumptionTransition {
                    version: ASSUMPTION_SCHEMA_VERSION,
                    payload: encode_transition(transition).expect("should encode"),
                },
            ));
        }
    }
    let replayed = AssumptionGraph::from_events(&events).expect("should replay");
    assert_eq!(replayed, graph);
    assert_eq!(graph.assumptions().len(), 3);
}

#[test]
fn unknown_and_repeated_assumptions_are_refused() {
    let mut ids = IdSource::with_prefix(5);
    let run_id = RunId::new(&mut ids);
    let owner = AgentId::new(&mut ids);
    let made = assumption(&mut ids, run_id, owner, "UUID");
    let again = made.clone();
    let id = made.id;
    let mut graph = AssumptionGraph::new();
    graph.publish(&mut ids, made).expect("should publish");
    assert!(graph.publish(&mut ids, again).is_err());
    assert!(graph.assumptions().contains_key(&id));
    let blank = Assumption::new(&mut ids, run_id, owner, "  ", "x", "y");
    assert!(graph.publish(&mut ids, blank).is_err());
    assert_eq!(graph.assumptions().len(), 1);
}

#[test]
fn encoded_publications_replay_on_a_copy() {
    let mut ids = IdSource::with_prefix(5);
    let run_id = RunId::new(&mut ids);
    let mut graph = AssumptionGraph::new();
    for value in ["UUID", "BIGINT", "TEXT"] {
        let mut copy = graph.clone();
        let owner = AgentId::new(&mut ids);
        let made = assumption(&mut ids, run_id, owner, value);
        let publication = graph.publish(&mut ids, made).unwrap();
        for conflict in &publication.conflicts {
            assert!(copy.conflicts().get(&conflict.id).is_none());
        }
        for transition in &publication.transitions {
            let bytes = encode_transition(transition).unwrap();
            let decoded = decode_transition(ASSUMPTION_SCHEMA_VERSION, &bytes).unwrap();
            copy.apply(&decoded).unwrap();
        }
        assert_eq!(copy, graph);
    }
    assert_eq!(graph.conflicts().len(), 3);
}

#[test]
fn refused_upgrades_leave_the_graph_alone() {
    let mut ids = IdSource::with_prefix(5);
    let run_id = RunId::new(&mut ids);
    let owner = AgentId::new(&mut ids);
    let mut graph = AssumptionGraph::new();
    let made = assumption(&mut ids, run_id, owner, "UUID");
    graph.publish(&mut ids, made).unwrap();
    let before = graph.clone();
    let forged = Assumption {
        trust: TrustOrigin::Generated,
        input_origins: vec![TrustOrigin::WebUntrusted],
        ..assumption(&mut ids, run_id, owner, "TEXT")
    };
    assert!(matches!(
        graph.apply(&AssumptionTransition::Created { assumption: forged }),
        Err(AssumptionError::TrustUpgrade { .. })
    ));
    assert_eq!(graph, before);
}

#[test]
fn case_and_spacing_do_not_count() {
    assert_eq!(normalize("UUID"), "uuid");
    assert_eq!(normalize(" uuid "), "uuid");
    assert_eq!(normalize("\tBig \r\n  Int\u{b}"), "big int");
    assert_eq!(normalize("big int"), "big int");
    assert_eq!(normalize("A\u{a0}\u{2003}B\u{3000}"), "a b");
    assert_eq!(normalize("A\u{200b}B"), "a\u{200b}b");
    assert_eq!(normalize("\u{c4}RGER"), "\u{e4}rger");
    assert_eq!(normalize("   "), "");
}
