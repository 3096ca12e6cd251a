use orynth::failure_memory::{
    decode_transition, encode_transition, FailureMemory, FailureMemoryError, FailureRecord,
    FailureTransition, FAILURE_MEMORY_SCHEMA_VERSION, MAX_PAYLOAD_BYTES,
};
use orynth::ids::{AgentId, FailureId, IdSource, RunId, TaskId};
use orynth::kernel::{Event, EventKind};

#[test]
fn records_are_queryable_and_replayable() {
    let mut ids = IdSource::with_prefix(5);
    let agent = AgentId::new(&mut ids);
    let record = FailureRecord::new(
        &mut ids,
        agent,
        "cargo-test-auth",
        "changed token parser",
        "test failed",
    )
    .with_evidence(vec!["tests/auth.rs:44".to_string()]);
    let id = record.id;
    let transition = FailureTransition::Recorded {
        record: record.clone(),
    };
    let payload = encode_transition(&transition).expect("failure should encode");
    let decoded = decode_transition(FAILURE_MEMORY_SCHEMA_VERSION, &payload)
        .expect("failure should decode");
    let mut memory = FailureMemory::default();
    memory.apply(&decoded).expect("failure should apply");
    assert!(memory.has_attempted("cargo-test-auth"));
    assert_eq!(memory.records().get(&id), Some(&record));
    let run_id = RunId::new(&mut ids);
    let replayed = FailureMemory::from_events(&[Event::new(
        &mut ids,
        1,
        run_id,
        EventKind::FailureMemoryTransition {
            version: FAILURE_MEMORY_SCHEMA_VERSION,
            payload,
        },
    )])
    .expect("failure should replay");
    assert_eq!(replayed, memory);
}

#[test]
fn resolution_is_durable_and_repeat_resolution_is_rejected() {
    let mut ids = IdSource::with_prefix(5);
    let agent = AgentId::new(&mut ids);
    let record = FailureRecord::new(&mut ids, agent, "migration", "approach", "reason");
    let id = record.id;
    let mut memory = FailureMemory::default();
    memory
        .apply(&FailureTransition::Recorded { record })
        .expect("record should apply");
    assert!(memory
        .apply(&FailureTransition::Resolved { failure_id: id })
        .is_ok());
    assert!(!memory.active_records().iter().any(|entry| entry.id == id));
    assert!(matches!(
        memory.apply(&FailureTransition::Resolved { failure_id: id }),
        Err(FailureMemoryError::AlreadyResolved(found)) if found == id
    ));
}

#[test]
fn malformed_or_oversized_records_fail_closed() {
    let mut ids = IdSource::with_prefix(5);
    let agent = AgentId::new(&mut ids);
    let record = FailureRecord::new(&mut ids, agent, "x", "y", "z");
    let mut payload = encode_transition(&FailureTransition::Recorded { record })
        .expect("record should encode");
    payload.push(1);
    assert!(matches!(
        decode_transition(FAILURE_MEMORY_SCHEMA_VERSION, &payload),
        Err(FailureMemoryError::InvalidEncoding(_))
    ));
    assert!(matches!(
        decode_transition(
            FAILURE_MEMORY_SCHEMA_VERSION,
            &vec![0; MAX_PAYLOAD_BYTES + 1]
        ),
        Err(FailureMemoryError::TooLarge { .. })
    ));
}

#[test]
fn unknown_failures_cannot_be_resolved() {
    let mut memory = FailureMemory::new();
    assert!(memory
        .apply(&FailureTransition::Resolved {
            failure_id: FailureId::from_u64(9)
        })
        .is_err());
    assert!(matches!(
        decode_transition(77, &[]),
        Err(FailureMemoryError::UnsupportedVersion(77))
    ));
}

#[test]
fn attempts_are_found_by_their_fingerprint() {
    let mut ids = IdSource::with_prefix(5);
    let agent = AgentId::new(&mut ids);
    let mut memory = FailureMemory::new();
    for fingerprint in ["a", "b", "a"] {
        let record = FailureRecord::new(&mut ids, agent, fingerprint, "approach", "reason")
            .with_task_id(TaskId::from_u64(4));
        memory
            .apply(&FailureTransition::Recorded { record })
            .expect("record should apply");
    }
    assert_eq!(memory.matching_fingerprint("a").len(), 2);
    assert_eq!(memory.matching_fingerprint("c").len(), 0);
    assert!(!memory.has_attempted("c"));
    assert_eq!(memory.active_records().len(), 3);
}
