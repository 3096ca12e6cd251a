use orynth::agent::{
    AgentSession, FinishReason, ProviderError, ProviderEvent, ProviderLimits, ProviderStream,
    StreamItem, StreamStep,
};
use orynth::artifact::{
    ArtifactError, ArtifactStore, InMemoryArtifactStore, MAX_ARTIFACT_BYTES,
};
use orynth::assumptions::{
    decode_transition, encode_transition, Assumption, AssumptionTransition,
    ASSUMPTION_SCHEMA_VERSION, LEGACY_ASSUMPTION_SCHEMA_VERSION,
};
use orynth::event_store::{BranchStore, EventStore, ReplayMode, SnapshotStore};
use orynth::fork::{persist_fork_continuation, ForkStore};
use orynth::ids::{AgentId, IdSource, RunId, TaskId};
use orynth::ipc::{IpcEnvelope, IpcMessage, IPC_SCHEMA_VERSION, LEGACY_IPC_SCHEMA_VERSION};
use orynth::kernel::{
    AgentIdentity, Event, EventKind, EventTrace, ModelClass, ModelRef, Task, TrustOrigin, Usage,
};
use orynth::memory_store::InMemoryEventStore;
use orynth::remap::{remap_event_for_run, VersionedPayload};
use orynth::snapshot_codec::{decode_snapshot_state, encode_snapshot_state};
use orynth::state::{AgentStatus, RunStatus, StoreError};
use orynth::table::Table;

const LEGACY_TOOL_SCHEMA_VERSION: u16 = 1;
const TOOL_SCHEMA_VERSION: u16 = 2;
const LIMITS: ProviderLimits = ProviderLimits {
    max_output_chunks: 64,
    max_payload_bytes: 1024,
    max_tool_calls: 2,
};

/// A provider that answers in words and reports one token for each.
fn mock_stream(prompt: &str, response: &str, chunk_size: usize) -> ProviderStream {
    let letters: Vec<char> = response.chars().collect();
    let mut events: Vec<ProviderEvent> = letters
        .chunks(chunk_size)
        .map(|chunk| ProviderEvent::TextDelta {
            text: chunk.iter().collect(),
        })
        .collect();
    let count = |text: &str| text.split_whitespace().count() as u64;
    events.push(ProviderEvent::Usage(Usage::new(count(prompt), count(response))));
    events.push(ProviderEvent::Finish(FinishReason::Completed));
    ProviderStream::Items {
        steps: events
            .into_iter()
            .map(|event| StreamStep {
                at_ms: 2,
                cancelled: false,
                item: StreamItem::Event(event),
            })
            .collect(),
        cancelled: false,
        ended_at_ms: 3,
    }
}

fn successful_trace(ids: &mut IdSource) -> EventTrace {
    let model = ModelRef::new("mock", "runtime-core", ModelClass::Cheap);
    let identity = AgentIdentity::new(ids, "runtime-agent", "exercise event storage", model);
    let prompt = "persist this run";
    AgentSession::new(identity, ())
        .run(ids, 1, LIMITS, prompt, mock_stream(prompt, "stored response", 3))
        .expect("mock run should succeed")
        .trace
}

fn remap(ids: &mut IdSource, parent_run: RunId, kind: EventKind, child_run: RunId) -> Event {
    let event = Event::new(ids, 1, parent_run, kind);
    remap_event_for_run(ids, &event, child_run, None)
}

#[test]
fn reconstructs_a_successful_run_from_immutable_events() {
    let mut ids = IdSource::with_prefix(6);
    let trace = successful_trace(&mut ids);
    let run_id = match &trace.events()[0].kind {
        EventKind::RunCreated { run_id } => *run_id,
        _ => panic!("trace must begin with run.created"),
    };
    let mut store = InMemoryEventStore::new();

    let sequences = store.append_trace(&trace).expect("trace should append");
    let state = store.reconstruct(run_id).expect("state should reconstruct");

    assert_eq!(sequences.first(), Some(&1));
    assert_eq!(sequences.len(), trace.len());
    assert_eq!(state.status, RunStatus::Completed);
    assert_eq!(state.tasks.len(), 1);
    assert_eq!(state.agents.len(), 1);
    assert_eq!(state.events_applied as usize, trace.len());

    let agent = state.agents.value_at(0);
    assert_eq!(agent.status, AgentStatus::Completed);
    assert_eq!(agent.chunks_received, 5);
    assert_eq!(agent.usage.total_tokens(), 5);
}

#[test]
fn recorded_replay_only_reconstructs_captured_events() {
    let mut ids = IdSource::with_prefix(6);
    let trace = successful_trace(&mut ids);
    let run_id = match &trace.events()[0].kind {
        EventKind::RunCreated { run_id } => *run_id,
        _ => panic!("trace must begin with run.created"),
    };
    let mut store = InMemoryEventStore::new();
    store.append_trace(&trace).expect("trace should append");

    let replay = store
        .recorded_replay(run_id)
        .expect("replay should succeed");

    assert_eq!(replay.events().len(), trace.len());
    assert_eq!(replay.state().status, RunStatus::Completed);
}

#[test]
fn duplicate_event_ids_are_rejected() {
    let mut ids = IdSource::with_prefix(6);
    let trace = successful_trace(&mut ids);
    let event = trace.events()[0].clone();
    let mut store = InMemoryEventStore::new();

    store.append(event.clone()).expect("first append");
    assert_eq!(
        store.append(event),
        Err(StoreError::DuplicateEvent(trace.events()[0].id))
    );
}

#[test]
fn terminal_agent_state_rejects_later_model_requests() {
    let mut ids = IdSource::with_prefix(6);
    let run_id = RunId::new(&mut ids);
    let model = ModelRef::new("mock", "cheap", ModelClass::Cheap);
    let agent = AgentIdentity::new(&mut ids, "worker", "cancelable", model.clone());
    let mut store = InMemoryEventStore::new();
    store
        .append(Event::new(&mut ids, 1, run_id, EventKind::RunCreated { run_id }))
        .expect("run should append");
    store
        .append(Event::new(&mut ids, 1, run_id,
            EventKind::AgentCreated {
                agent: agent.clone(),
            },
        ))
        .expect("agent should append");
    store
        .append(Event::new(&mut ids, 1, run_id,
            EventKind::ModelCancelled { agent_id: agent.id },
        ))
        .expect("cancellation should append");
    store
        .append(Event::new(&mut ids, 1, run_id,
            EventKind::ModelRequested {
                agent_id: agent.id,
                model,
            },
        ))
        .expect("event append remains opaque");
    assert!(matches!(
        store.reconstruct(run_id),
        Err(StoreError::InvalidTransition(_))
    ));
}

#[test]
fn in_memory_batch_append_is_atomic_on_duplicate_ids() {
    let mut ids = IdSource::with_prefix(6);
    let trace = successful_trace(&mut ids);
    let event = trace.events()[0].clone();
    let mut store = InMemoryEventStore::new();

    assert_eq!(
        store.append_batch(&[event.clone(), event.clone()]),
        Err(StoreError::DuplicateEvent(event.id))
    );
    assert!(store.all_events().is_empty());
}

#[test]
fn unknown_runs_cannot_be_reconstructed() {
    let store = InMemoryEventStore::new();

    assert_eq!(
        store.reconstruct(RunId::from_u64(999)),
        Err(StoreError::UnknownRun(RunId::from_u64(999)))
    );
}

#[test]
fn reconstruction_rejects_events_before_run_creation() {
    let mut ids = IdSource::with_prefix(6);
    let run_id = RunId::new(&mut ids);
    let mut store = InMemoryEventStore::new();
    let task_id = TaskId::new(&mut ids);
    let event = Event::new(&mut ids, 1, run_id,
        EventKind::TaskCreated {
            task_id: task_id,
            run_id,
            title: "invalid ordering".to_string(),
        },
    );
    store.append(event).expect("event should be stored");

    assert!(matches!(
        store.reconstruct(run_id),
        Err(StoreError::InvalidTransition(message))
            if message == "run.created must be the first event"
    ));
}

#[test]
fn snapshots_pin_the_last_sequence_and_state() {
    let mut ids = IdSource::with_prefix(6);
    let trace = successful_trace(&mut ids);
    let run_id = match &trace.events()[0].kind {
        EventKind::RunCreated { run_id } => *run_id,
        _ => panic!("trace must begin with run.created"),
    };
    let mut store = InMemoryEventStore::new();
    store.append_trace(&trace).expect("trace should append");

    let snapshot = store.snapshot(run_id).expect("snapshot should exist");

    assert_eq!(snapshot.run_id, run_id);
    assert_eq!(snapshot.at_sequence as usize, trace.len());
    assert_eq!(snapshot.state.status, RunStatus::Completed);
    store
        .save_snapshot(&snapshot)
        .expect("snapshot should be stored");
    assert_eq!(
        store
            .load_snapshot(run_id, Some(snapshot.at_sequence))
            .expect("snapshot should load"),
        Some(snapshot.clone())
    );
    assert!(
        store
            .events_since(run_id, snapshot.at_sequence)
            .expect("incremental read should succeed")
            .is_empty()
    );
}

#[test]
fn snapshots_preserve_logical_identity_and_effective_model_after_switches() {
    let mut ids = IdSource::with_prefix(6);
    let run_id = RunId::new(&mut ids);
    let agent_id = AgentId::new(&mut ids);
    let original = ModelRef::new("provider-a", "cheap", ModelClass::Cheap);
    let promoted = ModelRef::new("provider-b", "strong", ModelClass::Strong);
    let demoted = ModelRef::new("provider-c", "local", ModelClass::Local);
    let events = [
        Event::new(&mut ids, 1, run_id, EventKind::RunCreated { run_id }),
        Event::new(&mut ids, 1, run_id,
            EventKind::AgentCreated {
                agent: AgentIdentity {
                    id: agent_id,
                    name: "switchable".to_owned(),
                    mission: "snapshot identity".to_owned(),
                    model: original.clone(),
                },
            },
        ),
        Event::new(&mut ids, 1, run_id,
            EventKind::ModelRequested {
                agent_id,
                model: promoted,
            },
        ),
        Event::new(&mut ids, 1, run_id,
            EventKind::ModelRequested {
                agent_id,
                model: demoted.clone(),
            },
        ),
    ];
    let mut store = InMemoryEventStore::new();
    store
        .append_batch(&events)
        .expect("switch events should append");
    let snapshot = store.snapshot(run_id).expect("snapshot should exist");
    let encoded =
        encode_snapshot_state(&snapshot.state).expect("snapshot should encode");
    let decoded = decode_snapshot_state(&encoded).expect("snapshot should decode");
    let agent = decoded.agents.get(&agent_id).expect("agent should recover");
    assert_eq!(agent.identity.id, agent_id);
    assert_eq!(agent.identity.model, original);
    assert_eq!(agent.model, demoted);
    store
        .save_snapshot(&snapshot)
        .expect("snapshot should save");
    assert_eq!(
        store.load_snapshot(run_id, None).unwrap().unwrap().state,
        decoded
    );
}

#[test]
fn branches_pin_a_parent_run_sequence_and_mode() {
    let mut ids = IdSource::with_prefix(6);
    let trace = successful_trace(&mut ids);
    let run_id = match &trace.events()[0].kind {
        EventKind::RunCreated { run_id } => *run_id,
        _ => panic!("trace must begin with run.created"),
    };
    let mut store = InMemoryEventStore::new();
    store.append_trace(&trace).expect("trace should append");

    let branch = store
        .create_branch(&mut ids, run_id, 2, ReplayMode::ForkLive, 1234)
        .expect("branch should be created");

    assert_eq!(branch.parent_run_id, run_id);
    assert_eq!(branch.fork_sequence, 2);
    assert_eq!(branch.replay_mode, ReplayMode::ForkLive);
    assert_eq!(
        store.branch(branch.branch_id).expect("branch lookup"),
        Some(branch)
    );
    assert_eq!(
        store
            .branches_for_run(run_id)
            .expect("branch listing")
            .len(),
        1
    );
    assert!(matches!(
        store.create_branch(&mut ids, run_id, 0, ReplayMode::Recorded, 1235),
        Err(StoreError::InvalidTransition(_))
    ));
}

#[test]
fn fork_materialization_creates_an_isolated_child_prefix() {
    let mut ids = IdSource::with_prefix(6);
    let trace = successful_trace(&mut ids);
    let parent_run_id = match &trace.events()[0].kind {
        EventKind::RunCreated { run_id } => *run_id,
        _ => panic!("trace must begin with run.created"),
    };
    let mut store = InMemoryEventStore::new();
    store.append_trace(&trace).expect("trace should append");
    let branch = store
        .create_branch(&mut ids, parent_run_id, 2, ReplayMode::ForkLive, 2222)
        .expect("branch should be created");
    let child_run_id = RunId::new(&mut ids);

    let fork = store
        .materialize_fork(&mut ids, branch.branch_id, child_run_id, &Table::new())
        .expect("fork should materialize");
    let child = store
        .reconstruct(child_run_id)
        .expect("child state should reconstruct");

    assert_eq!(fork.child_run_id, child_run_id);
    assert_eq!(fork.copied_event_count, 2);
    assert_eq!(fork.child_sequences.len(), 2);
    assert_eq!(child.run_id, child_run_id);
    assert_eq!(child.status, RunStatus::Active);
    assert_eq!(child.tasks.len(), 1);
    assert_eq!(
        store.events(parent_run_id).expect("parent events").len(),
        trace.len()
    );
    assert!(matches!(
        store.materialize_fork(&mut ids, branch.branch_id, child_run_id, &Table::new()),
        Err(StoreError::InvalidTransition(_))
    ));
}

#[test]
fn materialized_fork_remaps_typed_ipc_scope() {
    let mut ids = IdSource::with_prefix(6);
    let parent_run_id = RunId::new(&mut ids);
    let sender = AgentId::new(&mut ids);
    let recipient = AgentId::new(&mut ids);
    let envelope = IpcEnvelope::new(&mut ids, parent_run_id,
        None,
        sender,
        recipient,
        IpcMessage::Question {
            subject: "schema.users.id".to_owned(),
            why: "the child needs the same narrow contract question".to_owned(),
        },
    );
    let mut trace = EventTrace::default();
    trace.record(Event::new(&mut ids, 1, parent_run_id,
        EventKind::RunCreated {
            run_id: parent_run_id,
        },
    ));
    trace.record(Event::new(&mut ids, 1, parent_run_id,
        EventKind::AgentMessage {
            version: IPC_SCHEMA_VERSION,
            payload: envelope.encode().expect("message should encode"),
        },
    ));

    let mut store = InMemoryEventStore::new();
    store
        .append_trace(&trace)
        .expect("parent trace should append");
    let branch = store
        .create_branch(&mut ids, parent_run_id, 2, ReplayMode::ForkLive, 4444)
        .expect("branch should be created");
    let child_run_id = RunId::new(&mut ids);
    let fork = store
        .materialize_fork(&mut ids, branch.branch_id, child_run_id, &Table::new())
        .expect("fork should materialize");
    let child_envelope = match &fork.child_prefix.events()[1].kind {
        EventKind::AgentMessage { version, payload } => {
            IpcEnvelope::decode(*version, payload).expect("child message should decode")
        }
        _ => panic!("expected a typed IPC event"),
    };
    assert_eq!(child_envelope.run_id, child_run_id);
    assert_eq!(child_envelope.sender, sender);
    assert_eq!(child_envelope.recipient, recipient);
}

#[test]
fn failed_fork_remaps_preserve_opaque_payload_schema_tags() {
    let mut ids = IdSource::with_prefix(6);
    let parent_run = RunId::new(&mut ids);
    let child_run = RunId::new(&mut ids);
    let opaque = vec![0xff, 0x00, 0x7f];

    let remapped_ipc = remap(&mut ids, parent_run,
            EventKind::AgentMessage {
                version: LEGACY_IPC_SCHEMA_VERSION,
                payload: opaque.clone(),
            },
        child_run,
    );
    assert!(matches!(
        remapped_ipc.kind,
        EventKind::AgentMessage { version, payload }
            if version == LEGACY_IPC_SCHEMA_VERSION && payload == opaque
    ));

    let remapped_assumption = remap(&mut ids, parent_run,
            EventKind::AssumptionTransition {
                version: LEGACY_ASSUMPTION_SCHEMA_VERSION,
                payload: opaque.clone(),
            },
        child_run,
    );
    assert!(matches!(
        remapped_assumption.kind,
        EventKind::AssumptionTransition { version, payload }
            if version == LEGACY_ASSUMPTION_SCHEMA_VERSION && payload == opaque
    ));

    let remapped_tool = remap(&mut ids, parent_run,
            EventKind::ToolTransition {
                version: LEGACY_TOOL_SCHEMA_VERSION,
                payload: opaque.clone(),
            },
        child_run,
    );
    assert!(matches!(
        remapped_tool.kind,
        EventKind::ToolTransition { version, payload }
            if version == LEGACY_TOOL_SCHEMA_VERSION && payload == opaque
    ));
}

#[test]
fn materialized_fork_remaps_assumption_run_scope() {
    let mut ids = IdSource::with_prefix(6);
    let parent_run_id = RunId::new(&mut ids);
    let owner = AgentId::new(&mut ids);
    let assumption = Assumption::new(&mut ids, parent_run_id,
        owner,
        "schema.users.id",
        "UUID",
        "users.id is UUID",
    );
    let mut trace = EventTrace::default();
    trace.record(Event::new(&mut ids, 1, parent_run_id,
        EventKind::RunCreated {
            run_id: parent_run_id,
        },
    ));
    trace.record(Event::new(&mut ids, 1, parent_run_id,
        EventKind::AssumptionTransition {
            version: ASSUMPTION_SCHEMA_VERSION,
            payload: encode_transition(&AssumptionTransition::Created {
                assumption: assumption.clone(),
            })
            .expect("assumption should encode"),
        },
    ));

    let mut store = InMemoryEventStore::new();
    store
        .append_trace(&trace)
        .expect("parent trace should append");
    let branch = store
        .create_branch(&mut ids, parent_run_id, 2, ReplayMode::ForkLive, 5555)
        .expect("branch should be created");
    let child_run_id = RunId::new(&mut ids);
    let fork = store
        .materialize_fork(&mut ids, branch.branch_id, child_run_id, &Table::new())
        .expect("fork should materialize");
    let EventKind::AssumptionTransition { version, payload } =
        &fork.child_prefix.events()[1].kind
    else {
        panic!("expected an assumption transition event");
    };
    let AssumptionTransition::Created { assumption: child } =
        decode_transition(*version, payload).expect("child assumption should decode")
    else {
        panic!("expected an assumption creation transition");
    };
    assert_eq!(child.run_id, child_run_id);
    assert_eq!(child.owner, owner);
}

#[test]
fn incremental_reads_return_only_later_events() {
    let mut ids = IdSource::with_prefix(6);
    let trace = successful_trace(&mut ids);
    let run_id = match &trace.events()[0].kind {
        EventKind::RunCreated { run_id } => *run_id,
        _ => panic!("trace must begin with run.created"),
    };
    let mut store = InMemoryEventStore::new();
    store.append_trace(&trace).expect("trace should append");

    let later = store
        .events_since(run_id, 2)
        .expect("incremental read should succeed");

    assert_eq!(later.len(), trace.len() - 2);
    assert!(later.iter().all(|event| event.sequence > 2));
}

#[test]
fn artifact_store_deduplicates_immutable_content() {
    let mut artifacts = InMemoryArtifactStore::new();
    let first = artifacts
        .put("text/plain", b"same bytes".to_vec())
        .expect("artifact should be stored");
    let second = artifacts
        .put("text/plain", b"same bytes".to_vec())
        .expect("same artifact should deduplicate");

    assert_eq!(first, second);
    assert_eq!(artifacts.len(), 1);
    assert_eq!(
        artifacts
            .get(first.content_hash)
            .expect("artifact lookup should succeed")
            .expect("artifact should be readable")
            .bytes(),
        b"same bytes"
    );
}

#[test]
fn artifact_provenance_combines_without_upgrading_trust() {
    let mut artifacts = InMemoryArtifactStore::new();
    let trusted = artifacts
        .put_with_trust(
            "text/plain",
            b"same bytes".to_vec(),
            TrustOrigin::TrustedProject,
        )
        .expect("artifact should be stored");
    assert_eq!(trusted.trust, TrustOrigin::TrustedProject);
    let untrusted = artifacts
        .put_with_trust(
            "text/plain",
            b"same bytes".to_vec(),
            TrustOrigin::WebUntrusted,
        )
        .expect("same artifact should deduplicate");
    assert_eq!(untrusted.trust, TrustOrigin::WebUntrusted);
    assert_eq!(
        artifacts
            .get(trusted.content_hash)
            .expect("artifact lookup should succeed")
            .expect("artifact should be readable")
            .reference
            .trust,
        TrustOrigin::WebUntrusted
    );
}

#[test]
fn artifact_payloads_have_an_explicit_inline_bound() {
    let mut artifacts = InMemoryArtifactStore::new();
    let oversized = vec![0_u8; MAX_ARTIFACT_BYTES + 1];
    assert!(matches!(
        artifacts.put("application/octet-stream", oversized),
        Err(ArtifactError::TooLarge { actual, maximum })
            if actual == MAX_ARTIFACT_BYTES + 1 && maximum == MAX_ARTIFACT_BYTES
    ));
    assert!(artifacts.is_empty());
}

#[test]
fn artifact_creation_is_reconstructable_without_payload_duplication() {
    let mut ids = IdSource::with_prefix(6);
    let run_id = RunId::new(&mut ids);
    let mut artifacts = InMemoryArtifactStore::new();
    let reference = artifacts
        .put("application/octet-stream", vec![1, 2, 3, 4])
        .expect("artifact should be stored");
    let mut trace = EventTrace::default();
    trace.record(Event::new(&mut ids, 1, run_id, EventKind::RunCreated { run_id }));
    trace.record(reference.created_event(&mut ids, 1, run_id));
    trace.record(Event::new(&mut ids, 1, run_id, EventKind::RunCompleted { run_id }));

    let mut store = InMemoryEventStore::new();
    store.append_trace(&trace).expect("trace should append");
    let state = store.reconstruct(run_id).expect("state should reconstruct");

    assert_eq!(state.artifacts.len(), 1);
    assert_eq!(
        state
            .artifacts
            .get(&reference.content_hash)
            .expect("artifact reference")
            .size_bytes,
        4
    );
    assert_eq!(
        artifacts
            .get(reference.content_hash)
            .expect("artifact lookup should succeed")
            .expect("payload remains in blob store")
            .bytes(),
        &[1, 2, 3, 4]
    );
}

#[test]
fn failed_runs_reconstruct_the_failed_agent_and_run() {
    let mut ids = IdSource::with_prefix(6);
    let model = ModelRef::new("mock", "runtime-core", ModelClass::Cheap);
    let identity = AgentIdentity::new(&mut ids, "runtime-agent", "exercise failure", model);
    let failing = ProviderStream::Items {
        steps: vec![StreamStep {
            at_ms: 2,
            cancelled: false,
            item: StreamItem::Failed(ProviderError::Failed("mock failure".to_owned())),
        }],
        cancelled: false,
        ended_at_ms: 3,
    };
    let error = AgentSession::new(identity, ())
        .run(&mut ids, 1, LIMITS, "fail this run", failing)
        .expect_err("mock provider should fail");
    let run_id = match &error.trace().events()[0].kind {
        EventKind::RunCreated { run_id } => *run_id,
        _ => panic!("trace must begin with run.created"),
    };
    let mut store = InMemoryEventStore::new();
    store
        .append_trace(error.trace())
        .expect("failed trace should append");

    let state = store
        .reconstruct(run_id)
        .expect("failed state should reconstruct");

    assert_eq!(state.status, RunStatus::Failed);
    assert_eq!(state.agents.value_at(0).status, AgentStatus::Failed);
}

#[test]
fn legacy_fork_payloads_are_reencoded_with_their_current_schema_tags() {
    let mut ids = IdSource::with_prefix(6);
    let parent_run = RunId::new(&mut ids);
    let child_run = RunId::new(&mut ids);
    let agent_id = AgentId::new(&mut ids);
    let model = ModelRef::new("mock", "fork", ModelClass::Cheap);
    let agent = AgentIdentity::new(&mut ids, "fork-agent", "legacy remap", model);
    let task = Task::new(&mut ids, parent_run, "legacy fork");

    let recipient = AgentId::new(&mut ids);
    let envelope = IpcEnvelope::new(
        &mut ids,
        parent_run,
        Some(task.id),
        agent_id,
        recipient,
        IpcMessage::Question {
            subject: "legacy".to_owned(),
            why: "remap".to_owned(),
        },
    );
    let mut ipc_payload = envelope.encode().unwrap();
    let input_origin_offset: usize = 8 + 8 + 1 + 8 + 8 + 8 + 2 + 1;
    ipc_payload.drain(input_origin_offset..input_origin_offset + 2);

    let assumption = Assumption::new(
        &mut ids,
        parent_run,
        agent_id,
        "legacy.subject",
        "value",
        "legacy claim",
    );
    let mut assumption_payload =
        encode_transition(&AssumptionTransition::Created { assumption }).unwrap();
    assumption_payload.truncate(assumption_payload.len() - 3);

    let mut trace = EventTrace::default();
    trace.record(Event::new(
        &mut ids,
        1,
        parent_run,
        EventKind::RunCreated { run_id: parent_run },
    ));
    trace.record(Event::new(
        &mut ids,
        1,
        parent_run,
        EventKind::TaskCreated {
            task_id: task.id,
            run_id: parent_run,
            title: task.title.clone(),
        },
    ));
    trace.record(Event::new(&mut ids, 1, parent_run, EventKind::AgentCreated { agent }));
    trace.record(Event::new(
        &mut ids,
        1,
        parent_run,
        EventKind::AgentMessage {
            version: LEGACY_IPC_SCHEMA_VERSION,
            payload: ipc_payload,
        },
    ));
    trace.record(Event::new(
        &mut ids,
        1,
        parent_run,
        EventKind::AssumptionTransition {
            version: LEGACY_ASSUMPTION_SCHEMA_VERSION,
            payload: assumption_payload,
        },
    ));
    let tool_event = Event::new(
        &mut ids,
        1,
        parent_run,
        EventKind::ToolTransition {
            version: LEGACY_TOOL_SCHEMA_VERSION,
            payload: vec![1, 2, 3],
        },
    );
    let mut tools = Table::new();
    tools.insert(
        tool_event.id,
        VersionedPayload {
            version: TOOL_SCHEMA_VERSION,
            payload: vec![4, 5, 6, 7],
        },
    );
    trace.record(tool_event);

    let mut store = InMemoryEventStore::new();
    store.append_trace(&trace).unwrap();
    let branch = store
        .create_branch(&mut ids, parent_run, trace.len() as u64, ReplayMode::Recorded, 4)
        .unwrap();
    let fork = store
        .materialize_fork(&mut ids, branch.branch_id, child_run, &tools)
        .unwrap();

    let child_events = fork.child_prefix.events();
    let EventKind::AgentMessage { version, payload } = &child_events[3].kind else {
        panic!("expected remapped IPC event");
    };
    assert_eq!(*version, IPC_SCHEMA_VERSION);
    assert_eq!(
        IpcEnvelope::decode(*version, payload).unwrap().run_id,
        child_run
    );
    let EventKind::AssumptionTransition { version, payload } = &child_events[4].kind else {
        panic!("expected remapped assumption event");
    };
    assert_eq!(*version, ASSUMPTION_SCHEMA_VERSION);
    let AssumptionTransition::Created { assumption } =
        decode_transition(*version, payload).unwrap()
    else {
        panic!("expected created assumption");
    };
    assert_eq!(assumption.run_id, child_run);
    let EventKind::ToolTransition { version, payload } = &child_events[5].kind else {
        panic!("expected remapped tool event");
    };
    assert_eq!(*version, TOOL_SCHEMA_VERSION);
    assert_eq!(payload, &vec![4, 5, 6, 7]);

    assert!(matches!(
        &store.events(parent_run).unwrap()[3].event.kind,
        EventKind::AgentMessage { version, .. } if *version == LEGACY_IPC_SCHEMA_VERSION
    ));
}

#[test]
fn materialized_fork_remaps_tool_proposal_run_scope() {
    let mut ids = IdSource::with_prefix(6);
    let parent_run_id = RunId::new(&mut ids);
    let mut trace = EventTrace::default();
    trace.record(Event::new(
        &mut ids,
        1,
        parent_run_id,
        EventKind::RunCreated {
            run_id: parent_run_id,
        },
    ));
    let proposal = Event::new(
        &mut ids,
        1,
        parent_run_id,
        EventKind::ToolTransition {
            version: TOOL_SCHEMA_VERSION,
            payload: b"parent proposal".to_vec(),
        },
    );
    let mut tools = Table::new();
    tools.insert(
        proposal.id,
        VersionedPayload {
            version: TOOL_SCHEMA_VERSION,
            payload: b"child proposal".to_vec(),
        },
    );
    trace.record(proposal);

    let mut store = InMemoryEventStore::new();
    store
        .append_trace(&trace)
        .expect("parent trace should append");
    let branch = store
        .create_branch(&mut ids, parent_run_id, 2, ReplayMode::ForkLive, 6666)
        .expect("branch should be created");
    let child_run_id = RunId::new(&mut ids);
    let fork = store
        .materialize_fork(&mut ids, branch.branch_id, child_run_id, &tools)
        .expect("fork should materialize");
    let EventKind::ToolTransition { version, payload } = &fork.child_prefix.events()[1].kind
    else {
        panic!("expected a tool transition event");
    };
    assert_eq!(*version, TOOL_SCHEMA_VERSION);
    assert_eq!(payload.as_slice(), b"child proposal");
}

#[test]
fn materialized_fork_can_continue_with_a_provider_and_persist_only_new_events() {
    let mut ids = IdSource::with_prefix(6);
    let trace = successful_trace(&mut ids);
    let parent_run_id = match &trace.events()[0].kind {
        EventKind::RunCreated { run_id } => *run_id,
        _ => panic!("trace must begin with run.created"),
    };
    let mut store = InMemoryEventStore::new();
    store.append_trace(&trace).expect("trace should append");
    let branch = store
        .create_branch(&mut ids, parent_run_id, 3, ReplayMode::ForkLive, 3333)
        .expect("branch should be created");
    let child_run_id = RunId::new(&mut ids);
    let fork = store
        .materialize_fork(&mut ids, branch.branch_id, child_run_id, &Table::new())
        .expect("fork should materialize");
    assert_eq!(fork.copied_event_count, 3);
    let identity = match &fork.child_prefix.events()[2].kind {
        EventKind::AgentCreated { agent } => agent.clone(),
        _ => panic!("fork prefix should contain agent.created"),
    };
    let task = match &fork.child_prefix.events()[1].kind {
        EventKind::TaskCreated {
            task_id,
            run_id,
            title,
        } => Task {
            id: *task_id,
            run_id: *run_id,
            title: title.clone(),
        },
        _ => panic!("fork prefix should contain task.created"),
    };
    let session = AgentSession::new(identity.clone(), ());
    let prompt = "continue this child run";
    let execution = session
        .run_fork(
            &mut ids,
            4,
            LIMITS,
            child_run_id,
            task,
            prompt,
            fork.child_prefix.clone(),
            mock_stream(prompt, "continued response", 8),
        )
        .expect("fork should continue through provider");
    let continuation_sequences = persist_fork_continuation(&mut store, &fork, &execution.trace)
        .expect("new fork events should append atomically");
    assert_eq!(
        continuation_sequences.len(),
        execution.trace.len() - fork.child_prefix.len()
    );
    let child = store
        .reconstruct(child_run_id)
        .expect("continued child should reconstruct");
    assert_eq!(child.status, RunStatus::Completed);
    assert_eq!(
        child.agents.get(&identity.id).expect("child agent").status,
        AgentStatus::Completed
    );
    assert_eq!(
        store.events(parent_run_id).expect("parent events").len(),
        trace.len()
    );
}

#[test]
fn forks_of_unknown_branches_and_runs_are_refused() {
    let mut ids = IdSource::with_prefix(6);
    let mut store = InMemoryEventStore::new();
    let missing = RunId::from_u64(4);
    assert_eq!(
        store.create_branch(&mut ids, missing, 1, ReplayMode::Recorded, 1),
        Err(StoreError::UnknownRun(missing))
    );
    assert!(store
        .materialize_fork(
            &mut ids,
            orynth::ids::BranchId::from_u64(9),
            missing,
            &Table::new()
        )
        .is_err());
    assert!(store.all_events().is_empty());
}

#[test]
fn artifacts_keep_one_media_type() {
    let mut artifacts = InMemoryArtifactStore::new();
    let reference = artifacts.put("text/plain", b"x".to_vec()).unwrap();
    assert_eq!(
        artifacts.put("text/html", b"x".to_vec()),
        Err(ArtifactError::MetadataMismatch(reference.content_hash))
    );
    assert_eq!(
        artifacts.put("  ", b"y".to_vec()),
        Err(ArtifactError::InvalidMediaType)
    );
    assert_eq!(artifacts.len(), 1);
}

#[test]
fn replay_modes_have_names() {
    for mode in [ReplayMode::Recorded, ReplayMode::ReexecuteLive, ReplayMode::ForkLive] {
        assert_eq!(ReplayMode::parse(mode.as_str()), Ok(mode));
    }
    assert_eq!(
        ReplayMode::parse("other").err().map(|error| error.to_text()),
        Some("corrupt event store: unknown branch replay mode other".to_owned())
    );
}
