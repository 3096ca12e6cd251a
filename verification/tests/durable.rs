use orynth::artifact::{
    decode_artifact, encode_artifact, ArtifactStore, DeterministicContentHasher,
    InMemoryArtifactStore,
};
use orynth::event_codec::{decode_event, encode_event, MAX_FRAME_BYTES};
use orynth::event_store::{EventStore, ReplayMode, SnapshotStore};
use orynth::frames::{append_frame, read_frame};
use orynth::ids::{AgentId, IdSource, RunId};
use orynth::kernel::{AgentIdentity, Event, EventKind, ModelClass, ModelRef, TrustOrigin, Usage};
use orynth::log::{new_log_header, EventLog};
use orynth::memory_store::InMemoryEventStore;
use orynth::metadata::{append_metadata_frame, read_metadata};
use orynth::snapshot_codec::{decode_snapshot_state, encode_snapshot_state};

#[test]
fn event_and_metadata_frames_share_exact_boundary_limits() {
    for size in [MAX_FRAME_BYTES - 1, MAX_FRAME_BYTES, MAX_FRAME_BYTES + 1] {
        let payload = vec![0_u8; size];
        let mut event_bytes = Vec::new();
        let event_result = append_frame(&mut event_bytes, 1, &payload);
        let mut metadata_bytes = Vec::new();
        let metadata_result = append_metadata_frame(&mut metadata_bytes, 1, &payload);

        if size <= MAX_FRAME_BYTES {
            assert!(event_result.is_ok(), "event size {size} should be accepted");
            assert!(
                metadata_result.is_ok(),
                "metadata size {size} should be accepted"
            );
            assert!(read_frame(&event_bytes, 0)
                .expect("legal frame should parse")
                .is_some());
        } else {
            assert!(
                event_result.is_err(),
                "event size {size} should be rejected"
            );
            assert!(
                metadata_result.is_err(),
                "metadata size {size} should be rejected"
            );
            assert!(event_bytes.is_empty());
            assert!(metadata_bytes.is_empty());
        }
    }
}

fn run_events(ids: &mut IdSource) -> (RunId, Vec<Event>) {
    let run_id = RunId::new(ids);
    let agent_id = AgentId::new(ids);
    let model = ModelRef::new("provider-a", "cheap", ModelClass::Cheap);
    let other = ModelRef::new("provider-b", "strong", ModelClass::Strong);
    let agent = AgentIdentity {
        id: agent_id,
        name: "n".to_owned(),
        mission: "m".to_owned(),
        model,
    };
    let kinds = vec![
        EventKind::RunCreated { run_id },
        EventKind::AgentCreated { agent },
        EventKind::ModelRequested { agent_id, model: other },
        EventKind::ModelChunkReceived { agent_id, chunk_index: 0 },
        EventKind::ModelCompleted {
            agent_id,
            usage: Usage::new(3, 4).with_cached_input_tokens(2),
        },
        EventKind::RunCompleted { run_id },
    ];
    let events = kinds
        .into_iter()
        .map(|kind| Event::new(ids, 123456789, run_id, kind))
        .collect();
    (run_id, events)
}

fn appended(log: &mut EventLog, bytes: &mut Vec<u8>, events: &[Event]) {
    bytes.extend(log.prepare_batch(events).expect("batch should encode"));
    log.commit_batch(events).expect("batch should commit");
}

#[test]
fn logs_survive_reopening() {
    let mut ids = IdSource::with_prefix(5);
    let (run_id, events) = run_events(&mut ids);
    let mut bytes = new_log_header();
    let (mut log, cut) = EventLog::recover(&bytes).expect("new log should open");
    assert_eq!(cut, None);
    appended(&mut log, &mut bytes, &events[..2]);
    appended(&mut log, &mut bytes, &events[2..]);
    let (reopened, cut) = EventLog::recover(&bytes).expect("log should reopen");
    assert_eq!(cut, None);
    let stored = reopened.events().events(run_id).unwrap();
    assert_eq!(stored.len(), events.len());
    for (stored, event) in stored.iter().zip(events.iter()) {
        assert_eq!(&stored.event, event);
    }
    assert_eq!(
        reopened.events().reconstruct(run_id).unwrap(),
        log.events().reconstruct(run_id).unwrap()
    );
}

#[test]
fn every_torn_append_recovers_the_old_or_the_new_state() {
    let mut ids = IdSource::with_prefix(5);
    let (run_id, events) = run_events(&mut ids);
    let mut bytes = new_log_header();
    let (mut log, _) = EventLog::recover(&bytes).unwrap();
    appended(&mut log, &mut bytes, &events[..2]);
    let old = bytes.len();
    appended(&mut log, &mut bytes, &events[2..4]);
    for length in old..bytes.len() + 1 {
        let (recovered, cut) = EventLog::recover(&bytes[..length]).expect("cut should recover");
        let expected = if length == bytes.len() { 4 } else { 2 };
        assert_eq!(recovered.events().events(run_id).unwrap().len(), expected);
        let torn = length != old && length != bytes.len();
        assert_eq!(cut, if torn { Some(old) } else { None });
    }
}

#[test]
fn corrupt_logs_are_refused() {
    let mut ids = IdSource::with_prefix(5);
    let (_, events) = run_events(&mut ids);
    let mut bytes = new_log_header();
    let (mut log, _) = EventLog::recover(&bytes).unwrap();
    appended(&mut log, &mut bytes, &events[..2]);
    let place = bytes.len() / 2;
    appended(&mut log, &mut bytes, &events[2..4]);
    bytes[place] ^= 1;
    assert!(EventLog::recover(&bytes).is_err());
    assert!(EventLog::recover(b"something else").is_err());
    assert!(log.prepare_batch(&[events[0].clone()]).is_err());
}

#[test]
fn events_read_back_from_their_encoding() {
    let mut ids = IdSource::with_prefix(5);
    let (_, events) = run_events(&mut ids);
    for event in &events {
        let bytes = encode_event(event).unwrap();
        assert_eq!(&decode_event(&bytes).unwrap(), event);
        for length in 0..bytes.len() {
            assert_ne!(decode_event(&bytes[..length]).ok().as_ref(), Some(event));
        }
    }
}

#[test]
fn branches_and_snapshots_survive_in_their_metadata() {
    let mut ids = IdSource::with_prefix(5);
    let (run_id, events) = run_events(&mut ids);
    let mut bytes = new_log_header();
    let (mut log, _) = EventLog::recover(&bytes).unwrap();
    appended(&mut log, &mut bytes, &events);
    let (branch, metadata) = log
        .prepare_branch(&mut ids, run_id, 2, ReplayMode::ForkLive, 77)
        .expect("branch should be accepted");
    log.set_metadata(metadata);
    let snapshot = log.events().snapshot(run_id).unwrap();
    let metadata = log
        .prepare_snapshot(&snapshot)
        .expect("snapshot should be accepted");
    log.set_metadata(metadata);
    let encoded = log.metadata().encode().expect("metadata should encode");
    let (read, cut) = read_metadata(&encoded).expect("metadata should read back");
    assert_eq!(cut, None);
    assert_eq!(read.branches.get(&branch.branch_id), Some(&branch));
    assert_eq!(read.snapshots.len(), 1);
    for length in 1..encoded.len() {
        if let Ok((partial, _)) = read_metadata(&encoded[..length]) {
            assert!(partial.snapshots.len() <= 1);
        }
    }
}

#[test]
fn snapshots_keep_the_effective_model() {
    let mut ids = IdSource::with_prefix(5);
    let (run_id, events) = run_events(&mut ids);
    let mut store = InMemoryEventStore::new();
    store.append_batch(&events).unwrap();
    let snapshot = store.snapshot(run_id).unwrap();
    store.save_snapshot(&snapshot).unwrap();
    let bytes = encode_snapshot_state(&snapshot.state).unwrap();
    let state = decode_snapshot_state(&bytes).unwrap();
    assert_eq!(state, snapshot.state);
    assert_eq!(state.agents.value_at(0).model.provider, "provider-b");
    assert_eq!(state.agents.value_at(0).usage.cached_input_tokens, Some(2));
}

#[test]
fn artifacts_read_back_from_their_encoding() {
    let mut store = InMemoryArtifactStore::new();
    let reference = store
        .put_with_trust("text/plain", b"payload".to_vec(), TrustOrigin::External)
        .unwrap();
    let bytes = encode_artifact(&reference, b"payload").unwrap();
    let hash = reference.content_hash;
    let artifact = decode_artifact(&bytes, hash, &DeterministicContentHasher)
    .expect("artifact should read back");
    assert_eq!(artifact.bytes(), b"payload");
    assert_eq!(artifact.reference(), &reference);
    let mut broken = bytes.clone();
    let last = broken.len() - 1;
    broken[last] ^= 1;
    assert!(decode_artifact(&broken, hash, &DeterministicContentHasher).is_err());
}

#[test]
fn trailing_bytes_of_events_are_refused() {
    let mut ids = IdSource::with_prefix(5);
    let (_, events) = run_events(&mut ids);
    for event in &events {
        let mut bytes = encode_event(event).unwrap();
        for extra in [0, 1, 255] {
            bytes.push(extra);
            assert!(decode_event(&bytes).is_err());
            bytes.pop();
        }
    }
}

#[test]
fn older_forms_of_events_still_decode() {
    let mut ids = IdSource::with_prefix(5);
    let run_id = RunId::new(&mut ids);
    let agent_id = AgentId::new(&mut ids);
    let kind = EventKind::ModelCompleted { agent_id, usage: Usage::new(7, 2) };
    let completed = Event::new(&mut ids, 1, run_id, kind);
    let bytes = encode_event(&completed).unwrap();
    assert_eq!(decode_event(&bytes[..bytes.len() - 1]).unwrap(), completed);
    let kind = |trust: TrustOrigin| EventKind::ArtifactCreated {
        content_hash: [9; 32],
        size_bytes: 3,
        media_type: "text/plain".to_owned(),
        trust,
    };
    let created = Event::new(&mut ids, 1, run_id, kind(TrustOrigin::WebUntrusted));
    let bytes = encode_event(&created).unwrap();
    let older = decode_event(&bytes[..bytes.len() - 1]).unwrap();
    assert_eq!(older.id, created.id);
    assert_eq!(older.kind, kind(TrustOrigin::Generated));
}
