use orynth::artifact::{ArtifactStore, InMemoryArtifactStore};
use orynth::assumptions::{Assumption, AssumptionGraph};
use orynth::cache::{CacheKey, CacheObservation, CacheTelemetry};
use orynth::context::{ContextDraft, ContextIdSource, ContextKind, ContextOwner, ContextScope};
use orynth::context_graph::ContextGraph;
use orynth::event_store::{BranchStore, EventStore, ReplayMode, SnapshotStore};
use orynth::failure_memory::{FailureMemory, FailureRecord, FailureTransition};
use orynth::ids::{AgentId, IdSource, PluginId, RunId};
use orynth::ipc::{BoundedMailbox, IpcEnvelope, IpcMessage, IpcProvenance};
use orynth::kernel::{Event, EventKind, TrustOrigin};
use orynth::memory_store::InMemoryEventStore;
use orynth::plugin::{
    CapabilityDomain, PluginCapability, PluginKind, PluginManifest, PluginRegistry,
    PluginResourceLimits, PLUGIN_PROTOCOL_VERSION,
};
use orynth::table::Table;

#[test]
fn tables_are_copied_entry_by_entry() {
    let mut table: Table<String, u64> = Table::new();
    table.insert("b".to_owned(), 2);
    table.insert("a".to_owned(), 1);
    let mut copy = table.clone();
    assert_eq!(copy, table);
    copy.insert("c".to_owned(), 3);
    assert_eq!(copy.len(), 3);
    assert_eq!(table.len(), 2);
    assert_eq!(copy.get(&"a".to_owned()), Some(&1));
}

#[test]
fn failure_memories_are_copied() {
    let mut ids = IdSource::with_prefix(5);
    let agent = AgentId::new(&mut ids);
    let first = FailureRecord::new(&mut ids, agent, "first", "approach", "reason");
    let second = FailureRecord::new(&mut ids, agent, "second", "approach", "reason");
    let mut memory = FailureMemory::new();
    memory.apply(&FailureTransition::Recorded { record: first }).unwrap();
    let before = memory.clone();
    assert_eq!(before, memory);
    memory.apply(&FailureTransition::Recorded { record: second }).unwrap();
    assert!(before.has_attempted("first"));
    assert!(!before.has_attempted("second"));
}

#[test]
fn assumption_graphs_are_copied_with_their_conflicts() {
    let mut ids = IdSource::with_prefix(5);
    let run_id = RunId::new(&mut ids);
    let mut graph = AssumptionGraph::new();
    for value in ["uuid", "bigint"] {
        let owner = AgentId::new(&mut ids);
        let claim = Assumption::new(&mut ids, run_id, owner, "schema.users.id", value, "claim");
        graph.publish(&mut ids, claim).unwrap();
    }
    let copy = graph.clone();
    assert_eq!(copy, graph);
    assert_eq!(copy.conflicts().len(), 1);
    assert_eq!(copy.assumptions().len(), 2);
}

#[test]
fn context_graphs_are_copied_with_their_content() {
    let mut graph = ContextGraph::new();
    let mut ids = ContextIdSource::new();
    let rules = |content: &str| {
        ContextDraft::new(
            "project.rules",
            ContextKind::Contract,
            ContextOwner::Runtime,
            ContextScope::Global,
            content,
        )
    };
    let first = graph.publish(&mut ids, rules("one")).unwrap();
    graph.subscribe(&mut ids, AgentId::from_u64(3), "project.*").unwrap();
    graph.invalidate(first.block.reference(), "outdated").unwrap();
    let copy = graph.clone();
    assert_eq!(copy, graph);
    assert_eq!(copy.invalidations(), graph.invalidations());
    assert_eq!(copy.content(first.block.content_hash).unwrap(), b"one");
    graph.publish(&mut ids, rules("two")).unwrap();
    assert_eq!(copy.block_count(), 1);
    assert_eq!(copy.latest("project.rules"), Some(first.block.reference()));
    assert_eq!(copy.subscription_count(), 1);
}

#[test]
fn mailboxes_are_copied_in_order() {
    let mut ids = IdSource::with_prefix(5);
    let run_id = RunId::new(&mut ids);
    let sender = AgentId::new(&mut ids);
    let recipient = AgentId::new(&mut ids);
    let mut mailbox = BoundedMailbox::new(3).unwrap();
    let mut sent = Vec::new();
    for reason in ["first", "second"] {
        let message = IpcMessage::Blocked { reason: reason.to_owned() };
        let envelope = IpcEnvelope::new(&mut ids, run_id, None, sender, recipient, message)
            .with_provenance(IpcProvenance::McpResult { source: "docs".to_owned() })
            .with_input_origin(TrustOrigin::WebUntrusted);
        mailbox.try_send(envelope.clone()).unwrap();
        sent.push(envelope);
    }
    let mut copy = mailbox.clone();
    assert_eq!(copy.capacity(), 3);
    for envelope in sent {
        assert_eq!(copy.receive(), Some(envelope));
    }
    assert!(copy.is_empty());
    assert_eq!(mailbox.len(), 2);
}

#[test]
fn cache_telemetry_is_copied() {
    let key = CacheKey {
        provider: "mock".to_owned(),
        model: "small".to_owned(),
        prefix_hash: [4; 32],
    };
    let mut telemetry = CacheTelemetry::new();
    telemetry.record_observation(CacheObservation {
        key: key.clone(),
        estimated_prefix_tokens: 20,
        observed_cached_tokens: 12,
        observed_at_ms: 7,
    });
    let copy = telemetry.clone();
    assert_eq!(copy, telemetry);
    assert_eq!(copy.get(&key), telemetry.get(&key));
    assert_eq!(copy.get(&key).unwrap().last_cached_tokens, 12);
}

#[test]
fn plugin_registries_are_copied() {
    let manifest = |id: u64| PluginManifest {
        id: PluginId::from_u64(id),
        protocol_version: PLUGIN_PROTOCOL_VERSION,
        name: "example".to_owned(),
        version: "1.0.0".to_owned(),
        kind: PluginKind::Process,
        capabilities: vec![
            PluginCapability {
                domain: CapabilityDomain::Filesystem,
                resource: "workspace/src".to_owned(),
            },
            PluginCapability {
                domain: CapabilityDomain::Named("network".to_owned()),
                resource: "example.org".to_owned(),
            },
        ],
        limits: PluginResourceLimits::default(),
    };
    let mut registry = PluginRegistry::new();
    registry.register(manifest(7)).unwrap();
    let copy = registry.clone();
    registry.register(manifest(8)).unwrap();
    assert_eq!(copy.manifest(PluginId::from_u64(7)), Some(&manifest(7)));
    assert_eq!(copy.manifest(PluginId::from_u64(8)), None);
}

#[test]
fn artifact_stores_are_copied() {
    let mut store = InMemoryArtifactStore::new();
    let reference = store.put("text/plain", b"kept".to_vec()).unwrap();
    let mut copy = store.clone();
    assert_eq!(copy.get(reference.content_hash).unwrap().unwrap().bytes(), b"kept");
    assert_eq!(copy.put("text/plain", b"kept".to_vec()).unwrap(), reference);
    copy.put("text/plain", b"more".to_vec()).unwrap();
    assert_eq!(copy.len(), 2);
    assert_eq!(store.len(), 1);
}

#[test]
fn event_stores_are_copied_with_branches_and_snapshots() {
    let mut ids = IdSource::with_prefix(5);
    let run_id = RunId::new(&mut ids);
    let mut store = InMemoryEventStore::new();
    let event = Event::new(&mut ids, 1, run_id, EventKind::RunCreated { run_id });
    store.append(event.clone()).unwrap();
    let branch = store.create_branch(&mut ids, run_id, 1, ReplayMode::Recorded, 9).unwrap();
    let snapshot = store.snapshot(run_id).unwrap();
    store.save_snapshot(&snapshot).unwrap();
    let mut copy = store.clone();
    assert_eq!(copy.all_events(), store.all_events());
    assert_eq!(copy.next_sequence(), 2);
    assert_eq!(copy.branch(branch.branch_id).unwrap(), Some(branch));
    assert_eq!(copy.load_snapshot(run_id, None).unwrap(), Some(snapshot));
    assert!(copy.append(event).is_err());
    let last = Event::new(&mut ids, 2, run_id, EventKind::RunCompleted { run_id });
    assert_eq!(copy.append(last).unwrap(), 2);
    assert_eq!(store.all_events().len(), 1);
}
