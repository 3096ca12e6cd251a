use orynth::context::{
    ContextDraft, ContextIdSource, ContextKind, ContextOwner, ContextPrincipal, ContextScope,
};
use orynth::context_graph::ContextGraph;
use orynth::context_views::{ContextFreshnessPolicy, ProjectionRequest, PromptLayer};
use orynth::event_store::EventStore;
use orynth::ids::{IdSource, PluginId, RunId};
use orynth::inspector::{bound_tui_history, event_page, MAX_TUI_EVENT_WINDOW};
use orynth::kernel::{Event, EventKind};
use orynth::memory_store::InMemoryEventStore;
use orynth::plugin::{
    authorize_manifest, CapabilityDomain, PluginCapability, PluginError, PluginKind,
    PluginManifest, PluginRegistry, PluginResourceLimits, PLUGIN_PROTOCOL_VERSION,
};

fn note(namespace: &str, content: &str) -> ContextDraft {
    ContextDraft::new(
        namespace,
        ContextKind::Note,
        ContextOwner::Runtime,
        ContextScope::Global,
        content,
    )
}

#[test]
fn pins_change_neither_prompts_nor_projections() {
    let mut graph = ContextGraph::new();
    let mut ids = ContextIdSource::new();
    let one = graph.publish(&mut ids, note("one", "first")).unwrap().block.reference();
    graph.publish(&mut ids, note("two", "second")).unwrap();
    let layers = [PromptLayer::stable("layer", vec![one])];
    let principal = ContextPrincipal::Runtime;
    let prompt = graph.render_prompt(principal, &layers, "task").unwrap();
    let projection = graph.project(principal, &ProjectionRequest::all());
    graph.pin(one).unwrap();
    assert!(graph.block(one).unwrap().pinned);
    assert_eq!(graph.render_prompt(principal, &layers, "task").unwrap(), prompt);
    let pinned = graph.project(principal, &ProjectionRequest::all());
    assert_eq!(pinned.estimated_tokens, projection.estimated_tokens);
    assert_eq!(
        pinned.blocks.iter().map(|shown| shown.block.reference()).collect::<Vec<_>>(),
        projection.blocks.iter().map(|shown| shown.block.reference()).collect::<Vec<_>>()
    );
    graph.unpin(one).unwrap();
    assert_eq!(graph.project(principal, &ProjectionRequest::all()), projection);
}

#[test]
fn freshness_reports_keep_to_their_limits() {
    let mut graph = ContextGraph::new();
    let mut ids = ContextIdSource::new();
    for index in 0..5 {
        let block = graph
            .publish(&mut ids, note(&format!("n{index}"), "content"))
            .unwrap()
            .block
            .reference();
        graph.invalidate(block, "gone").unwrap();
    }
    let policy = ContextFreshnessPolicy {
        largest_block_limit: 2,
        recent_invalidation_limit: 3,
        ..ContextFreshnessPolicy::default()
    };
    let report = graph.proprioception(policy);
    assert_eq!(report.largest_blocks.len(), 2);
    assert!(report.recent_invalidations.len() <= 3);
    assert_eq!(report.invalidated_blocks, 5);
}

#[test]
fn pages_adjoin() {
    let mut ids = IdSource::with_prefix(5);
    let run_id = RunId::from_u64(4);
    let mut store = InMemoryEventStore::new();
    for _ in 0..600 {
        store
            .append(Event::new(&mut ids, 1, run_id, EventKind::RunCreated { run_id }))
            .unwrap();
    }
    let events = store.events(run_id).unwrap();
    let page = event_page(&events, None, 7);
    assert_eq!(page.len(), 7);
    assert_eq!(page[6].sequence, 600);
    let earlier = event_page(&events, Some(page[0].sequence), 7);
    assert_eq!(earlier[6].sequence + 1, page[0].sequence);
    assert_eq!(event_page(&events, Some(3), 7).len(), 2);
    assert_eq!(bound_tui_history(events).len(), MAX_TUI_EVENT_WINDOW);
}

fn manifest(id: u64, name: &str) -> PluginManifest {
    PluginManifest {
        id: PluginId::from_u64(id),
        protocol_version: PLUGIN_PROTOCOL_VERSION,
        name: name.to_owned(),
        version: "1".to_owned(),
        kind: PluginKind::Wasm,
        capabilities: vec![
            PluginCapability { domain: CapabilityDomain::Filesystem, resource: "a".to_owned() },
            PluginCapability { domain: CapabilityDomain::Filesystem, resource: "b".to_owned() },
        ],
        limits: PluginResourceLimits::default(),
    }
}

#[test]
fn discovered_manifests_ascend() {
    let mut registry = PluginRegistry::new();
    for id in [9, 3, 7] {
        registry.register(manifest(id, "tool")).unwrap();
    }
    registry.register(manifest(5, "other")).unwrap();
    let found = registry.discover(Some(PluginKind::Wasm), "to").unwrap();
    let ids = found.iter().map(|manifest| manifest.id.value()).collect::<Vec<_>>();
    assert_eq!(ids, vec![3, 7, 9]);
    assert!(registry.discover(Some(PluginKind::Mcp), "").unwrap().is_empty());
}

#[test]
fn every_capability_is_asked_for() {
    let denied = |capability: &PluginCapability| {
        if capability.resource == "b" {
            Some("no".to_owned())
        } else {
            None
        }
    };
    assert_eq!(
        authorize_manifest(&denied, &manifest(1, "tool")),
        Err(PluginError::CapabilityDenied("no".to_owned()))
    );
    let allowed = |_: &PluginCapability| None;
    assert_eq!(authorize_manifest(&allowed, &manifest(1, "tool")), Ok(()));
}
