use orynth::context::{
    ContentHash, ContextBlock, ContextBlockId, ContextDraft, ContextError, ContextIdSource,
    ContextKind, ContextLifecycle, ContextOwner, ContextPrincipal, ContextRef, ContextScope,
    ContextTransition, ContextTrustPolicy, DeterministicContentHasher, CONTEXT_TRANSITION_VERSION,
};
use orynth::context_codec::{decode_transition, encode_transition};
use orynth::context_graph::ContextGraph;
use orynth::context_log::ContextEventLog;
use orynth::context_views::{
    ContextFreshnessPolicy, ContextSearchRequest, ProjectionRequest, PromptLayer,
};
use orynth::ids::{AgentId, EventId, IdSource, RunId};
use orynth::kernel::TrustOrigin;

fn draft(
    namespace: &str,
    owner: ContextOwner,
    scope: ContextScope,
    content: &str,
) -> ContextDraft {
    ContextDraft::new(
        namespace,
        ContextKind::Contract,
        owner,
        scope,
        content,
    )
}

#[test]
fn proprioception_reports_freshness_pressure_without_mutation() {
    let owner = AgentId::from_u64(101);
    let mut graph = ContextGraph::new();
    let mut ids = ContextIdSource::new();
    let schema = graph
        .publish(&mut ids, draft(
            "schema.users",
            ContextOwner::Agent(owner),
            ContextScope::Team,
            "id: UUID",
        ))
        .expect("schema should publish");
    graph
        .publish(&mut ids, draft(
                "auth.contract",
                ContextOwner::Agent(owner),
                ContextScope::Private(owner),
                "JWT subject uses users.id",
            )
            .with_dependency(schema.block.reference()),
        )
        .expect("dependent should publish");
    graph
        .publish(&mut ids, draft(
                "project.rules",
                ContextOwner::Runtime,
                ContextScope::Global,
                "stable project rules",
            )
            .with_token_estimate(40),
        )
        .expect("project rules should publish");
    let replacement = graph
        .publish(&mut ids, draft(
            "schema.users",
            ContextOwner::Agent(owner),
            ContextScope::Team,
            "id: BIGINT",
        ))
        .expect("replacement should publish");
    graph
        .invalidate(replacement.block.reference(), "schema contract changed")
        .expect("replacement should invalidate");

    let dashboard = graph.proprioception(ContextFreshnessPolicy {
        max_active_tokens: Some(10),
        max_stale_blocks: Some(0),
        largest_block_limit: 2,
        recent_invalidation_limit: 1,
    });
    assert_eq!(dashboard.active_blocks, 1);
    assert_eq!(dashboard.active_tokens, 40);
    assert_eq!(dashboard.stale_blocks, 1);
    assert_eq!(dashboard.invalidated_blocks, 1);
    assert!(dashboard.active_tokens_over_budget);
    assert!(dashboard.stale_blocks_over_budget);
    assert_eq!(dashboard.largest_blocks.len(), 2);
    assert_eq!(dashboard.largest_blocks[0].namespace, "project.rules");
    assert_eq!(dashboard.recent_invalidations.len(), 1);
    assert_eq!(
        dashboard.recent_invalidations[0].reason,
        "schema contract changed"
    );
    assert_eq!(
        graph
            .block(replacement.block.reference())
            .expect("replacement should remain available")
            .lifecycle,
        ContextLifecycle::Invalidated
    );
}

#[test]
fn bounded_search_and_dependency_reports_are_read_only_and_visibility_scoped() {
    let owner = AgentId::from_u64(101);
    let other = AgentId::from_u64(102);
    let mut graph = ContextGraph::new();
    let mut ids = ContextIdSource::new();
    let schema = graph
        .publish(&mut ids, draft(
            "schema.users",
            ContextOwner::Agent(owner),
            ContextScope::Team,
            "id: UUID",
        ))
        .expect("schema should publish");
    let dependent = graph
        .publish(&mut ids, draft(
                "auth.contract",
                ContextOwner::Agent(owner),
                ContextScope::Private(owner),
                "JWT subject uses users.id",
            )
            .with_dependency(schema.block.reference()),
        )
        .expect("dependent should publish");
    let private = graph
        .publish(&mut ids, draft(
            "private.secret",
            ContextOwner::Agent(owner),
            ContextScope::Private(owner),
            "owner-only token",
        ))
        .expect("private block should publish");

    let hits = graph
        .search(
            ContextPrincipal::Agent(other),
            &ContextSearchRequest::new("jwt"),
        )
        .expect("search should succeed");
    assert!(hits.is_empty());
    let owner_hits = graph
        .search(
            ContextPrincipal::Agent(owner),
            &ContextSearchRequest::new("jwt"),
        )
        .expect("owner search should succeed");
    assert_eq!(owner_hits.len(), 1);
    assert_eq!(owner_hits[0].summary.reference, dependent.block.reference());
    assert!(owner_hits[0].matched_content);

    let secret_hits = graph
        .search(
            ContextPrincipal::Agent(owner),
            &ContextSearchRequest::new("secret"),
        )
        .expect("private search should succeed");
    assert_eq!(secret_hits[0].summary.reference, private.block.reference());
    let report = graph
        .dependency_report(schema.block.reference(), 1)
        .expect("dependency report should succeed");
    assert_eq!(report.dependencies, Vec::<ContextRef>::new());
    assert_eq!(report.sources, Vec::<ContextRef>::new());
    assert_eq!(report.dependents, vec![dependent.block.reference()]);
    assert!(!report.dependents_truncated);
    assert!(matches!(
        graph.search(ContextPrincipal::Runtime, &ContextSearchRequest::new(" ")),
        Err(ContextError::InvalidSearchQuery(_))
    ));
}

#[test]
fn archive_and_restore_are_validated_replayable_lifecycle_transitions() {
    let mut graph = ContextGraph::new();
    let mut ids = ContextIdSource::new();
    let publication = graph
        .publish(&mut ids, draft(
            "project.rules",
            ContextOwner::Runtime,
            ContextScope::Global,
            "stable project rules",
        ))
        .expect("context should publish");
    let created = publication.transitions[0].clone();
    let reference = publication.block.reference();
    let archived = graph
        .archive(reference)
        .expect("active block should archive");
    assert_eq!(
        graph
            .block(reference)
            .expect("block should remain recoverable")
            .lifecycle,
        ContextLifecycle::Archived
    );
    assert!(matches!(
        graph.archive(reference),
        Err(ContextError::InvalidLifecycle {
            operation: "archive",
            ..
        })
    ));
    let restored = graph
        .restore(reference)
        .expect("archived block should restore");
    assert_eq!(
        graph
            .block(reference)
            .expect("block should remain present")
            .lifecycle,
        ContextLifecycle::Active
    );
    assert!(matches!(
        graph.restore(reference),
        Err(ContextError::InvalidLifecycle {
            operation: "restore",
            ..
        })
    ));

    let archived_bytes = encode_transition(&archived).expect("archive should encode");
    let restored_bytes = encode_transition(&restored).expect("restore should encode");
    assert_eq!(
        decode_transition(CONTEXT_TRANSITION_VERSION, &archived_bytes)
            .expect("archive should decode"),
        archived
    );
    assert_eq!(
        decode_transition(CONTEXT_TRANSITION_VERSION, &restored_bytes)
            .expect("restore should decode"),
        restored
    );
    let replayed = ContextGraph::replay(vec![created, archived, restored])
        .expect("lifecycle transitions should replay");
    assert_eq!(
        replayed.block(reference).expect("replayed block").lifecycle,
        ContextLifecycle::Active
    );
}

#[test]
fn pinning_is_explicit_replayable_and_does_not_change_lifecycle() {
    let mut graph = ContextGraph::new();
    let mut ids = ContextIdSource::new();
    let publication = graph
        .publish(&mut ids, draft(
            "project.rules",
            ContextOwner::Runtime,
            ContextScope::Global,
            "retain this",
        ))
        .expect("context should publish");
    let created = publication.transitions[0].clone();
    let reference = publication.block.reference();
    let pinned = graph.pin(reference).expect("active block should pin");
    assert_eq!(
        graph.block(reference).expect("pinned block").lifecycle,
        ContextLifecycle::Active
    );
    assert!(graph.block(reference).expect("pinned block").pinned);
    assert!(matches!(
        graph.pin(reference),
        Err(ContextError::InvalidLifecycle {
            operation: "pin",
            ..
        })
    ));
    let dashboard = graph.proprioception(ContextFreshnessPolicy::default());
    assert_eq!(dashboard.pinned_blocks, 1);
    assert!(dashboard.largest_blocks[0].pinned);

    let unpinned = graph.unpin(reference).expect("pinned block should unpin");
    assert!(!graph.block(reference).expect("unpinned block").pinned);
    assert!(matches!(
        graph.unpin(reference),
        Err(ContextError::InvalidLifecycle {
            operation: "unpin",
            ..
        })
    ));
    let pinned_bytes = encode_transition(&pinned).expect("pin should encode");
    let unpinned_bytes = encode_transition(&unpinned).expect("unpin should encode");
    assert_eq!(
        decode_transition(CONTEXT_TRANSITION_VERSION, &pinned_bytes)
            .expect("pin should decode"),
        pinned
    );
    assert_eq!(
        decode_transition(CONTEXT_TRANSITION_VERSION, &unpinned_bytes)
            .expect("unpin should decode"),
        unpinned
    );
    let replayed =
        ContextGraph::replay(vec![created, pinned, unpinned]).expect("pin lifecycle should replay");
    assert!(!replayed.block(reference).expect("replayed block").pinned);
}

#[test]
fn publishing_versions_marks_dependents_stale() {
    let owner = AgentId::from_u64(101);
    let mut graph = ContextGraph::new();
    let mut ids = ContextIdSource::new();
    let schema = graph
        .publish(&mut ids, draft(
            "schema.users",
            ContextOwner::Agent(owner),
            ContextScope::Team,
            "id: UUID",
        ))
        .expect("schema should publish");
    let dependent = graph
        .publish(&mut ids, draft(
                "auth.contract",
                ContextOwner::Agent(owner),
                ContextScope::Private(owner),
                "JWT subject uses users.id",
            )
            .with_dependency(schema.block.reference()),
        )
        .expect("dependent should publish");

    let replacement = graph
        .publish(&mut ids, draft(
            "schema.users",
            ContextOwner::Agent(owner),
            ContextScope::Team,
            "id: BIGINT",
        ))
        .expect("replacement should publish");

    assert_eq!(
        graph
            .block(schema.block.reference())
            .expect("old block")
            .lifecycle,
        ContextLifecycle::Superseded
    );
    assert_eq!(
        graph
            .block(dependent.block.reference())
            .expect("dependent")
            .lifecycle,
        ContextLifecycle::Stale
    );
    assert_eq!(replacement.invalidations.len(), 1);
    assert_eq!(
        replacement.invalidations[0].block,
        dependent.block.reference()
    );
}

#[test]
fn context_transitions_replay_into_the_same_authoritative_state() {
    let owner = AgentId::from_u64(101);
    let mut graph = ContextGraph::new();
    let mut ids = ContextIdSource::new();
    let first = graph
        .publish(&mut ids, draft(
            "schema.users",
            ContextOwner::Agent(owner),
            ContextScope::Team,
            "id: UUID",
        ))
        .expect("first block should publish");
    let dependent = graph
        .publish(&mut ids, draft(
                "auth.contract",
                ContextOwner::Agent(owner),
                ContextScope::Private(owner),
                "JWT subject uses users.id",
            )
            .with_dependency(first.block.reference()),
        )
        .expect("dependent should publish");
    let replacement = graph
        .publish(&mut ids, draft(
            "schema.users",
            ContextOwner::Agent(owner),
            ContextScope::Team,
            "id: BIGINT",
        ))
        .expect("replacement should publish");

    let mut log = ContextEventLog::new();
    log.record(&first);
    log.record(&dependent);
    log.record(&replacement);
    let events = log
        .to_events(&mut IdSource::with_prefix(4), 1, RunId::from_u64(6))
        .expect("context transitions should encode");
    let persisted_log =
        ContextEventLog::from_events(&events).expect("context transition events should decode");
    assert_eq!(persisted_log, log);
    let replayed = persisted_log
        .replay()
        .expect("context transitions should replay");

    assert_eq!(
        replayed.latest("schema.users"),
        graph.latest("schema.users")
    );
    assert_eq!(
        replayed
            .block(dependent.block.reference())
            .expect("replayed dependent")
            .lifecycle,
        ContextLifecycle::Stale
    );
    assert_eq!(
        replayed
            .content(replacement.block.content_hash)
            .expect("replayed content"),
        b"id: BIGINT"
    );
}

#[test]
fn context_codec_rejects_unknown_versions_and_trailing_bytes() {
    let mut graph = ContextGraph::new();
    let mut ids = ContextIdSource::new();
    let publication = graph
        .publish(&mut ids, draft(
            "project.rules",
            ContextOwner::Runtime,
            ContextScope::Global,
            "typed state",
        ))
        .expect("context should publish");
    let transition = publication.transitions.first().expect("created transition");
    let mut bytes = encode_transition(transition).expect("transition should encode");
    bytes.push(0);

    assert!(matches!(
        decode_transition(CONTEXT_TRANSITION_VERSION + 1, &bytes),
        Err(ContextError::InvalidEncoding(_))
    ));
    assert!(matches!(
        decode_transition(CONTEXT_TRANSITION_VERSION, &bytes),
        Err(ContextError::InvalidEncoding(_))
    ));
}

#[test]
fn artifact_backed_context_replay_resolves_and_verifies_content() {
    let mut graph = ContextGraph::new();
    let mut ids = ContextIdSource::new();
    let publication = graph
        .publish(&mut ids, draft(
            "project.large",
            ContextOwner::Runtime,
            ContextScope::Global,
            "large context payload",
        ))
        .expect("context should publish");
    let block = publication.block;
    let transition = ContextTransition::CreatedFromArtifact {
        block: block.clone(),
        artifact_hash: [7; 32],
    };

    let recovered = ContextGraph::replay_with_content(vec![transition.clone()], |artifact_hash: [u8; 32]| {
        assert_eq!(artifact_hash, [7; 32]);
        Ok(b"large context payload".to_vec())
    })
    .expect("artifact-backed context should replay");
    assert_eq!(
        recovered.content(block.content_hash).expect("content"),
        b"large context payload"
    );

    assert!(matches!(
        ContextGraph::replay_with_content(vec![transition], |_: [u8; 32]| Ok(b"tampered".to_vec())),
        Err(ContextError::HashCollision(_))
    ));
}

#[test]
fn private_context_is_not_projected_to_other_agents() {
    let owner = AgentId::from_u64(101);
    let other = AgentId::from_u64(102);
    let mut graph = ContextGraph::new();
    let mut ids = ContextIdSource::new();
    let private = graph
        .publish(&mut ids, draft(
            "agent.secret",
            ContextOwner::Agent(owner),
            ContextScope::Private(owner),
            "private note",
        ))
        .expect("private block should publish");
    let public = graph
        .publish(&mut ids, draft(
            "project.rules",
            ContextOwner::Runtime,
            ContextScope::Global,
            "be explicit",
        ))
        .expect("public block should publish");

    let request = ProjectionRequest::all();
    let owner_projection = graph.project(ContextPrincipal::Agent(owner), &request);
    let other_projection = graph.project(ContextPrincipal::Agent(other), &request);
    assert!(
        owner_projection
            .blocks
            .iter()
            .any(|block| block.block.id == private.block.id)
    );
    assert!(
        owner_projection
            .blocks
            .iter()
            .any(|block| block.block.id == public.block.id)
    );
    assert!(
        other_projection
            .blocks
            .iter()
            .all(|block| block.block.id != private.block.id)
    );
    assert!(
        other_projection
            .blocks
            .iter()
            .any(|block| block.block.id == public.block.id)
    );
}

#[test]
fn subscriptions_awaken_only_matching_visible_agents() {
    let owner = AgentId::from_u64(101);
    let other = AgentId::from_u64(102);
    let mut graph = ContextGraph::new();
    let mut ids = ContextIdSource::new();
    graph
        .subscribe(&mut ids, owner, "schema.users.*")
        .expect("subscription should register");
    graph
        .subscribe(&mut ids, other, "api.*")
        .expect("subscription should register");

    let publication = graph
        .publish(&mut ids, draft(
            "schema.users.v2",
            ContextOwner::Runtime,
            ContextScope::Team,
            "id: UUID",
        ))
        .expect("schema should publish");
    assert!(publication.awakened_agents.contains(&owner));
    assert!(!publication.awakened_agents.contains(&other));
}

#[test]
fn projections_enforce_block_and_token_limits() {
    let owner = AgentId::from_u64(101);
    let mut graph = ContextGraph::new();
    let mut ids = ContextIdSource::new();
    graph
        .publish(&mut ids, draft(
                "project.one",
                ContextOwner::Runtime,
                ContextScope::Global,
                "one",
            )
            .with_token_estimate(3),
        )
        .expect("first block should publish");
    graph
        .publish(&mut ids, draft(
                "project.two",
                ContextOwner::Runtime,
                ContextScope::Global,
                "two",
            )
            .with_token_estimate(3),
        )
        .expect("second block should publish");

    let block_limited = graph.project(
        ContextPrincipal::Agent(owner),
        &ProjectionRequest {
            max_blocks: Some(1),
            ..ProjectionRequest::all()
        },
    );
    assert_eq!(block_limited.blocks.len(), 1);
    assert!(block_limited.truncated);

    let token_limited = graph.project(
        ContextPrincipal::Agent(owner),
        &ProjectionRequest {
            max_tokens: Some(2),
            ..ProjectionRequest::all()
        },
    );
    assert!(token_limited.blocks.is_empty());
    assert!(token_limited.truncated);
}

#[test]
fn projections_and_prompts_enforce_trust_policy() {
    let owner = AgentId::from_u64(101);
    let mut graph = ContextGraph::new();
    let mut ids = ContextIdSource::new();
    let trusted = graph
        .publish(&mut ids, draft(
                "project.trusted",
                ContextOwner::Runtime,
                ContextScope::Global,
                "trusted rule",
            )
            .with_trust(TrustOrigin::TrustedProject),
        )
        .expect("trusted block should publish");
    let generated = graph
        .publish(&mut ids, draft(
            "project.generated",
            ContextOwner::Runtime,
            ContextScope::Global,
            "generated note",
        ))
        .expect("generated block should publish");
    let external = graph
        .publish(&mut ids, draft(
                "project.external",
                ContextOwner::Runtime,
                ContextScope::Global,
                "untrusted page",
            )
            .with_trust(TrustOrigin::WebUntrusted),
        )
        .expect("external block should publish");

    let trusted_only = graph.project(
        ContextPrincipal::Agent(owner),
        &ProjectionRequest {
            trust_policy: ContextTrustPolicy::TrustedOnly,
            ..ProjectionRequest::all()
        },
    );
    assert_eq!(
        trusted_only
            .blocks
            .iter()
            .map(|block| block.block.id)
            .collect::<Vec<_>>(),
        vec![trusted.block.id]
    );

    let excludes_external = graph.project(
        ContextPrincipal::Agent(owner),
        &ProjectionRequest {
            trust_policy: ContextTrustPolicy::ExcludeExternal,
            ..ProjectionRequest::all()
        },
    );
    assert!(
        excludes_external
            .blocks
            .iter()
            .any(|block| block.block.id == generated.block.id)
    );
    assert!(
        !excludes_external
            .blocks
            .iter()
            .any(|block| block.block.id == external.block.id)
    );

    let layers = vec![PromptLayer::stable(
        "context",
        vec![external.block.reference()],
    )];
    assert!(matches!(
        graph.render_prompt_with_trust_policy(
            ContextPrincipal::Agent(owner),
            &layers,
            "task",
            ContextTrustPolicy::TrustedOnly,
        ),
        Err(ContextError::NotTrusted(reference)) if reference == external.block.reference()
    ));
}

#[test]
fn derived_context_combines_dependency_trust_without_upgrade() {
    let owner = AgentId::from_u64(101);
    let mut graph = ContextGraph::new();
    let mut ids = ContextIdSource::new();
    let external = graph
        .publish(&mut ids, draft(
                "source.web",
                ContextOwner::Runtime,
                ContextScope::Global,
                "untrusted source",
            )
            .with_trust(TrustOrigin::WebUntrusted),
        )
        .expect("source should publish");

    let derived = graph
        .publish(&mut ids, draft(
                "result.summary",
                ContextOwner::Agent(owner),
                ContextScope::Private(owner),
                "summary derived from source",
            )
            .with_trust(TrustOrigin::TrustedProject)
            .with_dependency(external.block.reference()),
        )
        .expect("derived block should publish");

    assert_eq!(derived.block.trust, TrustOrigin::WebUntrusted);
}

#[test]
fn replay_rejects_a_persisted_context_trust_upgrade() {
    let owner = AgentId::from_u64(101);
    let mut graph = ContextGraph::new();
    let mut ids = ContextIdSource::new();
    let external = graph
        .publish(&mut ids, draft(
                "source.web",
                ContextOwner::Runtime,
                ContextScope::Global,
                "untrusted source",
            )
            .with_trust(TrustOrigin::WebUntrusted),
        )
        .expect("source should publish");
    let mut forged = draft(
        "result.summary",
        ContextOwner::Agent(owner),
        ContextScope::Private(owner),
        "summary derived from source",
    )
    .with_trust(TrustOrigin::TrustedProject)
    .with_dependency(external.block.reference());
    forged.created_event = Some(EventId::from_u64(77));
    let content_hash = DeterministicContentHasher.hash(&forged.content);
    let block = ContextBlock {
        id: ContextBlockId::new(&mut ids),
        revision: 1,
        namespace: forged.namespace,
        kind: forged.kind,
        owner: forged.owner,
        scope: forged.scope,
        content_hash,
        token_estimate: forged.content.len().div_ceil(4) as u64,
        trust: forged.trust,
        importance: forged.importance,
        lifecycle: ContextLifecycle::Active,
        pinned: false,
        dependencies: forged.dependencies,
        sources: forged.sources,
        created_event: forged.created_event,
        last_access_ms: None,
    };

    let result = ContextGraph::replay(vec![
        ContextTransition::Created {
            block: external.block,
            content: b"untrusted source".to_vec(),
        },
        ContextTransition::Created {
            block,
            content: b"summary derived from source".to_vec(),
        },
    ]);
    assert!(matches!(result, Err(ContextError::TrustUpgrade { .. })));
}

#[test]
fn prompt_renderer_preserves_stable_prefix_hash() {
    let owner = AgentId::from_u64(101);
    let mut graph = ContextGraph::new();
    let mut ids = ContextIdSource::new();
    let rules = graph
        .publish(&mut ids, draft(
            "project.rules",
            ContextOwner::Runtime,
            ContextScope::Global,
            "Use typed state.",
        ))
        .expect("rules should publish");
    let layers = vec![PromptLayer::stable(
        "runtime",
        vec![rules.block.reference()],
    )];
    let first = graph
        .render_prompt(ContextPrincipal::Agent(owner), &layers, "first task")
        .expect("prompt should render");
    let second = graph
        .render_prompt(ContextPrincipal::Agent(owner), &layers, "second task")
        .expect("prompt should render");
    assert_eq!(first.stable_prefix_hash, second.stable_prefix_hash);
    assert_ne!(first.text, second.text);
    assert!(first.text.contains("Use typed state."));
    assert!(first.stable_prefix_bytes > 0);
}

#[test]
fn content_is_deduplicated_by_hash() {
    let owner = AgentId::from_u64(101);
    let mut graph = ContextGraph::new();
    let mut ids = ContextIdSource::new();
    let first = graph
        .publish(&mut ids, draft(
            "one",
            ContextOwner::Agent(owner),
            ContextScope::Private(owner),
            "same",
        ))
        .expect("first block should publish");
    let second = graph
        .publish(&mut ids, draft(
            "two",
            ContextOwner::Agent(owner),
            ContextScope::Private(owner),
            "same",
        ))
        .expect("second block should publish");
    assert_eq!(first.block.content_hash, second.block.content_hash);
    assert_eq!(
        graph.content(first.block.content_hash).expect("content"),
        b"same"
    );
}

fn note(namespace: &str, content: &str) -> ContextDraft {
    ContextDraft::new(
        namespace,
        ContextKind::Note,
        ContextOwner::Runtime,
        ContextScope::Global,
        content,
    )
}

#[test]
fn staleness_spreads_through_live_dependents() {
    let mut graph = ContextGraph::new();
    let mut ids = ContextIdSource::new();
    let base = graph.publish(&mut ids, note("base", "0")).unwrap().block.reference();
    let first = graph
        .publish(&mut ids, note("first", "1").with_dependency(base))
        .unwrap()
        .block
        .reference();
    let second = graph
        .publish(&mut ids, note("second", "2").with_dependency(first))
        .unwrap()
        .block
        .reference();
    let apart = graph.publish(&mut ids, note("apart", "3")).unwrap().block.reference();
    let notices = graph.invalidate(base, "wrong").unwrap();
    let named: Vec<ContextRef> = notices.iter().map(|notice| notice.block).collect();
    assert_eq!(named, vec![base, first, second]);
    assert_eq!(notices[2].dependency, Some(first));
    assert_eq!(graph.block(base).unwrap().lifecycle, ContextLifecycle::Invalidated);
    assert_eq!(graph.block(second).unwrap().lifecycle, ContextLifecycle::Stale);
    assert_eq!(graph.block(apart).unwrap().lifecycle, ContextLifecycle::Active);
    assert_eq!(graph.invalidation_count(), 3);
    assert_eq!(graph.invalidations()[0].reason, "wrong");
}

#[test]
fn archived_blocks_do_not_carry_staleness_on() {
    let mut graph = ContextGraph::new();
    let mut ids = ContextIdSource::new();
    let base = graph.publish(&mut ids, note("base", "0")).unwrap().block.reference();
    let first = graph
        .publish(&mut ids, note("first", "1").with_dependency(base))
        .unwrap()
        .block
        .reference();
    let second = graph
        .publish(&mut ids, note("second", "2").with_dependency(first))
        .unwrap()
        .block
        .reference();
    graph.archive(first).unwrap();
    let replacement = graph.publish(&mut ids, note("base", "00")).unwrap();
    assert!(replacement.invalidations.is_empty());
    assert_eq!(graph.block(first).unwrap().lifecycle, ContextLifecycle::Archived);
    assert_eq!(graph.block(second).unwrap().lifecycle, ContextLifecycle::Active);
    assert_eq!(replacement.block.revision, 2);
}

#[test]
fn refused_drafts_leave_the_graph_alone() {
    let mut graph = ContextGraph::new();
    let mut ids = ContextIdSource::new();
    assert_eq!(
        graph.publish(&mut ids, note(" \t", "x")),
        Err(ContextError::EmptyNamespace)
    );
    let foreign = ContextDraft::new(
        "n",
        ContextKind::Note,
        ContextOwner::Agent(AgentId::from_u64(1)),
        ContextScope::Private(AgentId::from_u64(2)),
        "x",
    );
    assert_eq!(
        graph.publish(&mut ids, foreign),
        Err(ContextError::InvalidPrivateScope)
    );
    let missing = ContextRef { block_id: ContextBlockId::from_u64(9), revision: 1 };
    assert_eq!(
        graph.publish(&mut ids, note("n", "x").with_dependency(missing)),
        Err(ContextError::UnknownBlock(missing))
    );
    let known = graph.publish(&mut ids, note("n", "x")).unwrap().block.reference();
    let wrong = ContextRef { revision: 2, ..known };
    assert_eq!(
        graph.publish(&mut ids, note("m", "x").with_dependency(wrong)),
        Err(ContextError::UnknownBlock(wrong))
    );
    assert_eq!(graph.block_count(), 1);
    assert_eq!(graph.namespace_count(), 1);
    assert_eq!(known.to_text(), "context-0000000000000001@1");
}

#[test]
fn subscriptions_end_and_wake_each_agent_once() {
    let mut graph = ContextGraph::new();
    let mut ids = ContextIdSource::new();
    let agent = AgentId::from_u64(5);
    let earlier = AgentId::from_u64(4);
    assert_eq!(
        graph.subscribe(&mut ids, agent, "  "),
        Err(ContextError::InvalidSubscriptionPattern)
    );
    let first = graph.subscribe(&mut ids, agent, "*").unwrap();
    graph.subscribe(&mut ids, agent, "a").unwrap();
    graph.subscribe(&mut ids, earlier, "a.*").unwrap();
    assert_eq!(graph.subscription_count(), 3);
    let woken = graph.publish(&mut ids, note("a", "x")).unwrap().awakened_agents;
    assert_eq!(woken, vec![agent]);
    let woken = graph.publish(&mut ids, note("a.b", "x")).unwrap().awakened_agents;
    assert_eq!(woken, vec![earlier, agent]);
    let woken = graph.publish(&mut ids, note("ab.c", "x")).unwrap().awakened_agents;
    assert_eq!(woken, vec![agent]);
    assert!(graph.unsubscribe(first));
    assert!(!graph.unsubscribe(first));
    let woken = graph.publish(&mut ids, note("z", "x")).unwrap().awakened_agents;
    assert!(woken.is_empty());
}

#[test]
fn replay_needs_the_artifacts_it_refers_to() {
    let mut graph = ContextGraph::new();
    let mut ids = ContextIdSource::new();
    let block = graph.publish(&mut ids, note("n", "payload")).unwrap().block;
    let transition = ContextTransition::CreatedFromArtifact {
        block: block.clone(),
        artifact_hash: [3; 32],
    };
    let log = ContextEventLog::from_transitions(vec![transition.clone()]);
    assert!(matches!(
        log.replay(),
        Err(ContextError::MissingArtifact(hash)) if hash == [3; 32]
    ));
    let found = log
        .replay_with_content(|_: [u8; 32]| Ok(b"payload".to_vec()))
        .expect("content should resolve");
    assert_eq!(found.latest("n"), Some(block.reference()));
    let failed = log.replay_with_content(|_: [u8; 32]| {
        Err(ContextError::ArtifactResolution("offline".to_owned()))
    });
    assert_eq!(
        failed.err().map(|error| error.to_text()),
        Some("context artifact resolution failed: offline".to_owned())
    );
    let twice = ContextGraph::replay_with_content(
        vec![transition.clone(), transition],
        |_: [u8; 32]| Ok(b"payload".to_vec()),
    );
    assert!(matches!(twice, Err(ContextError::HashCollision(_))));
}

#[test]
fn replay_refuses_transitions_of_unknown_blocks() {
    let missing = ContextRef { block_id: ContextBlockId::from_u64(9), revision: 1 };
    for transition in [
        ContextTransition::Superseded(missing),
        ContextTransition::Archived(missing),
        ContextTransition::Restored(missing),
        ContextTransition::Pinned(missing),
        ContextTransition::Unpinned(missing),
        ContextTransition::Invalidated { block: missing, dependency: None, reason: "r".to_owned() },
    ] {
        assert_eq!(
            ContextGraph::replay(vec![transition]).err(),
            Some(ContextError::UnknownBlock(missing))
        );
    }
}

#[test]
fn searches_rank_by_importance_and_keep_to_their_limit() {
    let mut graph = ContextGraph::new();
    let mut ids = ContextIdSource::new();
    for (name, importance) in [("a", 10u8), ("b", 90u8), ("c", 50u8), ("d", 90u8)] {
        let mut draft = note(name, "common WORD");
        draft.importance = importance;
        graph.publish(&mut ids, draft).unwrap();
    }
    let mut request = ContextSearchRequest::new("word");
    request.max_results = 3;
    let hits = graph.search(ContextPrincipal::Runtime, &request).unwrap();
    let names: Vec<&str> = hits.iter().map(|hit| hit.summary.namespace.as_str()).collect();
    assert_eq!(names, vec!["b", "d", "c"]);
    assert!(hits.iter().all(|hit| hit.matched_content && !hit.matched_namespace));
    request.max_results = 0;
    assert!(graph.search(ContextPrincipal::Runtime, &request).unwrap().is_empty());
    assert!(matches!(
        graph.search(ContextPrincipal::Runtime, &ContextSearchRequest::new(&"q".repeat(513))),
        Err(ContextError::InvalidSearchQuery(_))
    ));
    let mut request = ContextSearchRequest::new("word");
    request.namespace_patterns = vec!["c".to_owned()];
    assert_eq!(graph.search(ContextPrincipal::Runtime, &request).unwrap().len(), 1);
}

#[test]
fn searches_read_content_that_is_not_text() {
    let mut graph = ContextGraph::new();
    let mut ids = ContextIdSource::new();
    let draft = ContextDraft::from_bytes(
        "raw",
        ContextKind::Custom("blob".to_owned()),
        ContextOwner::Runtime,
        ContextScope::Global,
        vec![0xff, b'H', b'i', 0xfe],
    );
    let block = graph.publish(&mut ids, draft).unwrap().block;
    let hits = graph
        .search(ContextPrincipal::Runtime, &ContextSearchRequest::new("hi"))
        .unwrap();
    assert_eq!(hits.len(), 1);
    let prompt = graph
        .render_prompt(
            ContextPrincipal::Runtime,
            &[PromptLayer::volatile("raw", vec![block.reference()])],
            "t",
        )
        .unwrap();
    assert_eq!(prompt.text, "[raw]\n\u{FFFD}Hi\u{FFFD}\n[task]\nt\n");
    assert_eq!(prompt.stable_prefix_bytes, 0);
    assert_eq!(prompt.estimated_tokens, 6);
}

#[test]
fn stable_prefixes_end_at_the_first_volatile_layer() {
    let mut graph = ContextGraph::new();
    let mut ids = ContextIdSource::new();
    let one = graph.publish(&mut ids, note("one", "1")).unwrap().block.reference();
    let two = graph.publish(&mut ids, note("two", "2")).unwrap().block.reference();
    let prefix = graph
        .render_prompt(ContextPrincipal::Runtime, &[PromptLayer::stable("s", vec![one])], "x")
        .unwrap();
    let whole = graph
        .render_prompt(
            ContextPrincipal::Runtime,
            &[
                PromptLayer::stable("s", vec![one]),
                PromptLayer::volatile("v", vec![two]),
                PromptLayer::stable("late", vec![two]),
            ],
            "y",
        )
        .unwrap();
    assert_eq!(prefix.stable_prefix_hash, whole.stable_prefix_hash);
    assert_eq!(whole.stable_prefix_bytes, "[s]\n1\n".len());
    assert_eq!(whole.text, "[s]\n1\n[v]\n2\n[late]\n2\n[task]\ny\n");
}

#[test]
fn prompts_refuse_what_a_principal_may_not_see() {
    let mut graph = ContextGraph::new();
    let mut ids = ContextIdSource::new();
    let owner = AgentId::from_u64(1);
    let private = graph
        .publish(
            &mut ids,
            ContextDraft::new(
                "p",
                ContextKind::Note,
                ContextOwner::Agent(owner),
                ContextScope::Private(owner),
                "secret",
            ),
        )
        .unwrap()
        .block
        .reference();
    let layers = [PromptLayer::stable("s", vec![private])];
    assert_eq!(
        graph.render_prompt(ContextPrincipal::Agent(AgentId::from_u64(2)), &layers, "t"),
        Err(ContextError::NotVisible(private))
    );
    assert!(graph.render_prompt(ContextPrincipal::Runtime, &layers, "t").is_ok());
    let unknown = ContextRef { revision: 7, ..private };
    assert_eq!(
        graph.render_prompt(
            ContextPrincipal::Runtime,
            &[PromptLayer::stable("s", vec![unknown])],
            "t"
        ),
        Err(ContextError::UnknownBlock(unknown))
    );
}

#[test]
fn dependency_reports_are_bounded() {
    let mut graph = ContextGraph::new();
    let mut ids = ContextIdSource::new();
    let base = graph.publish(&mut ids, note("base", "0")).unwrap().block.reference();
    for name in ["a", "b", "c"] {
        let mut draft = note(name, name);
        draft.sources.push(base);
        graph.publish(&mut ids, draft).unwrap();
    }
    let report = graph.dependency_report(base, 2).unwrap();
    assert_eq!(report.dependents.len(), 2);
    assert!(report.dependents_truncated);
    assert!(!graph.dependency_report(base, 3).unwrap().dependents_truncated);
    let unknown = ContextRef { revision: 7, ..base };
    assert_eq!(
        graph.dependency_report(unknown, 2),
        Err(ContextError::UnknownBlock(unknown))
    );
}

#[test]
fn contents_are_looked_up_by_their_digest() {
    let mut graph = ContextGraph::new();
    let mut ids = ContextIdSource::new();
    let block = graph.publish(&mut ids, note("n", "abc")).unwrap().block;
    assert_eq!(block.content_hash, DeterministicContentHasher.hash(b"abc"));
    assert_eq!(block.token_estimate, 1);
    let other = ContentHash::from_digest([1; 32]);
    assert_eq!(graph.content(other), Err(ContextError::UnknownContent(other)));
    assert_eq!(graph.latest("missing"), None);
}

#[test]
fn transitions_read_back_and_truncations_are_refused() {
    let mut graph = ContextGraph::new();
    let mut ids = ContextIdSource::new();
    let base = graph.publish(&mut ids, note("base", "0")).unwrap();
    let mut draft = note("n", "content").with_dependency(base.block.reference());
    draft.created_event = Some(EventId::from_u64(5));
    draft.kind = ContextKind::Custom("special".to_owned());
    let publication = graph.publish(&mut ids, draft).unwrap();
    let replaced = graph.publish(&mut ids, note("base", "1")).unwrap();
    for transition in publication.transitions.iter().chain(replaced.transitions.iter()) {
        let bytes = encode_transition(transition).unwrap();
        assert_eq!(
            &decode_transition(CONTEXT_TRANSITION_VERSION, &bytes).unwrap(),
            transition
        );
        for length in 0..bytes.len() {
            assert!(decode_transition(CONTEXT_TRANSITION_VERSION, &bytes[..length]).is_err());
        }
    }
}

#[test]
fn stable_prefixes_begin_the_text() {
    let mut graph = ContextGraph::new();
    let mut ids = ContextIdSource::new();
    let mut references = Vec::new();
    for (namespace, content) in [("project.rules", "Use typed state \u{2014} always."), ("news", "x")] {
        let publication = graph.publish(&mut ids, note(namespace, content)).unwrap();
        references.push(publication.block.reference());
    }
    let layers = vec![
        PromptLayer::stable("rules", vec![references[0]]),
        PromptLayer::volatile("news", vec![references[1]]),
        PromptLayer::stable("late", vec![references[0]]),
    ];
    let prompt = graph
        .render_prompt(ContextPrincipal::Runtime, &layers, "task")
        .unwrap();
    let prefix = &prompt.text.as_bytes()[..prompt.stable_prefix_bytes];
    assert!(prompt.stable_prefix_bytes > 0);
    assert!(prompt.stable_prefix_bytes < prompt.text.len());
    assert_eq!(prompt.stable_prefix_hash, DeterministicContentHasher.hash(prefix));
}
