//! What publishing, invalidating and keeping context blocks does.

use vstd::prelude::*;

use crate::context::{
    context_digest, ContextBlockId, ContextBlockView, ContextDraftView, ContextErrorView,
    ContextLifecycle, ContextOwner, ContextRef, ContextScope, ContextTransitionView,
    InvalidationView, SubscriptionId,
};
use crate::context_graph::{
    applied, blocks_with_draft, drafted_block, first_absent, first_unknown, inputs,
    invalidated_graph, invalidation_notices, namespace_matches, origins, publication_notices,
    publication_transitions, published_graph, refusal, superseded_reason, touched, wakes,
    with_lifecycle, ContextGraphView, ContextSubscriptionView,
};
use crate::context_laws::{
    depends_on, is_path, spread_fits, spread_from, staleness_follows_dependencies,
};
use crate::ids::AgentId;
use crate::kernel::{combination_never_upgrades_trust, TrustOrigin};
use crate::projection_laws::{pattern_fits, patterns_match_what_they_fit};
use crate::text::blank;

verus! {

// ---------------------------------------------------------------------------
// What is published.

/// A published block says what its draft said, under the identity it was
/// given, with the content it was given. It is estimated at a token for every
/// four bytes where the draft gives no estimate, and trusted as its least
/// trusted input is.
pub proof fn published_blocks_say_what_was_drafted(
    graph: ContextGraphView,
    draft: ContextDraftView,
    id: ContextBlockId,
)
    requires
        refusal(graph, draft) is None,
        graph.newest(draft.namespace) matches Some(previous) ==> previous.revision < u64::MAX,
        draft.content.len() <= usize::MAX,
    ensures
        ({
            let now = published_graph(graph, draft, id);
            let block = now.blocks[id];
            let rests_on = draft.dependencies + draft.sources;
            &&& now.blocks.contains_key(id)
            &&& block.id == id
            &&& block.namespace == draft.namespace
            &&& block.kind == draft.kind
            &&& block.owner == draft.owner
            &&& block.scope == draft.scope
            &&& block.importance == draft.importance
            &&& block.dependencies == draft.dependencies
            &&& block.sources == draft.sources
            &&& block.created_event == draft.created_event
            &&& !block.pinned
            &&& block.last_access_ms is None
            &&& block.lifecycle == ContextLifecycle::Active || block.lifecycle
                == ContextLifecycle::Stale
            &&& graph.newest(draft.namespace) is None ==> block.revision == 1 && block.lifecycle
                == ContextLifecycle::Active
            &&& graph.newest(draft.namespace) matches Some(previous) ==> block.revision
                == previous.revision + 1
            &&& now.content.contains_key(block.content_hash)
            &&& now.content[block.content_hash] == draft.content
            &&& draft.token_estimate != 0 ==> block.token_estimate == draft.token_estimate
            &&& draft.token_estimate == 0 ==> draft.content.len() <= 4 * block.token_estimate
                && 4 * block.token_estimate < draft.content.len() + 4
            &&& block.trust.rank() <= draft.trust.rank()
            &&& forall|i: int|
                0 <= i < rests_on.len() ==> block.trust.rank() <= (
                #[trigger] graph.blocks[rests_on[i].block_id]).trust.rank()
            &&& block.trust == draft.trust || exists|i: int|
                0 <= i < rests_on.len() && block.trust == (
                #[trigger] graph.blocks[rests_on[i].block_id]).trust
        }),
{
    let all = origins(graph.blocks, inputs(draft));
    let rests_on = draft.dependencies + draft.sources;
    combination_never_upgrades_trust(draft.trust, all);
    let trust = drafted_block(graph, draft, id).trust;
    assert forall|i: int| 0 <= i < rests_on.len() implies trust.rank() <= (
    #[trigger] graph.blocks[rests_on[i].block_id]).trust.rank() by {
        assert(all[i] == graph.blocks[rests_on[i].block_id].trust);
    }
    if trust != draft.trust {
        let i = choose|i: int| 0 <= i < all.len() && all[i] == trust;
        assert(graph.blocks[rests_on[i].block_id].trust == trust);
    }
}

/// A publication adds one version to its namespace and keeps the earlier ones
/// in order. Other namespaces and all subscriptions stay, and the notices that
/// it gives are added to those that were there.
pub proof fn publications_add_one_version(
    graph: ContextGraphView,
    draft: ContextDraftView,
    id: ContextBlockId,
)
    requires
        refusal(graph, draft) is None,
    ensures
        ({
            let now = published_graph(graph, draft, id);
            let before = graph.versions(draft.namespace);
            let after = now.versions(draft.namespace);
            &&& after.len() == before.len() + 1
            &&& after.take(before.len() as int) == before
            &&& after.last().block_id == id
            &&& forall|other: Seq<char>|
                other != draft.namespace ==> #[trigger] now.versions(other) == graph.versions(other)
            &&& now.subscriptions == graph.subscriptions
            &&& now.invalidations == graph.invalidations + publication_notices(graph, draft, id)
            &&& now.blocks.dom() =~= if graph.newest(draft.namespace) is Some {
                graph.blocks.dom().insert(graph.newest(draft.namespace)->0.block_id).insert(id)
            } else {
                graph.blocks.dom().insert(id)
            }
        }),
{
    let now = published_graph(graph, draft, id);
    let before = graph.versions(draft.namespace);
    assert(now.versions(draft.namespace).take(before.len() as int) =~= before);
}

/// A publication is recorded as what it was: the block and its content, then
/// the version that it replaces, then one notice for each block that went
/// stale.
pub proof fn publications_are_recorded(
    graph: ContextGraphView,
    draft: ContextDraftView,
    id: ContextBlockId,
)
    ensures
        ({
            let notices = publication_notices(graph, draft, id);
            let transitions = publication_transitions(graph, draft, id);
            let first = if graph.newest(draft.namespace) is Some {
                2int
            } else {
                1int
            };
            &&& transitions.len() == first + notices.len()
            &&& transitions[0] matches ContextTransitionView::Created { block, content } && content
                == draft.content && block.id == id && block.namespace == draft.namespace
                && block.lifecycle == ContextLifecycle::Active
            &&& graph.newest(draft.namespace) matches Some(previous) ==> transitions[1]
                == ContextTransitionView::Superseded(previous)
            &&& forall|i: int|
                0 <= i < notices.len() ==> #[trigger] transitions[first + i] == (
                ContextTransitionView::Invalidated {
                    block: notices[i].block,
                    dependency: notices[i].dependency,
                    reason: notices[i].reason,
                })
        }),
{
}

/// A draft is accepted exactly where its namespace says something, a private
/// one belongs to the agent it is private to, everything it rests on is there
/// at its revision, and its digest stands for no other content.
pub proof fn sound_drafts_are_accepted(graph: ContextGraphView, draft: ContextDraftView)
    ensures
        refusal(graph, draft) is None <==> {
            &&& !blank(draft.namespace)
            &&& draft.scope matches ContextScope::Private(agent_id) ==> draft.owner
                == ContextOwner::Agent(agent_id)
            &&& forall|i: int|
                0 <= i < draft.dependencies.len() ==> graph.knows(#[trigger] draft.dependencies[i])
            &&& forall|i: int|
                0 <= i < draft.sources.len() ==> graph.knows(#[trigger] draft.sources[i])
            &&& graph.content.contains_key(context_digest(draft.content)) ==> graph.content[
                context_digest(draft.content)] == draft.content
        },
{
    let all = inputs(draft);
    absent_or_unknown(graph, all);
    if forall|i: int| 0 <= i < all.len() ==> graph.knows(#[trigger] all[i]) {
        assert forall|i: int| 0 <= i < draft.dependencies.len() implies graph.knows(
            #[trigger] draft.dependencies[i],
        ) by {
            assert(all[i] == draft.dependencies[i]);
        }
        assert forall|i: int| 0 <= i < draft.sources.len() implies graph.knows(
            #[trigger] draft.sources[i],
        ) by {
            assert(all[draft.dependencies.len() + i] == draft.sources[i]);
        }
    } else {
        let i = choose|i: int| 0 <= i < all.len() && !graph.knows(#[trigger] all[i]);
        if i < draft.dependencies.len() {
            assert(all[i] == draft.dependencies[i]);
        } else {
            assert(all[i] == draft.sources[i - draft.dependencies.len()]);
        }
    }
}

proof fn absent_or_unknown(graph: ContextGraphView, references: Seq<ContextRef>)
    ensures
        first_absent(graph.blocks, references) is None && first_unknown(graph, references) is None
            <==> forall|i: int|
            0 <= i < references.len() ==> graph.knows(#[trigger] references[i]),
    decreases references.len(),
{
    if references.len() > 0 {
        let rest = references.drop_last();
        let last = references.len() - 1;
        absent_or_unknown(graph, rest);
        if forall|i: int| 0 <= i < references.len() ==> graph.knows(#[trigger] references[i]) {
            assert forall|i: int| 0 <= i < rest.len() implies graph.knows(#[trigger] rest[i]) by {
                assert(rest[i] == references[i]);
            }
            assert(graph.knows(references[last]));
        }
        if first_absent(graph.blocks, references) is None && first_unknown(graph, references)
            is None {
            assert forall|i: int| 0 <= i < references.len() implies graph.knows(
                #[trigger] references[i],
            ) by {
                if i < last {
                    assert(rest[i] == references[i]);
                }
            }
        }
    }
}

// ---------------------------------------------------------------------------
// What goes stale.

/// The block is in use.
pub open spec fn in_use(block: ContextBlockView) -> bool {
    block.lifecycle == ContextLifecycle::Active || block.lifecycle == ContextLifecycle::Stale
}

/// Each link of a chain of dependence is a block in use that names the link
/// before it as a dependency.
pub proof fn chains_are_dependencies(
    blocks: Map<ContextBlockId, ContextBlockView>,
    path: Seq<ContextRef>,
    cause: ContextRef,
    end: ContextRef,
    i: int,
)
    requires
        blocks.dom().finite(),
        forall|id: ContextBlockId| #[trigger] blocks.contains_key(id) ==> blocks[id].id == id,
        is_path(blocks, path, cause, end),
        0 < i < path.len(),
    ensures
        path[0] == cause,
        path.last() == end,
        blocks.contains_key(path[i].block_id),
        blocks[path[i].block_id].reference() == path[i],
        in_use(blocks[path[i].block_id]),
        blocks[path[i].block_id].dependencies.contains(path[i - 1]),
{
    crate::context_graph::live_dependents_depend(blocks, path[i - 1]);
    let dependents = crate::context_graph::live_dependents(blocks, path[i - 1]);
    assert(dependents.contains(path[i]));
    let k = choose|k: int| 0 <= k < dependents.len() && dependents[k] == path[i];
    assert(dependents[k] == path[i]);
}

/// A publication supersedes the version before it. Of the other blocks,
/// exactly those in use that depend on that version, directly or through
/// others, go stale; the rest keep their lifecycle.
pub proof fn publications_make_dependents_stale(
    graph: ContextGraphView,
    draft: ContextDraftView,
    id: ContextBlockId,
    other: ContextBlockId,
)
    requires
        graph.valid(),
        refusal(graph, draft) is None,
        !graph.blocks.contains_key(id),
        graph.blocks.contains_key(other),
    ensures
        ({
            let now = published_graph(graph, draft, id).blocks[other];
            let before = graph.blocks[other];
            let blocks = blocks_with_draft(graph, draft, id);
            match graph.newest(draft.namespace) {
                None => now == before,
                Some(previous) => {
                    &&& other == previous.block_id ==> now.lifecycle
                        == ContextLifecycle::Superseded
                    &&& other != previous.block_id ==> now.lifecycle == if depends_on(
                        blocks,
                        previous,
                        before.reference(),
                    ) {
                        ContextLifecycle::Stale
                    } else {
                        before.lifecycle
                    }
                },
            }
        }),
{
    if let Some(previous) = graph.newest(draft.namespace) {
        let blocks = blocks_with_draft(graph, draft, id);
        let reason = superseded_reason(previous);
        let versions = graph.namespaces[draft.namespace];
        assert(graph.blocks.contains_key(versions[versions.len() - 1].block_id));
        assert(blocks.dom() =~= graph.blocks.dom().insert(id));
        spread_fits(blocks, reason, previous);
        let all = spread_from(blocks, reason, previous);
        noticed_blocks_are_touched(blocks, reason, previous, other);
        if other == previous.block_id && touched(all, other) {
            let i = choose|i: int|
                0 <= i < all.len() && (#[trigger] all[i]).block.block_id == other;
            assert(blocks[other].lifecycle.live());
        }
    } else {
        assert(!touched(publication_notices(graph, draft, id), other));
    }
}

proof fn noticed_blocks_are_touched(
    blocks: Map<ContextBlockId, ContextBlockView>,
    reason: Seq<char>,
    cause: ContextRef,
    id: ContextBlockId,
)
    requires
        blocks.dom().finite(),
        forall|id: ContextBlockId| #[trigger] blocks.contains_key(id) ==> blocks[id].id == id,
        blocks.contains_key(id),
    ensures
        touched(spread_from(blocks, reason, cause), id) <==> depends_on(
            blocks,
            cause,
            blocks[id].reference(),
        ),
{
    let all = spread_from(blocks, reason, cause);
    let reference = blocks[id].reference();
    staleness_follows_dependencies(blocks, reason, cause, reference);
    spread_fits(blocks, reason, cause);
    if touched(all, id) {
        let i = choose|i: int| 0 <= i < all.len() && (#[trigger] all[i]).block.block_id == id;
        assert(blocks[all[i].block.block_id].reference() == all[i].block);
    }
    if depends_on(blocks, cause, reference) {
        let i = choose|i: int| 0 <= i < all.len() && (#[trigger] all[i]).block == reference;
        assert(all[i].block.block_id == id);
    }
}

/// Each notice of a publication names a block in use, a version that the block
/// depends on, and the version that was superseded as the reason.
pub proof fn notices_say_why(
    graph: ContextGraphView,
    draft: ContextDraftView,
    id: ContextBlockId,
    i: int,
)
    requires
        graph.valid(),
        refusal(graph, draft) is None,
        !graph.blocks.contains_key(id),
        0 <= i < publication_notices(graph, draft, id).len(),
    ensures
        ({
            let blocks = blocks_with_draft(graph, draft, id);
            let notice = publication_notices(graph, draft, id)[i];
            let block = blocks[notice.block.block_id];
            graph.newest(draft.namespace) matches Some(previous) && {
                &&& blocks.contains_key(notice.block.block_id)
                &&& block.reference() == notice.block
                &&& in_use(block)
                &&& notice.dependency matches Some(dependency) && block.dependencies.contains(
                    dependency,
                )
                &&& notice.reason == "dependency "@ + previous.text() + " was superseded"@
            }
        }),
{
    let previous = graph.newest(draft.namespace)->0;
    let blocks = blocks_with_draft(graph, draft, id);
    let versions = graph.namespaces[draft.namespace];
    assert(graph.blocks.contains_key(versions[versions.len() - 1].block_id));
    assert(blocks.dom() =~= graph.blocks.dom().insert(id));
    spread_notices_say_why(blocks, superseded_reason(previous), previous, i);
}

proof fn spread_notices_say_why(
    blocks: Map<ContextBlockId, ContextBlockView>,
    reason: Seq<char>,
    cause: ContextRef,
    i: int,
)
    requires
        blocks.dom().finite(),
        forall|id: ContextBlockId| #[trigger] blocks.contains_key(id) ==> blocks[id].id == id,
        0 <= i < spread_from(blocks, reason, cause).len(),
    ensures
        ({
            let notice = spread_from(blocks, reason, cause)[i];
            let block = blocks[notice.block.block_id];
            &&& blocks.contains_key(notice.block.block_id)
            &&& block.reference() == notice.block
            &&& in_use(block)
            &&& notice.dependency matches Some(dependency) && block.dependencies.contains(
                dependency,
            )
            &&& notice.reason == reason
        }),
{
    let all = spread_from(blocks, reason, cause);
    spread_fits(blocks, reason, cause);
    let notice = all[i];
    let dependency = notice.dependency->0;
    crate::context_graph::live_dependents_depend(blocks, dependency);
    let dependents = crate::context_graph::live_dependents(blocks, dependency);
    assert(dependents.contains(notice.block));
    let k = choose|k: int| 0 <= k < dependents.len() && dependents[k] == notice.block;
    assert(dependents[k] == notice.block);
}

/// An invalidated block is marked as such, its notice comes first and names no
/// dependency, and exactly the blocks in use that depend on it go stale.
/// Nothing else changes.
pub proof fn invalidations_make_dependents_stale(
    graph: ContextGraphView,
    reference: ContextRef,
    reason: Seq<char>,
    other: ContextBlockId,
)
    requires
        graph.valid(),
        graph.knows(reference),
        graph.blocks.contains_key(other),
    ensures
        ({
            let now = invalidated_graph(graph, reference, reason);
            let given = invalidation_notices(graph, reference, reason);
            let before = graph.blocks[other];
            let blocks = graph.blocks.insert(
                reference.block_id,
                ContextBlockView {
                    lifecycle: ContextLifecycle::Invalidated,
                    ..graph.blocks[reference.block_id]
                },
            );
            &&& now.blocks[other] == (ContextBlockView {
                lifecycle: now.blocks[other].lifecycle,
                ..before
            })
            &&& other == reference.block_id ==> now.blocks[other].lifecycle
                == ContextLifecycle::Invalidated
            &&& other != reference.block_id ==> now.blocks[other].lifecycle == if depends_on(
                blocks,
                reference,
                before.reference(),
            ) {
                ContextLifecycle::Stale
            } else {
                before.lifecycle
            }
            &&& given.len() > 0
            &&& given[0] == (InvalidationView { block: reference, dependency: None, reason })
            &&& forall|i: int| 0 < i < given.len() ==> (#[trigger] given[i]).reason == reason
                && given[i].dependency is Some
            &&& now.invalidations == graph.invalidations + given
            &&& now.content == graph.content
            &&& now.namespaces == graph.namespaces
            &&& now.subscriptions == graph.subscriptions
            &&& now.blocks.dom() =~= graph.blocks.dom()
        }),
{
    let blocks = with_lifecycle(
        graph.blocks,
        reference.block_id,
        ContextLifecycle::Invalidated,
    );
    assert(blocks.dom() =~= graph.blocks.dom());
    let all = spread_from(blocks, reason, reference);
    let given = invalidation_notices(graph, reference, reason);
    spread_fits(blocks, reason, reference);
    noticed_blocks_are_touched(blocks, reason, reference, other);
    if other == reference.block_id && touched(all, other) {
        let i = choose|i: int| 0 <= i < all.len() && (#[trigger] all[i]).block.block_id == other;
        assert(blocks[other].lifecycle.live());
    }
    assert forall|i: int| 0 < i < given.len() implies (#[trigger] given[i]).reason == reason
        && given[i].dependency is Some by {
        assert(given[i] == all[i - 1]);
        spread_notices_say_why(blocks, reason, reference, i - 1);
    }
}

// ---------------------------------------------------------------------------
// Who is woken.

/// An agent is woken exactly where one of its subscriptions has a pattern that
/// fits the block's namespace, and the block is not private to another.
pub proof fn subscribers_are_woken(
    subscriptions: Map<SubscriptionId, ContextSubscriptionView>,
    block: ContextBlockView,
    agent_id: AgentId,
)
    ensures
        wakes(subscriptions, block, agent_id) <==> {
            &&& exists|id: SubscriptionId|
                subscriptions.contains_key(id) && (#[trigger] subscriptions[id]).agent_id
                    == agent_id && pattern_fits(
                    subscriptions[id].namespace_pattern,
                    block.namespace,
                )
            &&& !(block.scope matches ContextScope::Private(owner) && owner != agent_id)
        },
{
    assert forall|id: SubscriptionId| namespace_matches(
        (#[trigger] subscriptions[id]).namespace_pattern,
        block.namespace,
    ) <==> pattern_fits(subscriptions[id].namespace_pattern, block.namespace) by {
        patterns_match_what_they_fit(subscriptions[id].namespace_pattern, block.namespace);
    }
}

// ---------------------------------------------------------------------------
// Single changes.

/// The transition changes one block of the graph, and only so.
pub open spec fn only_changes(
    graph: ContextGraphView,
    now: ContextGraphView,
    reference: ContextRef,
    block: ContextBlockView,
) -> bool {
    &&& now.blocks == graph.blocks.insert(reference.block_id, block)
    &&& now.content == graph.content
    &&& now.namespaces == graph.namespaces
    &&& now.subscriptions == graph.subscriptions
    &&& now.invalidations == graph.invalidations
}

/// Blocks in use can be archived, archived ones restored, unpinned ones in use
/// pinned and pinned ones unpinned; each changes that and nothing else.
pub proof fn single_changes_touch_one_block(
    graph: ContextGraphView,
    reference: ContextRef,
    resolved: Result<Seq<u8>, ContextErrorView>,
)
    ensures
        ({
            let block = graph.blocks[reference.block_id];
            let archived = applied(graph, ContextTransitionView::Archived(reference), resolved);
            let restored = applied(graph, ContextTransitionView::Restored(reference), resolved);
            let pinned = applied(graph, ContextTransitionView::Pinned(reference), resolved);
            let unpinned = applied(graph, ContextTransitionView::Unpinned(reference), resolved);
            &&& archived is Ok <==> graph.knows(reference) && in_use(block)
            &&& archived matches Ok(now) ==> only_changes(
                graph,
                now,
                reference,
                ContextBlockView { lifecycle: ContextLifecycle::Archived, ..block },
            )
            &&& restored is Ok <==> graph.knows(reference) && block.lifecycle
                == ContextLifecycle::Archived
            &&& restored matches Ok(now) ==> only_changes(
                graph,
                now,
                reference,
                ContextBlockView { lifecycle: ContextLifecycle::Active, ..block },
            )
            &&& pinned is Ok <==> graph.knows(reference) && in_use(block) && !block.pinned
            &&& pinned matches Ok(now) ==> only_changes(
                graph,
                now,
                reference,
                ContextBlockView { pinned: true, ..block },
            )
            &&& unpinned is Ok <==> graph.knows(reference) && block.pinned
            &&& unpinned matches Ok(now) ==> only_changes(
                graph,
                now,
                reference,
                ContextBlockView { pinned: false, ..block },
            )
        }),
{
}

/// A block that is replayed is taken exactly where its identity is new, its
/// content has its digest, and everything it rests on is there and trusted no
/// less than it.
pub proof fn replayed_blocks_are_checked(
    graph: ContextGraphView,
    block: ContextBlockView,
    content: Seq<u8>,
    resolved: Result<Seq<u8>, ContextErrorView>,
)
    ensures
        ({
            let now = applied(graph, ContextTransitionView::Created { block, content }, resolved);
            let rests_on = block.dependencies + block.sources;
            &&& now is Ok <==> {
                &&& !graph.blocks.contains_key(block.id)
                &&& context_digest(content) == block.content_hash
                &&& graph.content.contains_key(block.content_hash) ==> graph.content[
                    block.content_hash] == content
                &&& forall|i: int|
                    0 <= i < rests_on.len() ==> graph.knows(#[trigger] rests_on[i])
                        && block.trust.rank()
                        <= graph.blocks[rests_on[i].block_id].trust.rank()
            }
            &&& now matches Ok(next) ==> {
                &&& next.blocks == graph.blocks.insert(block.id, block)
                &&& next.content == graph.content.insert(block.content_hash, content)
                &&& next.versions(block.namespace) == graph.versions(block.namespace).push(
                    block.reference(),
                )
                &&& forall|other: Seq<char>|
                    other != block.namespace ==> #[trigger] next.versions(other)
                        == graph.versions(other)
                &&& next.subscriptions == graph.subscriptions
                &&& next.invalidations == graph.invalidations
            }
        }),
{
    checked_inputs(graph, block, block.dependencies + block.sources);
}

proof fn checked_inputs(
    graph: ContextGraphView,
    block: ContextBlockView,
    references: Seq<ContextRef>,
)
    ensures
        crate::context_graph::input_refusal(graph, block, references) is None <==> forall|i: int|
            0 <= i < references.len() ==> graph.knows(#[trigger] references[i])
                && block.trust.rank() <= graph.blocks[references[i].block_id].trust.rank(),
    decreases references.len(),
{
    if references.len() > 0 {
        let rest = references.drop_last();
        let last = references.len() - 1;
        checked_inputs(graph, block, rest);
        let all = forall|i: int|
            0 <= i < references.len() ==> graph.knows(#[trigger] references[i])
                && block.trust.rank() <= graph.blocks[references[i].block_id].trust.rank();
        if all {
            assert forall|i: int| 0 <= i < rest.len() implies graph.knows(#[trigger] rest[i])
                && block.trust.rank() <= graph.blocks[rest[i].block_id].trust.rank() by {
                assert(rest[i] == references[i]);
            }
            assert(graph.knows(references[last]));
        }
        if crate::context_graph::input_refusal(graph, block, references) is None {
            let origin = graph.blocks[references[last].block_id].trust;
            assert(block.trust.combined(origin) == block.trust);
            assert forall|i: int| 0 <= i < references.len() implies graph.knows(
                #[trigger] references[i],
            ) && block.trust.rank() <= graph.blocks[references[i].block_id].trust.rank() by {
                if i < last {
                    assert(rest[i] == references[i]);
                }
            }
        }
    }
}

// ---------------------------------------------------------------------------
// Trust.

/// The order of trust, from the web and tool results up to the runtime; and
/// what counts as trusted.
pub proof fn trust_is_ordered(origin: TrustOrigin)
    ensures
        TrustOrigin::WebUntrusted.rank() == TrustOrigin::McpResult.rank(),
        TrustOrigin::McpResult.rank() < TrustOrigin::McpMetadata.rank(),
        TrustOrigin::McpMetadata.rank() == TrustOrigin::External.rank(),
        TrustOrigin::External.rank() < TrustOrigin::RemoteAgent.rank(),
        TrustOrigin::RemoteAgent.rank() < TrustOrigin::Generated.rank(),
        TrustOrigin::Generated.rank() < TrustOrigin::UserProvided.rank(),
        TrustOrigin::UserProvided.rank() < TrustOrigin::TrustedProject.rank(),
        TrustOrigin::TrustedProject.rank() < TrustOrigin::Runtime.rank(),
        origin.trusted() <==> origin.rank() > TrustOrigin::Generated.rank(),
{
}

} // verus!
