//! What holds of everything that principals and operators read.

use vstd::prelude::*;

use crate::context::{
    ContextBlockId, ContextBlockView, ContextPrincipal, ContextRef, ContextTransitionView,
    ContextTrustPolicy,
};
use crate::context_graph::{applied, ContextGraphView};
use crate::context_views::{
    at_most, freshness, last_of, layer_text, layers_text, projected, projected_among, rendered,
    users_of, ContextFreshnessPolicy, ContextProjectionView, ProjectionRequest, PromptLayerView,
};
use crate::event_store::StoredEventView;
use crate::inspector::ahead_of;
use crate::state::Sequence;
use crate::table::listing;

verus! {

/// The lists of a freshness report are as short as its policy says.
pub proof fn freshness_reports_are_bounded(
    graph: ContextGraphView,
    policy: ContextFreshnessPolicy,
)
    ensures
        freshness(graph, policy).largest_blocks.len() <= policy.largest_block_limit,
        freshness(graph, policy).recent_invalidations.len() <= policy.recent_invalidation_limit,
{
}

/// A dependency report lists no more dependents than asked for, and says
/// whether it left any out.
pub proof fn dependency_reports_are_bounded(
    graph: ContextGraphView,
    reference: ContextRef,
    limit: nat,
)
    ensures
        ({
            let users = users_of(graph.blocks, reference);
            let shown = at_most(users, limit as int);
            &&& shown.len() <= limit
            &&& shown == users || users.len() > limit
        }),
{
}

// ---------------------------------------------------------------------------
// Pins.

/// A block without its pin.
pub open spec fn unpinned(block: ContextBlockView) -> ContextBlockView {
    ContextBlockView { pinned: false, ..block }
}

pub open spec fn unpinned_all(blocks: Seq<ContextBlockView>) -> Seq<ContextBlockView> {
    blocks.map_values(|block: ContextBlockView| unpinned(block))
}

/// The graphs are the same but for pins.
pub open spec fn same_but_for_pins(left: ContextGraphView, right: ContextGraphView) -> bool {
    &&& left.blocks.dom() == right.blocks.dom()
    &&& forall|id: ContextBlockId|
        unpinned(#[trigger] left.blocks[id]) == unpinned(#[trigger] right.blocks[id])
    &&& right == (ContextGraphView { blocks: right.blocks, ..left })
}

proof fn layers_ignore_pins(
    left: ContextGraphView,
    right: ContextGraphView,
    principal: ContextPrincipal,
    policy: ContextTrustPolicy,
    name: Seq<char>,
    references: Seq<ContextRef>,
)
    requires
        same_but_for_pins(left, right),
    ensures
        layer_text(left, principal, policy, name, references) == layer_text(
            right,
            principal,
            policy,
            name,
            references,
        ),
    decreases references.len(),
{
    if references.len() > 0 {
        layers_ignore_pins(left, right, principal, policy, name, references.drop_last());
        let id = references.last().block_id;
        assert(left.blocks.dom().contains(id) == right.blocks.dom().contains(id));
        assert(unpinned(left.blocks[id]) == unpinned(right.blocks[id]));
    }
}

proof fn prompts_ignore_pins(
    left: ContextGraphView,
    right: ContextGraphView,
    principal: ContextPrincipal,
    policy: ContextTrustPolicy,
    layers: Seq<PromptLayerView>,
)
    requires
        same_but_for_pins(left, right),
    ensures
        layers_text(left, principal, policy, layers) == layers_text(
            right,
            principal,
            policy,
            layers,
        ),
    decreases layers.len(),
{
    if layers.len() > 0 {
        prompts_ignore_pins(left, right, principal, policy, layers.drop_last());
        let layer = layers.last();
        layers_ignore_pins(left, right, principal, policy, layer.name, layer.references);
    }
}

/// The projections show the same blocks, but for pins.
pub open spec fn same_projection(
    left: ContextProjectionView,
    right: ContextProjectionView,
) -> bool {
    &&& unpinned_all(left.blocks) == unpinned_all(right.blocks)
    &&& left.estimated_tokens == right.estimated_tokens
    &&& left.truncated == right.truncated
}

proof fn projections_ignore_pins(
    left: ContextGraphView,
    right: ContextGraphView,
    principal: ContextPrincipal,
    request: ProjectionRequest,
    names: Seq<Seq<char>>,
)
    requires
        same_but_for_pins(left, right),
    ensures
        same_projection(
            projected_among(left, principal, request, names),
            projected_among(right, principal, request, names),
        ),
    decreases names.len(),
{
    if names.len() > 0 {
        let before = names.drop_last();
        projections_ignore_pins(left, right, principal, request, before);
        let a = projected_among(left, principal, request, before);
        let b = projected_among(right, principal, request, before);
        assert(unpinned_all(a.blocks).len() == unpinned_all(b.blocks).len());
        let versions = left.namespaces[names.last()];
        if versions.len() > 0 {
            let id = versions[versions.len() - 1].block_id;
            let mine = left.blocks[id];
            let theirs = right.blocks[id];
            assert(unpinned(mine) == unpinned(theirs));
            assert(unpinned_all(a.blocks.push(mine)) =~= unpinned_all(a.blocks).push(
                unpinned(mine),
            ));
            assert(unpinned_all(b.blocks.push(theirs)) =~= unpinned_all(b.blocks).push(
                unpinned(theirs),
            ));
        }
    }
}

/// Pinning and unpinning change no lifecycle, no prompt and no projection:
/// the same blocks are shown.
pub proof fn pins_change_no_prompt(
    graph: ContextGraphView,
    reference: ContextRef,
    pinned: bool,
    principal: ContextPrincipal,
    request: ProjectionRequest,
    layers: Seq<PromptLayerView>,
    task: Seq<char>,
    policy: ContextTrustPolicy,
)
    ensures
        ({
            let transition = if pinned {
                ContextTransitionView::Pinned(reference)
            } else {
                ContextTransitionView::Unpinned(reference)
            };
            applied(graph, transition, Ok(Seq::empty())) matches Ok(changed) ==> {
                &&& same_but_for_pins(graph, changed)
                &&& rendered(changed, principal, layers, task, policy) == rendered(
                    graph,
                    principal,
                    layers,
                    task,
                    policy,
                )
                &&& same_projection(
                    projected(graph, principal, request),
                    projected(changed, principal, request),
                )
            }
        }),
{
    let transition = if pinned {
        ContextTransitionView::Pinned(reference)
    } else {
        ContextTransitionView::Unpinned(reference)
    };
    if let Ok(changed) = applied(graph, transition, Ok(Seq::empty())) {
        assert(changed.blocks.dom() =~= graph.blocks.dom());
        assert(same_but_for_pins(graph, changed));
        prompts_ignore_pins(graph, changed, principal, policy, layers);
        let names = listing::<String, Seq<ContextRef>>(graph.namespaces);
        projections_ignore_pins(graph, changed, principal, request, names);
    }
}

// ---------------------------------------------------------------------------
// Pages of a history.

/// The events stand in the order of their positions.
pub open spec fn in_sequence(events: Seq<StoredEventView>) -> bool {
    forall|i: int, j: int|
        0 <= i < j < events.len() ==> (#[trigger] events[i]).sequence < (
        #[trigger] events[j]).sequence
}

proof fn earlier_events_come_first(events: Seq<StoredEventView>, before: Sequence) -> (count: int)
    requires
        in_sequence(events),
    ensures
        0 <= count <= events.len(),
        ahead_of(events, before) == events.take(count),
        forall|i: int| 0 <= i < count ==> (#[trigger] events[i]).sequence < before,
        forall|i: int| count <= i < events.len() ==> (#[trigger] events[i]).sequence >= before,
    decreases events.len(),
{
    if events.len() == 0 {
        assert(events.take(0) =~= events);
        0
    } else {
        let last = events.len() - 1;
        let rest = events.drop_last();
        assert forall|i: int, j: int| 0 <= i < j < rest.len() implies (#[trigger] rest[i]).sequence
            < (#[trigger] rest[j]).sequence by {
            assert(rest[i] == events[i] && rest[j] == events[j]);
        }
        let count = earlier_events_come_first(rest, before);
        assert forall|i: int| 0 <= i < count implies (#[trigger] events[i]).sequence < before by {
            assert(rest[i] == events[i]);
        }
        if events[last].sequence < before {
            if count < rest.len() {
                assert(rest[count] == events[count]);
                assert(events[count].sequence < events[last].sequence);
            }
            assert(rest.take(count).push(events[last]) =~= events.take(events.len() as int));
            events.len() as int
        } else {
            assert(rest.take(count) =~= events.take(count));
            assert forall|i: int| count <= i < events.len() implies (#[trigger] events[i]).sequence
                >= before by {
                if i < last {
                    assert(rest[i] == events[i]);
                }
            }
            count
        }
    }
}

/// A page holds at most what was asked for, and the page before it ends where
/// it begins: paging back loses no event and shows none twice.
pub proof fn pages_are_bounded_and_adjoin(
    events: Seq<StoredEventView>,
    before: Sequence,
    limit: nat,
)
    requires
        in_sequence(events),
    ensures
        ({
            let all = ahead_of(events, before);
            let page = last_of(all, limit as int);
            &&& page.len() <= limit
            &&& page.len() > 0 ==> ahead_of(events, page[0].sequence) + page == all
        }),
{
    let count = earlier_events_come_first(events, before);
    let all = ahead_of(events, before);
    let page = last_of(all, limit as int);
    if page.len() > 0 {
        let start = all.len() - page.len();
        assert(page[0] == events[start]);
        let earlier = earlier_events_come_first(events, page[0].sequence);
        if earlier < start {
            assert(events[earlier].sequence < events[start].sequence);
        }
        assert(earlier == start);
        assert(ahead_of(events, page[0].sequence) + page =~= all);
    }
}

} // verus!
