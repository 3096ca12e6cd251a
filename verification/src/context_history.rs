//! A whole history of calls on a context graph, and what replaying its
//! transitions gives.

use vstd::prelude::*;

use crate::context::{
    ContextBlockId, ContextBlockView, ContextDraftView, ContextErrorView, ContextRef,
    ContextTransitionView,
};
use crate::context_graph::{
    applied, empty_graph, input_refusal, publication_transitions, published_graph, refusal,
    unresolved, ContextGraphView,
};
use crate::context_laws::{
    after, linked, one_more, publications_keep_links, publications_replay, replay_composes,
    with_state_of,
};

verus! {

/// A call that changes a graph and returns transitions.
pub enum ContextCall {
    /// Publish a draft as the block with an identity.
    Publish { draft: ContextDraftView, id: ContextBlockId },
    Archive(ContextRef),
    Restore(ContextRef),
    Pin(ContextRef),
    Unpin(ContextRef),
}

/// A graph, and all the transitions that the calls on it returned.
pub struct ContextHistory {
    pub graph: ContextGraphView,
    pub transitions: Seq<ContextTransitionView>,
}

/// The transition that a call other than a publication asks for.
pub open spec fn mark_of(call: ContextCall) -> Option<ContextTransitionView> {
    match call {
        ContextCall::Publish { .. } => None,
        ContextCall::Archive(reference) => Some(ContextTransitionView::Archived(reference)),
        ContextCall::Restore(reference) => Some(ContextTransitionView::Restored(reference)),
        ContextCall::Pin(reference) => Some(ContextTransitionView::Pinned(reference)),
        ContextCall::Unpin(reference) => Some(ContextTransitionView::Unpinned(reference)),
    }
}

/// One more call. A call that is refused changes nothing.
pub open spec fn called(before: ContextHistory, call: ContextCall) -> ContextHistory {
    match call {
        ContextCall::Publish { draft, id } => if refusal(before.graph, draft) is Some {
            before
        } else {
            ContextHistory {
                graph: published_graph(before.graph, draft, id),
                transitions: before.transitions + publication_transitions(
                    before.graph,
                    draft,
                    id,
                ),
            }
        },
        _ => match applied(before.graph, mark_of(call)->0, Ok(Seq::empty())) {
            Err(_) => before,
            Ok(graph) => ContextHistory {
                graph,
                transitions: before.transitions.push(mark_of(call)->0),
            },
        },
    }
}

/// The calls on a graph that was empty.
pub open spec fn history(calls: Seq<ContextCall>) -> ContextHistory
    decreases calls.len(),
{
    if calls.len() == 0 {
        ContextHistory { graph: empty_graph(), transitions: seq![] }
    } else {
        called(history(calls.drop_last()), calls.last())
    }
}

/// The call publishes under this identity.
pub open spec fn publishes(call: ContextCall, id: ContextBlockId) -> bool {
    call matches ContextCall::Publish { id: published, .. } && published == id
}

/// No identity is given to two publications.
pub open spec fn ids_differ(calls: Seq<ContextCall>) -> bool {
    forall|i: int, j: int, id: ContextBlockId|
        0 <= i < j < calls.len() && #[trigger] publishes(calls[i], id) ==> !#[trigger] publishes(
            calls[j],
            id,
        )
}

/// The graphs hold the same blocks, content and namespaces.
pub open spec fn same_state(left: ContextGraphView, right: ContextGraphView) -> bool {
    left.blocks == right.blocks && left.content == right.content && left.namespaces
        == right.namespaces
}

proof fn inputs_are_judged_by_blocks(
    left: ContextGraphView,
    right: ContextGraphView,
    block: ContextBlockView,
    references: Seq<ContextRef>,
)
    requires
        same_state(left, right),
    ensures
        input_refusal(left, block, references) == input_refusal(right, block, references),
    decreases references.len(),
{
    if references.len() > 0 {
        inputs_are_judged_by_blocks(left, right, block, references.drop_last());
    }
}

proof fn transitions_see_the_state_only(
    left: ContextGraphView,
    right: ContextGraphView,
    transition: ContextTransitionView,
)
    requires
        same_state(left, right),
    ensures
        applied(left, transition, unresolved(transition)) matches Ok(made) ==> applied(
            right,
            transition,
            unresolved(transition),
        ) == Ok::<ContextGraphView, ContextErrorView>(with_state_of(right, made)),
{
    if let ContextTransitionView::Created { block, .. } = transition {
        inputs_are_judged_by_blocks(left, right, block, block.dependencies + block.sources);
    }
    if let ContextTransitionView::CreatedFromArtifact { block, .. } = transition {
        inputs_are_judged_by_blocks(left, right, block, block.dependencies + block.sources);
    }
}

proof fn replays_see_the_state_only(
    left: ContextGraphView,
    right: ContextGraphView,
    transitions: Seq<ContextTransitionView>,
)
    requires
        same_state(left, right),
    ensures
        after(left, transitions) matches Ok(made) ==> after(right, transitions) == Ok::<
            ContextGraphView,
            ContextErrorView,
        >(with_state_of(right, made)),
    decreases transitions.len(),
{
    if transitions.len() > 0 {
        let rest = transitions.drop_last();
        let last = transitions.last();
        replays_see_the_state_only(left, right, rest);
        assert(transitions =~= rest.push(last));
        one_more(left, rest, last);
        one_more(right, rest, last);
        if let Ok(before) = after(left, rest) {
            transitions_see_the_state_only(before, with_state_of(right, before), last);
        }
    } else {
        assert(after(left, transitions) == Ok::<ContextGraphView, ContextErrorView>(left));
        assert(with_state_of(right, left) == right);
    }
}

proof fn publications_keep_graphs_valid(
    graph: ContextGraphView,
    draft: ContextDraftView,
    id: ContextBlockId,
)
    requires
        graph.valid(),
        linked(graph),
        !graph.blocks.contains_key(id),
    ensures
        published_graph(graph, draft, id).valid(),
        forall|other: ContextBlockId| #[trigger]
            published_graph(graph, draft, id).blocks.contains_key(other)
                ==> graph.blocks.contains_key(other) || other == id,
{
    let now = published_graph(graph, draft, id);
    if graph.newest(draft.namespace) is Some {
        let versions = graph.namespaces[draft.namespace];
        assert(graph.knows(versions[versions.len() - 1]));
    }
    assert(now.blocks.dom() =~= graph.blocks.dom().insert(id));
    publications_keep_links(graph, draft, id);
}

/// A graph that was built by calls holds together, and its transitions lead
/// to it.
proof fn histories_hold_together(calls: Seq<ContextCall>)
    requires
        ids_differ(calls),
    ensures
        history(calls).graph.valid(),
        linked(history(calls).graph),
        forall|id: ContextBlockId| #[trigger]
            history(calls).graph.blocks.contains_key(id) ==> exists|i: int|
                0 <= i < calls.len() && publishes(#[trigger] calls[i], id),
        after(empty_graph(), history(calls).transitions) == Ok::<
            ContextGraphView,
            ContextErrorView,
        >(with_state_of(empty_graph(), history(calls).graph)),
    decreases calls.len(),
{
    let empty = empty_graph();
    let now = history(calls);
    if calls.len() == 0 {
        assert(with_state_of(empty, empty) == empty);
    } else {
        let rest = calls.drop_last();
        let call = calls.last();
        assert forall|i: int, j: int, id: ContextBlockId|
            0 <= i < j < rest.len() && #[trigger] publishes(rest[i], id) implies
            !#[trigger] publishes(rest[j], id) by {
            assert(publishes(calls[i], id));
            assert(rest[j] == calls[j]);
        }
        histories_hold_together(rest);
        let before = history(rest);
        let built = with_state_of(empty, before.graph);
        match call {
            ContextCall::Publish { draft, id } => {
                if refusal(before.graph, draft) is None {
                    assert(publishes(calls[calls.len() - 1], id));
                    if before.graph.blocks.contains_key(id) {
                        let i = choose|i: int|
                            0 <= i < rest.len() && publishes(#[trigger] rest[i], id);
                        assert(publishes(calls[i], id));
                    }
                    let steps = publication_transitions(before.graph, draft, id);
                    publications_replay(before.graph, draft, id);
                    publications_keep_graphs_valid(before.graph, draft, id);
                    publications_keep_links(before.graph, draft, id);
                    replays_see_the_state_only(before.graph, built, steps);
                    replay_composes(empty, before.transitions, steps);
                }
            },
            _ => {
                let mark = mark_of(call)->0;
                if let Ok(graph) = applied(before.graph, mark, Ok(Seq::empty())) {
                    assert(applied(before.graph, mark, unresolved(mark)) == Ok::<
                        ContextGraphView,
                        ContextErrorView,
                    >(graph));
                    transitions_see_the_state_only(before.graph, built, mark);
                    one_more(empty, before.transitions, mark);
                    assert(graph.blocks.dom() =~= before.graph.blocks.dom());
                    assert forall|namespace: Seq<char>, i: int|
                        graph.namespaces.contains_key(namespace) && 0 <= i
                            < graph.namespaces[namespace].len() implies graph.knows(
                        #[trigger] graph.namespaces[namespace][i],
                    ) by {
                        assert(before.graph.knows(before.graph.namespaces[namespace][i]));
                    }
                }
            },
        }
        assert forall|id: ContextBlockId| #[trigger]
            now.graph.blocks.contains_key(id) implies exists|i: int|
            0 <= i < calls.len() && publishes(#[trigger] calls[i], id) by {
            if before.graph.blocks.contains_key(id) {
                let i = choose|i: int| 0 <= i < rest.len() && publishes(#[trigger] rest[i], id);
                assert(publishes(calls[i], id));
            } else {
                assert(publishes(calls[calls.len() - 1], id));
            }
        }
    }
}

/// Whatever calls built a graph from the empty one, replaying all the
/// transitions that they returned gives its blocks, content and namespaces.
/// No two publications share an identity.
pub proof fn histories_replay(calls: Seq<ContextCall>)
    requires
        ids_differ(calls),
    ensures
        after(empty_graph(), history(calls).transitions) matches Ok(replayed) && same_state(
            replayed,
            history(calls).graph,
        ),
        history(calls).graph.valid(),
{
    histories_hold_together(calls);
}

} // verus!
