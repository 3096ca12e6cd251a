//! What holds of the context graph as a whole.

use vstd::prelude::*;

use crate::context::{
    context_digest, ContextBlockId, ContextBlockView, ContextDraftView, ContextErrorView,
    ContextLifecycle, ContextRef, ContextScope, ContextTransitionView, InvalidationView,
};
use crate::context_graph::{
    all_unresolved, answers_are_local, applied, applied_all, blocks_with_draft, dependents_among,
    drafted_block, first_unknown, finite_maps_are_listed, input_refusal, inputs, invalidated_graph,
    invalidation_notices, live_dependents, live_dependents_depend, notice_transitions, notices,
    notices_fit, origins, publication_notices, publication_transitions, published_graph, refusal,
    spread, staled, superseded_reason, touched, unresolved, unvisited, visiting_shrinks, wakes,
    with_lifecycle, ContextGraphView, ContextSubscriptionView,
};
use crate::kernel::combination_never_upgrades_trust;
use crate::table::listing;

verus! {

// ---------------------------------------------------------------------------
// Where staleness goes.

/// A notice that `block` went stale because of `dependency`.
pub open spec fn notice(
    block: ContextRef,
    dependency: ContextRef,
    reason: Seq<char>,
) -> InvalidationView {
    InvalidationView { block, dependency: Some(dependency), reason }
}

/// Each live dependent of `reference` has its notice.
pub open spec fn followed(
    blocks: Map<ContextBlockId, ContextBlockView>,
    reason: Seq<char>,
    found: Seq<InvalidationView>,
    reference: ContextRef,
) -> bool {
    forall|i: int|
        0 <= i < live_dependents(blocks, reference).len() ==> found.contains(
            notice(#[trigger] live_dependents(blocks, reference)[i], reference, reason),
        )
}

proof fn followed_stays(
    blocks: Map<ContextBlockId, ContextBlockView>,
    reason: Seq<char>,
    found: Seq<InvalidationView>,
    more: Seq<InvalidationView>,
    reference: ContextRef,
)
    requires
        followed(blocks, reason, found, reference),
    ensures
        followed(blocks, reason, found + more, reference),
{
    assert forall|i: int| 0 <= i < live_dependents(blocks, reference).len() implies (found
        + more).contains(
        notice(#[trigger] live_dependents(blocks, reference)[i], reference, reason),
    ) by {
        let wanted = notice(live_dependents(blocks, reference)[i], reference, reason);
        assert(found.contains(wanted));
        let k = choose|k: int| 0 <= k < found.len() && found[k] == wanted;
        assert((found + more)[k] == wanted);
    }
}

/// What is seen is followed, and what is noticed is seen or waits.
spec fn in_step(
    blocks: Map<ContextBlockId, ContextBlockView>,
    reason: Seq<char>,
    queue: Seq<ContextRef>,
    seen: Set<ContextRef>,
    found: Seq<InvalidationView>,
) -> bool {
    &&& forall|r: ContextRef| #[trigger]
        seen.contains(r) ==> followed(blocks, reason, found, r)
    &&& forall|i: int|
        0 <= i < found.len() ==> seen.contains((#[trigger] found[i]).block) || queue.contains(
            found[i].block,
        )
}

proof fn spread_follows(
    blocks: Map<ContextBlockId, ContextBlockView>,
    reason: Seq<char>,
    queue: Seq<ContextRef>,
    seen: Set<ContextRef>,
    found: Seq<InvalidationView>,
)
    requires
        blocks.dom().finite(),
        in_step(blocks, reason, queue, seen, found),
    ensures
        ({
            let all = spread(blocks, reason, queue, seen, found);
            &&& forall|r: ContextRef| #[trigger]
                queue.contains(r) ==> followed(blocks, reason, all, r)
            &&& forall|r: ContextRef| #[trigger]
                seen.contains(r) ==> followed(blocks, reason, all, r)
            &&& forall|i: int|
                0 <= i < all.len() ==> followed(blocks, reason, all, (#[trigger] all[i]).block)
        }),
    decreases unvisited(blocks, queue, seen).len(), queue.len(),
{
    let all = spread(blocks, reason, queue, seen, found);
    if queue.len() == 0 {
        assert forall|i: int| 0 <= i < all.len() implies followed(
            blocks,
            reason,
            all,
            (#[trigger] all[i]).block,
        ) by {
            assert(seen.contains(found[i].block) || queue.contains(found[i].block));
        }
    } else {
        let next = queue.last();
        let rest = queue.drop_last();
        visiting_shrinks(blocks, queue, seen);
        if seen.contains(next) {
            assert forall|i: int| 0 <= i < found.len() implies seen.contains(
                (#[trigger] found[i]).block,
            ) || rest.contains(found[i].block) by {
                if queue.contains(found[i].block) {
                    member_but_last(queue, found[i].block);
                }
            }
            spread_follows(blocks, reason, rest, seen, found);
            assert forall|r: ContextRef| #[trigger] queue.contains(r) implies followed(
                blocks,
                reason,
                all,
                r,
            ) by {
                member_but_last(queue, r);
                if r == next {
                    assert(seen.contains(r));
                }
            }
        } else {
            let dependents = live_dependents(blocks, next);
            let longer = rest + dependents;
            let visited = seen.insert(next);
            let more = notices(dependents, next, reason);
            let now = found + more;
            assert(followed(blocks, reason, now, next)) by {
                assert forall|i: int| 0 <= i < dependents.len() implies now.contains(
                    notice(#[trigger] live_dependents(blocks, next)[i], next, reason),
                ) by {
                    assert(now[found.len() + i] == notice(dependents[i], next, reason));
                }
            }
            assert forall|r: ContextRef| #[trigger] visited.contains(r) implies followed(
                blocks,
                reason,
                now,
                r,
            ) by {
                if r != next {
                    assert(seen.contains(r));
                    followed_stays(blocks, reason, found, more, r);
                }
            }
            assert forall|i: int| 0 <= i < now.len() implies visited.contains(
                (#[trigger] now[i]).block,
            ) || longer.contains(now[i].block) by {
                if i < found.len() {
                    assert(now[i] == found[i]);
                    if queue.contains(found[i].block) {
                        member_but_last(queue, found[i].block);
                        if rest.contains(found[i].block) {
                            let k = choose|k: int|
                                0 <= k < rest.len() && rest[k] == found[i].block;
                            assert(longer[k] == found[i].block);
                        }
                    }
                } else {
                    let k = i - found.len();
                    assert(now[i] == more[k]);
                    assert(longer[rest.len() + k] == dependents[k]);
                }
            }
            spread_follows(blocks, reason, longer, visited, now);
            assert forall|r: ContextRef| #[trigger] queue.contains(r) implies followed(
                blocks,
                reason,
                all,
                r,
            ) by {
                member_but_last(queue, r);
                if r == next {
                    assert(visited.contains(r));
                } else {
                    let k = choose|k: int| 0 <= k < rest.len() && rest[k] == r;
                    assert(longer[k] == r);
                    assert(longer.contains(r));
                }
            }
            assert forall|r: ContextRef| #[trigger] seen.contains(r) implies followed(
                blocks,
                reason,
                all,
                r,
            ) by {
                assert(visited.contains(r));
            }
        }
    }
}

proof fn member_but_last(queue: Seq<ContextRef>, r: ContextRef)
    requires
        queue.contains(r),
    ensures
        r == queue.last() || queue.drop_last().contains(r),
{
    let k = choose|k: int| 0 <= k < queue.len() && queue[k] == r;
    if k < queue.len() - 1 {
        assert(queue.drop_last()[k] == r);
    }
}

/// A path of live dependents from `cause` to `reference`.
pub open spec fn is_path(
    blocks: Map<ContextBlockId, ContextBlockView>,
    path: Seq<ContextRef>,
    cause: ContextRef,
    reference: ContextRef,
) -> bool {
    &&& path.len() > 1
    &&& path[0] == cause
    &&& path.last() == reference
    &&& forall|i: int|
        0 < i < path.len() ==> live_dependents(blocks, path[i - 1]).contains(#[trigger] path[i])
}

/// `reference` depends on `cause`, directly or through live blocks.
pub open spec fn depends_on(
    blocks: Map<ContextBlockId, ContextBlockView>,
    cause: ContextRef,
    reference: ContextRef,
) -> bool {
    exists|path: Seq<ContextRef>| is_path(blocks, path, cause, reference)
}

/// Every notice is for a live dependent, of the cause or of one that has a
/// notice itself.
pub open spec fn sound(
    blocks: Map<ContextBlockId, ContextBlockView>,
    reason: Seq<char>,
    cause: ContextRef,
    found: Seq<InvalidationView>,
) -> bool {
    forall|i: int|
        0 <= i < found.len() ==> {
            let one = #[trigger] found[i];
            &&& one.reason == reason
            &&& one.dependency matches Some(dependency) && live_dependents(
                blocks,
                dependency,
            ).contains(one.block)
            &&& depends_on(blocks, cause, one.block)
        }
}

proof fn spread_is_sound(
    blocks: Map<ContextBlockId, ContextBlockView>,
    reason: Seq<char>,
    cause: ContextRef,
    queue: Seq<ContextRef>,
    seen: Set<ContextRef>,
    found: Seq<InvalidationView>,
)
    requires
        blocks.dom().finite(),
        sound(blocks, reason, cause, found),
        forall|i: int|
            0 <= i < queue.len() ==> (#[trigger] queue[i]) == cause || depends_on(
                blocks,
                cause,
                queue[i],
            ),
    ensures
        sound(blocks, reason, cause, spread(blocks, reason, queue, seen, found)),
    decreases unvisited(blocks, queue, seen).len(), queue.len(),
{
    if queue.len() > 0 {
        let next = queue.last();
        let rest = queue.drop_last();
        visiting_shrinks(blocks, queue, seen);
        assert(next == queue[queue.len() - 1]);
        assert forall|i: int| 0 <= i < rest.len() implies (#[trigger] rest[i]) == cause
            || depends_on(blocks, cause, rest[i]) by {
            assert(rest[i] == queue[i]);
        }
        if seen.contains(next) {
            spread_is_sound(blocks, reason, cause, rest, seen, found);
        } else {
            let dependents = live_dependents(blocks, next);
            let longer = rest + dependents;
            let more = notices(dependents, next, reason);
            let now = found + more;
            assert forall|i: int| 0 <= i < dependents.len() implies depends_on(
                blocks,
                cause,
                #[trigger] dependents[i],
            ) by {
                assert(live_dependents(blocks, next).contains(dependents[i]));
                path_extends(blocks, cause, next, dependents[i]);
            }
            assert forall|i: int| 0 <= i < longer.len() implies (#[trigger] longer[i]) == cause
                || depends_on(blocks, cause, longer[i]) by {
                if i < rest.len() {
                    assert(longer[i] == rest[i]);
                } else {
                    assert(longer[i] == dependents[i - rest.len()]);
                }
            }
            assert forall|i: int| 0 <= i < now.len() implies {
                let one = #[trigger] now[i];
                &&& one.reason == reason
                &&& one.dependency matches Some(dependency) && live_dependents(
                    blocks,
                    dependency,
                ).contains(one.block)
                &&& depends_on(blocks, cause, one.block)
            } by {
                if i < found.len() {
                    assert(now[i] == found[i]);
                } else {
                    let k = i - found.len();
                    assert(now[i] == more[k]);
                    assert(live_dependents(blocks, next).contains(dependents[k]));
                }
            }
            spread_is_sound(blocks, reason, cause, longer, seen.insert(next), now);
        }
    }
}

proof fn path_extends(
    blocks: Map<ContextBlockId, ContextBlockView>,
    cause: ContextRef,
    middle: ContextRef,
    end: ContextRef,
)
    requires
        middle == cause || depends_on(blocks, cause, middle),
        live_dependents(blocks, middle).contains(end),
    ensures
        depends_on(blocks, cause, end),
{
    if middle == cause {
        let path = seq![cause, end];
        assert(is_path(blocks, path, cause, end));
    } else {
        let path = choose|path: Seq<ContextRef>| is_path(blocks, path, cause, middle);
        let longer = path.push(end);
        assert forall|i: int| 0 < i < longer.len() implies live_dependents(
            blocks,
            longer[i - 1],
        ).contains(#[trigger] longer[i]) by {
            if i < path.len() {
                assert(longer[i] == path[i]);
                assert(longer[i - 1] == path[i - 1]);
            }
        }
        assert(is_path(blocks, longer, cause, end));
    }
}

/// What a change at `cause` makes stale.
pub open spec fn spread_from(
    blocks: Map<ContextBlockId, ContextBlockView>,
    reason: Seq<char>,
    cause: ContextRef,
) -> Seq<InvalidationView> {
    spread(blocks, reason, seq![cause], Set::empty(), seq![])
}

/// A block is noticed for a change exactly where it depends on what changed,
/// directly or through live blocks.
pub proof fn staleness_follows_dependencies(
    blocks: Map<ContextBlockId, ContextBlockView>,
    reason: Seq<char>,
    cause: ContextRef,
    reference: ContextRef,
)
    requires
        blocks.dom().finite(),
    ensures
        (exists|i: int|
            0 <= i < spread_from(blocks, reason, cause).len() && (#[trigger] spread_from(
                blocks,
                reason,
                cause,
            )[i]).block == reference) <==> depends_on(blocks, cause, reference),
{
    let all = spread_from(blocks, reason, cause);
    spread_is_sound(blocks, reason, cause, seq![cause], Set::empty(), seq![]);
    spread_follows(blocks, reason, seq![cause], Set::empty(), seq![]);
    assert(seq![cause].contains(cause)) by {
        assert(seq![cause][0] == cause);
    }
    if depends_on(blocks, cause, reference) {
        let path = choose|path: Seq<ContextRef>| is_path(blocks, path, cause, reference);
        path_is_noticed(blocks, reason, cause, path, path.len() - 1);
    }
}

proof fn path_is_noticed(
    blocks: Map<ContextBlockId, ContextBlockView>,
    reason: Seq<char>,
    cause: ContextRef,
    path: Seq<ContextRef>,
    end: int,
)
    requires
        blocks.dom().finite(),
        path.len() > 1,
        path[0] == cause,
        0 < end < path.len(),
        forall|i: int|
            0 < i < path.len() ==> live_dependents(blocks, path[i - 1]).contains(
                #[trigger] path[i],
            ),
    ensures
        exists|i: int|
            0 <= i < spread_from(blocks, reason, cause).len() && (#[trigger] spread_from(
                blocks,
                reason,
                cause,
            )[i]).block == path[end],
    decreases end,
{
    let all = spread_from(blocks, reason, cause);
    spread_follows(blocks, reason, seq![cause], Set::empty(), seq![]);
    assert(seq![cause].contains(cause)) by {
        assert(seq![cause][0] == cause);
    }
    let before = path[end - 1];
    if end > 1 {
        path_is_noticed(blocks, reason, cause, path, end - 1);
        let k = choose|k: int| 0 <= k < all.len() && (#[trigger] all[k]).block == before;
        assert(followed(blocks, reason, all, all[k].block));
    }
    assert(followed(blocks, reason, all, before));
    assert(live_dependents(blocks, path[end - 1]).contains(path[end]));
    let dependents = live_dependents(blocks, before);
    let k = choose|k: int| 0 <= k < dependents.len() && dependents[k] == path[end];
    let wanted = notice(live_dependents(blocks, before)[k], before, reason);
    assert(all.contains(wanted));
    let i = choose|i: int| 0 <= i < all.len() && all[i] == wanted;
    assert(all[i].block == path[end]);
}

proof fn dependents_are_complete(
    blocks: Map<ContextBlockId, ContextBlockView>,
    ids: Seq<ContextBlockId>,
    dependency: ContextRef,
    id: ContextBlockId,
)
    requires
        ids.contains(id),
        blocks[id].dependencies.contains(dependency),
        blocks[id].lifecycle.live(),
    ensures
        dependents_among(blocks, ids, dependency).contains(blocks[id].reference()),
    decreases ids.len(),
{
    let k = choose|k: int| 0 <= k < ids.len() && ids[k] == id;
    let all = dependents_among(blocks, ids, dependency);
    let before = dependents_among(blocks, ids.drop_last(), dependency);
    if k == ids.len() - 1 {
        assert(all.last() == blocks[id].reference());
        assert(all[all.len() - 1] == blocks[id].reference());
    } else {
        assert(ids.drop_last()[k] == id);
        dependents_are_complete(blocks, ids.drop_last(), dependency, id);
        let i = choose|i: int| 0 <= i < before.len() && before[i] == blocks[id].reference();
        assert(all[i] == before[i]);
    }
}

/// After a change has spread, no active block depends on what changed or on
/// anything that went stale for it.
pub proof fn no_active_block_rests_on_what_changed(
    blocks: Map<ContextBlockId, ContextBlockView>,
    reason: Seq<char>,
    cause: ContextRef,
    id: ContextBlockId,
    dependency: ContextRef,
)
    requires
        blocks.dom().finite(),
        forall|id: ContextBlockId| #[trigger] blocks.contains_key(id) ==> blocks[id].id == id,
        blocks.contains_key(id),
        staled(blocks, spread_from(blocks, reason, cause))[id].lifecycle
            == ContextLifecycle::Active,
        staled(blocks, spread_from(blocks, reason, cause))[id].dependencies.contains(dependency),
    ensures
        dependency != cause,
        forall|i: int|
            0 <= i < spread_from(blocks, reason, cause).len() ==> (#[trigger] spread_from(
                blocks,
                reason,
                cause,
            )[i]).block != dependency,
{
    let all = spread_from(blocks, reason, cause);
    let noticed = exists|i: int| 0 <= i < all.len() && (#[trigger] all[i]).block == dependency;
    if dependency == cause || noticed {
        spread_follows(blocks, reason, seq![cause], Set::empty(), seq![]);
        assert(seq![cause].contains(cause)) by {
            assert(seq![cause][0] == cause);
        }
        if noticed {
            let i = choose|i: int| 0 <= i < all.len() && (#[trigger] all[i]).block == dependency;
            assert(followed(blocks, reason, all, all[i].block));
        }
        assert(followed(blocks, reason, all, dependency));
        finite_maps_are_listed(blocks);
        let ids = listing::<ContextBlockId, ContextBlockView>(blocks);
        dependents_are_complete(blocks, ids, dependency, id);
        let dependents = live_dependents(blocks, dependency);
        let k = choose|k: int|
            0 <= k < dependents.len() && dependents[k] == blocks[id].reference();
        let wanted = notice(live_dependents(blocks, dependency)[k], dependency, reason);
        assert(all.contains(wanted));
        let i = choose|i: int| 0 <= i < all.len() && all[i] == wanted;
        assert(all[i].block.block_id == id);
        assert(touched(all, id));
    }
}

pub proof fn spread_fits(
    blocks: Map<ContextBlockId, ContextBlockView>,
    reason: Seq<char>,
    cause: ContextRef,
)
    requires
        blocks.dom().finite(),
        forall|id: ContextBlockId| #[trigger] blocks.contains_key(id) ==> blocks[id].id == id,
    ensures
        notices_fit(blocks, spread_from(blocks, reason, cause)),
        sound(blocks, reason, cause, spread_from(blocks, reason, cause)),
{
    let all = spread_from(blocks, reason, cause);
    spread_is_sound(blocks, reason, cause, seq![cause], Set::empty(), seq![]);
    assert forall|i: int| 0 <= i < all.len() implies blocks.contains_key(
        (#[trigger] all[i]).block.block_id,
    ) && blocks[all[i].block.block_id].lifecycle.live()
        && blocks[all[i].block.block_id].reference() == all[i].block by {
        let dependency = all[i].dependency->0;
        live_dependents_depend(blocks, dependency);
        let dependents = live_dependents(blocks, dependency);
        let k = choose|k: int| 0 <= k < dependents.len() && dependents[k] == all[i].block;
        assert(live_dependents(blocks, dependency)[k] == all[i].block);
    }
}

// ---------------------------------------------------------------------------
// Replay.

/// Each version of a namespace is a block of the graph at that revision.
pub open spec fn linked(graph: ContextGraphView) -> bool {
    forall|namespace: Seq<char>, i: int|
        graph.namespaces.contains_key(namespace) && 0 <= i < graph.namespaces[namespace].len()
            ==> graph.knows(#[trigger] graph.namespaces[namespace][i])
}

/// What a list of transitions that needs no artifacts makes of a graph.
pub open spec fn after(graph: ContextGraphView, transitions: Seq<ContextTransitionView>) -> Result<
    ContextGraphView,
    ContextErrorView,
> {
    applied_all(graph, transitions, all_unresolved(transitions))
}

pub(crate) proof fn one_more(
    graph: ContextGraphView,
    transitions: Seq<ContextTransitionView>,
    transition: ContextTransitionView,
)
    ensures
        after(graph, transitions.push(transition)) == match after(graph, transitions) {
            Ok(before) => applied(before, transition, unresolved(transition)),
            Err(error) => Err(error),
        },
{
    let longer = transitions.push(transition);
    let a = all_unresolved(transitions);
    let b = all_unresolved(longer);
    assert(longer.drop_last() =~= transitions);
    assert forall|i: int| 0 <= i < transitions.len() implies #[trigger] a[i] == b[i] by {
        assert(longer[i] == transitions[i]);
    }
    answers_are_local(graph, transitions, a, b);
    assert(b[longer.len() - 1] == unresolved(transition));
}

/// Replaying a list is replaying its parts one after the other.
pub proof fn replay_composes(
    graph: ContextGraphView,
    first: Seq<ContextTransitionView>,
    second: Seq<ContextTransitionView>,
)
    ensures
        after(graph, first + second) == match after(graph, first) {
            Ok(middle) => after(middle, second),
            Err(error) => Err(error),
        },
    decreases second.len(),
{
    if second.len() == 0 {
        assert(first + second =~= first);
    } else {
        let rest = second.drop_last();
        assert(first + second =~= (first + rest).push(second.last()));
        assert(second =~= rest.push(second.last()));
        replay_composes(graph, first, rest);
        one_more(graph, first + rest, second.last());
        if after(graph, first) is Ok {
            one_more(after(graph, first)->Ok_0, rest, second.last());
        }
    }
}

/// The state that transitions carry. Subscriptions and the list of past
/// invalidations belong to the running process.
pub open spec fn with_state_of(
    graph: ContextGraphView,
    other: ContextGraphView,
) -> ContextGraphView {
    ContextGraphView {
        blocks: other.blocks,
        content: other.content,
        namespaces: other.namespaces,
        ..graph
    }
}

proof fn notices_replay(
    graph: ContextGraphView,
    found: Seq<InvalidationView>,
)
    requires
        notices_fit(graph.blocks, found),
        forall|i: int| 0 <= i < found.len() ==> (#[trigger] found[i]).dependency is Some,
    ensures
        after(graph, notice_transitions(found)) == Ok::<ContextGraphView, ContextErrorView>(
            ContextGraphView { blocks: staled(graph.blocks, found), ..graph },
        ),
    decreases found.len(),
{
    if found.len() == 0 {
        assert(notice_transitions(found) =~= Seq::<ContextTransitionView>::empty());
        assert(staled(graph.blocks, found) =~= graph.blocks);
    } else {
        let rest = found.drop_last();
        let last = found.last();
        assert forall|i: int| 0 <= i < rest.len() implies graph.blocks.contains_key(
            (#[trigger] rest[i]).block.block_id,
        ) && graph.blocks[rest[i].block.block_id].lifecycle.live()
            && graph.blocks[rest[i].block.block_id].reference() == rest[i].block by {
            assert(rest[i] == found[i]);
        }
        assert forall|i: int| 0 <= i < rest.len() implies (#[trigger] rest[i]).dependency
            is Some by {
            assert(rest[i] == found[i]);
        }
        notices_replay(graph, rest);
        let transition = ContextTransitionView::Invalidated {
            block: last.block,
            dependency: last.dependency,
            reason: last.reason,
        };
        assert(notice_transitions(found) =~= notice_transitions(rest).push(transition));
        one_more(graph, notice_transitions(rest), transition);
        assert(found[found.len() - 1] == last);
        let id = last.block.block_id;
        assert(touched(found, id));
        assert forall|other: ContextBlockId| touched(found, other) == (touched(rest, other)
            || other == id) by {
            if touched(rest, other) {
                let i = choose|i: int| 0 <= i < rest.len() && rest[i].block.block_id == other;
                assert(found[i].block.block_id == other);
            }
            if touched(found, other) && other != id {
                let i = choose|i: int| 0 <= i < found.len() && found[i].block.block_id == other;
                assert(rest[i].block.block_id == other);
            }
        }
        let before = staled(graph.blocks, rest);
        assert(before.insert(
            id,
            ContextBlockView { lifecycle: ContextLifecycle::Stale, ..before[id] },
        ) =~= staled(graph.blocks, found));
    }
}

proof fn accepted_inputs_replay(
    graph: ContextGraphView,
    block: ContextBlockView,
    references: Seq<ContextRef>,
)
    requires
        first_unknown(graph, references) is None,
        forall|i: int|
            0 <= i < references.len() ==> block.trust.rank() <= (
            #[trigger] graph.blocks[references[i].block_id]).trust.rank(),
    ensures
        input_refusal(graph, block, references) is None,
    decreases references.len(),
{
    if references.len() > 0 {
        let rest = references.drop_last();
        assert forall|i: int| 0 <= i < rest.len() implies block.trust.rank() <= (
        #[trigger] graph.blocks[rest[i].block_id]).trust.rank() by {
            assert(rest[i] == references[i]);
            assert(block.trust.rank() <= graph.blocks[references[i].block_id].trust.rank());
        }
        accepted_inputs_replay(graph, block, rest);
        let last = references[references.len() - 1];
        assert(block.trust.rank() <= graph.blocks[last.block_id].trust.rank());
        let origin = graph.blocks[last.block_id].trust;
        assert(block.trust.combined(origin) == block.trust);
    }
}

/// A published block ranks no higher in trust than its draft or anything that
/// it rests on.
pub proof fn publication_never_upgrades_trust(
    graph: ContextGraphView,
    draft: ContextDraftView,
    id: ContextBlockId,
)
    ensures
        drafted_block(graph, draft, id).trust.rank() <= draft.trust.rank(),
        forall|i: int|
            0 <= i < inputs(draft).len() ==> drafted_block(graph, draft, id).trust.rank() <= (
            #[trigger] graph.blocks[inputs(draft)[i].block_id]).trust.rank(),
{
    let all = origins(graph.blocks, inputs(draft));
    combination_never_upgrades_trust(draft.trust, all);
    assert forall|i: int| 0 <= i < inputs(draft).len() implies drafted_block(
        graph,
        draft,
        id,
    ).trust.rank() <= (#[trigger] graph.blocks[inputs(draft)[i].block_id]).trust.rank() by {
        assert(all[i] == graph.blocks[inputs(draft)[i].block_id].trust);
    }
}

/// Replaying a publication's transitions on the graph it was made on gives
/// the blocks, the content and the namespaces that it left.
pub proof fn publications_replay(
    graph: ContextGraphView,
    draft: ContextDraftView,
    id: ContextBlockId,
)
    requires
        graph.valid(),
        linked(graph),
        refusal(graph, draft) is None,
        !graph.blocks.contains_key(id),
    ensures
        after(graph, publication_transitions(graph, draft, id)) == Ok::<
            ContextGraphView,
            ContextErrorView,
        >(with_state_of(graph, published_graph(graph, draft, id))),
{
    let block = drafted_block(graph, draft, id);
    let created = ContextTransitionView::Created { block, content: draft.content };
    publication_never_upgrades_trust(graph, draft, id);
    accepted_inputs_replay(graph, block, inputs(draft));
    let empty = Seq::<ContextTransitionView>::empty();
    one_more(graph, empty, created);
    assert(empty.push(created) =~= seq![created]);
    let with_new = ContextGraphView {
        blocks: graph.blocks.insert(id, block),
        content: graph.content.insert(block.content_hash, draft.content),
        namespaces: graph.namespaces.insert(
            draft.namespace,
            graph.versions(draft.namespace).push(block.reference()),
        ),
        ..graph
    };
    assert(after(graph, seq![created]) == Ok::<ContextGraphView, ContextErrorView>(with_new));
    let base = ContextGraphView { blocks: blocks_with_draft(graph, draft, id), ..with_new };
    let superseded = match graph.newest(draft.namespace) {
        Some(previous) => seq![ContextTransitionView::Superseded(previous)],
        None => seq![],
    };
    if graph.newest(draft.namespace) is Some {
        let previous = graph.newest(draft.namespace)->0;
        let versions = graph.namespaces[draft.namespace];
        assert(graph.knows(versions[versions.len() - 1]));
        assert(with_new.knows(previous));
        one_more(graph, seq![created], ContextTransitionView::Superseded(previous));
        assert(seq![created].push(ContextTransitionView::Superseded(previous)) =~= seq![created]
            + superseded);
        assert(with_lifecycle(
            with_new.blocks,
            previous.block_id,
            ContextLifecycle::Superseded,
        ) =~= base.blocks);
        assert(after(graph, seq![created] + superseded) == Ok::<
            ContextGraphView,
            ContextErrorView,
        >(base));
        assert(base.blocks.dom() =~= graph.blocks.dom().insert(id));
        spread_fits(base.blocks, superseded_reason(previous), previous);
    } else {
        assert(seq![created] + superseded =~= seq![created]);
    }
    let found = publication_notices(graph, draft, id);
    notices_replay(base, found);
    replay_composes(graph, seq![created] + superseded, notice_transitions(found));
}

/// Replaying an invalidation's notices on the graph it was made on gives the
/// blocks that it left.
pub proof fn invalidations_replay(
    graph: ContextGraphView,
    reference: ContextRef,
    reason: Seq<char>,
)
    requires
        graph.valid(),
        graph.knows(reference),
    ensures
        after(graph, notice_transitions(invalidation_notices(graph, reference, reason))) == Ok::<
            ContextGraphView,
            ContextErrorView,
        >(with_state_of(graph, invalidated_graph(graph, reference, reason))),
{
    let blocks = with_lifecycle(
        graph.blocks,
        reference.block_id,
        ContextLifecycle::Invalidated,
    );
    let base = ContextGraphView { blocks, ..graph };
    let found = spread_from(blocks, reason, reference);
    let first = ContextTransitionView::Invalidated { block: reference, dependency: None, reason };
    let empty = Seq::<ContextTransitionView>::empty();
    one_more(graph, empty, first);
    assert(empty.push(first) =~= seq![first]);
    assert(blocks.dom() =~= graph.blocks.dom());
    spread_fits(blocks, reason, reference);
    notices_replay(base, found);
    replay_composes(graph, seq![first], notice_transitions(found));
    assert(notice_transitions(invalidation_notices(graph, reference, reason)) =~= seq![first]
        + notice_transitions(found));
}

/// A publication leaves a graph in which versions are blocks.
pub proof fn publications_keep_links(
    graph: ContextGraphView,
    draft: ContextDraftView,
    id: ContextBlockId,
)
    requires
        graph.valid(),
        linked(graph),
        !graph.blocks.contains_key(id),
    ensures
        linked(published_graph(graph, draft, id)),
{
    let now = published_graph(graph, draft, id);
    assert forall|namespace: Seq<char>, i: int|
        now.namespaces.contains_key(namespace) && 0 <= i < now.namespaces[namespace].len()
        implies now.knows(#[trigger] now.namespaces[namespace][i]) by {
        let reference = now.namespaces[namespace][i];
        if namespace == draft.namespace && i == graph.versions(namespace).len() {
            assert(reference == drafted_block(graph, draft, id).reference());
        } else {
            assert(reference == graph.namespaces[namespace][i]);
            assert(graph.knows(reference));
            if graph.newest(draft.namespace) is Some {
                let versions = graph.namespaces[draft.namespace];
                assert(graph.knows(versions[versions.len() - 1]));
            }
        }
    }
}

// ---------------------------------------------------------------------------
// What one operation undoes, and what stays unchanged.

/// Restoring an archived block undoes the archiving of an active one.
pub proof fn restoring_undoes_archiving(graph: ContextGraphView, reference: ContextRef)
    requires
        graph.knows(reference),
        graph.blocks[reference.block_id].lifecycle == ContextLifecycle::Active,
    ensures
        after(
            graph,
            seq![
                ContextTransitionView::Archived(reference),
                ContextTransitionView::Restored(reference),
            ],
        ) == Ok::<ContextGraphView, ContextErrorView>(graph),
{
    let empty = Seq::<ContextTransitionView>::empty();
    let first = ContextTransitionView::Archived(reference);
    let second = ContextTransitionView::Restored(reference);
    one_more(graph, empty, first);
    one_more(graph, empty.push(first), second);
    assert(empty.push(first).push(second) =~= seq![first, second]);
    assert(after(graph, seq![first, second])->Ok_0.blocks =~= graph.blocks);
}

/// Unpinning undoes pinning.
pub proof fn unpinning_undoes_pinning(graph: ContextGraphView, reference: ContextRef)
    requires
        graph.knows(reference),
        graph.blocks[reference.block_id].lifecycle.live(),
        !graph.blocks[reference.block_id].pinned,
    ensures
        after(
            graph,
            seq![
                ContextTransitionView::Pinned(reference),
                ContextTransitionView::Unpinned(reference),
            ],
        ) == Ok::<ContextGraphView, ContextErrorView>(graph),
{
    let empty = Seq::<ContextTransitionView>::empty();
    let first = ContextTransitionView::Pinned(reference);
    let second = ContextTransitionView::Unpinned(reference);
    one_more(graph, empty, first);
    one_more(graph, empty.push(first), second);
    assert(empty.push(first).push(second) =~= seq![first, second]);
    assert(after(graph, seq![first, second])->Ok_0.blocks =~= graph.blocks);
}

/// A publication changes nothing of the blocks that were there but their
/// lifecycle, and nothing of the content that was there.
pub proof fn published_blocks_are_immutable(
    graph: ContextGraphView,
    draft: ContextDraftView,
    id: ContextBlockId,
    other: ContextBlockId,
)
    requires
        refusal(graph, draft) is None,
        graph.blocks.contains_key(other),
        other != id,
    ensures
        published_graph(graph, draft, id).blocks.contains_key(other),
        (ContextBlockView {
            lifecycle: graph.blocks[other].lifecycle,
            ..published_graph(graph, draft, id).blocks[other]
        }) == graph.blocks[other],
        forall|hash: Seq<u8>| #[trigger]
            graph.content.contains_key(hash) ==> published_graph(
                graph,
                draft,
                id,
            ).content.contains_key(hash) && published_graph(graph, draft, id).content[hash]
                == graph.content[hash],
{
}

/// Content that is there already is not kept twice.
pub proof fn content_is_kept_once(
    graph: ContextGraphView,
    draft: ContextDraftView,
    id: ContextBlockId,
)
    requires
        refusal(graph, draft) is None,
        graph.content.contains_key(context_digest(draft.content)),
    ensures
        published_graph(graph, draft, id).content == graph.content,
{
    assert(published_graph(graph, draft, id).content =~= graph.content);
}

/// Revisions of a namespace count up by one.
pub proof fn revisions_count_up(
    graph: ContextGraphView,
    draft: ContextDraftView,
    id: ContextBlockId,
)
    requires
        graph.newest(draft.namespace) matches Some(previous) ==> previous.revision < u64::MAX,
    ensures
        published_graph(graph, draft, id).newest(draft.namespace) matches Some(newest) && {
            &&& newest.block_id == id
            &&& newest.revision == match graph.newest(draft.namespace) {
                Some(previous) => previous.revision + 1,
                None => 1,
            }
        },
{
}

/// A private block wakes its owner at most.
pub proof fn private_blocks_wake_their_owner_only(
    subscriptions: Map<crate::context::SubscriptionId, ContextSubscriptionView>,
    block: ContextBlockView,
    owner: crate::ids::AgentId,
    agent_id: crate::ids::AgentId,
)
    requires
        block.scope == ContextScope::Private(owner),
        wakes(subscriptions, block, agent_id),
    ensures
        agent_id == owner,
{
}

/// A block in use that names what changed, or a block that depends on what
/// changed, as a dependency, depends on what changed.
pub proof fn dependence_passes_on(
    blocks: Map<ContextBlockId, ContextBlockView>,
    cause: ContextRef,
    middle: ContextRef,
    id: ContextBlockId,
)
    requires
        blocks.dom().finite(),
        blocks.contains_key(id),
        blocks[id].lifecycle == ContextLifecycle::Active || blocks[id].lifecycle
            == ContextLifecycle::Stale,
        blocks[id].dependencies.contains(middle),
        middle == cause || depends_on(blocks, cause, middle),
    ensures
        depends_on(blocks, cause, blocks[id].reference()),
{
    finite_maps_are_listed(blocks);
    let ids = listing::<ContextBlockId, ContextBlockView>(blocks);
    assert(ids.contains(id));
    dependents_are_complete(blocks, ids, middle, id);
    path_extends(blocks, cause, middle, blocks[id].reference());
}

} // verus!
