//! What freshness reports, dependency reports and prompts tell of the graph.

use vstd::prelude::*;

use crate::agent::concatenated;
use crate::context::{
    ContextBlockId, ContextBlockView, ContextLifecycle, ContextPrincipal, ContextRef,
    ContextTrustPolicy,
};
use crate::context_graph::{finite_maps_are_listed, visible_to, ContextGraphView};
use crate::context_views::{
    active_tokens_among, at_most, count_among, freshness, largest, layer_text, layers_text,
    pinned_among, quoted, rendered, size_rank, size_ranks, summary_of, users_among, users_of,
    ContextFreshnessPolicy, PromptLayerView, SizeRank,
};
use crate::projection_laws::{counted_sum, token_sum};
use crate::ranking::{best, ranked, ranked_is_sorted, Ranked};
use crate::table::{listing, Key};
use crate::text::lossy_text;

verus! {

// ---------------------------------------------------------------------------
// Freshness.

/// The blocks of the graph in a state of their life.
pub open spec fn blocks_that_are(
    graph: ContextGraphView,
    lifecycle: ContextLifecycle,
) -> Set<ContextBlockId> {
    graph.blocks.dom().filter(|id: ContextBlockId| graph.blocks[id].lifecycle == lifecycle)
}

proof fn counted_among_are_a_set(
    blocks: Map<ContextBlockId, ContextBlockView>,
    ids: Seq<ContextBlockId>,
    lifecycle: ContextLifecycle,
)
    requires
        ids.no_duplicates(),
    ensures
        ids.to_set().filter(|id: ContextBlockId| blocks[id].lifecycle == lifecycle).finite(),
        count_among(blocks, ids, lifecycle) == ids.to_set().filter(
            |id: ContextBlockId| blocks[id].lifecycle == lifecycle,
        ).len(),
        ids.to_set().filter(|id: ContextBlockId| blocks[id].pinned).finite(),
        pinned_among(blocks, ids) == ids.to_set().filter(
            |id: ContextBlockId| blocks[id].pinned,
        ).len(),
    decreases ids.len(),
{
    let whole = ids.to_set();
    vstd::seq_lib::seq_to_set_is_finite(ids);
    let chosen = whole.filter(|id: ContextBlockId| blocks[id].lifecycle == lifecycle);
    let pinned = whole.filter(|id: ContextBlockId| blocks[id].pinned);
    if ids.len() == 0 {
        assert(whole =~= Set::<ContextBlockId>::empty());
        assert(chosen =~= Set::<ContextBlockId>::empty());
        assert(pinned =~= Set::<ContextBlockId>::empty());
    } else {
        let rest = ids.drop_last();
        let last = ids.last();
        counted_among_are_a_set(blocks, rest, lifecycle);
        vstd::seq_lib::seq_to_set_is_finite(rest);
        assert(whole =~= rest.to_set().insert(last)) by {
            assert(ids =~= rest.push(last));
            assert forall|id: ContextBlockId| ids.contains(id) <==> rest.contains(id) || id
                == last by {
                if ids.contains(id) && id != last {
                    let i = choose|i: int| 0 <= i < ids.len() && ids[i] == id;
                    assert(rest[i] == id);
                }
                if rest.contains(id) {
                    let i = choose|i: int| 0 <= i < rest.len() && rest[i] == id;
                    assert(ids[i] == id);
                }
                assert(ids[ids.len() - 1] == last);
            }
        }
        assert(!rest.contains(last)) by {
            if rest.contains(last) {
                let i = choose|i: int| 0 <= i < rest.len() && rest[i] == last;
                assert(ids[i] == ids[ids.len() - 1]);
            }
        }
        let before = rest.to_set().filter(
            |id: ContextBlockId| blocks[id].lifecycle == lifecycle,
        );
        if blocks[last].lifecycle == lifecycle {
            assert(chosen =~= before.insert(last));
        } else {
            assert(chosen =~= before);
        }
        let pins = rest.to_set().filter(|id: ContextBlockId| blocks[id].pinned);
        if blocks[last].pinned {
            assert(pinned =~= pins.insert(last));
        } else {
            assert(pinned =~= pins);
        }
    }
}

/// The active blocks of the listed, in order.
pub open spec fn active_blocks_of(
    blocks: Map<ContextBlockId, ContextBlockView>,
    ids: Seq<ContextBlockId>,
) -> Seq<ContextBlockView>
    decreases ids.len(),
{
    if ids.len() == 0 {
        seq![]
    } else if blocks[ids.last()].lifecycle == ContextLifecycle::Active {
        active_blocks_of(blocks, ids.drop_last()).push(blocks[ids.last()])
    } else {
        active_blocks_of(blocks, ids.drop_last())
    }
}

proof fn active_tokens_are_summed(
    blocks: Map<ContextBlockId, ContextBlockView>,
    ids: Seq<ContextBlockId>,
)
    ensures
        active_tokens_among(blocks, ids) == token_sum(active_blocks_of(blocks, ids)),
    decreases ids.len(),
{
    if ids.len() > 0 {
        active_tokens_are_summed(blocks, ids.drop_last());
        if blocks[ids.last()].lifecycle == ContextLifecycle::Active {
            assert(active_blocks_of(blocks, ids).drop_last() =~= active_blocks_of(
                blocks,
                ids.drop_last(),
            ));
        }
    }
}

/// A freshness report counts the blocks of each kind and the tokens of the
/// active ones, shows the last notices, and says where a budget is exceeded.
pub proof fn freshness_reports_count_blocks(
    graph: ContextGraphView,
    policy: ContextFreshnessPolicy,
)
    requires
        graph.valid(),
    ensures
        ({
            let report = freshness(graph, policy);
            let ids = listing::<ContextBlockId, ContextBlockView>(graph.blocks);
            let recent = report.recent_invalidations;
            let all = graph.invalidations;
            &&& report.active_blocks == blocks_that_are(graph, ContextLifecycle::Active).len()
            &&& report.stale_blocks == blocks_that_are(graph, ContextLifecycle::Stale).len()
            &&& report.archived_blocks == blocks_that_are(graph, ContextLifecycle::Archived).len()
            &&& report.invalidated_blocks == blocks_that_are(
                graph,
                ContextLifecycle::Invalidated,
            ).len()
            &&& report.pinned_blocks == graph.blocks.dom().filter(
                |id: ContextBlockId| graph.blocks[id].pinned,
            ).len()
            &&& report.active_tokens == counted_sum(token_sum(active_blocks_of(graph.blocks, ids)))
            &&& ids.to_set() == graph.blocks.dom()
            &&& ids.no_duplicates()
            &&& recent.len() == if all.len() <= policy.recent_invalidation_limit {
                all.len()
            } else {
                policy.recent_invalidation_limit as nat
            }
            &&& forall|i: int|
                0 <= i < recent.len() ==> #[trigger] recent[i] == all[all.len() - recent.len() + i]
            &&& report.active_tokens_over_budget <==> (policy.max_active_tokens matches Some(limit)
                && report.active_tokens > limit)
            &&& report.stale_blocks_over_budget <==> (policy.max_stale_blocks matches Some(limit)
                && report.stale_blocks > limit)
        }),
{
    let ids = listing::<ContextBlockId, ContextBlockView>(graph.blocks);
    finite_maps_are_listed(graph.blocks);
    listed_once(graph.blocks, ids);
    assert(ids.to_set() =~= graph.blocks.dom()) by {
        assert forall|id: ContextBlockId| ids.to_set().contains(id)
            <==> graph.blocks.dom().contains(id) by {
            if ids.contains(id) {
                let i = choose|i: int| 0 <= i < ids.len() && ids[i] == id;
                assert(graph.blocks.contains_key(ids[i]));
            }
            if graph.blocks.contains_key(id) {
                assert(ids.contains(id));
            }
        }
    }
    counted_among_are_a_set(graph.blocks, ids, ContextLifecycle::Active);
    counted_among_are_a_set(graph.blocks, ids, ContextLifecycle::Stale);
    counted_among_are_a_set(graph.blocks, ids, ContextLifecycle::Archived);
    counted_among_are_a_set(graph.blocks, ids, ContextLifecycle::Invalidated);
    active_tokens_are_summed(graph.blocks, ids);
}

proof fn listed_once(
    blocks: Map<ContextBlockId, ContextBlockView>,
    ids: Seq<ContextBlockId>,
)
    requires
        crate::table::listed::<ContextBlockId, ContextBlockView>(blocks, ids),
    ensures
        ids.no_duplicates(),
{
    assert forall|i: int, j: int| 0 <= i < ids.len() && 0 <= j < ids.len() && i
        != j implies ids[i] != ids[j] by {
        if i < j {
            assert(ContextBlockId::before(ids[i], ids[j]));
            ContextBlockId::order_laws(ids[i], ids[j], ids[j]);
        } else {
            assert(ContextBlockId::before(ids[j], ids[i]));
            ContextBlockId::order_laws(ids[j], ids[i], ids[i]);
        }
    }
}

/// The block is larger than the other, or as large and more important, or as
/// both and older.
pub open spec fn larger(left: ContextBlockView, right: ContextBlockView) -> bool {
    ||| left.token_estimate > right.token_estimate
    ||| left.token_estimate == right.token_estimate && left.importance > right.importance
    ||| left.token_estimate == right.token_estimate && left.importance == right.importance
        && left.id.0 <= right.id.0
}

/// The largest blocks of a report are blocks of the graph, the largest first,
/// and a block that is not shown is no larger than any that is.
pub proof fn largest_blocks_are_shown(
    graph: ContextGraphView,
    policy: ContextFreshnessPolicy,
)
    requires
        graph.valid(),
    ensures
        ({
            let shown = freshness(graph, policy).largest_blocks;
            &&& forall|i: int|
                0 <= i < shown.len() ==> {
                    let id = (#[trigger] shown[i]).reference.block_id;
                    graph.blocks.contains_key(id) && shown[i] == summary_of(graph.blocks[id])
                }
            &&& forall|i: int, j: int|
                0 <= i < j < shown.len() ==> larger(
                    graph.blocks[(#[trigger] shown[i]).reference.block_id],
                    graph.blocks[(#[trigger] shown[j]).reference.block_id],
                )
            &&& shown.len() == if graph.blocks.dom().len() <= policy.largest_block_limit {
                graph.blocks.dom().len()
            } else {
                policy.largest_block_limit as nat
            }
            &&& forall|id: ContextBlockId| #[trigger]
                graph.blocks.contains_key(id) ==> {
                    ||| exists|i: int|
                        0 <= i < shown.len() && (#[trigger] shown[i]).reference.block_id == id
                    ||| shown.len() == policy.largest_block_limit && forall|i: int|
                        0 <= i < shown.len() ==> larger(
                            graph.blocks[(#[trigger] shown[i]).reference.block_id],
                            graph.blocks[id],
                        )
                }
        }),
{
    let blocks = graph.blocks;
    let ids = listing::<ContextBlockId, ContextBlockView>(blocks);
    finite_maps_are_listed(blocks);
    listed_once(blocks, ids);
    let all = size_ranks(blocks, ids);
    let whole = ranked::<SizeRank>(all);
    let limit = policy.largest_block_limit as int;
    let chosen = best::<SizeRank>(all, limit);
    let shown = freshness(graph, policy).largest_blocks;
    ranked_is_sorted::<SizeRank>(all);
    all.to_multiset_ensures();
    whole.to_multiset_ensures();
    ids.unique_seq_to_set();
    assert(ids.to_set() =~= blocks.dom()) by {
        assert forall|id: ContextBlockId| ids.to_set().contains(id) <==> blocks.dom().contains(
            id,
        ) by {
            if ids.contains(id) {
                let i = choose|i: int| 0 <= i < ids.len() && ids[i] == id;
                assert(blocks.contains_key(ids[i]));
            }
            if blocks.contains_key(id) {
                assert(ids.contains(id));
            }
        }
    }
    assert forall|k: int| 0 <= k < whole.len() implies {
        let id = (#[trigger] whole[k]).reference.block_id;
        blocks.contains_key(id) && whole[k] == size_rank(blocks[id])
    } by {
        assert(whole.contains(whole[k]));
        assert(all.to_multiset().count(whole[k]) > 0);
        assert(all.contains(whole[k]));
        let i = choose|i: int| 0 <= i < all.len() && all[i] == whole[k];
        assert(blocks.contains_key(ids[i]));
    }
    assert forall|i: int| 0 <= i < shown.len() implies {
        let id = (#[trigger] shown[i]).reference.block_id;
        blocks.contains_key(id) && shown[i] == summary_of(blocks[id]) && id
            == whole[i].reference.block_id
    } by {
        assert(chosen[i] == whole[i]);
        assert(blocks.contains_key(whole[i].reference.block_id));
    }
    assert forall|i: int, j: int| 0 <= i < j < whole.len() implies larger(
        blocks[(#[trigger] whole[i]).reference.block_id],
        blocks[(#[trigger] whole[j]).reference.block_id],
    ) by {
        assert(SizeRank::no_later(whole[i], whole[j]));
        assert(blocks.contains_key(whole[i].reference.block_id));
        assert(blocks.contains_key(whole[j].reference.block_id));
    }
    assert forall|i: int, j: int| 0 <= i < j < shown.len() implies larger(
        blocks[(#[trigger] shown[i]).reference.block_id],
        blocks[(#[trigger] shown[j]).reference.block_id],
    ) by {
        assert(larger(
            blocks[whole[i].reference.block_id],
            blocks[whole[j].reference.block_id],
        ));
    }
    assert forall|id: ContextBlockId| #[trigger] blocks.contains_key(id) implies {
        ||| exists|i: int| 0 <= i < shown.len() && (#[trigger] shown[i]).reference.block_id == id
        ||| shown.len() == limit && forall|i: int|
            0 <= i < shown.len() ==> larger(
                blocks[(#[trigger] shown[i]).reference.block_id],
                blocks[id],
            )
    } by {
        assert(ids.contains(id));
        let k = choose|k: int| 0 <= k < ids.len() && ids[k] == id;
        assert(all[k] == size_rank(blocks[id]));
        assert(all.contains(all[k]));
        assert(whole.to_multiset().count(all[k]) > 0);
        assert(whole.contains(all[k]));
        let place = choose|place: int| 0 <= place < whole.len() && whole[place] == all[k];
        assert(whole[place].reference.block_id == id);
        if place < shown.len() {
            assert(shown[place].reference.block_id == id);
        } else {
            assert forall|i: int| 0 <= i < shown.len() implies larger(
                blocks[(#[trigger] shown[i]).reference.block_id],
                blocks[id],
            ) by {
                assert(larger(
                    blocks[whole[i].reference.block_id],
                    blocks[whole[place].reference.block_id],
                ));
            }
        }
    }
}

/// A summary tells of its block as it is.
pub proof fn summaries_tell_of_their_block(block: ContextBlockView)
    ensures
        ({
            let summary = summary_of(block);
            &&& summary.reference.block_id == block.id
            &&& summary.reference.revision == block.revision
            &&& summary.namespace == block.namespace
            &&& summary.lifecycle == block.lifecycle
            &&& summary.pinned == block.pinned
            &&& summary.token_estimate == block.token_estimate
            &&& summary.importance == block.importance
            &&& summary.last_access_ms == block.last_access_ms
        }),
{
}

// ---------------------------------------------------------------------------
// Dependents.

proof fn users_are_those_that_name(
    blocks: Map<ContextBlockId, ContextBlockView>,
    ids: Seq<ContextBlockId>,
    reference: ContextRef,
)
    requires
        forall|i: int| 0 <= i < ids.len() ==> blocks[#[trigger] ids[i]].id == ids[i],
        forall|i: int, j: int|
            0 <= i < j < ids.len() ==> (#[trigger] ids[i]).0 < (#[trigger] ids[j]).0,
    ensures
        forall|k: int|
            0 <= k < users_among(blocks, ids, reference).len() ==> {
                let user = #[trigger] users_among(blocks, ids, reference)[k];
                &&& ids.contains(user.block_id)
                &&& blocks[user.block_id].reference() == user
                &&& blocks[user.block_id].dependencies.contains(reference)
                    || blocks[user.block_id].sources.contains(reference)
            },
        forall|id: ContextBlockId| #[trigger]
            ids.contains(id) && (blocks[id].dependencies.contains(reference)
                || blocks[id].sources.contains(reference)) ==> users_among(
                blocks,
                ids,
                reference,
            ).contains(blocks[id].reference()),
        forall|i: int, j: int|
            0 <= i < j < users_among(blocks, ids, reference).len() ==> (
            #[trigger] users_among(blocks, ids, reference)[i]).block_id.0 < (
            #[trigger] users_among(blocks, ids, reference)[j]).block_id.0,
    decreases ids.len(),
{
    if ids.len() > 0 {
        let rest = ids.drop_last();
        let last = ids.len() - 1;
        let block = blocks[ids[last]];
        assert forall|i: int| 0 <= i < rest.len() implies blocks[#[trigger] rest[i]].id
            == rest[i] by {
            assert(rest[i] == ids[i]);
        }
        assert forall|i: int, j: int| 0 <= i < j < rest.len() implies (#[trigger] rest[i]).0 < (
        #[trigger] rest[j]).0 by {
            assert(rest[i] == ids[i] && rest[j] == ids[j]);
        }
        users_are_those_that_name(blocks, rest, reference);
        let before = users_among(blocks, rest, reference);
        let now = users_among(blocks, ids, reference);
        assert(block.id == ids[last]);
        assert forall|k: int| 0 <= k < now.len() implies {
            let user = #[trigger] now[k];
            &&& ids.contains(user.block_id)
            &&& blocks[user.block_id].reference() == user
            &&& blocks[user.block_id].dependencies.contains(reference)
                || blocks[user.block_id].sources.contains(reference)
        } by {
            if k < before.len() {
                assert(now[k] == before[k]);
                assert(rest.contains(before[k].block_id));
                let i = choose|i: int| 0 <= i < rest.len() && rest[i] == before[k].block_id;
                assert(ids[i] == before[k].block_id);
            } else {
                assert(ids[last] == now[k].block_id);
            }
        }
        assert forall|id: ContextBlockId| #[trigger]
            ids.contains(id) && (blocks[id].dependencies.contains(reference)
                || blocks[id].sources.contains(reference)) implies now.contains(
            blocks[id].reference(),
        ) by {
            let i = choose|i: int| 0 <= i < ids.len() && ids[i] == id;
            if i < last {
                assert(rest[i] == id);
                assert(rest.contains(id));
                let k = choose|k: int| 0 <= k < before.len() && before[k] == blocks[id].reference();
                assert(now[k] == before[k]);
            } else {
                assert(now[now.len() - 1] == blocks[id].reference());
            }
        }
        assert forall|i: int, j: int| 0 <= i < j < now.len() implies (
        #[trigger] now[i]).block_id.0 < (#[trigger] now[j]).block_id.0 by {
            assert(now[i] == before[i]);
            if j < before.len() {
                assert(now[j] == before[j]);
            } else {
                assert(rest.contains(before[i].block_id));
                let k = choose|k: int| 0 <= k < rest.len() && rest[k] == before[i].block_id;
                assert(ids[k] == before[i].block_id);
            }
        }
    }
}

/// The dependents in a report are exactly the blocks that name the reference
/// as a dependency or a source, in ascending order, or the first of them.
pub proof fn dependents_name_the_reference(
    graph: ContextGraphView,
    reference: ContextRef,
    limit: nat,
)
    requires
        graph.valid(),
    ensures
        ({
            let users = users_of(graph.blocks, reference);
            let shown = at_most(users, limit as int);
            &&& forall|k: int|
                0 <= k < users.len() ==> {
                    let user = #[trigger] users[k];
                    &&& graph.blocks.contains_key(user.block_id)
                    &&& graph.blocks[user.block_id].reference() == user
                    &&& graph.blocks[user.block_id].dependencies.contains(reference)
                        || graph.blocks[user.block_id].sources.contains(reference)
                }
            &&& forall|id: ContextBlockId| #[trigger]
                graph.blocks.contains_key(id) && (graph.blocks[id].dependencies.contains(reference)
                    || graph.blocks[id].sources.contains(reference)) ==> users.contains(
                    graph.blocks[id].reference(),
                )
            &&& forall|i: int, j: int|
                0 <= i < j < users.len() ==> (#[trigger] users[i]).block_id.0 < (
                #[trigger] users[j]).block_id.0
            &&& shown.len() == if users.len() <= limit {
                users.len()
            } else {
                limit
            }
            &&& forall|i: int| 0 <= i < shown.len() ==> #[trigger] shown[i] == users[i]
        }),
{
    let ids = listing::<ContextBlockId, ContextBlockView>(graph.blocks);
    finite_maps_are_listed(graph.blocks);
    assert forall|i: int| 0 <= i < ids.len() implies graph.blocks[#[trigger] ids[i]].id
        == ids[i] by {
        assert(graph.blocks.contains_key(ids[i]));
    }
    assert forall|i: int, j: int| 0 <= i < j < ids.len() implies (#[trigger] ids[i]).0 < (
    #[trigger] ids[j]).0 by {
        assert(ContextBlockId::before(ids[i], ids[j]));
    }
    users_are_those_that_name(graph.blocks, ids, reference);
    let users = users_of(graph.blocks, reference);
    assert forall|k: int| 0 <= k < users.len() implies graph.blocks.contains_key(
        (#[trigger] users[k]).block_id,
    ) by {
        let i = choose|i: int| 0 <= i < ids.len() && ids[i] == users[k].block_id;
        assert(ids.contains(users[k].block_id));
        assert(graph.blocks.contains_key(ids[i]));
    }
    assert forall|id: ContextBlockId| #[trigger]
        graph.blocks.contains_key(id) && (graph.blocks[id].dependencies.contains(reference)
            || graph.blocks[id].sources.contains(reference)) implies users.contains(
        graph.blocks[id].reference(),
    ) by {
        assert(ids.contains(id));
    }
}

// ---------------------------------------------------------------------------
// Prompts.

/// What a prompt quotes for a reference.
pub open spec fn quotation(graph: ContextGraphView, reference: ContextRef) -> Seq<char> {
    lossy_text(graph.content[graph.blocks[reference.block_id].content_hash]) + "\n"@
}

/// The principal may have the reference quoted.
pub open spec fn quotable(
    graph: ContextGraphView,
    principal: ContextPrincipal,
    policy: ContextTrustPolicy,
    reference: ContextRef,
) -> bool {
    let block = graph.blocks[reference.block_id];
    &&& graph.knows(reference)
    &&& visible_to(principal, block.scope)
    &&& policy.admits(block.trust)
    &&& graph.content.contains_key(block.content_hash)
}

proof fn layers_quote_their_references(
    graph: ContextGraphView,
    principal: ContextPrincipal,
    policy: ContextTrustPolicy,
    name: Seq<char>,
    references: Seq<ContextRef>,
)
    ensures
        layer_text(graph, principal, policy, name, references) is Ok <==> forall|i: int|
            0 <= i < references.len() ==> quotable(
                graph,
                principal,
                policy,
                #[trigger] references[i],
            ),
        layer_text(graph, principal, policy, name, references) matches Ok(text) ==> text == "["@
            + name + "]\n"@ + concatenated(
            references.map_values(|reference: ContextRef| quotation(graph, reference)),
        ),
    decreases references.len(),
{
    let lines = references.map_values(|reference: ContextRef| quotation(graph, reference));
    let result = layer_text(graph, principal, policy, name, references);
    if references.len() == 0 {
        assert(concatenated(lines) =~= Seq::<char>::empty());
        assert("["@ + name + "]\n"@ + concatenated(lines) =~= "["@ + name + "]\n"@);
    } else {
        let rest = references.drop_last();
        let last = references.len() - 1;
        layers_quote_their_references(graph, principal, policy, name, rest);
        let early = rest.map_values(|reference: ContextRef| quotation(graph, reference));
        assert(lines.drop_last() =~= early);
        assert(lines.last() == quotation(graph, references[last]));
        let all = forall|i: int|
            0 <= i < references.len() ==> quotable(
                graph,
                principal,
                policy,
                #[trigger] references[i],
            );
        if all {
            assert forall|i: int| 0 <= i < rest.len() implies quotable(
                graph,
                principal,
                policy,
                #[trigger] rest[i],
            ) by {
                assert(rest[i] == references[i]);
            }
            assert(quotable(graph, principal, policy, references[last]));
        }
        if result is Ok {
            assert forall|i: int| 0 <= i < references.len() implies quotable(
                graph,
                principal,
                policy,
                #[trigger] references[i],
            ) by {
                if i < last {
                    assert(rest[i] == references[i]);
                }
            }
            let before = layer_text(graph, principal, policy, name, rest)->Ok_0;
            let text = quoted(graph, principal, policy, references[last])->Ok_0;
            assert(result->Ok_0 =~= "["@ + name + "]\n"@ + (concatenated(early) + (text + "\n"@)));
        }
    }
}

/// A prompt without layers is its task. One more layer adds, before the task,
/// its heading and what its references stand for, line by line; the prompt is
/// given exactly where every reference may be quoted.
pub proof fn prompts_quote_their_layers(
    graph: ContextGraphView,
    principal: ContextPrincipal,
    policy: ContextTrustPolicy,
    layers: Seq<PromptLayerView>,
    layer: PromptLayerView,
    task: Seq<char>,
)
    ensures
        rendered(graph, principal, seq![], task, policy) matches Ok(prompt) && prompt.text
            == "[task]\n"@ + task + "\n"@,
        rendered(graph, principal, layers.push(layer), task, policy) is Ok <==> {
            &&& rendered(graph, principal, layers, task, policy) is Ok
            &&& forall|i: int|
                0 <= i < layer.references.len() ==> quotable(
                    graph,
                    principal,
                    policy,
                    #[trigger] layer.references[i],
                )
        },
        rendered(graph, principal, layers.push(layer), task, policy) matches Ok(prompt) ==> {
            let before = rendered(graph, principal, layers, task, policy)->Ok_0.text;
            let ending = "[task]\n"@ + task + "\n"@;
            prompt.text == before.take(before.len() - ending.len()) + ("["@ + layer.name + "]\n"@
                + concatenated(
                layer.references.map_values(|reference: ContextRef| quotation(graph, reference)),
            )) + ending
        },
{
    let longer = layers.push(layer);
    assert(longer.drop_last() =~= layers);
    layers_quote_their_references(graph, principal, policy, layer.name, layer.references);
    let ending = "[task]\n"@ + task + "\n"@;
    assert(rendered(graph, principal, seq![], task, policy)->Ok_0.text =~= ending);
    if rendered(graph, principal, longer, task, policy) is Ok {
        let now = rendered(graph, principal, longer, task, policy)->Ok_0.text;
        let before = rendered(graph, principal, layers, task, policy)->Ok_0.text;
        let stem = layers_text(graph, principal, policy, layers)->Ok_0.text;
        assert(before =~= stem + ending);
        assert(before.take(before.len() - ending.len()) =~= stem);
        assert(now =~= stem + ("["@ + layer.name + "]\n"@ + concatenated(
            layer.references.map_values(|reference: ContextRef| quotation(graph, reference)),
        )) + ending);
    }
}

/// A prompt's estimate covers its bytes, four to a token.
pub proof fn prompts_are_estimated_by_length(
    graph: ContextGraphView,
    principal: ContextPrincipal,
    policy: ContextTrustPolicy,
    layers: Seq<PromptLayerView>,
    task: Seq<char>,
)
    ensures
        rendered(graph, principal, layers, task, policy) matches Ok(prompt) ==> {
            let length = vstd::utf8::encode_utf8(prompt.text).len();
            length <= 4 * prompt.estimated_tokens && 4 * prompt.estimated_tokens < length + 4
        },
{
}

} // verus!
