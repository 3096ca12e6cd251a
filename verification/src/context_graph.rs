//! The graph of versioned context blocks: publication, staleness, lifecycle
//! and replay.

use vstd::prelude::*;
use vstd::string::StringExecFns;

use crate::codec::outcome;
use crate::context::{
    clone_refs, context_digest, invalidation_views, transition_views, ContentHash, ContextBlock,
    ContextBlockId, ContextBlockView, ContextDraft, ContextDraftView, ContextError,
    ContextErrorView, ContextIdSource, ContextLifecycle, ContextOwner, ContextPrincipal, ContextRef,
    ContextScope, ContextTransition, ContextTransitionView, DeterministicContentHasher,
    Invalidation, InvalidationView, SubscriptionId,
};
use crate::ids::AgentId;
use crate::kernel::{combined_all, TrustOrigin};
use crate::keys::same_bytes;
use crate::table::{listed, listing, listing_is_unique, table_is_listed, Table, Replica};
use crate::text::{blank, chars_of, clone_bytes, is_blank};

verus! {

#[derive(Debug, PartialEq, Eq)]
pub struct ContextSubscription {
    pub id: SubscriptionId,
    pub agent_id: AgentId,
    pub namespace_pattern: String,
}

pub struct ContextSubscriptionView {
    pub id: SubscriptionId,
    pub agent_id: AgentId,
    pub namespace_pattern: Seq<char>,
}

impl View for ContextSubscription {
    type V = ContextSubscriptionView;

    open spec fn view(&self) -> ContextSubscriptionView {
        ContextSubscriptionView {
            id: self.id,
            agent_id: self.agent_id,
            namespace_pattern: self.namespace_pattern@,
        }
    }
}

/// What a publication did.
#[derive(Clone, Debug, PartialEq, Eq)]
pub struct ContextPublication {
    pub block: ContextBlock,
    pub transitions: Vec<ContextTransition>,
    pub invalidations: Vec<Invalidation>,
    /// The agents whose subscriptions match, in ascending order.
    pub awakened_agents: Vec<AgentId>,
}

pub struct ContextPublicationView {
    pub block: ContextBlockView,
    pub transitions: Seq<ContextTransitionView>,
    pub invalidations: Seq<InvalidationView>,
    pub awakened_agents: Seq<AgentId>,
}

impl View for ContextPublication {
    type V = ContextPublicationView;

    open spec fn view(&self) -> ContextPublicationView {
        ContextPublicationView {
            block: self.block@,
            transitions: transition_views(self.transitions@),
            invalidations: invalidation_views(self.invalidations@),
            awakened_agents: self.awakened_agents@,
        }
    }
}

pub type BlockMap = Map<ContextBlockId, ContextBlockView>;

pub struct ContextGraphView {
    pub blocks: Map<ContextBlockId, ContextBlockView>,
    pub content: Map<Seq<u8>, Seq<u8>>,
    pub namespaces: Map<Seq<char>, Seq<ContextRef>>,
    pub subscriptions: Map<SubscriptionId, ContextSubscriptionView>,
    pub invalidations: Seq<InvalidationView>,
}

#[derive(Debug, PartialEq, Eq)]
pub struct ContextGraph {
    pub(crate) blocks: Table<ContextBlockId, ContextBlock>,
    pub(crate) content: Table<ContentHash, Vec<u8>>,
    pub(crate) namespaces: Table<String, Vec<ContextRef>>,
    pub(crate) subscriptions: Table<SubscriptionId, ContextSubscription>,
    pub(crate) invalidations: Vec<Invalidation>,
}

impl View for ContextGraph {
    type V = ContextGraphView;

    open(crate) spec fn view(&self) -> ContextGraphView {
        ContextGraphView {
            blocks: self.blocks@,
            content: self.content@,
            namespaces: self.namespaces@,
            subscriptions: self.subscriptions@,
            invalidations: invalidation_views(self.invalidations@),
        }
    }
}

pub open spec fn empty_graph() -> ContextGraphView {
    ContextGraphView {
        blocks: Map::empty(),
        content: Map::empty(),
        namespaces: Map::empty(),
        subscriptions: Map::empty(),
        invalidations: seq![],
    }
}

impl ContextGraphView {
    /// Each block stands under its own identity, and each version of a
    /// namespace is a block of the graph.
    pub open spec fn valid(self) -> bool {
        &&& self.blocks.dom().finite()
        &&& forall|id: ContextBlockId| #[trigger]
            self.blocks.contains_key(id) ==> self.blocks[id].id == id
        &&& forall|namespace: Seq<char>, i: int|
            self.namespaces.contains_key(namespace) && 0 <= i < self.namespaces[namespace].len()
                ==> self.blocks.contains_key(
                (#[trigger] self.namespaces[namespace][i]).block_id,
            )
    }

    /// The reference names a block at its revision.
    pub open spec fn knows(self, reference: ContextRef) -> bool {
        self.blocks.contains_key(reference.block_id) && self.blocks[reference.block_id].revision
            == reference.revision
    }

    /// The versions of a namespace, the newest last.
    pub open spec fn versions(self, namespace: Seq<char>) -> Seq<ContextRef> {
        if self.namespaces.contains_key(namespace) {
            self.namespaces[namespace]
        } else {
            seq![]
        }
    }

    pub open spec fn newest(self, namespace: Seq<char>) -> Option<ContextRef> {
        if self.versions(namespace).len() == 0 {
            None
        } else {
            Some(self.versions(namespace).last())
        }
    }
}

// ---------------------------------------------------------------------------
// Who sees what.

/// A principal sees every block but the private ones of others.
pub open spec fn visible_to(principal: ContextPrincipal, scope: ContextScope) -> bool {
    match scope {
        ContextScope::Global | ContextScope::Team => true,
        ContextScope::Private(owner) => principal == ContextPrincipal::Runtime || principal
            == ContextPrincipal::Agent(owner),
    }
}

pub(crate) fn can_view(principal: ContextPrincipal, block: &ContextBlock) -> (answer: bool)
    ensures
        answer == visible_to(principal, block.scope),
{
    match block.scope {
        ContextScope::Global | ContextScope::Team => true,
        ContextScope::Private(owner) => match principal {
            ContextPrincipal::Runtime => true,
            ContextPrincipal::Agent(agent_id) => agent_id.value() == owner.value(),
        },
    }
}

/// `*` matches every namespace, a pattern `prefix.*` those below the prefix,
/// and any other pattern itself.
pub open spec fn namespace_matches(pattern: Seq<char>, namespace: Seq<char>) -> bool {
    let stem = pattern.len() - 2;
    if pattern == seq!['*'] {
        true
    } else if stem >= 0 && pattern[stem] == '.' && pattern[stem + 1] == '*' {
        namespace.len() > stem && namespace.take(stem + 1) == pattern.take(stem + 1)
    } else {
        pattern == namespace
    }
}

/// The first `count` characters agree.
fn same_start(left: &Vec<char>, right: &Vec<char>, count: usize) -> (same: bool)
    requires
        count <= left@.len(),
        count <= right@.len(),
    ensures
        same == (left@.take(count as int) == right@.take(count as int)),
{
    let mut index: usize = 0;
    while index < count
        invariant
            index <= count,
            count <= left@.len(),
            count <= right@.len(),
            forall|i: int| 0 <= i < index ==> left@[i] == right@[i],
        decreases count - index,
    {
        if left[index] != right[index] {
            assert(left@.take(count as int)[index as int] != right@.take(
                count as int,
            )[index as int]);
            return false;
        }
        index += 1;
    }
    assert(left@.take(count as int) =~= right@.take(count as int));
    true
}

pub(crate) fn matches_namespace(pattern: &str, namespace: &str) -> (answer: bool)
    ensures
        answer == namespace_matches(pattern@, namespace@),
{
    let pattern = chars_of(pattern);
    let namespace = chars_of(namespace);
    let length: usize = pattern.len();
    if length == 1 && pattern[0] == '*' {
        assert(pattern@ =~= seq!['*']);
        return true;
    }
    if length >= 2 && pattern[length - 2] == '.' && pattern[length - 1] == '*' {
        return namespace.len() > length - 2 && same_start(&namespace, &pattern, length - 1);
    }
    if namespace.len() != length {
        return false;
    }
    let same = same_start(&pattern, &namespace, length);
    assert(pattern@.take(length as int) =~= pattern@);
    assert(namespace@.take(length as int) =~= namespace@);
    same
}

/// One token for every four bytes begun.
pub open spec fn tokens_in(length: nat) -> nat {
    (length + 3) / 4
}

pub(crate) fn estimate_tokens(bytes: &[u8]) -> (tokens: u64)
    ensures
        tokens == tokens_in(bytes@.len()),
{
    let length: usize = bytes.len();
    let whole: usize = length / 4;
    if length % 4 == 0 {
        whole as u64
    } else {
        whole as u64 + 1
    }
}

pub(crate) fn contains_ref(list: &Vec<ContextRef>, reference: ContextRef) -> (answer: bool)
    ensures
        answer == list@.contains(reference),
{
    let mut index: usize = 0;
    while index < list.len()
        invariant
            index <= list@.len(),
            forall|i: int| 0 <= i < index ==> list@[i] != reference,
        decreases list.len() - index,
    {
        if list[index] == reference {
            return true;
        }
        index += 1;
    }
    false
}

// ---------------------------------------------------------------------------
// How staleness spreads.

/// Those of the listed blocks that are live and depend on `dependency`.
pub open spec fn dependents_among(
    blocks: Map<ContextBlockId, ContextBlockView>,
    ids: Seq<ContextBlockId>,
    dependency: ContextRef,
) -> Seq<ContextRef>
    decreases ids.len(),
{
    if ids.len() == 0 {
        seq![]
    } else {
        let before = dependents_among(blocks, ids.drop_last(), dependency);
        let block = blocks[ids.last()];
        if block.dependencies.contains(dependency) && block.lifecycle.live() {
            before.push(block.reference())
        } else {
            before
        }
    }
}

/// The live blocks that depend on `dependency`, in identity order.
pub open spec fn live_dependents(
    blocks: Map<ContextBlockId, ContextBlockView>,
    dependency: ContextRef,
) -> Seq<ContextRef> {
    dependents_among(blocks, listing::<ContextBlockId, ContextBlockView>(blocks), dependency)
}

/// One notice for each of the dependents.
pub open spec fn notices(
    dependents: Seq<ContextRef>,
    dependency: ContextRef,
    reason: Seq<char>,
) -> Seq<InvalidationView> {
    Seq::new(
        dependents.len(),
        |i: int| InvalidationView { block: dependents[i], dependency: Some(dependency), reason },
    )
}

/// What may still be visited.
pub open spec fn unvisited(
    blocks: Map<ContextBlockId, ContextBlockView>,
    queue: Seq<ContextRef>,
    seen: Set<ContextRef>,
) -> Set<ContextRef> {
    block_references(blocks).union(queue.to_set()).difference(seen)
}

pub open spec fn block_references(blocks: Map<ContextBlockId, ContextBlockView>) -> Set<
    ContextRef,
> {
    blocks.dom().map(|id: ContextBlockId| blocks[id].reference())
}

/// The notices that follow from what waits in `queue`, whose last entry is
/// taken first. Each reference is followed once.
pub open spec fn spread(
    blocks: Map<ContextBlockId, ContextBlockView>,
    reason: Seq<char>,
    queue: Seq<ContextRef>,
    seen: Set<ContextRef>,
    found: Seq<InvalidationView>,
) -> Seq<InvalidationView>
    decreases unvisited(blocks, queue, seen).len(), queue.len(),
    when blocks.dom().finite()
    via spread_ends
{
    if queue.len() == 0 {
        found
    } else {
        let next = queue.last();
        let rest = queue.drop_last();
        if seen.contains(next) {
            spread(blocks, reason, rest, seen, found)
        } else {
            let dependents = live_dependents(blocks, next);
            spread(
                blocks,
                reason,
                rest + dependents,
                seen.insert(next),
                found + notices(dependents, next, reason),
            )
        }
    }
}

pub proof fn dependents_are_blocks(
    blocks: Map<ContextBlockId, ContextBlockView>,
    ids: Seq<ContextBlockId>,
    dependency: ContextRef,
)
    requires
        forall|i: int| 0 <= i < ids.len() ==> blocks.contains_key(#[trigger] ids[i]),
    ensures
        forall|i: int|
            0 <= i < dependents_among(blocks, ids, dependency).len() ==> block_references(
                blocks,
            ).contains(#[trigger] dependents_among(blocks, ids, dependency)[i]),
    decreases ids.len(),
{
    if ids.len() > 0 {
        assert forall|i: int| 0 <= i < ids.drop_last().len() implies blocks.contains_key(
            #[trigger] ids.drop_last()[i],
        ) by {
            assert(ids.drop_last()[i] == ids[i]);
        }
        dependents_are_blocks(blocks, ids.drop_last(), dependency);
        let last = ids[ids.len() - 1];
        assert(blocks.dom().contains(last));
        assert(block_references(blocks).contains(blocks[last].reference()));
        let before = dependents_among(blocks, ids.drop_last(), dependency);
        let all = dependents_among(blocks, ids, dependency);
        assert forall|i: int| 0 <= i < all.len() implies block_references(blocks).contains(
            #[trigger] all[i],
        ) by {
            if i < before.len() {
                assert(all[i] == before[i]);
            }
        }
    }
}

/// A finite map has a listing of its keys.
pub proof fn finite_maps_are_listed(blocks: Map<ContextBlockId, ContextBlockView>)
    requires
        blocks.dom().finite(),
    ensures
        listed::<ContextBlockId, ContextBlockView>(
            blocks,
            listing::<ContextBlockId, ContextBlockView>(blocks),
        ),
{
    let ids = ordered(blocks.dom());
    ordering_lists(blocks.dom());
    assert(listed::<ContextBlockId, ContextBlockView>(blocks, ids));
}

spec fn ordered(set: Set<ContextBlockId>) -> Seq<ContextBlockId>
    decreases set.len(),
    when set.finite()
{
    if set.len() == 0 {
        seq![]
    } else {
        let largest = set.find_unique_maximal(|a: ContextBlockId, b: ContextBlockId| a.0 <= b.0);
        if set.contains(largest) {
            ordered(set.remove(largest)).push(largest)
        } else {
            seq![]
        }
    }
}

proof fn ordering_lists(set: Set<ContextBlockId>)
    requires
        set.finite(),
    ensures
        forall|i: int, j: int|
            0 <= i < j < ordered(set).len() ==> (#[trigger] ordered(set)[i]).0 < (
            #[trigger] ordered(set)[j]).0,
        forall|i: int| 0 <= i < ordered(set).len() ==> set.contains(#[trigger] ordered(set)[i]),
        forall|id: ContextBlockId| #[trigger] set.contains(id) ==> ordered(set).contains(id),
    decreases set.len(),
{
    if set.len() == 0 {
        assert forall|id: ContextBlockId| #[trigger] set.contains(id) implies false by {
            assert(set.remove(id).len() < set.len());
        }
    } else {
        let leq = |a: ContextBlockId, b: ContextBlockId| a.0 <= b.0;
        let largest = set.find_unique_maximal(leq);
        set.find_unique_maximal_ensures(leq);
        let rest = set.remove(largest);
        ordering_lists(rest);
        assert forall|i: int, j: int| 0 <= i < j < ordered(set).len() implies (
        #[trigger] ordered(set)[i]).0 < (#[trigger] ordered(set)[j]).0 by {
            if j == ordered(set).len() - 1 {
                assert(rest.contains(ordered(rest)[i]));
                let other = ordered(rest)[i];
                assert(leq(other, largest) || leq(largest, other));
            }
        }
        assert forall|id: ContextBlockId| #[trigger] set.contains(id) implies ordered(
            set,
        ).contains(id) by {
            if id == largest {
                assert(ordered(set)[ordered(set).len() - 1] == id);
            } else {
                assert(rest.contains(id));
                let i = choose|i: int| 0 <= i < ordered(rest).len() && ordered(rest)[i] == id;
                assert(ordered(set)[i] == id);
            }
        }
        assert forall|i: int| 0 <= i < ordered(set).len() implies set.contains(
            #[trigger] ordered(set)[i],
        ) by {
            if i < ordered(rest).len() {
                assert(rest.contains(ordered(rest)[i]));
            }
        }
    }
}

#[via_fn]
proof fn spread_ends(
    blocks: Map<ContextBlockId, ContextBlockView>,
    reason: Seq<char>,
    queue: Seq<ContextRef>,
    seen: Set<ContextRef>,
    found: Seq<InvalidationView>,
) {
    if queue.len() > 0 {
        let next = queue.last();
        let rest = queue.drop_last();
        let before = unvisited(blocks, queue, seen);
        visiting_shrinks(blocks, queue, seen);
        if seen.contains(next) {
            let after = unvisited(blocks, rest, seen);
            assert(after.len() <= before.len());
        } else {
            let dependents = live_dependents(blocks, next);
            let after = unvisited(blocks, rest + dependents, seen.insert(next));
            assert(after.len() < before.len());
        }
    }
}

/// Following the last entry leaves less to visit.
pub proof fn visiting_shrinks(
    blocks: Map<ContextBlockId, ContextBlockView>,
    queue: Seq<ContextRef>,
    seen: Set<ContextRef>,
)
    requires
        blocks.dom().finite(),
        queue.len() > 0,
    ensures
        unvisited(blocks, queue, seen).finite(),
        unvisited(blocks, queue.drop_last(), seen).len() <= unvisited(blocks, queue, seen).len(),
        !seen.contains(queue.last()) ==> unvisited(
            blocks,
            queue.drop_last() + live_dependents(blocks, queue.last()),
            seen.insert(queue.last()),
        ).len() < unvisited(blocks, queue, seen).len(),
{
    let next = queue.last();
    let rest = queue.drop_last();
    let before = unvisited(blocks, queue, seen);
    blocks.dom().lemma_map_finite(|id: ContextBlockId| blocks[id].reference());
    seq_to_set_is_finite(queue);
    assert(queue.contains(next)) by {
        assert(queue[queue.len() - 1] == next);
    }
    assert forall|r: ContextRef| #[trigger] rest.contains(r) implies queue.contains(r) by {
        let i = choose|i: int| 0 <= i < rest.len() && rest[i] == r;
        assert(queue[i] == r);
    }
    let shorter = unvisited(blocks, rest, seen);
    assert(shorter.subset_of(before));
    vstd::set_lib::lemma_len_subset(shorter, before);
    if !seen.contains(next) {
        finite_maps_are_listed(blocks);
        let ids = listing::<ContextBlockId, ContextBlockView>(blocks);
        dependents_are_blocks(blocks, ids, next);
        let dependents = live_dependents(blocks, next);
        let after = unvisited(blocks, rest + dependents, seen.insert(next));
        assert forall|r: ContextRef| #[trigger] after.contains(r) implies before.remove(
            next,
        ).contains(r) by {
            if (rest + dependents).contains(r) {
                let i = choose|i: int|
                    0 <= i < (rest + dependents).len() && (rest + dependents)[i] == r;
                if i < rest.len() {
                    assert(rest[i] == r);
                    assert(rest.contains(r));
                } else {
                    assert(dependents[i - rest.len()] == r);
                }
            }
        }
        assert(after.subset_of(before.remove(next)));
        assert(before.contains(next));
        vstd::set_lib::lemma_len_subset(after, before.remove(next));
    }
}

proof fn seq_to_set_is_finite(queue: Seq<ContextRef>)
    ensures
        queue.to_set().finite(),
{
    vstd::seq_lib::seq_to_set_is_finite(queue);
}

/// A block that a notice names.
pub open spec fn touched(found: Seq<InvalidationView>, id: ContextBlockId) -> bool {
    exists|i: int| 0 <= i < found.len() && (#[trigger] found[i]).block.block_id == id
}

/// The blocks once those that the notices name are stale.
pub open spec fn staled(
    blocks: Map<ContextBlockId, ContextBlockView>,
    found: Seq<InvalidationView>,
) -> Map<ContextBlockId, ContextBlockView> {
    Map::new(
        |id: ContextBlockId| blocks.contains_key(id),
        |id: ContextBlockId|
            if touched(found, id) {
                ContextBlockView { lifecycle: ContextLifecycle::Stale, ..blocks[id] }
            } else {
                blocks[id]
            },
    )
}

/// The notices name live blocks.
pub open spec fn notices_fit(
    blocks: Map<ContextBlockId, ContextBlockView>,
    found: Seq<InvalidationView>,
) -> bool {
    forall|i: int|
        0 <= i < found.len() ==> blocks.contains_key((#[trigger] found[i]).block.block_id)
            && blocks[found[i].block.block_id].lifecycle.live()
            && blocks[found[i].block.block_id].reference() == found[i].block
}

proof fn staled_keeps_dependents_among(
    blocks: Map<ContextBlockId, ContextBlockView>,
    found: Seq<InvalidationView>,
    ids: Seq<ContextBlockId>,
    dependency: ContextRef,
)
    requires
        notices_fit(blocks, found),
        forall|i: int| 0 <= i < ids.len() ==> blocks.contains_key(#[trigger] ids[i]),
    ensures
        dependents_among(staled(blocks, found), ids, dependency) == dependents_among(
            blocks,
            ids,
            dependency,
        ),
    decreases ids.len(),
{
    if ids.len() > 0 {
        assert forall|i: int| 0 <= i < ids.drop_last().len() implies blocks.contains_key(
            #[trigger] ids.drop_last()[i],
        ) by {
            assert(ids.drop_last()[i] == ids[i]);
        }
        staled_keeps_dependents_among(blocks, found, ids.drop_last(), dependency);
        assert(blocks.contains_key(ids[ids.len() - 1]));
    }
}

/// Marking blocks stale leaves the live dependents of each block as they are.
proof fn staled_keeps_dependents(
    blocks: Map<ContextBlockId, ContextBlockView>,
    found: Seq<InvalidationView>,
    dependency: ContextRef,
)
    requires
        blocks.dom().finite(),
        notices_fit(blocks, found),
    ensures
        live_dependents(staled(blocks, found), dependency) == live_dependents(blocks, dependency),
{
    let after = staled(blocks, found);
    assert(after.dom() =~= blocks.dom());
    finite_maps_are_listed(blocks);
    finite_maps_are_listed(after);
    let ids = listing::<ContextBlockId, ContextBlockView>(blocks);
    let new_ids = listing::<ContextBlockId, ContextBlockView>(after);
    assert(listed::<ContextBlockId, ContextBlockView>(blocks, new_ids));
    listing_is_unique::<ContextBlockId, ContextBlockView>(blocks, ids, new_ids);
    staled_keeps_dependents_among(blocks, found, ids, dependency);
}

proof fn dependents_are_live(
    blocks: Map<ContextBlockId, ContextBlockView>,
    ids: Seq<ContextBlockId>,
    dependency: ContextRef,
)
    requires
        forall|i: int| 0 <= i < ids.len() ==> blocks.contains_key(#[trigger] ids[i]),
        forall|id: ContextBlockId| #[trigger] blocks.contains_key(id) ==> blocks[id].id == id,
    ensures
        notices_fit(
            blocks,
            notices(dependents_among(blocks, ids, dependency), dependency, seq![]),
        ),
        forall|i: int|
            0 <= i < dependents_among(blocks, ids, dependency).len() ==> blocks[(
            #[trigger] dependents_among(blocks, ids, dependency)[i]).block_id].dependencies.contains(
                dependency,
            ),
    decreases ids.len(),
{
    if ids.len() > 0 {
        assert forall|i: int| 0 <= i < ids.drop_last().len() implies blocks.contains_key(
            #[trigger] ids.drop_last()[i],
        ) by {
            assert(ids.drop_last()[i] == ids[i]);
        }
        dependents_are_live(blocks, ids.drop_last(), dependency);
        let before = dependents_among(blocks, ids.drop_last(), dependency);
        let all = dependents_among(blocks, ids, dependency);
        let found = notices(all, dependency, seq![]);
        let earlier = notices(before, dependency, seq![]);
        assert(blocks.contains_key(ids[ids.len() - 1]));
        assert forall|i: int| 0 <= i < found.len() implies blocks.contains_key(
            (#[trigger] found[i]).block.block_id,
        ) && blocks[found[i].block.block_id].lifecycle.live()
            && blocks[found[i].block.block_id].reference() == found[i].block by {
            if i < before.len() {
                assert(found[i] == earlier[i]);
            }
        }
        assert forall|i: int| 0 <= i < all.len() implies blocks[(
        #[trigger] all[i]).block_id].dependencies.contains(dependency) by {
            if i < before.len() {
                assert(all[i] == before[i]);
            }
        }
    }
}

/// The live dependents of a reference are live blocks that depend on it.
pub proof fn live_dependents_depend(
    blocks: Map<ContextBlockId, ContextBlockView>,
    dependency: ContextRef,
)
    requires
        blocks.dom().finite(),
        forall|id: ContextBlockId| #[trigger] blocks.contains_key(id) ==> blocks[id].id == id,
    ensures
        forall|i: int|
            0 <= i < live_dependents(blocks, dependency).len() ==> {
                let reference = #[trigger] live_dependents(blocks, dependency)[i];
                &&& blocks.contains_key(reference.block_id)
                &&& blocks[reference.block_id].reference() == reference
                &&& blocks[reference.block_id].lifecycle.live()
                &&& blocks[reference.block_id].dependencies.contains(dependency)
            },
{
    finite_maps_are_listed(blocks);
    let ids = listing::<ContextBlockId, ContextBlockView>(blocks);
    dependents_are_live(blocks, ids, dependency);
    let all = dependents_among(blocks, ids, dependency);
    let found = notices(all, dependency, seq![]);
    assert forall|i: int| 0 <= i < live_dependents(blocks, dependency).len() implies {
        let reference = #[trigger] live_dependents(blocks, dependency)[i];
        &&& blocks.contains_key(reference.block_id)
        &&& blocks[reference.block_id].reference() == reference
        &&& blocks[reference.block_id].lifecycle.live()
        &&& blocks[reference.block_id].dependencies.contains(dependency)
    } by {
        assert(found[i].block == all[i]);
        assert(blocks[all[i].block_id].dependencies.contains(dependency));
    }
}

impl ContextGraph {
    /// The live blocks that depend on a reference.
    fn dependents_of(&self, dependency: ContextRef) -> (dependents: Vec<ContextRef>)
        ensures
            dependents@ == live_dependents(self@.blocks, dependency),
    {
        let mut dependents: Vec<ContextRef> = Vec::new();
        let count: usize = self.blocks.len();
        let mut index: usize = 0;
        let ghost ids = listing::<ContextBlockId, ContextBlockView>(self.blocks@);
        proof {
            table_is_listed(self.blocks.keys(), self.blocks.values());
            assert(ids.take(0) =~= Seq::<ContextBlockId>::empty());
        }
        while index < count
            invariant
                index <= count,
                count == self.blocks.keys().len(),
                ids.len() == count,
                forall|i: int| 0 <= i < count ==> (#[trigger] self.blocks.keys()[i]) == ids[i],
                dependents@ == dependents_among(
                    self.blocks@,
                    ids.take(index as int),
                    dependency,
                ),
            decreases count - index,
        {
            let block = self.blocks.value_at(index);
            assert(self.blocks.keys()[index as int] == ids[index as int]);
            if contains_ref(&block.dependencies, dependency) && block.lifecycle.is_live() {
                dependents.push(block.reference());
            }
            index += 1;
            proof {
                let now = ids.take(index as int);
                assert(now.drop_last() =~= ids.take(index - 1));
                assert(now.last() == ids[index - 1]);
            }
        }
        assert(ids.take(count as int) =~= ids);
        dependents
    }

    /// Marks every live block that depends on `cause`, directly or through
    /// others, stale.
    fn mark_dependents_stale(&mut self, cause: ContextRef, reason: &str) -> (found: Vec<
        Invalidation,
    >)
        requires
            old(self)@.valid(),
        ensures
            invalidation_views(found@) == spread(
                old(self)@.blocks,
                reason@,
                seq![cause],
                Set::empty(),
                seq![],
            ),
            final(self)@ == (ContextGraphView {
                blocks: staled(old(self)@.blocks, invalidation_views(found@)),
                ..old(self)@
            }),
            final(self)@.valid(),
            notices_fit(old(self)@.blocks, invalidation_views(found@)),
    {
        let ghost base = self@.blocks;
        let ghost before = self@;
        let mut queue: Vec<ContextRef> = Vec::new();
        queue.push(cause);
        let mut seen: Table<ContextRef, bool> = Table::new();
        let mut found: Vec<Invalidation> = Vec::new();
        proof {
            assert(queue@ =~= seq![cause]);
            assert(seen@.dom() =~= Set::<ContextRef>::empty());
            assert(invalidation_views(found@) =~= Seq::<InvalidationView>::empty());
            assert(self@.blocks =~= staled(base, invalidation_views(found@)));
        }
        while queue.len() > 0
            invariant
                before.valid(),
                base == before.blocks,
                self@ == (ContextGraphView {
                    blocks: staled(base, invalidation_views(found@)),
                    ..before
                }),
                notices_fit(base, invalidation_views(found@)),
                spread(base, reason@, queue@, seen@.dom(), invalidation_views(found@)) == spread(
                    base,
                    reason@,
                    seq![cause],
                    Set::empty(),
                    seq![],
                ),
            decreases unvisited(base, queue@, seen@.dom()).len(), queue@.len(),
        {
            proof {
                visiting_shrinks(base, queue@, seen@.dom());
            }
            let ghost waiting = queue@;
            let ghost visited = seen@.dom();
            let ghost earlier = invalidation_views(found@);
            let dependency = queue.pop().unwrap();
            if !seen.contains_key(&dependency) {
                seen.insert(dependency, true);
                assert(seen@.dom() =~= visited.insert(dependency));
                let dependents = self.dependents_of(dependency);
                proof {
                    staled_keeps_dependents(base, earlier, dependency);
                    live_dependents_depend(base, dependency);
                }
                let ghost rest = queue@;
                let mut index: usize = 0;
                assert(rest + dependents@.take(0) =~= rest);
                assert(earlier + notices(dependents@.take(0), dependency, reason@) =~= earlier);
                while index < dependents.len()
                    invariant
                        index <= dependents@.len(),
                        before.valid(),
                        base == before.blocks,
                        dependents@ == live_dependents(base, dependency),
                        forall|i: int|
                            0 <= i < dependents@.len() ==> {
                                let reference = #[trigger] dependents@[i];
                                &&& base.contains_key(reference.block_id)
                                &&& base[reference.block_id].reference() == reference
                                &&& base[reference.block_id].lifecycle.live()
                            },
                        self@ == (ContextGraphView {
                            blocks: staled(base, invalidation_views(found@)),
                            ..before
                        }),
                        notices_fit(base, invalidation_views(found@)),
                        queue@ == rest + dependents@.take(index as int),
                        invalidation_views(found@) == earlier + notices(
                            dependents@.take(index as int),
                            dependency,
                            reason@,
                        ),
                    decreases dependents.len() - index,
                {
                    let dependent = dependents[index];
                    let ghost listed_before = invalidation_views(found@);
                    let ghost blocks_before = self@.blocks;
                    assert(base.contains_key(dependent.block_id));
                    if let Some(block) = self.blocks.get_mut(&dependent.block_id) {
                        if block.lifecycle.is_live() {
                            block.lifecycle = ContextLifecycle::Stale;
                        }
                    }
                    let notice = Invalidation {
                        block: dependent,
                        dependency: Some(dependency),
                        reason: reason.to_owned(),
                    };
                    let ghost notice_view = notice@;
                    found.push(notice);
                    queue.push(dependent);
                    index += 1;
                    proof {
                        let now = invalidation_views(found@);
                        assert(now =~= listed_before.push(notice_view));
                        assert(dependents@.take(index as int) =~= dependents@.take(
                            index - 1,
                        ).push(dependent));
                        assert(queue@ =~= rest + dependents@.take(index as int));
                        assert(now =~= earlier + notices(
                            dependents@.take(index as int),
                            dependency,
                            reason@,
                        ));
                        assert(now[now.len() - 1].block.block_id == dependent.block_id);
                        assert forall|id: ContextBlockId| touched(now, id) == (touched(
                            listed_before,
                            id,
                        ) || id == dependent.block_id) by {
                            if touched(listed_before, id) {
                                let i = choose|i: int|
                                    0 <= i < listed_before.len()
                                        && listed_before[i].block.block_id == id;
                                assert(now[i].block.block_id == id);
                            }
                            if touched(now, id) && id != dependent.block_id {
                                let i = choose|i: int|
                                    0 <= i < now.len() && now[i].block.block_id == id;
                                assert(listed_before[i].block.block_id == id);
                            }
                        }
                        assert(self@.blocks =~= staled(base, now));
                    }
                }
                assert(dependents@.take(dependents@.len() as int) =~= dependents@);
            }
        }
        proof {
            let all = invalidation_views(found@);
            assert(staled(base, all).dom() =~= base.dom());
        }
        found
    }
}

// ---------------------------------------------------------------------------
// Publication.

/// What a draft rests on.
pub open spec fn inputs(draft: ContextDraftView) -> Seq<ContextRef> {
    draft.dependencies + draft.sources
}

/// The first reference whose block is not there.
pub open spec fn first_absent(
    blocks: Map<ContextBlockId, ContextBlockView>,
    references: Seq<ContextRef>,
) -> Option<ContextRef>
    decreases references.len(),
{
    if references.len() == 0 {
        None
    } else {
        match first_absent(blocks, references.drop_last()) {
            Some(reference) => Some(reference),
            None => if blocks.contains_key(references.last().block_id) {
                None
            } else {
                Some(references.last())
            },
        }
    }
}

/// The first reference that names no block at its revision.
pub open spec fn first_unknown(graph: ContextGraphView, references: Seq<ContextRef>) -> Option<
    ContextRef,
>
    decreases references.len(),
{
    if references.len() == 0 {
        None
    } else {
        match first_unknown(graph, references.drop_last()) {
            Some(reference) => Some(reference),
            None => if graph.knows(references.last()) {
                None
            } else {
                Some(references.last())
            },
        }
    }
}

/// The origins of the blocks that the references name.
pub open spec fn origins(
    blocks: Map<ContextBlockId, ContextBlockView>,
    references: Seq<ContextRef>,
) -> Seq<TrustOrigin> {
    Seq::new(references.len(), |i: int| blocks[references[i].block_id].trust)
}

/// Why a draft is refused, if it is.
pub open spec fn refusal(graph: ContextGraphView, draft: ContextDraftView) -> Option<
    ContextErrorView,
> {
    let digest = context_digest(draft.content);
    if blank(draft.namespace) {
        Some(ContextErrorView::EmptyNamespace)
    } else if draft.scope matches ContextScope::Private(agent_id) && draft.owner
        != ContextOwner::Agent(agent_id) {
        Some(ContextErrorView::InvalidPrivateScope)
    } else if first_absent(graph.blocks, inputs(draft)) is Some {
        Some(ContextErrorView::UnknownBlock(first_absent(graph.blocks, inputs(draft))->0))
    } else if first_unknown(graph, inputs(draft)) is Some {
        Some(ContextErrorView::UnknownBlock(first_unknown(graph, inputs(draft))->0))
    } else if graph.content.contains_key(digest) && graph.content[digest] != draft.content {
        Some(ContextErrorView::HashCollision(digest))
    } else {
        None
    }
}

/// The block that an accepted draft becomes.
pub open spec fn drafted_block(
    graph: ContextGraphView,
    draft: ContextDraftView,
    id: ContextBlockId,
) -> ContextBlockView {
    ContextBlockView {
        id,
        revision: match graph.newest(draft.namespace) {
            Some(previous) => (previous.revision + 1) as u64,
            None => 1,
        },
        namespace: draft.namespace,
        kind: draft.kind,
        owner: draft.owner,
        scope: draft.scope,
        content_hash: context_digest(draft.content),
        token_estimate: if draft.token_estimate == 0 {
            tokens_in(draft.content.len()) as u64
        } else {
            draft.token_estimate
        },
        trust: combined_all(draft.trust, origins(graph.blocks, inputs(draft))),
        importance: draft.importance,
        lifecycle: ContextLifecycle::Active,
        pinned: false,
        dependencies: draft.dependencies,
        sources: draft.sources,
        created_event: draft.created_event,
        last_access_ms: None,
    }
}

/// A block in another state of its life.
pub open spec fn with_lifecycle(
    blocks: Map<ContextBlockId, ContextBlockView>,
    id: ContextBlockId,
    lifecycle: ContextLifecycle,
) -> Map<ContextBlockId, ContextBlockView> {
    blocks.insert(id, ContextBlockView { lifecycle, ..blocks[id] })
}

pub open spec fn superseded_reason(previous: ContextRef) -> Seq<char> {
    "dependency "@ + previous.text() + " was superseded"@
}

/// The blocks once the draft's block is in and the version before it is
/// superseded.
pub open spec fn blocks_with_draft(
    graph: ContextGraphView,
    draft: ContextDraftView,
    id: ContextBlockId,
) -> Map<ContextBlockId, ContextBlockView> {
    let before = match graph.newest(draft.namespace) {
        Some(previous) => with_lifecycle(
            graph.blocks,
            previous.block_id,
            ContextLifecycle::Superseded,
        ),
        None => graph.blocks,
    };
    before.insert(id, drafted_block(graph, draft, id))
}

/// The notices that a publication gives.
pub open spec fn publication_notices(
    graph: ContextGraphView,
    draft: ContextDraftView,
    id: ContextBlockId,
) -> Seq<InvalidationView> {
    match graph.newest(draft.namespace) {
        Some(previous) => spread(
            blocks_with_draft(graph, draft, id),
            superseded_reason(previous),
            seq![previous],
            Set::empty(),
            seq![],
        ),
        None => seq![],
    }
}

/// The graph after an accepted publication.
pub open spec fn published_graph(
    graph: ContextGraphView,
    draft: ContextDraftView,
    id: ContextBlockId,
) -> ContextGraphView {
    let notices = publication_notices(graph, draft, id);
    let block = drafted_block(graph, draft, id);
    ContextGraphView {
        blocks: staled(blocks_with_draft(graph, draft, id), notices),
        content: graph.content.insert(block.content_hash, draft.content),
        namespaces: graph.namespaces.insert(
            draft.namespace,
            graph.versions(draft.namespace).push(block.reference()),
        ),
        subscriptions: graph.subscriptions,
        invalidations: graph.invalidations + notices,
    }
}

/// The notices as transitions.
pub open spec fn notice_transitions(notices: Seq<InvalidationView>) -> Seq<ContextTransitionView> {
    Seq::new(
        notices.len(),
        |i: int|
            ContextTransitionView::Invalidated {
                block: notices[i].block,
                dependency: notices[i].dependency,
                reason: notices[i].reason,
            },
    )
}

pub open spec fn publication_transitions(
    graph: ContextGraphView,
    draft: ContextDraftView,
    id: ContextBlockId,
) -> Seq<ContextTransitionView> {
    let created = seq![
        ContextTransitionView::Created {
            block: drafted_block(graph, draft, id),
            content: draft.content,
        },
    ];
    let superseded = match graph.newest(draft.namespace) {
        Some(previous) => seq![ContextTransitionView::Superseded(previous)],
        None => seq![],
    };
    created + superseded + notice_transitions(publication_notices(graph, draft, id))
}

/// A subscription asks for the agent to be woken.
pub open spec fn wakes(
    subscriptions: Map<SubscriptionId, ContextSubscriptionView>,
    block: ContextBlockView,
    agent_id: AgentId,
) -> bool {
    exists|id: SubscriptionId|
        subscriptions.contains_key(id) && (#[trigger] subscriptions[id]).agent_id == agent_id
            && namespace_matches(subscriptions[id].namespace_pattern, block.namespace)
            && visible_to(ContextPrincipal::Agent(agent_id), block.scope)
}

/// Exactly the agents to be woken, each once, in ascending order.
pub open spec fn woken(
    subscriptions: Map<SubscriptionId, ContextSubscriptionView>,
    block: ContextBlockView,
    agents: Seq<AgentId>,
) -> bool {
    &&& forall|i: int, j: int|
        0 <= i < j < agents.len() ==> (#[trigger] agents[i]).0 < (#[trigger] agents[j]).0
    &&& forall|agent_id: AgentId|
        #![trigger agents.contains(agent_id)]
        #![trigger wakes(subscriptions, block, agent_id)]
        agents.contains(agent_id) == wakes(subscriptions, block, agent_id)
}

fn find_absent(
    blocks: &Table<ContextBlockId, ContextBlock>,
    references: &Vec<ContextRef>,
) -> (absent: Option<ContextRef>)
    ensures
        absent == first_absent(blocks@, references@),
{
    let mut index: usize = 0;
    assert(references@.take(0) =~= Seq::<ContextRef>::empty());
    while index < references.len()
        invariant
            index <= references@.len(),
            first_absent(blocks@, references@.take(index as int)) is None,
        decreases references.len() - index,
    {
        let reference = references[index];
        proof {
            let now = references@.take(index + 1);
            assert(now.drop_last() =~= references@.take(index as int));
            assert(now.last() == reference);
        }
        if !blocks.contains_key(&reference.block_id) {
            proof {
                absence_stays(blocks@, references@, index + 1);
            }
            return Some(reference);
        }
        index += 1;
    }
    assert(references@.take(references@.len() as int) =~= references@);
    None
}

proof fn absence_stays(
    blocks: Map<ContextBlockId, ContextBlockView>,
    references: Seq<ContextRef>,
    count: int,
)
    requires
        0 <= count <= references.len(),
        first_absent(blocks, references.take(count)) is Some,
    ensures
        first_absent(blocks, references) == first_absent(blocks, references.take(count)),
    decreases references.len(),
{
    if count < references.len() {
        assert(references.drop_last().take(count) =~= references.take(count));
        absence_stays(blocks, references.drop_last(), count);
    } else {
        assert(references.take(count) =~= references);
    }
}

proof fn unknown_stays(graph: ContextGraphView, references: Seq<ContextRef>, count: int)
    requires
        0 <= count <= references.len(),
        first_unknown(graph, references.take(count)) is Some,
    ensures
        first_unknown(graph, references) == first_unknown(graph, references.take(count)),
    decreases references.len(),
{
    if count < references.len() {
        assert(references.drop_last().take(count) =~= references.take(count));
        unknown_stays(graph, references.drop_last(), count);
    } else {
        assert(references.take(count) =~= references);
    }
}

/// What a draft rests on, as one list.
fn inputs_of(dependencies: &Vec<ContextRef>, sources: &Vec<ContextRef>) -> (all: Vec<ContextRef>)
    ensures
        all@ == dependencies@ + sources@,
{
    let mut all = clone_refs(dependencies);
    let mut index: usize = 0;
    assert(dependencies@ + sources@.take(0) =~= dependencies@);
    while index < sources.len()
        invariant
            index <= sources@.len(),
            all@ == dependencies@ + sources@.take(index as int),
        decreases sources.len() - index,
    {
        all.push(sources[index]);
        index += 1;
        assert(all@ =~= dependencies@ + sources@.take(index as int));
    }
    assert(sources@.take(sources@.len() as int) =~= sources@);
    all
}

impl ContextGraph {
    pub fn new() -> (graph: ContextGraph)
        ensures
            graph@ == empty_graph(),
            graph@.valid(),
    {
        let graph = ContextGraph {
            blocks: Table::new(),
            content: Table::new(),
            namespaces: Table::new(),
            subscriptions: Table::new(),
            invalidations: Vec::new(),
        };
        assert(invalidation_views(graph.invalidations@) =~= Seq::<InvalidationView>::empty());
        graph
    }

    /// The block that a reference names.
    pub fn block(&self, reference: ContextRef) -> (result: Result<&ContextBlock, ContextError>)
        ensures
            match result {
                Ok(block) => self@.knows(reference) && block@ == self@.blocks[reference.block_id],
                Err(error) => !self@.knows(reference) && error@ == ContextErrorView::UnknownBlock(
                    reference,
                ),
            },
    {
        match self.blocks.get(&reference.block_id) {
            Some(block) => {
                if block.revision != reference.revision {
                    return Err(ContextError::UnknownBlock(reference));
                }
                Ok(block)
            },
            None => Err(ContextError::UnknownBlock(reference)),
        }
    }

    /// The content with a digest.
    pub fn content(&self, hash: ContentHash) -> (result: Result<&[u8], ContextError>)
        ensures
            match result {
                Ok(content) => self@.content.contains_key(hash@) && content@
                    == self@.content[hash@],
                Err(error) => !self@.content.contains_key(hash@) && error@
                    == ContextErrorView::UnknownContent(hash@),
            },
    {
        match self.content.get(&hash) {
            Some(content) => Ok(content.as_slice()),
            None => Err(ContextError::UnknownContent(hash)),
        }
    }

    /// The newest version of a namespace.
    pub fn latest(&self, namespace: &str) -> (reference: Option<ContextRef>)
        ensures
            reference == self@.newest(namespace@),
    {
        match self.namespaces.get(&namespace.to_owned()) {
            Some(versions) => {
                if versions.len() == 0 {
                    None
                } else {
                    Some(versions[versions.len() - 1])
                }
            },
            None => None,
        }
    }

    /// The combined trust of a draft and of all it rests on.
    fn combined_trust(&self, trust: TrustOrigin, references: &Vec<ContextRef>) -> (result: Result<
        TrustOrigin,
        ContextError,
    >)
        ensures
            match first_unknown(self@, references@) {
                Some(reference) => result is Err && result->Err_0@
                    == ContextErrorView::UnknownBlock(reference),
                None => result == Ok::<TrustOrigin, ContextError>(
                    combined_all(trust, origins(self@.blocks, references@)),
                ),
            },
    {
        let mut combined = trust;
        let mut index: usize = 0;
        let ghost all = origins(self@.blocks, references@);
        assert(references@.take(0) =~= Seq::<ContextRef>::empty());
        assert(all.take(0) =~= Seq::<TrustOrigin>::empty());
        while index < references.len()
            invariant
                index <= references@.len(),
                all == origins(self@.blocks, references@),
                first_unknown(self@, references@.take(index as int)) is None,
                combined == combined_all(trust, all.take(index as int)),
            decreases references.len() - index,
        {
            let reference = references[index];
            proof {
                let now = references@.take(index + 1);
                assert(now.drop_last() =~= references@.take(index as int));
                assert(now.last() == reference);
                assert(all.take(index + 1).drop_last() =~= all.take(index as int));
                assert(all.take(index + 1).last() == all[index as int]);
            }
            match self.block(reference) {
                Ok(block) => {
                    combined = combined.combine(block.trust);
                },
                Err(error) => {
                    proof {
                        unknown_stays(self@, references@, index + 1);
                    }
                    return Err(error);
                },
            }
            index += 1;
        }
        assert(references@.take(references@.len() as int) =~= references@);
        assert(all.take(all.len() as int) =~= all);
        Ok(combined)
    }

    /// The agents whose subscriptions match a block.
    fn agents_to_wake(&self, block: &ContextBlock) -> (agents: Vec<AgentId>)
        ensures
            woken(self@.subscriptions, block@, agents@),
    {
        let mut chosen: Table<AgentId, bool> = Table::new();
        let count: usize = self.subscriptions.len();
        let mut index: usize = 0;
        let ghost subscriptions = self.subscriptions@;
        let ghost keys = self.subscriptions.keys();
        while index < count
            invariant
                index <= count,
                count == self.subscriptions.keys().len(),
                self.subscriptions.well_formed(),
                subscriptions == self.subscriptions@,
                keys == self.subscriptions.keys(),
                forall|agent_id: AgentId| #[trigger]
                    chosen@.contains_key(agent_id) ==> wakes(subscriptions, block@, agent_id),
                forall|i: int|
                    0 <= i < index ==> {
                        let subscription = #[trigger] subscriptions[keys[i]];
                        namespace_matches(subscription.namespace_pattern, block@.namespace)
                            && visible_to(
                            ContextPrincipal::Agent(subscription.agent_id),
                            block@.scope,
                        ) ==> chosen@.contains_key(subscription.agent_id)
                    },
            decreases count - index,
        {
            let subscription = self.subscriptions.value_at(index);
            assert(subscription@ == subscriptions[keys[index as int]]);
            if matches_namespace(
                subscription.namespace_pattern.as_str(),
                block.namespace.as_str(),
            ) && can_view(ContextPrincipal::Agent(subscription.agent_id), block) {
                assert(wakes(subscriptions, block@, subscription.agent_id)) by {
                    assert(subscriptions.contains_key(keys[index as int]));
                }
                chosen.insert(subscription.agent_id, true);
            }
            index += 1;
        }
        let mut agents: Vec<AgentId> = Vec::new();
        let total: usize = chosen.len();
        let mut next: usize = 0;
        while next < total
            invariant
                next <= total,
                total == chosen.keys().len(),
                agents@ == chosen.keys().take(next as int),
            decreases total - next,
        {
            agents.push(*chosen.key_at(next));
            next += 1;
            assert(agents@ =~= chosen.keys().take(next as int));
        }
        proof {
            assert(agents@ =~= chosen.keys());
            table_is_listed(chosen.keys(), chosen.values());
            assert forall|i: int, j: int| 0 <= i < j < agents@.len() implies (
            #[trigger] agents@[i]).0 < (#[trigger] agents@[j]).0 by {
                assert(chosen.keys()[i] == agents@[i]);
                assert(chosen.keys()[j] == agents@[j]);
            }
            let ids = listing::<AgentId, bool>(chosen@);
            assert(ids =~= agents@) by {
                assert forall|i: int| 0 <= i < agents@.len() implies ids[i] == agents@[i] by {
                    assert(chosen.keys()[i] == agents@[i]);
                }
            }
            assert forall|agent_id: AgentId| agents@.contains(agent_id) == wakes(
                subscriptions,
                block@,
                agent_id,
            ) by {
                if agents@.contains(agent_id) {
                    let i = choose|i: int| 0 <= i < agents@.len() && agents@[i] == agent_id;
                    assert(chosen@.contains_key(ids[i]));
                }
                if wakes(subscriptions, block@, agent_id) {
                    let id = choose|id: SubscriptionId|
                        subscriptions.contains_key(id) && (
                        #[trigger] subscriptions[id]).agent_id == agent_id && namespace_matches(
                            subscriptions[id].namespace_pattern,
                            block@.namespace,
                        ) && visible_to(ContextPrincipal::Agent(agent_id), block@.scope);
                    table_is_listed(self.subscriptions.keys(), self.subscriptions.values());
                    let order = listing::<SubscriptionId, ContextSubscriptionView>(subscriptions);
                    assert(order.contains(id));
                    let i = choose|i: int| 0 <= i < order.len() && order[i] == id;
                    assert(keys[i] == id);
                    assert(chosen@.contains_key(subscriptions[keys[i]].agent_id));
                }
            }
        }
        agents
    }
}

/// The invalidations as transitions.
fn transitions_of(invalidations: &Vec<Invalidation>, transitions: &mut Vec<ContextTransition>)
    ensures
        transition_views(final(transitions)@) == transition_views(old(transitions)@)
            + notice_transitions(invalidation_views(invalidations@)),
{
    let ghost base = transition_views(transitions@);
    let ghost views = invalidation_views(invalidations@);
    let mut index: usize = 0;
    assert(base =~= base + notice_transitions(views).take(0));
    while index < invalidations.len()
        invariant
            index <= invalidations@.len(),
            views == invalidation_views(invalidations@),
            transition_views(transitions@) == base + notice_transitions(views).take(index as int),
        decreases invalidations.len() - index,
    {
        let invalidation = &invalidations[index];
        let ghost before = transitions@;
        transitions.push(
            ContextTransition::Invalidated {
                block: invalidation.block,
                dependency: invalidation.dependency,
                reason: invalidation.reason.clone(),
            },
        );
        proof {
            assert(transition_views(transitions@) =~= transition_views(before).push(
                transitions@.last()@,
            ));
            assert(views[index as int] == invalidation@);
            assert(notice_transitions(views).take(index + 1) =~= notice_transitions(views).take(
                index as int,
            ).push(notice_transitions(views)[index as int]));
            assert(transition_views(transitions@) =~= base + notice_transitions(views).take(
                index + 1,
            ));
        }
        index += 1;
    }
    assert(notice_transitions(views).take(views.len() as int) =~= notice_transitions(views));
}

pub(crate) fn clone_invalidations(
    list: &Vec<Invalidation>,
    from: usize,
    out: &mut Vec<Invalidation>,
)
    requires
        from <= list@.len(),
    ensures
        invalidation_views(final(out)@) == invalidation_views(old(out)@) + invalidation_views(
            list@,
        ).skip(from as int),
{
    let ghost base = invalidation_views(out@);
    let ghost views = invalidation_views(list@);
    let mut index: usize = from;
    assert(base =~= base + views.subrange(from as int, from as int));
    while index < list.len()
        invariant
            from <= index <= list@.len(),
            views == invalidation_views(list@),
            invalidation_views(out@) == base + views.subrange(from as int, index as int),
        decreases list.len() - index,
    {
        let ghost before = out@;
        out.push(list[index].clone());
        index += 1;
        proof {
            assert(invalidation_views(out@) =~= invalidation_views(before).push(
                views[index - 1],
            ));
            assert(invalidation_views(out@) =~= base + views.subrange(from as int, index as int));
        }
    }
    assert(views.subrange(from as int, views.len() as int) =~= views.skip(from as int));
}

impl ContextGraph {
    /// Adds a reference to the versions of a namespace.
    fn add_version(&mut self, namespace: &String, reference: ContextRef)
        ensures
            final(self)@ == (ContextGraphView {
                namespaces: old(self)@.namespaces.insert(
                    namespace@,
                    old(self)@.versions(namespace@).push(reference),
                ),
                ..old(self)@
            }),
    {
        if self.namespaces.contains_key(namespace) {
            if let Some(versions) = self.namespaces.get_mut(namespace) {
                versions.push(reference);
            }
        } else {
            let mut versions: Vec<ContextRef> = Vec::new();
            versions.push(reference);
            assert(versions@ =~= self@.versions(namespace@).push(reference));
            self.namespaces.insert(namespace.clone(), versions);
        }
    }

    /// Keeps content under its digest, unless it is there.
    fn keep_content(&mut self, hash: ContentHash, content: Vec<u8>) -> (kept: bool)
        ensures
            kept == !(old(self)@.content.contains_key(hash@) && old(self)@.content[hash@]
                != content@),
            final(self)@ == if kept {
                ContextGraphView {
                    content: old(self)@.content.insert(hash@, content@),
                    ..old(self)@
                }
            } else {
                old(self)@
            },
    {
        match self.content.get(&hash) {
            Some(existing) => {
                let same = same_bytes(existing.as_slice(), content.as_slice());
                proof {
                    if same {
                        assert(self@.content =~= self@.content.insert(hash@, content@));
                    }
                }
                same
            },
            None => {
                self.content.insert(hash, content);
                true
            },
        }
    }

    fn set_lifecycle(&mut self, id: ContextBlockId, lifecycle: ContextLifecycle)
        requires
            old(self)@.blocks.contains_key(id),
        ensures
            final(self)@ == (ContextGraphView {
                blocks: with_lifecycle(old(self)@.blocks, id, lifecycle),
                ..old(self)@
            }),
    {
        if let Some(block) = self.blocks.get_mut(&id) {
            block.lifecycle = lifecycle;
        }
    }

    /// Publishes a draft as the newest version of its namespace. The version
    /// before it is superseded, and what depends on that version goes stale.
    pub fn publish(&mut self, ids: &mut ContextIdSource, draft: ContextDraft) -> (result: Result<
        ContextPublication,
        ContextError,
    >)
        requires
            old(self)@.valid(),
            old(self)@.newest(draft@.namespace) matches Some(previous) ==> previous.revision
                < u64::MAX,
        ensures
            final(self)@.valid(),
            final(ids).subscription() == old(ids).subscription(),
            match refusal(old(self)@, draft@) {
                Some(refused) => {
                    &&& result matches Err(error) && error@ == refused
                    &&& final(self)@ == old(self)@
                    &&& final(ids).block() == old(ids).block()
                },
                None => {
                    let id = ContextBlockId(old(ids).block());
                    &&& final(self)@ == published_graph(old(self)@, draft@, id)
                    &&& final(ids).block() == old(ids).block().wrapping_add(1)
                    &&& result matches Ok(publication) && {
                        &&& publication@.block == final(self)@.blocks[id]
                        &&& publication@.transitions == publication_transitions(
                            old(self)@,
                            draft@,
                            id,
                        )
                        &&& publication@.invalidations == publication_notices(
                            old(self)@,
                            draft@,
                            id,
                        )
                        &&& woken(
                            old(self)@.subscriptions,
                            drafted_block(old(self)@, draft@, id),
                            publication@.awakened_agents,
                        )
                    }
                },
            },
    {
        if is_blank(draft.namespace.as_str()) {
            return Err(ContextError::EmptyNamespace);
        }
        if let ContextScope::Private(agent_id) = draft.scope {
            if draft.owner != ContextOwner::Agent(agent_id) {
                return Err(ContextError::InvalidPrivateScope);
            }
        }
        let references = inputs_of(&draft.dependencies, &draft.sources);
        if let Some(absent) = find_absent(&self.blocks, &references) {
            return Err(ContextError::UnknownBlock(absent));
        }
        let trust = self.combined_trust(draft.trust, &references)?;
        let previous = self.latest(draft.namespace.as_str());
        let revision: u64 = match previous {
            Some(reference) => reference.revision + 1,
            None => 1,
        };
        let content_hash = DeterministicContentHasher.hash(draft.content.as_slice());
        let content = clone_bytes(&draft.content);
        if !self.keep_content(content_hash, draft.content) {
            return Err(ContextError::HashCollision(content_hash));
        }
        if let Some(previous) = previous {
            proof {
                let versions = old(self)@.namespaces[draft@.namespace];
                assert(old(self)@.blocks.contains_key(
                    versions[versions.len() - 1].block_id,
                ));
            }
            self.set_lifecycle(previous.block_id, ContextLifecycle::Superseded);
        }
        let token_estimate: u64 = if draft.token_estimate == 0 {
            estimate_tokens(content.as_slice())
        } else {
            draft.token_estimate
        };
        let id = ContextBlockId::new(ids);
        let block = ContextBlock {
            id,
            revision,
            namespace: draft.namespace.clone(),
            kind: draft.kind,
            owner: draft.owner,
            scope: draft.scope,
            content_hash,
            token_estimate,
            trust,
            importance: draft.importance,
            lifecycle: ContextLifecycle::Active,
            pinned: false,
            dependencies: draft.dependencies,
            sources: draft.sources,
            created_event: draft.created_event,
            last_access_ms: None,
        };
        let ghost before = old(self)@;
        let ghost drafted = draft@;
        assert(block@ == drafted_block(before, drafted, id));
        let reference = block.reference();
        self.blocks.insert(id, block.clone());
        assert(self@.blocks == blocks_with_draft(before, drafted, id));
        self.add_version(&block.namespace, reference);
        proof {
            let now = self@;
            assert forall|namespace: Seq<char>, i: int|
                now.namespaces.contains_key(namespace) && 0 <= i < now.namespaces[namespace].len()
                implies now.blocks.contains_key(
                (#[trigger] now.namespaces[namespace][i]).block_id,
            ) by {
                if namespace == drafted.namespace {
                    if i < before.versions(namespace).len() {
                        assert(now.namespaces[namespace][i] == before.namespaces[namespace][i]);
                    }
                } else {
                    assert(now.namespaces[namespace][i] == before.namespaces[namespace][i]);
                }
            }
            assert(now.valid());
        }
        let invalidations = match previous {
            Some(previous) => {
                let mut reason = "dependency ".to_owned();
                reason.append(previous.to_text().as_str());
                reason.append(" was superseded");
                self.mark_dependents_stale(previous, reason.as_str())
            },
            None => {
                let none: Vec<Invalidation> = Vec::new();
                assert(invalidation_views(none@) =~= Seq::<InvalidationView>::empty());
                assert(staled(self@.blocks, invalidation_views(none@)) =~= self@.blocks);
                none
            },
        };
        let ghost marked = self@;
        clone_invalidations(&invalidations, 0, &mut self.invalidations);
        assert(invalidation_views(invalidations@).skip(0) =~= invalidation_views(invalidations@));
        let mut transitions: Vec<ContextTransition> = Vec::new();
        transitions.push(ContextTransition::Created { block: block.clone(), content });
        if let Some(previous) = previous {
            transitions.push(ContextTransition::Superseded(previous));
        }
        proof {
            let created = seq![
                ContextTransitionView::Created {
                    block: drafted_block(before, drafted, id),
                    content: drafted.content,
                },
            ];
            let superseded = match before.newest(drafted.namespace) {
                Some(previous) => seq![ContextTransitionView::Superseded(previous)],
                None => seq![],
            };
            assert(transition_views(transitions@) =~= created + superseded);
        }
        transitions_of(&invalidations, &mut transitions);
        let awakened_agents = self.agents_to_wake(&block);
        let published = match self.blocks.get(&id) {
            Some(block) => block.clone(),
            None => block,
        };
        assert(self@ == published_graph(before, drafted, id));
        Ok(ContextPublication { block: published, transitions, invalidations, awakened_agents })
    }
}

// ---------------------------------------------------------------------------
// Transitions.

/// Why a block is refused for what it rests on, if it is: the first reference
/// that names no block, or one whose block is trusted less.
pub open spec fn input_refusal(
    graph: ContextGraphView,
    block: ContextBlockView,
    references: Seq<ContextRef>,
) -> Option<ContextErrorView>
    decreases references.len(),
{
    if references.len() == 0 {
        None
    } else {
        let reference = references.last();
        match input_refusal(graph, block, references.drop_last()) {
            Some(error) => Some(error),
            None => if !graph.knows(reference) {
                Some(ContextErrorView::UnknownBlock(reference))
            } else if block.trust.combined(graph.blocks[reference.block_id].trust)
                != block.trust {
                Some(
                    ContextErrorView::TrustUpgrade {
                        block: block.reference(),
                        dependency: reference,
                    },
                )
            } else {
                None
            },
        }
    }
}

/// A graph with one more block, or why the block is refused.
pub open spec fn with_block(
    graph: ContextGraphView,
    block: ContextBlockView,
    content: Seq<u8>,
) -> Result<ContextGraphView, ContextErrorView> {
    let collision = ContextErrorView::HashCollision(block.content_hash);
    let refused = input_refusal(graph, block, block.dependencies + block.sources);
    if graph.blocks.contains_key(block.id) {
        Err(collision)
    } else if context_digest(content) != block.content_hash {
        Err(collision)
    } else if refused is Some {
        Err(refused->0)
    } else if graph.content.contains_key(block.content_hash)
        && graph.content[block.content_hash] != content {
        Err(collision)
    } else {
        Ok(
            ContextGraphView {
                blocks: graph.blocks.insert(block.id, block),
                content: graph.content.insert(block.content_hash, content),
                namespaces: graph.namespaces.insert(
                    block.namespace,
                    graph.versions(block.namespace).push(block.reference()),
                ),
                ..graph
            },
        )
    }
}

/// The graph with a known block changed.
pub open spec fn with_change(
    graph: ContextGraphView,
    reference: ContextRef,
    allowed: bool,
    operation: Seq<char>,
    block: ContextBlockView,
) -> Result<ContextGraphView, ContextErrorView> {
    if !graph.knows(reference) {
        Err(ContextErrorView::UnknownBlock(reference))
    } else if !allowed {
        Err(ContextErrorView::InvalidLifecycle { block: reference, operation })
    } else {
        Ok(ContextGraphView { blocks: graph.blocks.insert(reference.block_id, block), ..graph })
    }
}

/// What a transition makes of a graph. `resolved` is what became of the
/// artifact that a block's content is read from.
pub open spec fn applied(
    graph: ContextGraphView,
    transition: ContextTransitionView,
    resolved: Result<Seq<u8>, ContextErrorView>,
) -> Result<ContextGraphView, ContextErrorView> {
    match transition {
        ContextTransitionView::Created { block, content } => with_block(graph, block, content),
        ContextTransitionView::CreatedFromArtifact { block, .. } => match resolved {
            Ok(content) => with_block(graph, block, content),
            Err(error) => Err(error),
        },
        ContextTransitionView::Superseded(reference) => {
            let block = graph.blocks[reference.block_id];
            with_change(
                graph,
                reference,
                true,
                seq![],
                ContextBlockView { lifecycle: ContextLifecycle::Superseded, ..block },
            )
        },
        ContextTransitionView::Archived(reference) => {
            let block = graph.blocks[reference.block_id];
            with_change(
                graph,
                reference,
                block.lifecycle.live(),
                "archive"@,
                ContextBlockView { lifecycle: ContextLifecycle::Archived, ..block },
            )
        },
        ContextTransitionView::Restored(reference) => {
            let block = graph.blocks[reference.block_id];
            with_change(
                graph,
                reference,
                block.lifecycle == ContextLifecycle::Archived,
                "restore"@,
                ContextBlockView { lifecycle: ContextLifecycle::Active, ..block },
            )
        },
        ContextTransitionView::Pinned(reference) => {
            let block = graph.blocks[reference.block_id];
            with_change(
                graph,
                reference,
                block.lifecycle.live() && !block.pinned,
                "pin"@,
                ContextBlockView { pinned: true, ..block },
            )
        },
        ContextTransitionView::Unpinned(reference) => {
            let block = graph.blocks[reference.block_id];
            with_change(
                graph,
                reference,
                block.pinned,
                "unpin"@,
                ContextBlockView { pinned: false, ..block },
            )
        },
        ContextTransitionView::Invalidated { block: reference, dependency, .. } => {
            let block = graph.blocks[reference.block_id];
            with_change(
                graph,
                reference,
                true,
                seq![],
                ContextBlockView {
                    lifecycle: match dependency {
                        Some(_) => ContextLifecycle::Stale,
                        None => ContextLifecycle::Invalidated,
                    },
                    ..block
                },
            )
        },
    }
}

/// A transition whose content is not read from an artifact does not need one.
pub open spec fn unresolved(transition: ContextTransitionView) -> Result<
    Seq<u8>,
    ContextErrorView,
> {
    match transition {
        ContextTransitionView::CreatedFromArtifact { artifact_hash, .. } => Err(
            ContextErrorView::MissingArtifact(artifact_hash),
        ),
        _ => Ok(seq![]),
    }
}

/// What a list of transitions makes of a graph, up to the first that is
/// refused.
pub open spec fn applied_all(
    graph: ContextGraphView,
    transitions: Seq<ContextTransitionView>,
    resolved: Seq<Result<Seq<u8>, ContextErrorView>>,
) -> Result<ContextGraphView, ContextErrorView>
    decreases transitions.len(),
{
    if transitions.len() == 0 {
        Ok(graph)
    } else {
        match applied_all(graph, transitions.drop_last(), resolved) {
            Err(error) => Err(error),
            Ok(before) => applied(before, transitions.last(), resolved[transitions.len() - 1]),
        }
    }
}

/// No artifact is at hand.
pub open spec fn all_unresolved(transitions: Seq<ContextTransitionView>) -> Seq<
    Result<Seq<u8>, ContextErrorView>,
> {
    Seq::new(transitions.len(), |i: int| unresolved(transitions[i]))
}

/// `resolved` holds what the resolver answered for the transitions that asked.
pub open spec fn answered<F: Fn([u8; 32]) -> Result<Vec<u8>, ContextError>>(
    resolver: F,
    transitions: Seq<ContextTransition>,
    resolved: Seq<Result<Seq<u8>, ContextErrorView>>,
) -> bool {
    &&& resolved.len() <= transitions.len()
    &&& forall|i: int|
        0 <= i < resolved.len() ==> answered_at(resolver, transitions[i], #[trigger] resolved[i])
}

pub open spec fn answered_at<F: Fn([u8; 32]) -> Result<Vec<u8>, ContextError>>(
    resolver: F,
    transition: ContextTransition,
    resolved: Result<Seq<u8>, ContextErrorView>,
) -> bool {
    match transition {
        ContextTransition::CreatedFromArtifact { artifact_hash, .. } =>
            exists|answer: Result<Vec<u8>, ContextError>|
                #![trigger outcome(answer)]
                call_ensures(resolver, (artifact_hash,), answer) && outcome(answer) == resolved,
        _ => true,
    }
}

proof fn input_refusal_stays(
    graph: ContextGraphView,
    block: ContextBlockView,
    references: Seq<ContextRef>,
    count: int,
)
    requires
        0 <= count <= references.len(),
        input_refusal(graph, block, references.take(count)) is Some,
    ensures
        input_refusal(graph, block, references) == input_refusal(
            graph,
            block,
            references.take(count),
        ),
    decreases references.len(),
{
    if count < references.len() {
        assert(references.drop_last().take(count) =~= references.take(count));
        input_refusal_stays(graph, block, references.drop_last(), count);
    } else {
        assert(references.take(count) =~= references);
    }
}

/// Once a transition is refused, those after it change nothing.
pub proof fn refused_replay_stays(
    graph: ContextGraphView,
    transitions: Seq<ContextTransitionView>,
    resolved: Seq<Result<Seq<u8>, ContextErrorView>>,
    count: int,
)
    requires
        0 <= count <= transitions.len(),
        applied_all(graph, transitions.take(count), resolved) is Err,
    ensures
        applied_all(graph, transitions, resolved) == applied_all(
            graph,
            transitions.take(count),
            resolved,
        ),
    decreases transitions.len(),
{
    if count < transitions.len() {
        assert(transitions.drop_last().take(count) =~= transitions.take(count));
        refused_replay_stays(graph, transitions.drop_last(), resolved, count);
    } else {
        assert(transitions.take(count) =~= transitions);
    }
}

/// Only the answers for the transitions at hand matter.
pub proof fn answers_are_local(
    graph: ContextGraphView,
    transitions: Seq<ContextTransitionView>,
    a: Seq<Result<Seq<u8>, ContextErrorView>>,
    b: Seq<Result<Seq<u8>, ContextErrorView>>,
)
    requires
        a.len() >= transitions.len(),
        b.len() >= transitions.len(),
        forall|i: int| 0 <= i < transitions.len() ==> #[trigger] a[i] == b[i],
    ensures
        applied_all(graph, transitions, a) == applied_all(graph, transitions, b),
    decreases transitions.len(),
{
    if transitions.len() > 0 {
        answers_are_local(graph, transitions.drop_last(), a, b);
        assert(a[transitions.len() - 1] == b[transitions.len() - 1]);
    }
}

impl ContextGraph {
    /// Checks what a block rests on.
    fn check_inputs(&self, block: &ContextBlock) -> (refused: Option<ContextError>)
        ensures
            match refused {
                Some(error) => input_refusal(
                    self@,
                    block@,
                    block@.dependencies + block@.sources,
                ) == Some(error@),
                None => input_refusal(self@, block@, block@.dependencies + block@.sources) is None,
            },
    {
        let references = inputs_of(&block.dependencies, &block.sources);
        let mut index: usize = 0;
        assert(references@.take(0) =~= Seq::<ContextRef>::empty());
        while index < references.len()
            invariant
                index <= references@.len(),
                references@ == block@.dependencies + block@.sources,
                input_refusal(self@, block@, references@.take(index as int)) is None,
            decreases references.len() - index,
        {
            let reference = references[index];
            proof {
                let now = references@.take(index + 1);
                assert(now.drop_last() =~= references@.take(index as int));
                assert(now.last() == reference);
                if input_refusal(self@, block@, now) is Some {
                    input_refusal_stays(self@, block@, references@, index + 1);
                }
            }
            match self.block(reference) {
                Err(error) => {
                    return Some(error);
                },
                Ok(input) => {
                    if block.trust.combine(input.trust) != block.trust {
                        return Some(
                            ContextError::TrustUpgrade {
                                block: block.reference(),
                                dependency: reference,
                            },
                        );
                    }
                },
            }
            index += 1;
        }
        assert(references@.take(references@.len() as int) =~= references@);
        None
    }

    fn apply_created_block(&mut self, block: ContextBlock, content: Vec<u8>) -> (result: Result<
        (),
        ContextError,
    >)
        requires
            old(self)@.valid(),
        ensures
            final(self)@.valid(),
            match with_block(old(self)@, block@, content@) {
                Ok(graph) => result is Ok && final(self)@ == graph,
                Err(refused) => result matches Err(error) && error@ == refused && final(self)@
                    == old(self)@,
            },
    {
        if self.blocks.contains_key(&block.id) {
            return Err(ContextError::HashCollision(block.content_hash));
        }
        if !DeterministicContentHasher.hash(content.as_slice()).equals(block.content_hash) {
            return Err(ContextError::HashCollision(block.content_hash));
        }
        if let Some(error) = self.check_inputs(&block) {
            return Err(error);
        }
        let ghost before = self@;
        if !self.keep_content(block.content_hash, content) {
            return Err(ContextError::HashCollision(block.content_hash));
        }
        self.add_version(&block.namespace, block.reference());
        let ghost added = block@;
        self.blocks.insert(block.id, block);
        proof {
            let now = self@;
            assert forall|namespace: Seq<char>, i: int|
                now.namespaces.contains_key(namespace) && 0 <= i < now.namespaces[namespace].len()
                implies now.blocks.contains_key(
                (#[trigger] now.namespaces[namespace][i]).block_id,
            ) by {
                if namespace == added.namespace {
                    if i < before.versions(namespace).len() {
                        assert(now.namespaces[namespace][i] == before.namespaces[namespace][i]);
                    }
                } else {
                    assert(now.namespaces[namespace][i] == before.namespaces[namespace][i]);
                }
            }
        }
        Ok(())
    }

    /// Marks a block superseded.
    fn supersede(&mut self, reference: ContextRef) -> (result: Result<(), ContextError>)
        requires
            old(self)@.valid(),
        ensures
            final(self)@.valid(),
            match applied(
                old(self)@,
                ContextTransitionView::Superseded(reference),
                Ok(Seq::empty()),
            ) {
                Ok(graph) => result is Ok && final(self)@ == graph,
                Err(refused) => result matches Err(error) && error@ == refused && final(self)@
                    == old(self)@,
            },
    {
        self.block(reference)?;
        self.set_lifecycle(reference.block_id, ContextLifecycle::Superseded);
        Ok(())
    }

    /// Archives an active or stale block. Its content stays for recovery.
    pub fn archive(&mut self, reference: ContextRef) -> (result: Result<
        ContextTransition,
        ContextError,
    >)
        requires
            old(self)@.valid(),
        ensures
            final(self)@.valid(),
            match applied(
                old(self)@,
                ContextTransitionView::Archived(reference),
                Ok(Seq::empty()),
            ) {
                Ok(graph) => result == Ok::<ContextTransition, ContextError>(
                    ContextTransition::Archived(reference),
                ) && final(self)@ == graph,
                Err(refused) => result matches Err(error) && error@ == refused && final(self)@
                    == old(self)@,
            },
    {
        if !self.block(reference)?.lifecycle.is_live() {
            return Err(ContextError::InvalidLifecycle { block: reference, operation: "archive" });
        }
        self.set_lifecycle(reference.block_id, ContextLifecycle::Archived);
        Ok(ContextTransition::Archived(reference))
    }

    /// Makes an archived block active.
    pub fn restore(&mut self, reference: ContextRef) -> (result: Result<
        ContextTransition,
        ContextError,
    >)
        requires
            old(self)@.valid(),
        ensures
            final(self)@.valid(),
            match applied(
                old(self)@,
                ContextTransitionView::Restored(reference),
                Ok(Seq::empty()),
            ) {
                Ok(graph) => result == Ok::<ContextTransition, ContextError>(
                    ContextTransition::Restored(reference),
                ) && final(self)@ == graph,
                Err(refused) => result matches Err(error) && error@ == refused && final(self)@
                    == old(self)@,
            },
    {
        if self.block(reference)?.lifecycle != ContextLifecycle::Archived {
            return Err(ContextError::InvalidLifecycle { block: reference, operation: "restore" });
        }
        self.set_lifecycle(reference.block_id, ContextLifecycle::Active);
        Ok(ContextTransition::Restored(reference))
    }

    fn set_pinned(&mut self, id: ContextBlockId, pinned: bool)
        requires
            old(self)@.blocks.contains_key(id),
        ensures
            final(self)@ == (ContextGraphView {
                blocks: old(self)@.blocks.insert(
                    id,
                    ContextBlockView { pinned, ..old(self)@.blocks[id] },
                ),
                ..old(self)@
            }),
    {
        if let Some(block) = self.blocks.get_mut(&id) {
            block.pinned = pinned;
        }
    }

    /// Pins an active or stale block. Its lifecycle stays.
    pub fn pin(&mut self, reference: ContextRef) -> (result: Result<
        ContextTransition,
        ContextError,
    >)
        requires
            old(self)@.valid(),
        ensures
            final(self)@.valid(),
            match applied(
                old(self)@,
                ContextTransitionView::Pinned(reference),
                Ok(Seq::empty()),
            ) {
                Ok(graph) => result == Ok::<ContextTransition, ContextError>(
                    ContextTransition::Pinned(reference),
                ) && final(self)@ == graph,
                Err(refused) => result matches Err(error) && error@ == refused && final(self)@
                    == old(self)@,
            },
    {
        let block = self.block(reference)?;
        if !block.lifecycle.is_live() || block.pinned {
            return Err(ContextError::InvalidLifecycle { block: reference, operation: "pin" });
        }
        self.set_pinned(reference.block_id, true);
        Ok(ContextTransition::Pinned(reference))
    }

    /// Takes a pin away. The lifecycle stays.
    pub fn unpin(&mut self, reference: ContextRef) -> (result: Result<
        ContextTransition,
        ContextError,
    >)
        requires
            old(self)@.valid(),
        ensures
            final(self)@.valid(),
            match applied(
                old(self)@,
                ContextTransitionView::Unpinned(reference),
                Ok(Seq::empty()),
            ) {
                Ok(graph) => result == Ok::<ContextTransition, ContextError>(
                    ContextTransition::Unpinned(reference),
                ) && final(self)@ == graph,
                Err(refused) => result matches Err(error) && error@ == refused && final(self)@
                    == old(self)@,
            },
    {
        if !self.block(reference)?.pinned {
            return Err(ContextError::InvalidLifecycle { block: reference, operation: "unpin" });
        }
        self.set_pinned(reference.block_id, false);
        Ok(ContextTransition::Unpinned(reference))
    }

    /// Applies a transition. `resolved` is what became of the artifact that it
    /// refers to, where it refers to one.
    pub fn apply_transition(
        &mut self,
        transition: ContextTransition,
        resolved: Result<Vec<u8>, ContextError>,
    ) -> (result: Result<(), ContextError>)
        requires
            old(self)@.valid(),
        ensures
            final(self)@.valid(),
            match applied(old(self)@, transition@, outcome(resolved)) {
                Ok(graph) => result is Ok && final(self)@ == graph,
                Err(refused) => result matches Err(error) && error@ == refused && final(self)@
                    == old(self)@,
            },
    {
        match transition {
            ContextTransition::Created { block, content } => self.apply_created_block(
                block,
                content,
            ),
            ContextTransition::CreatedFromArtifact { block, .. } => match resolved {
                Ok(content) => self.apply_created_block(block, content),
                Err(error) => Err(error),
            },
            ContextTransition::Superseded(reference) => self.supersede(reference),
            ContextTransition::Archived(reference) => match self.archive(reference) {
                Ok(_) => Ok(()),
                Err(error) => Err(error),
            },
            ContextTransition::Restored(reference) => match self.restore(reference) {
                Ok(_) => Ok(()),
                Err(error) => Err(error),
            },
            ContextTransition::Pinned(reference) => match self.pin(reference) {
                Ok(_) => Ok(()),
                Err(error) => Err(error),
            },
            ContextTransition::Unpinned(reference) => match self.unpin(reference) {
                Ok(_) => Ok(()),
                Err(error) => Err(error),
            },
            ContextTransition::Invalidated { block: reference, dependency, .. } => {
                self.block(reference)?;
                let lifecycle = match dependency {
                    Some(_) => ContextLifecycle::Stale,
                    None => ContextLifecycle::Invalidated,
                };
                self.set_lifecycle(reference.block_id, lifecycle);
                Ok(())
            },
        }
    }

    /// Builds a graph from its transitions, none of which refers to an
    /// artifact.
    pub fn replay(transitions: Vec<ContextTransition>) -> (result: Result<
        ContextGraph,
        ContextError,
    >)
        ensures
            outcome(result) == applied_all(
                empty_graph(),
                transition_views(transitions@),
                all_unresolved(transition_views(transitions@)),
            ),
            result matches Ok(graph) ==> graph@.valid(),
    {
        let mut graph = ContextGraph::new();
        let ghost views = transition_views(transitions@);
        let ghost resolved = all_unresolved(views);
        let mut index: usize = 0;
        assert(views.take(0) =~= Seq::<ContextTransitionView>::empty());
        while index < transitions.len()
            invariant
                index <= transitions@.len(),
                views == transition_views(transitions@),
                resolved == all_unresolved(views),
                graph@.valid(),
                applied_all(empty_graph(), views.take(index as int), resolved) == Ok::<
                    ContextGraphView,
                    ContextErrorView,
                >(graph@),
            decreases transitions.len() - index,
        {
            let transition = transitions[index].clone();
            proof {
                let now = views.take(index + 1);
                assert(now.drop_last() =~= views.take(index as int));
                assert(now.last() == views[index as int]);
                assert(transition@ == views[index as int]);
                assert(resolved[index as int] == unresolved(transition@));
                if applied_all(empty_graph(), now, resolved) is Err {
                    refused_replay_stays(empty_graph(), views, resolved, index + 1);
                }
            }
            let answer: Result<Vec<u8>, ContextError> = match &transition {
                ContextTransition::CreatedFromArtifact { artifact_hash, .. } => Err(
                    ContextError::MissingArtifact(*artifact_hash),
                ),
                _ => {
                    let none: Vec<u8> = Vec::new();
                    assert(none@ =~= Seq::<u8>::empty());
                    Ok(none)
                },
            };
            assert(outcome(answer) == unresolved(transition@));
            graph.apply_transition(transition, answer)?;
            index += 1;
        }
        assert(views.take(views.len() as int) =~= views);
        Ok(graph)
    }

    /// Builds a graph from its transitions. The resolver is asked for the
    /// content of each artifact that they refer to, in order.
    pub fn replay_with_content<F: Fn([u8; 32]) -> Result<Vec<u8>, ContextError>>(
        transitions: Vec<ContextTransition>,
        resolver: F,
    ) -> (result: Result<ContextGraph, ContextError>)
        requires
            forall|hash: [u8; 32]| call_requires(resolver, (hash,)),
        ensures
            exists|resolved: Seq<Result<Seq<u8>, ContextErrorView>>|
                #![trigger answered(resolver, transitions@, resolved)]
                {
                    &&& answered(resolver, transitions@, resolved)
                    &&& outcome(result) == applied_all(
                        empty_graph(),
                        transition_views(transitions@).take(resolved.len() as int),
                        resolved,
                    )
                    &&& result is Ok ==> resolved.len() == transitions@.len()
                },
            result matches Ok(graph) ==> graph@.valid(),
    {
        let mut graph = ContextGraph::new();
        let ghost views = transition_views(transitions@);
        let ghost mut resolved: Seq<Result<Seq<u8>, ContextErrorView>> = seq![];
        let mut index: usize = 0;
        assert(views.take(0) =~= Seq::<ContextTransitionView>::empty());
        while index < transitions.len()
            invariant
                index <= transitions@.len(),
                forall|hash: [u8; 32]| call_requires(resolver, (hash,)),
                views == transition_views(transitions@),
                resolved.len() == index,
                answered(resolver, transitions@, resolved),
                graph@.valid(),
                applied_all(empty_graph(), views.take(index as int), resolved) == Ok::<
                    ContextGraphView,
                    ContextErrorView,
                >(graph@),
            decreases transitions.len() - index,
        {
            let transition = transitions[index].clone();
            let answer: Result<Vec<u8>, ContextError> = match &transitions[index] {
                ContextTransition::CreatedFromArtifact { artifact_hash, .. } => resolver(
                    *artifact_hash,
                ),
                _ => Ok(Vec::new()),
            };
            let ghost before = resolved;
            proof {
                resolved = resolved.push(outcome(answer));
                let now = views.take(index + 1);
                assert(now.drop_last() =~= views.take(index as int));
                assert(now.last() == views[index as int]);
                assert(transition@ == views[index as int]);
                answers_are_local(empty_graph(), views.take(index as int), before, resolved);
                assert forall|i: int| 0 <= i < resolved.len() implies answered_at(
                    resolver,
                    transitions@[i],
                    #[trigger] resolved[i],
                ) by {
                    if i < index {
                        assert(resolved[i] == before[i]);
                    }
                }
                assert(answered(resolver, transitions@, resolved));
            }
            graph.apply_transition(transition, answer)?;
            index += 1;
        }
        Ok(graph)
    }

    /// Subscribes an agent to the namespaces that a pattern matches.
    pub fn subscribe(
        &mut self,
        ids: &mut ContextIdSource,
        agent_id: AgentId,
        namespace_pattern: &str,
    ) -> (result: Result<SubscriptionId, ContextError>)
        ensures
            final(ids).block() == old(ids).block(),
            if blank(namespace_pattern@) {
                &&& result matches Err(error) && error@
                    == ContextErrorView::InvalidSubscriptionPattern
                &&& final(self)@ == old(self)@
                &&& final(ids).subscription() == old(ids).subscription()
            } else {
                let id = SubscriptionId(old(ids).subscription());
                &&& result == Ok::<SubscriptionId, ContextError>(id)
                &&& final(ids).subscription() == old(ids).subscription().wrapping_add(1)
                &&& final(self)@ == (ContextGraphView {
                    subscriptions: old(self)@.subscriptions.insert(
                        id,
                        ContextSubscriptionView {
                            id,
                            agent_id,
                            namespace_pattern: namespace_pattern@,
                        },
                    ),
                    ..old(self)@
                })
            },
    {
        if is_blank(namespace_pattern) {
            return Err(ContextError::InvalidSubscriptionPattern);
        }
        let id = SubscriptionId::new(ids);
        self.subscriptions.insert(
            id,
            ContextSubscription {
                id,
                agent_id,
                namespace_pattern: namespace_pattern.to_owned(),
            },
        );
        Ok(id)
    }

    /// Ends a subscription, and says whether there was one.
    pub fn unsubscribe(&mut self, subscription_id: SubscriptionId) -> (removed: bool)
        ensures
            removed == old(self)@.subscriptions.contains_key(subscription_id),
            final(self)@ == (ContextGraphView {
                subscriptions: old(self)@.subscriptions.remove(subscription_id),
                ..old(self)@
            }),
    {
        self.subscriptions.remove(&subscription_id)
    }

    /// Invalidates a block. What depends on it goes stale.
    pub fn invalidate(&mut self, reference: ContextRef, reason: &str) -> (result: Result<
        Vec<Invalidation>,
        ContextError,
    >)
        requires
            old(self)@.valid(),
        ensures
            final(self)@.valid(),
            match result {
                Ok(invalidations) => {
                    &&& old(self)@.knows(reference)
                    &&& invalidation_views(invalidations@) == invalidation_notices(
                        old(self)@,
                        reference,
                        reason@,
                    )
                    &&& final(self)@ == invalidated_graph(old(self)@, reference, reason@)
                },
                Err(error) => {
                    &&& !old(self)@.knows(reference)
                    &&& error@ == ContextErrorView::UnknownBlock(reference)
                    &&& final(self)@ == old(self)@
                },
            },
    {
        self.block(reference)?;
        self.set_lifecycle(reference.block_id, ContextLifecycle::Invalidated);
        let mut invalidations: Vec<Invalidation> = Vec::new();
        invalidations.push(
            Invalidation { block: reference, dependency: None, reason: reason.to_owned() },
        );
        let stale = self.mark_dependents_stale(reference, reason);
        proof {
            assert(invalidation_views(invalidations@) =~= seq![
                InvalidationView { block: reference, dependency: None, reason: reason@ },
            ]);
            assert(invalidation_views(stale@).skip(0) =~= invalidation_views(stale@));
        }
        clone_invalidations(&stale, 0, &mut invalidations);
        assert(invalidation_views(invalidations@).skip(0) =~= invalidation_views(invalidations@));
        clone_invalidations(&invalidations, 0, &mut self.invalidations);
        Ok(invalidations)
    }

    pub fn block_count(&self) -> (count: usize)
        ensures
            count == self@.blocks.len(),
    {
        self.blocks.len()
    }

    pub fn namespace_count(&self) -> (count: usize)
        ensures
            count == self@.namespaces.len(),
    {
        self.namespaces.len()
    }

    pub fn subscription_count(&self) -> (count: usize)
        ensures
            count == self@.subscriptions.len(),
    {
        self.subscriptions.len()
    }

    pub fn invalidation_count(&self) -> (count: usize)
        ensures
            count == self@.invalidations.len(),
    {
        self.invalidations.len()
    }

    pub fn invalidations(&self) -> (invalidations: &[Invalidation])
        ensures
            invalidation_views(invalidations@) == self@.invalidations,
    {
        self.invalidations.as_slice()
    }
}

impl Clone for ContextSubscription {
    fn clone(&self) -> (copy: ContextSubscription)
        ensures
            copy@ == self@,
    {
        ContextSubscription {
            id: self.id,
            agent_id: self.agent_id,
            namespace_pattern: self.namespace_pattern.clone(),
        }
    }
}

impl Replica for ContextSubscription {
    fn replica(&self) -> (copy: ContextSubscription) {
        self.clone()
    }
}

impl Replica for ContextBlock {
    fn replica(&self) -> (copy: ContextBlock) {
        self.clone()
    }
}

impl Replica for Vec<u8> {
    fn replica(&self) -> (copy: Vec<u8>) {
        vstd::slice::slice_to_vec(self.as_slice())
    }
}

impl Replica for Vec<ContextRef> {
    fn replica(&self) -> (copy: Vec<ContextRef>) {
        vstd::slice::slice_to_vec(self.as_slice())
    }
}

impl Clone for ContextGraph {
    fn clone(&self) -> (copy: ContextGraph)
        ensures
            copy@ == self@,
    {
        let mut invalidations: Vec<Invalidation> = Vec::new();
        clone_invalidations(&self.invalidations, 0, &mut invalidations);
        proof {
            let views = invalidation_views(self.invalidations@);
            assert(invalidation_views(Seq::<Invalidation>::empty()) + views.skip(0) =~= views);
        }
        ContextGraph {
            blocks: self.blocks.clone(),
            content: self.content.clone(),
            namespaces: self.namespaces.clone(),
            subscriptions: self.subscriptions.clone(),
            invalidations,
        }
    }
}

impl Default for ContextGraph {
    fn default() -> (graph: ContextGraph)
        ensures
            graph@ == empty_graph(),
            graph@.valid(),
    {
        ContextGraph::new()
    }
}

/// The notices that an invalidation gives.
pub open spec fn invalidation_notices(
    graph: ContextGraphView,
    reference: ContextRef,
    reason: Seq<char>,
) -> Seq<InvalidationView> {
    seq![InvalidationView { block: reference, dependency: None, reason }] + spread(
        with_lifecycle(graph.blocks, reference.block_id, ContextLifecycle::Invalidated),
        reason,
        seq![reference],
        Set::empty(),
        seq![],
    )
}

/// The graph after an invalidation.
pub open spec fn invalidated_graph(
    graph: ContextGraphView,
    reference: ContextRef,
    reason: Seq<char>,
) -> ContextGraphView {
    let blocks = with_lifecycle(
        graph.blocks,
        reference.block_id,
        ContextLifecycle::Invalidated,
    );
    ContextGraphView {
        blocks: staled(
            blocks,
            spread(blocks, reason, seq![reference], Set::empty(), seq![]),
        ),
        invalidations: graph.invalidations + invalidation_notices(graph, reference, reason),
        ..graph
    }
}

} // verus!
