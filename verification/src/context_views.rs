//! What principals read of the context graph: projections, prompts, searches
//! and reports.

use vstd::prelude::*;
use vstd::string::StringExecFns;
use vstd::utf8::encode_utf8;

use crate::codec::{outcome, put_bytes};
use crate::context::{
    clone_refs, context_digest, invalidation_views, ContentHash, ContextBlock, ContextBlockId,
    ContextBlockView, ContextError, ContextErrorView, ContextLifecycle, ContextPrincipal,
    ContextRef, ContextTrustPolicy, DeterministicContentHasher, Invalidation, InvalidationView,
};
use crate::context_graph::{
    can_view, clone_invalidations, contains_ref, estimate_tokens, matches_namespace,
    namespace_matches, tokens_in, visible_to, ContextGraph, ContextGraphView,
};
use crate::ranking::{best, keep_best, ranked, views_of, Ranked};
use crate::table::{listing, table_is_listed};
use crate::text::{
    blank, contains_text, found_in, is_blank, lossy_text, lowered, text_lossy, texts, to_lower_case,
};

verus! {

// ---------------------------------------------------------------------------
// Summaries.

#[derive(Clone, Debug, PartialEq, Eq)]
pub struct ContextBlockSummary {
    pub reference: ContextRef,
    pub namespace: String,
    pub lifecycle: ContextLifecycle,
    pub pinned: bool,
    pub token_estimate: u64,
    pub importance: u8,
    pub last_access_ms: Option<u64>,
}

pub struct ContextBlockSummaryView {
    pub reference: ContextRef,
    pub namespace: Seq<char>,
    pub lifecycle: ContextLifecycle,
    pub pinned: bool,
    pub token_estimate: u64,
    pub importance: u8,
    pub last_access_ms: Option<u64>,
}

impl View for ContextBlockSummary {
    type V = ContextBlockSummaryView;

    open spec fn view(&self) -> ContextBlockSummaryView {
        ContextBlockSummaryView {
            reference: self.reference,
            namespace: self.namespace@,
            lifecycle: self.lifecycle,
            pinned: self.pinned,
            token_estimate: self.token_estimate,
            importance: self.importance,
            last_access_ms: self.last_access_ms,
        }
    }
}

pub open spec fn summary_of(block: ContextBlockView) -> ContextBlockSummaryView {
    ContextBlockSummaryView {
        reference: block.reference(),
        namespace: block.namespace,
        lifecycle: block.lifecycle,
        pinned: block.pinned,
        token_estimate: block.token_estimate,
        importance: block.importance,
        last_access_ms: block.last_access_ms,
    }
}

fn summarize(block: &ContextBlock) -> (summary: ContextBlockSummary)
    ensures
        summary@ == summary_of(block@),
{
    ContextBlockSummary {
        reference: block.reference(),
        namespace: block.namespace.clone(),
        lifecycle: block.lifecycle,
        pinned: block.pinned,
        token_estimate: block.token_estimate,
        importance: block.importance,
        last_access_ms: block.last_access_ms,
    }
}

/// References in identity order, then by revision.
pub open spec fn reference_before(a: ContextRef, b: ContextRef) -> bool {
    a.block_id.0 < b.block_id.0 || (a.block_id == b.block_id && a.revision < b.revision)
}

fn ref_before(a: ContextRef, b: ContextRef) -> (answer: bool)
    ensures
        answer == reference_before(a, b),
{
    a.block_id.value() < b.block_id.value() || (a.block_id.value() == b.block_id.value()
        && a.revision < b.revision)
}

// ---------------------------------------------------------------------------
// Freshness.

/// Limits for a freshness report. They bound what is reported and change
/// nothing.
#[derive(Clone, Copy, Debug, PartialEq, Eq)]
pub struct ContextFreshnessPolicy {
    pub max_active_tokens: Option<u64>,
    pub max_stale_blocks: Option<usize>,
    pub largest_block_limit: usize,
    pub recent_invalidation_limit: usize,
}

impl Default for ContextFreshnessPolicy {
    fn default() -> (policy: ContextFreshnessPolicy)
        ensures
            policy == (ContextFreshnessPolicy {
                max_active_tokens: None,
                max_stale_blocks: None,
                largest_block_limit: 8,
                recent_invalidation_limit: 8,
            }),
    {
        ContextFreshnessPolicy {
            max_active_tokens: None,
            max_stale_blocks: None,
            largest_block_limit: 8,
            recent_invalidation_limit: 8,
        }
    }
}

#[derive(Clone, Debug, PartialEq, Eq)]
pub struct ContextProprioception {
    pub active_blocks: usize,
    pub active_tokens: u64,
    pub stale_blocks: usize,
    pub archived_blocks: usize,
    pub invalidated_blocks: usize,
    pub pinned_blocks: usize,
    pub largest_blocks: Vec<ContextBlockSummary>,
    pub recent_invalidations: Vec<Invalidation>,
    pub active_tokens_over_budget: bool,
    pub stale_blocks_over_budget: bool,
}

pub struct ContextProprioceptionView {
    pub active_blocks: nat,
    pub active_tokens: nat,
    pub stale_blocks: nat,
    pub archived_blocks: nat,
    pub invalidated_blocks: nat,
    pub pinned_blocks: nat,
    pub largest_blocks: Seq<ContextBlockSummaryView>,
    pub recent_invalidations: Seq<InvalidationView>,
    pub active_tokens_over_budget: bool,
    pub stale_blocks_over_budget: bool,
}

impl View for ContextProprioception {
    type V = ContextProprioceptionView;

    open spec fn view(&self) -> ContextProprioceptionView {
        ContextProprioceptionView {
            active_blocks: self.active_blocks as nat,
            active_tokens: self.active_tokens as nat,
            stale_blocks: self.stale_blocks as nat,
            archived_blocks: self.archived_blocks as nat,
            invalidated_blocks: self.invalidated_blocks as nat,
            pinned_blocks: self.pinned_blocks as nat,
            largest_blocks: views_of(self.largest_blocks@),
            recent_invalidations: invalidation_views(self.recent_invalidations@),
            active_tokens_over_budget: self.active_tokens_over_budget,
            stale_blocks_over_budget: self.stale_blocks_over_budget,
        }
    }
}

/// How many of the listed blocks are in a state of their life.
pub open spec fn count_among(
    blocks: Map<ContextBlockId, ContextBlockView>,
    ids: Seq<ContextBlockId>,
    lifecycle: ContextLifecycle,
) -> nat
    decreases ids.len(),
{
    if ids.len() == 0 {
        0
    } else {
        count_among(blocks, ids.drop_last(), lifecycle) + if blocks[ids.last()].lifecycle
            == lifecycle {
            1nat
        } else {
            0nat
        }
    }
}

/// How many of the listed blocks are pinned.
pub open spec fn pinned_among(
    blocks: Map<ContextBlockId, ContextBlockView>,
    ids: Seq<ContextBlockId>,
) -> nat
    decreases ids.len(),
{
    if ids.len() == 0 {
        0
    } else {
        pinned_among(blocks, ids.drop_last()) + if blocks[ids.last()].pinned {
            1nat
        } else {
            0nat
        }
    }
}

/// The tokens of the active blocks among those listed.
pub open spec fn active_tokens_among(
    blocks: Map<ContextBlockId, ContextBlockView>,
    ids: Seq<ContextBlockId>,
) -> nat
    decreases ids.len(),
{
    if ids.len() == 0 {
        0
    } else {
        active_tokens_among(blocks, ids.drop_last()) + if blocks[ids.last()].lifecycle
            == ContextLifecycle::Active {
            blocks[ids.last()].token_estimate as nat
        } else {
            0nat
        }
    }
}

/// At most what a `u64` holds.
pub open spec fn saturated(value: nat) -> nat {
    if value > u64::MAX {
        u64::MAX as nat
    } else {
        value
    }
}

/// What a block's place in a list of the largest goes by: most tokens first,
/// then most important, then lowest reference.
#[derive(Clone, Copy, Debug, PartialEq, Eq)]
pub struct SizeRank {
    pub token_estimate: u64,
    pub importance: u8,
    pub reference: ContextRef,
}

impl View for SizeRank {
    type V = SizeRank;

    open spec fn view(&self) -> SizeRank {
        *self
    }
}

impl Ranked for SizeRank {
    open spec fn no_later(a: SizeRank, b: SizeRank) -> bool {
        a.token_estimate > b.token_estimate || (a.token_estimate == b.token_estimate && (
        a.importance > b.importance || (a.importance == b.importance && !reference_before(
            b.reference,
            a.reference,
        ))))
    }

    proof fn ranking_laws(a: SizeRank, b: SizeRank, c: SizeRank) {
    }

    fn ranks_no_later(&self, other: &SizeRank) -> (answer: bool) {
        self.token_estimate > other.token_estimate || (self.token_estimate == other.token_estimate
            && (self.importance > other.importance || (self.importance == other.importance
            && !ref_before(other.reference, self.reference))))
    }
}

pub open spec fn size_rank(block: ContextBlockView) -> SizeRank {
    SizeRank {
        token_estimate: block.token_estimate,
        importance: block.importance,
        reference: block.reference(),
    }
}

pub open spec fn size_ranks(
    blocks: Map<ContextBlockId, ContextBlockView>,
    ids: Seq<ContextBlockId>,
) -> Seq<SizeRank> {
    Seq::new(ids.len(), |i: int| size_rank(blocks[ids[i]]))
}

/// The summaries of the largest blocks.
pub open spec fn largest(
    blocks: Map<ContextBlockId, ContextBlockView>,
    ids: Seq<ContextBlockId>,
    limit: int,
) -> Seq<ContextBlockSummaryView> {
    let chosen = best::<SizeRank>(size_ranks(blocks, ids), limit);
    Seq::new(chosen.len(), |i: int| summary_of(blocks[chosen[i].reference.block_id]))
}

/// The last `limit` of a list, in its order.
pub open spec fn last_of<T>(list: Seq<T>, limit: int) -> Seq<T> {
    if list.len() <= limit {
        list
    } else {
        list.skip(list.len() - limit)
    }
}

pub open spec fn freshness(
    graph: ContextGraphView,
    policy: ContextFreshnessPolicy,
) -> ContextProprioceptionView {
    let ids = listing::<ContextBlockId, ContextBlockView>(graph.blocks);
    let active_tokens = saturated(active_tokens_among(graph.blocks, ids));
    let stale_blocks = count_among(graph.blocks, ids, ContextLifecycle::Stale);
    ContextProprioceptionView {
        active_blocks: count_among(graph.blocks, ids, ContextLifecycle::Active),
        active_tokens,
        stale_blocks,
        archived_blocks: count_among(graph.blocks, ids, ContextLifecycle::Archived),
        invalidated_blocks: count_among(graph.blocks, ids, ContextLifecycle::Invalidated),
        pinned_blocks: pinned_among(graph.blocks, ids),
        largest_blocks: largest(graph.blocks, ids, policy.largest_block_limit as int),
        recent_invalidations: last_of(
            graph.invalidations,
            policy.recent_invalidation_limit as int,
        ),
        active_tokens_over_budget: policy.max_active_tokens matches Some(limit) && active_tokens
            > limit,
        stale_blocks_over_budget: policy.max_stale_blocks matches Some(limit) && stale_blocks
            > limit,
    }
}

fn add_saturating(a: u64, b: u64) -> (sum: u64)
    ensures
        sum == saturated((a + b) as nat),
{
    if a > u64::MAX - b {
        u64::MAX
    } else {
        a + b
    }
}

proof fn every_rank_is_of_a_block(
    blocks: Map<ContextBlockId, ContextBlockView>,
    ids: Seq<ContextBlockId>,
    limit: int,
)
    requires
        limit >= 0,
        forall|i: int| 0 <= i < ids.len() ==> blocks.contains_key(#[trigger] ids[i]),
        forall|id: ContextBlockId| #[trigger] blocks.contains_key(id) ==> blocks[id].id == id,
    ensures
        forall|i: int|
            0 <= i < best::<SizeRank>(size_ranks(blocks, ids), limit).len() ==> blocks.contains_key(
                (#[trigger] best::<SizeRank>(
                    size_ranks(blocks, ids),
                    limit,
                )[i]).reference.block_id,
            ),
{
    let all = size_ranks(blocks, ids);
    let chosen = best::<SizeRank>(all, limit);
    crate::ranking::ranked_is_sorted::<SizeRank>(all);
    assert forall|i: int| 0 <= i < chosen.len() implies blocks.contains_key(
        (#[trigger] chosen[i]).reference.block_id,
    ) by {
        let full = ranked::<SizeRank>(all);
        assert(full[i] == chosen[i]);
        full.to_multiset_ensures();
        all.to_multiset_ensures();
        assert(full.contains(chosen[i]));
        assert(full.to_multiset().count(chosen[i]) > 0);
        assert(all.contains(chosen[i]));
        let k = choose|k: int| 0 <= k < all.len() && all[k] == chosen[i];
        assert(blocks.contains_key(ids[k]));
    }
}

impl ContextGraph {
    /// A freshness report. Reading it changes nothing.
    pub fn proprioception(&self, policy: ContextFreshnessPolicy) -> (report: ContextProprioception)
        requires
            self@.valid(),
        ensures
            report@ == freshness(self@, policy),
    {
        let mut active_blocks: usize = 0;
        let mut active_tokens: u64 = 0;
        let mut stale_blocks: usize = 0;
        let mut archived_blocks: usize = 0;
        let mut invalidated_blocks: usize = 0;
        let mut pinned_blocks: usize = 0;
        let mut ranks: Vec<SizeRank> = Vec::new();
        let limit: usize = policy.largest_block_limit;
        let count: usize = self.blocks.len();
        let mut index: usize = 0;
        let ghost blocks = self@.blocks;
        let ghost ids = listing::<ContextBlockId, ContextBlockView>(blocks);
        proof {
            table_is_listed(self.blocks.keys(), self.blocks.values());
            assert(ids.take(0) =~= Seq::<ContextBlockId>::empty());
            assert(size_ranks(blocks, ids.take(0)) =~= Seq::<SizeRank>::empty());
            crate::ranking::ranked_is_sorted::<SizeRank>(Seq::empty());
            assert(views_of(ranks@) =~= best::<SizeRank>(Seq::empty(), limit as int));
        }
        while index < count
            invariant
                index <= count,
                count == self.blocks.keys().len(),
                blocks == self.blocks@,
                ids.len() == count,
                limit == policy.largest_block_limit,
                forall|i: int| 0 <= i < count ==> (#[trigger] self.blocks.keys()[i]) == ids[i],
                active_blocks == count_among(
                    blocks,
                    ids.take(index as int),
                    ContextLifecycle::Active,
                ),
                active_tokens == saturated(active_tokens_among(blocks, ids.take(index as int))),
                stale_blocks == count_among(
                    blocks,
                    ids.take(index as int),
                    ContextLifecycle::Stale,
                ),
                archived_blocks == count_among(
                    blocks,
                    ids.take(index as int),
                    ContextLifecycle::Archived,
                ),
                invalidated_blocks == count_among(
                    blocks,
                    ids.take(index as int),
                    ContextLifecycle::Invalidated,
                ),
                pinned_blocks == pinned_among(blocks, ids.take(index as int)),
                active_blocks <= index,
                stale_blocks <= index,
                archived_blocks <= index,
                invalidated_blocks <= index,
                pinned_blocks <= index,
                ranks@.len() <= index,
                views_of(ranks@) == best::<SizeRank>(
                    size_ranks(blocks, ids.take(index as int)),
                    limit as int,
                ),
            decreases count - index,
        {
            let block = self.blocks.value_at(index);
            assert(self.blocks.keys()[index as int] == ids[index as int]);
            let ghost now = ids.take(index + 1);
            proof {
                assert(now.drop_last() =~= ids.take(index as int));
                assert(now.last() == ids[index as int]);
                assert(size_ranks(blocks, now) =~= size_ranks(
                    blocks,
                    ids.take(index as int),
                ).push(size_rank(block@)));
            }
            match block.lifecycle {
                ContextLifecycle::Active => {
                    active_blocks += 1;
                    active_tokens = add_saturating(active_tokens, block.token_estimate);
                },
                ContextLifecycle::Stale => {
                    stale_blocks += 1;
                },
                ContextLifecycle::Archived => {
                    archived_blocks += 1;
                },
                ContextLifecycle::Invalidated => {
                    invalidated_blocks += 1;
                },
                ContextLifecycle::Superseded => {},
            }
            if block.pinned {
                pinned_blocks += 1;
            }
            let rank = SizeRank {
                token_estimate: block.token_estimate,
                importance: block.importance,
                reference: block.reference(),
            };
            keep_best(
                &mut ranks,
                rank,
                limit,
                Ghost(size_ranks(blocks, ids.take(index as int))),
            );
            proof {
                crate::ranking::ranked_is_sorted::<SizeRank>(size_ranks(blocks, now));
                assert(ranks@.len() == views_of(ranks@).len());
            }
            index += 1;
        }
        assert(ids.take(count as int) =~= ids);
        let mut largest_blocks: Vec<ContextBlockSummary> = Vec::new();
        let mut place: usize = 0;
        let ghost expected = largest(blocks, ids, limit as int);
        proof {
            every_rank_is_of_a_block(blocks, ids, limit as int);
            assert(ranks@.len() == views_of(ranks@).len());
            assert(views_of(largest_blocks@) =~= expected.take(0));
        }
        while place < ranks.len()
            invariant
                place <= ranks@.len(),
                blocks == self.blocks@,
                expected == largest(blocks, ids, limit as int),
                views_of(ranks@) == best::<SizeRank>(size_ranks(blocks, ids), limit as int),
                ranks@.len() == expected.len(),
                forall|i: int|
                    0 <= i < best::<SizeRank>(
                        size_ranks(blocks, ids),
                        limit as int,
                    ).len() ==> blocks.contains_key(
                        (#[trigger] best::<SizeRank>(
                            size_ranks(blocks, ids),
                            limit as int,
                        )[i]).reference.block_id,
                    ),
                views_of(largest_blocks@) == expected.take(place as int),
            decreases ranks.len() - place,
        {
            let reference = ranks[place].reference;
            proof {
                assert(views_of(ranks@)[place as int] == ranks@[place as int]);
                assert(blocks.contains_key(
                    best::<SizeRank>(
                        size_ranks(blocks, ids),
                        limit as int,
                    )[place as int].reference.block_id,
                ));
            }
            if let Some(block) = self.blocks.get(&reference.block_id) {
                let ghost before = largest_blocks@;
                largest_blocks.push(summarize(block));
                proof {
                    assert(views_of(largest_blocks@) =~= views_of(before).push(
                        summary_of(block@),
                    ));
                    assert(views_of(largest_blocks@) =~= expected.take(place + 1));
                }
            }
            place += 1;
        }
        assert(expected.take(expected.len() as int) =~= expected);
        let total: usize = self.invalidations.len();
        let from: usize = if total <= policy.recent_invalidation_limit {
            0
        } else {
            total - policy.recent_invalidation_limit
        };
        let mut recent_invalidations: Vec<Invalidation> = Vec::new();
        clone_invalidations(&self.invalidations, from, &mut recent_invalidations);
        proof {
            let all = self@.invalidations;
            assert(all.skip(0) =~= all);
            assert(invalidation_views(recent_invalidations@) =~= last_of(
                all,
                policy.recent_invalidation_limit as int,
            ));
        }
        let active_tokens_over_budget = match policy.max_active_tokens {
            Some(limit) => active_tokens > limit,
            None => false,
        };
        let stale_blocks_over_budget = match policy.max_stale_blocks {
            Some(limit) => stale_blocks > limit,
            None => false,
        };
        ContextProprioception {
            active_blocks,
            active_tokens,
            stale_blocks,
            archived_blocks,
            invalidated_blocks,
            pinned_blocks,
            largest_blocks,
            recent_invalidations,
            active_tokens_over_budget,
            stale_blocks_over_budget,
        }
    }
}

// ---------------------------------------------------------------------------
// Searching.

pub const MAX_QUERY_BYTES: usize = 512;

pub const MAX_SEARCH_RESULTS: usize = 256;

#[derive(Clone, Debug, PartialEq, Eq)]
pub struct ContextSearchRequest {
    pub query: String,
    pub namespace_patterns: Vec<String>,
    pub include_stale: bool,
    pub include_archived: bool,
    pub max_results: usize,
    pub trust_policy: ContextTrustPolicy,
}

/// The pattern that matches every namespace.
fn any_namespace() -> (patterns: Vec<String>)
    ensures
        texts(patterns@) == seq!["*"@],
{
    let mut patterns: Vec<String> = Vec::new();
    patterns.push("*".to_owned());
    assert(texts(patterns@) =~= seq!["*"@]);
    patterns
}

impl ContextSearchRequest {
    pub fn new(query: &str) -> (request: ContextSearchRequest)
        ensures
            request.query@ == query@,
            texts(request.namespace_patterns@) == seq!["*"@],
            !request.include_stale,
            !request.include_archived,
            request.max_results == 32,
            request.trust_policy == ContextTrustPolicy::AllowAll,
    {
        ContextSearchRequest {
            query: query.to_owned(),
            namespace_patterns: any_namespace(),
            include_stale: false,
            include_archived: false,
            max_results: 32,
            trust_policy: ContextTrustPolicy::AllowAll,
        }
    }
}

#[derive(Clone, Debug, PartialEq, Eq)]
pub struct ContextSearchHit {
    pub summary: ContextBlockSummary,
    pub matched_namespace: bool,
    pub matched_content: bool,
}

pub struct ContextSearchHitView {
    pub summary: ContextBlockSummaryView,
    pub matched_namespace: bool,
    pub matched_content: bool,
}

impl View for ContextSearchHit {
    type V = ContextSearchHitView;

    open spec fn view(&self) -> ContextSearchHitView {
        ContextSearchHitView {
            summary: self.summary@,
            matched_namespace: self.matched_namespace,
            matched_content: self.matched_content,
        }
    }
}

/// One of the patterns matches the namespace.
pub open spec fn any_matches(patterns: Seq<Seq<char>>, namespace: Seq<char>) -> bool {
    exists|i: int| 0 <= i < patterns.len() && namespace_matches(#[trigger] patterns[i], namespace)
}

fn matches_any(patterns: &Vec<String>, namespace: &str) -> (answer: bool)
    ensures
        answer == any_matches(texts(patterns@), namespace@),
{
    let mut index: usize = 0;
    while index < patterns.len()
        invariant
            index <= patterns@.len(),
            forall|i: int|
                0 <= i < index ==> !namespace_matches(
                    #[trigger] texts(patterns@)[i],
                    namespace@,
                ),
        decreases patterns.len() - index,
    {
        assert(texts(patterns@)[index as int] == patterns@[index as int]@);
        if matches_namespace(patterns[index].as_str(), namespace) {
            return true;
        }
        index += 1;
    }
    false
}

/// The request admits the block, whatever it asks for.
pub open spec fn searchable(
    principal: ContextPrincipal,
    request: ContextSearchRequest,
    block: ContextBlockView,
) -> bool {
    &&& any_matches(texts(request.namespace_patterns@), block.namespace)
    &&& visible_to(principal, block.scope)
    &&& request.trust_policy.admits(block.trust)
    &&& match block.lifecycle {
        ContextLifecycle::Active => true,
        ContextLifecycle::Stale => request.include_stale,
        ContextLifecycle::Archived => request.include_archived,
        ContextLifecycle::Superseded | ContextLifecycle::Invalidated => false,
    }
}

/// The text holds the query, in lower case.
pub open spec fn mentions(text: Seq<char>, query: Seq<char>) -> bool {
    found_in(lowered(text), lowered(query))
}

pub open spec fn content_mentions(
    graph: ContextGraphView,
    block: ContextBlockView,
    query: Seq<char>,
) -> bool {
    graph.content.contains_key(block.content_hash) && mentions(
        lossy_text(graph.content[block.content_hash]),
        query,
    )
}

/// What a hit's place goes by: most important first, then lowest reference.
#[derive(Clone, Copy, Debug, PartialEq, Eq)]
pub struct HitRank {
    pub importance: u8,
    pub reference: ContextRef,
    pub matched_namespace: bool,
    pub matched_content: bool,
}

impl View for HitRank {
    type V = HitRank;

    open spec fn view(&self) -> HitRank {
        *self
    }
}

impl Ranked for HitRank {
    open spec fn no_later(a: HitRank, b: HitRank) -> bool {
        a.importance > b.importance || (a.importance == b.importance && (reference_before(
            a.reference,
            b.reference,
        ) || (a.reference == b.reference && (!a.matched_namespace && b.matched_namespace || (
        a.matched_namespace == b.matched_namespace && (!a.matched_content
            || b.matched_content))))))
    }

    proof fn ranking_laws(a: HitRank, b: HitRank, c: HitRank) {
    }

    fn ranks_no_later(&self, other: &HitRank) -> (answer: bool) {
        self.importance > other.importance || (self.importance == other.importance && (ref_before(
            self.reference,
            other.reference,
        ) || (self.reference == other.reference && (!self.matched_namespace
            && other.matched_namespace || (self.matched_namespace == other.matched_namespace && (
        !self.matched_content || other.matched_content))))))
    }
}

/// The hits among the listed blocks.
pub open spec fn hits_among(
    graph: ContextGraphView,
    principal: ContextPrincipal,
    request: ContextSearchRequest,
    ids: Seq<ContextBlockId>,
) -> Seq<HitRank>
    decreases ids.len(),
{
    if ids.len() == 0 {
        seq![]
    } else {
        let before = hits_among(graph, principal, request, ids.drop_last());
        let block = graph.blocks[ids.last()];
        let matched_namespace = mentions(block.namespace, request.query@);
        let matched_content = content_mentions(graph, block, request.query@);
        if searchable(principal, request, block) && (matched_namespace || matched_content) {
            before.push(
                HitRank {
                    importance: block.importance,
                    reference: block.reference(),
                    matched_namespace,
                    matched_content,
                },
            )
        } else {
            before
        }
    }
}

pub open spec fn hit_of(
    blocks: Map<ContextBlockId, ContextBlockView>,
    hit: HitRank,
) -> ContextSearchHitView {
    ContextSearchHitView {
        summary: summary_of(blocks[hit.reference.block_id]),
        matched_namespace: hit.matched_namespace,
        matched_content: hit.matched_content,
    }
}

pub open spec fn search_limit(request: ContextSearchRequest) -> int {
    if request.max_results < MAX_SEARCH_RESULTS {
        request.max_results as int
    } else {
        MAX_SEARCH_RESULTS as int
    }
}

/// What a search finds: the best of all hits.
pub open spec fn searched(
    graph: ContextGraphView,
    principal: ContextPrincipal,
    request: ContextSearchRequest,
) -> Result<Seq<ContextSearchHitView>, ContextErrorView> {
    if blank(request.query@) {
        Err(ContextErrorView::InvalidSearchQuery("query must not be empty"@))
    } else if encode_utf8(request.query@).len() > MAX_QUERY_BYTES {
        Err(ContextErrorView::InvalidSearchQuery("query exceeds the bounded search length"@))
    } else {
        let ids = listing::<ContextBlockId, ContextBlockView>(graph.blocks);
        let chosen = best::<HitRank>(
            hits_among(graph, principal, request, ids),
            search_limit(request),
        );
        Ok(Seq::new(chosen.len(), |i: int| hit_of(graph.blocks, chosen[i])))
    }
}

proof fn hits_are_of_blocks(
    graph: ContextGraphView,
    principal: ContextPrincipal,
    request: ContextSearchRequest,
    ids: Seq<ContextBlockId>,
)
    requires
        graph.valid(),
        forall|i: int| 0 <= i < ids.len() ==> graph.blocks.contains_key(#[trigger] ids[i]),
    ensures
        hits_among(graph, principal, request, ids).len() <= ids.len(),
        forall|i: int|
            0 <= i < hits_among(graph, principal, request, ids).len()
                ==> graph.blocks.contains_key(
                (#[trigger] hits_among(graph, principal, request, ids)[i]).reference.block_id,
            ) && searchable(
                principal,
                request,
                graph.blocks[hits_among(graph, principal, request, ids)[i].reference.block_id],
            ),
    decreases ids.len(),
{
    if ids.len() > 0 {
        let rest = ids.drop_last();
        assert forall|i: int| 0 <= i < rest.len() implies graph.blocks.contains_key(
            #[trigger] rest[i],
        ) by {
            assert(rest[i] == ids[i]);
        }
        hits_are_of_blocks(graph, principal, request, rest);
        let before = hits_among(graph, principal, request, rest);
        let all = hits_among(graph, principal, request, ids);
        assert(graph.blocks.contains_key(ids[ids.len() - 1]));
        assert forall|i: int| 0 <= i < all.len() implies graph.blocks.contains_key(
            (#[trigger] all[i]).reference.block_id,
        ) && searchable(principal, request, graph.blocks[all[i].reference.block_id]) by {
            if i < before.len() {
                assert(all[i] == before[i]);
            }
        }
    }
}

proof fn best_hits_are_of_blocks(
    graph: ContextGraphView,
    principal: ContextPrincipal,
    request: ContextSearchRequest,
    ids: Seq<ContextBlockId>,
    limit: int,
)
    requires
        graph.valid(),
        limit >= 0,
        forall|i: int| 0 <= i < ids.len() ==> graph.blocks.contains_key(#[trigger] ids[i]),
    ensures
        ({
            let chosen = best::<HitRank>(hits_among(graph, principal, request, ids), limit);
            &&& chosen.len() <= limit
            &&& forall|i: int|
                0 <= i < chosen.len() ==> graph.blocks.contains_key(
                    (#[trigger] chosen[i]).reference.block_id,
                ) && searchable(
                    principal,
                    request,
                    graph.blocks[chosen[i].reference.block_id],
                )
        }),
{
    let all = hits_among(graph, principal, request, ids);
    let chosen = best::<HitRank>(all, limit);
    hits_are_of_blocks(graph, principal, request, ids);
    crate::ranking::ranked_is_sorted::<HitRank>(all);
    assert forall|i: int| 0 <= i < chosen.len() implies graph.blocks.contains_key(
        (#[trigger] chosen[i]).reference.block_id,
    ) && searchable(principal, request, graph.blocks[chosen[i].reference.block_id]) by {
        let full = ranked::<HitRank>(all);
        assert(full[i] == chosen[i]);
        full.to_multiset_ensures();
        all.to_multiset_ensures();
        assert(full.contains(chosen[i]));
        assert(full.to_multiset().count(chosen[i]) > 0);
        assert(all.contains(chosen[i]));
        let k = choose|k: int| 0 <= k < all.len() && all[k] == chosen[i];
        assert(all[k].reference == chosen[i].reference);
    }
}

/// A search shows a principal only what it may see and trust, and no more
/// than was asked for.
pub proof fn searches_show_what_is_visible(
    graph: ContextGraphView,
    principal: ContextPrincipal,
    request: ContextSearchRequest,
)
    requires
        graph.valid(),
        searched(graph, principal, request) is Ok,
    ensures
        searched(graph, principal, request)->Ok_0.len() <= search_limit(request),
        forall|i: int|
            0 <= i < searched(graph, principal, request)->Ok_0.len() ==> {
                let hit = #[trigger] searched(graph, principal, request)->Ok_0[i];
                exists|id: ContextBlockId|
                    graph.blocks.contains_key(id) && searchable(
                        principal,
                        request,
                        #[trigger] graph.blocks[id],
                    ) && hit.summary == summary_of(graph.blocks[id])
            },
{
    crate::context_graph::finite_maps_are_listed(graph.blocks);
    let ids = listing::<ContextBlockId, ContextBlockView>(graph.blocks);
    best_hits_are_of_blocks(graph, principal, request, ids, search_limit(request));
    let chosen = best::<HitRank>(
        hits_among(graph, principal, request, ids),
        search_limit(request),
    );
    assert forall|i: int| 0 <= i < searched(graph, principal, request)->Ok_0.len() implies {
        let hit = #[trigger] searched(graph, principal, request)->Ok_0[i];
        exists|id: ContextBlockId|
            graph.blocks.contains_key(id) && searchable(
                principal,
                request,
                #[trigger] graph.blocks[id],
            ) && hit.summary == summary_of(graph.blocks[id])
    } by {
        let id = chosen[i].reference.block_id;
        assert(graph.blocks.contains_key(id) && searchable(
            principal,
            request,
            graph.blocks[id],
        ));
    }
}

impl ContextGraph {
    /// The content of a block holds the query, in lower case.
    fn content_has(&self, block: &ContextBlock, query: &str, lower_query: &String) -> (answer: bool)
        requires
            lower_query@ == lowered(query@),
        ensures
            answer == content_mentions(self@, block@, query@),
    {
        match self.content(block.content_hash) {
            Ok(content) => contains_text(
                to_lower_case(text_lossy(content).as_str()).as_str(),
                lower_query.as_str(),
            ),
            Err(_) => false,
        }
    }

    /// Searches namespaces and content. Reading changes nothing.
    pub fn search(&self, principal: ContextPrincipal, request: &ContextSearchRequest) -> (result:
        Result<Vec<ContextSearchHit>, ContextError>)
        requires
            self@.valid(),
        ensures
            match searched(self@, principal, *request) {
                Ok(hits) => result matches Ok(found) && views_of(found@) == hits,
                Err(refused) => result matches Err(error) && error@ == refused,
            },
    {
        if is_blank(request.query.as_str()) {
            return Err(ContextError::InvalidSearchQuery("query must not be empty".to_owned()));
        }
        if request.query.as_str().as_bytes().len() > MAX_QUERY_BYTES {
            return Err(
                ContextError::InvalidSearchQuery(
                    "query exceeds the bounded search length".to_owned(),
                ),
            );
        }
        let query = to_lower_case(request.query.as_str());
        let limit: usize = if request.max_results < MAX_SEARCH_RESULTS {
            request.max_results
        } else {
            MAX_SEARCH_RESULTS
        };
        let mut ranks: Vec<HitRank> = Vec::new();
        let count: usize = self.blocks.len();
        let mut index: usize = 0;
        let ghost graph = self@;
        let ghost ids = listing::<ContextBlockId, ContextBlockView>(graph.blocks);
        proof {
            table_is_listed(self.blocks.keys(), self.blocks.values());
            assert(ids.take(0) =~= Seq::<ContextBlockId>::empty());
            crate::ranking::ranked_is_sorted::<HitRank>(Seq::empty());
            assert(views_of(ranks@) =~= best::<HitRank>(Seq::empty(), limit as int));
        }
        while index < count
            invariant
                index <= count,
                count == self.blocks.keys().len(),
                graph == self@,
                graph.valid(),
                ids.len() == count,
                limit <= MAX_SEARCH_RESULTS,
                query@ == lowered(request.query@),
                forall|i: int| 0 <= i < count ==> (#[trigger] self.blocks.keys()[i]) == ids[i],
                ranks@.len() <= index,
                views_of(ranks@) == best::<HitRank>(
                    hits_among(graph, principal, *request, ids.take(index as int)),
                    limit as int,
                ),
            decreases count - index,
        {
            let block = self.blocks.value_at(index);
            assert(self.blocks.keys()[index as int] == ids[index as int]);
            let ghost now = ids.take(index + 1);
            let ghost before = hits_among(graph, principal, *request, ids.take(index as int));
            proof {
                assert(now.drop_last() =~= ids.take(index as int));
                assert(now.last() == ids[index as int]);
            }
            let lifecycle_visible = match block.lifecycle {
                ContextLifecycle::Active => true,
                ContextLifecycle::Stale => request.include_stale,
                ContextLifecycle::Archived => request.include_archived,
                ContextLifecycle::Superseded | ContextLifecycle::Invalidated => false,
            };
            if lifecycle_visible && matches_any(
                &request.namespace_patterns,
                block.namespace.as_str(),
            ) && can_view(principal, block) && request.trust_policy.allows(block.trust) {
                let matched_namespace = contains_text(
                    to_lower_case(block.namespace.as_str()).as_str(),
                    query.as_str(),
                );
                let matched_content = self.content_has(block, request.query.as_str(), &query);
                if matched_namespace || matched_content {
                    let hit = HitRank {
                        importance: block.importance,
                        reference: block.reference(),
                        matched_namespace,
                        matched_content,
                    };
                    keep_best(&mut ranks, hit, limit, Ghost(before));
                }
            }
            proof {
                crate::ranking::ranked_is_sorted::<HitRank>(
                    hits_among(graph, principal, *request, now),
                );
                assert forall|i: int| 0 <= i < now.len() implies graph.blocks.contains_key(
                    #[trigger] now[i],
                ) by {
                    assert(self.blocks.keys()[i] == ids[i]);
                    table_is_listed(self.blocks.keys(), self.blocks.values());
                    assert(now[i] == ids[i]);
                }
                hits_are_of_blocks(graph, principal, *request, now);
                assert(ranks@.len() == views_of(ranks@).len());
            }
            index += 1;
        }
        assert(ids.take(count as int) =~= ids);
        let mut hits: Vec<ContextSearchHit> = Vec::new();
        let mut place: usize = 0;
        let ghost chosen = best::<HitRank>(
            hits_among(graph, principal, *request, ids),
            limit as int,
        );
        let ghost expected = Seq::new(chosen.len(), |i: int| hit_of(graph.blocks, chosen[i]));
        proof {
            table_is_listed(self.blocks.keys(), self.blocks.values());
            best_hits_are_of_blocks(graph, principal, *request, ids, limit as int);
            assert(ranks@.len() == views_of(ranks@).len());
            assert(views_of(hits@) =~= expected.take(0));
        }
        while place < ranks.len()
            invariant
                place <= ranks@.len(),
                graph == self@,
                expected == Seq::new(chosen.len(), |i: int| hit_of(graph.blocks, chosen[i])),
                views_of(ranks@) == chosen,
                ranks@.len() == expected.len(),
                forall|i: int|
                    0 <= i < chosen.len() ==> graph.blocks.contains_key(
                        (#[trigger] chosen[i]).reference.block_id,
                    ),
                views_of(hits@) == expected.take(place as int),
            decreases ranks.len() - place,
        {
            let rank = ranks[place];
            assert(views_of(ranks@)[place as int] == ranks@[place as int]);
            assert(graph.blocks.contains_key(chosen[place as int].reference.block_id));
            if let Some(block) = self.blocks.get(&rank.reference.block_id) {
                let ghost before = hits@;
                hits.push(
                    ContextSearchHit {
                        summary: summarize(block),
                        matched_namespace: rank.matched_namespace,
                        matched_content: rank.matched_content,
                    },
                );
                proof {
                    assert(views_of(hits@) =~= views_of(before).push(
                        hit_of(graph.blocks, rank),
                    ));
                    assert(views_of(hits@) =~= expected.take(place + 1));
                }
            }
            place += 1;
        }
        assert(expected.take(expected.len() as int) =~= expected);
        Ok(hits)
    }
}

// ---------------------------------------------------------------------------
// Dependency reports.

#[derive(Clone, Debug, PartialEq, Eq)]
pub struct ContextDependencyReport {
    pub reference: ContextRef,
    pub dependencies: Vec<ContextRef>,
    pub sources: Vec<ContextRef>,
    pub dependents: Vec<ContextRef>,
    pub dependents_truncated: bool,
}

/// Those of the listed blocks that name `reference` as a dependency or a
/// source.
pub open spec fn users_among(
    blocks: Map<ContextBlockId, ContextBlockView>,
    ids: Seq<ContextBlockId>,
    reference: ContextRef,
) -> Seq<ContextRef>
    decreases ids.len(),
{
    if ids.len() == 0 {
        seq![]
    } else {
        let before = users_among(blocks, ids.drop_last(), reference);
        let block = blocks[ids.last()];
        if block.dependencies.contains(reference) || block.sources.contains(reference) {
            before.push(block.reference())
        } else {
            before
        }
    }
}

/// The blocks that name `reference`, in reference order.
pub open spec fn users_of(
    blocks: Map<ContextBlockId, ContextBlockView>,
    reference: ContextRef,
) -> Seq<ContextRef> {
    users_among(blocks, listing::<ContextBlockId, ContextBlockView>(blocks), reference)
}

/// At most the first `limit`.
pub open spec fn at_most<T>(list: Seq<T>, limit: int) -> Seq<T> {
    if list.len() <= limit {
        list
    } else {
        list.take(limit)
    }
}

impl ContextGraph {
    /// What a block rests on directly, and what rests on it.
    pub fn dependency_report(&self, reference: ContextRef, max_dependents: usize) -> (result: Result<
        ContextDependencyReport,
        ContextError,
    >)
        ensures
            match result {
                Ok(report) => {
                    let block = self@.blocks[reference.block_id];
                    let users = users_of(self@.blocks, reference);
                    &&& self@.knows(reference)
                    &&& report.reference == reference
                    &&& report.dependencies@ == block.dependencies
                    &&& report.sources@ == block.sources
                    &&& report.dependents@ == at_most(users, max_dependents as int)
                    &&& report.dependents_truncated == (users.len() > max_dependents)
                },
                Err(error) => !self@.knows(reference) && error@ == ContextErrorView::UnknownBlock(
                    reference,
                ),
            },
    {
        let block = self.block(reference)?;
        let mut dependents: Vec<ContextRef> = Vec::new();
        let mut dependents_truncated = false;
        let count: usize = self.blocks.len();
        let mut index: usize = 0;
        let ghost blocks = self@.blocks;
        let ghost ids = listing::<ContextBlockId, ContextBlockView>(blocks);
        proof {
            table_is_listed(self.blocks.keys(), self.blocks.values());
            assert(ids.take(0) =~= Seq::<ContextBlockId>::empty());
        }
        while index < count
            invariant
                index <= count,
                count == self.blocks.keys().len(),
                blocks == self.blocks@,
                ids.len() == count,
                forall|i: int| 0 <= i < count ==> (#[trigger] self.blocks.keys()[i]) == ids[i],
                dependents@ == at_most(
                    users_among(blocks, ids.take(index as int), reference),
                    max_dependents as int,
                ),
                dependents_truncated == (users_among(
                    blocks,
                    ids.take(index as int),
                    reference,
                ).len() > max_dependents),
            decreases count - index,
        {
            let candidate = self.blocks.value_at(index);
            assert(self.blocks.keys()[index as int] == ids[index as int]);
            let ghost users = users_among(blocks, ids.take(index as int), reference);
            proof {
                let now = ids.take(index + 1);
                assert(now.drop_last() =~= ids.take(index as int));
                assert(now.last() == ids[index as int]);
            }
            if contains_ref(&candidate.dependencies, reference) || contains_ref(
                &candidate.sources,
                reference,
            ) {
                let ghost longer = users.push(candidate@.reference());
                if dependents.len() < max_dependents {
                    dependents.push(candidate.reference());
                } else {
                    dependents_truncated = true;
                }
                assert(dependents@ =~= at_most(longer, max_dependents as int));
            }
            index += 1;
        }
        assert(ids.take(count as int) =~= ids);
        Ok(
            ContextDependencyReport {
                reference,
                dependencies: clone_refs(&block.dependencies),
                sources: clone_refs(&block.sources),
                dependents,
                dependents_truncated,
            },
        )
    }
}

// ---------------------------------------------------------------------------
// Projections.

#[derive(Clone, Debug, PartialEq, Eq)]
pub struct ProjectionRequest {
    pub namespace_patterns: Vec<String>,
    pub include_stale: bool,
    pub max_blocks: Option<usize>,
    pub max_tokens: Option<u64>,
    pub trust_policy: ContextTrustPolicy,
}

impl ProjectionRequest {
    /// Everything that is active.
    pub fn all() -> (request: ProjectionRequest)
        ensures
            texts(request.namespace_patterns@) == seq!["*"@],
            !request.include_stale,
            request.max_blocks is None,
            request.max_tokens is None,
            request.trust_policy == ContextTrustPolicy::AllowAll,
    {
        ProjectionRequest {
            namespace_patterns: any_namespace(),
            include_stale: false,
            max_blocks: None,
            max_tokens: None,
            trust_policy: ContextTrustPolicy::AllowAll,
        }
    }
}

#[derive(Clone, Debug, PartialEq, Eq)]
pub struct ProjectedContextBlock {
    pub block: ContextBlock,
}

impl View for ProjectedContextBlock {
    type V = ContextBlockView;

    open spec fn view(&self) -> ContextBlockView {
        self.block@
    }
}

#[derive(Clone, Debug, PartialEq, Eq)]
pub struct ContextProjection {
    pub blocks: Vec<ProjectedContextBlock>,
    pub estimated_tokens: u64,
    pub truncated: bool,
}

pub struct ContextProjectionView {
    pub blocks: Seq<ContextBlockView>,
    pub estimated_tokens: nat,
    pub truncated: bool,
}

impl View for ContextProjection {
    type V = ContextProjectionView;

    open spec fn view(&self) -> ContextProjectionView {
        ContextProjectionView {
            blocks: views_of(self.blocks@),
            estimated_tokens: self.estimated_tokens as nat,
            truncated: self.truncated,
        }
    }
}

/// The request admits the newest version of a namespace.
pub open spec fn projectable(
    principal: ContextPrincipal,
    request: ProjectionRequest,
    block: ContextBlockView,
) -> bool {
    &&& visible_to(principal, block.scope)
    &&& block.lifecycle == ContextLifecycle::Active || (request.include_stale && block.lifecycle
        == ContextLifecycle::Stale)
    &&& request.trust_policy.admits(block.trust)
}

/// There is room for one more block.
pub open spec fn has_room(
    request: ProjectionRequest,
    projection: ContextProjectionView,
    tokens: u64,
) -> bool {
    &&& request.max_blocks matches Some(limit) ==> projection.blocks.len() < limit
    &&& request.max_tokens matches Some(limit) ==> saturated(
        projection.estimated_tokens + tokens as nat,
    )
        <= limit
}

/// A projection with the newest version of one more namespace, if it is
/// wanted and there is room.
pub open spec fn projected_one(
    graph: ContextGraphView,
    principal: ContextPrincipal,
    request: ProjectionRequest,
    before: ContextProjectionView,
    namespace: Seq<char>,
) -> ContextProjectionView {
    let versions = graph.namespaces[namespace];
    let block = graph.blocks[versions.last().block_id];
    if !any_matches(texts(request.namespace_patterns@), namespace) || versions.len() == 0
        || !projectable(principal, request, block) {
        before
    } else if !has_room(request, before, block.token_estimate) {
        ContextProjectionView { truncated: true, ..before }
    } else {
        ContextProjectionView {
            blocks: before.blocks.push(block),
            estimated_tokens: saturated(before.estimated_tokens + block.token_estimate as nat),
            truncated: before.truncated,
        }
    }
}

/// The projection of the listed namespaces, in order.
pub open spec fn projected_among(
    graph: ContextGraphView,
    principal: ContextPrincipal,
    request: ProjectionRequest,
    names: Seq<Seq<char>>,
) -> ContextProjectionView
    decreases names.len(),
{
    if names.len() == 0 {
        ContextProjectionView { blocks: seq![], estimated_tokens: 0, truncated: false }
    } else {
        projected_one(
            graph,
            principal,
            request,
            projected_among(graph, principal, request, names.drop_last()),
            names.last(),
        )
    }
}

pub open spec fn projected(
    graph: ContextGraphView,
    principal: ContextPrincipal,
    request: ProjectionRequest,
) -> ContextProjectionView {
    projected_among(
        graph,
        principal,
        request,
        listing::<String, Seq<ContextRef>>(graph.namespaces),
    )
}

impl ContextGraph {
    /// The newest version of each namespace that the request asks for and the
    /// principal may see, within the request's limits.
    pub fn project(&self, principal: ContextPrincipal, request: &ProjectionRequest) -> (projection:
        ContextProjection)
        requires
            self@.valid(),
        ensures
            projection@ == projected(self@, principal, *request),
    {
        let mut blocks: Vec<ProjectedContextBlock> = Vec::new();
        let mut estimated_tokens: u64 = 0;
        let mut truncated = false;
        let count: usize = self.namespaces.len();
        let mut index: usize = 0;
        let ghost graph = self@;
        let ghost names = listing::<String, Seq<ContextRef>>(graph.namespaces);
        proof {
            table_is_listed(self.namespaces.keys(), self.namespaces.values());
            assert(names.take(0) =~= Seq::<Seq<char>>::empty());
            assert(views_of(blocks@) =~= Seq::<ContextBlockView>::empty());
        }
        while index < count
            invariant
                index <= count,
                count == self.namespaces.keys().len(),
                graph == self@,
                graph.valid(),
                names.len() == count,
                forall|i: int|
                    0 <= i < count ==> (#[trigger] self.namespaces.keys()[i])@ == names[i],
                (ContextProjectionView {
                    blocks: views_of(blocks@),
                    estimated_tokens: estimated_tokens as nat,
                    truncated,
                }) == projected_among(graph, principal, *request, names.take(index as int)),
            decreases count - index,
        {
            let namespace = self.namespaces.key_at(index);
            let versions = self.namespaces.value_at(index);
            assert(self.namespaces.keys()[index as int]@ == names[index as int]);
            proof {
                let now = names.take(index + 1);
                assert(now.drop_last() =~= names.take(index as int));
                assert(now.last() == names[index as int]);
            }
            if versions.len() > 0 && matches_any(
                &request.namespace_patterns,
                namespace.as_str(),
            ) {
                let reference = versions[versions.len() - 1];
                assert(graph.blocks.contains_key(
                    graph.namespaces[namespace@][versions@.len() - 1].block_id,
                ));
                if let Some(block) = self.blocks.get(&reference.block_id) {
                    let wanted = match block.lifecycle {
                        ContextLifecycle::Active => true,
                        ContextLifecycle::Stale => request.include_stale,
                        _ => false,
                    };
                    if wanted && can_view(principal, block) && request.trust_policy.allows(
                        block.trust,
                    ) {
                        let total: u64 = add_saturating(estimated_tokens, block.token_estimate);
                        let too_many = match request.max_blocks {
                            Some(limit) => blocks.len() >= limit,
                            None => false,
                        };
                        let too_large = match request.max_tokens {
                            Some(limit) => total > limit,
                            None => false,
                        };
                        if too_many || too_large {
                            truncated = true;
                        } else {
                            let ghost before = blocks@;
                            estimated_tokens = total;
                            blocks.push(ProjectedContextBlock { block: block.clone() });
                            assert(views_of(blocks@) =~= views_of(before).push(block@));
                        }
                    }
                }
            }
            index += 1;
        }
        assert(names.take(count as int) =~= names);
        ContextProjection { blocks, estimated_tokens, truncated }
    }
}

proof fn projected_among_is_within(
    graph: ContextGraphView,
    principal: ContextPrincipal,
    request: ProjectionRequest,
    names: Seq<Seq<char>>,
)
    ensures
        ({
            let projection = projected_among(graph, principal, request, names);
            &&& request.max_blocks matches Some(limit) ==> projection.blocks.len() <= limit
            &&& request.max_tokens matches Some(limit) ==> projection.estimated_tokens <= limit
            &&& forall|i: int|
                0 <= i < projection.blocks.len() ==> projectable(
                    principal,
                    request,
                    #[trigger] projection.blocks[i],
                )
        }),
    decreases names.len(),
{
    if names.len() > 0 {
        projected_among_is_within(graph, principal, request, names.drop_last());
        let before = projected_among(graph, principal, request, names.drop_last());
        let now = projected_among(graph, principal, request, names);
        assert forall|i: int| 0 <= i < now.blocks.len() implies projectable(
            principal,
            request,
            #[trigger] now.blocks[i],
        ) by {
            if i < before.blocks.len() {
                assert(now.blocks[i] == before.blocks[i]);
            }
        }
    }
}

/// A projection stays within the request's limits and shows only what the
/// principal may see and the policy trusts.
pub proof fn projections_are_within_limits(
    graph: ContextGraphView,
    principal: ContextPrincipal,
    request: ProjectionRequest,
)
    ensures
        ({
            let projection = projected(graph, principal, request);
            &&& request.max_blocks matches Some(limit) ==> projection.blocks.len() <= limit
            &&& request.max_tokens matches Some(limit) ==> projection.estimated_tokens <= limit
            &&& forall|i: int|
                0 <= i < projection.blocks.len() ==> projectable(
                    principal,
                    request,
                    #[trigger] projection.blocks[i],
                )
        }),
{
    projected_among_is_within(
        graph,
        principal,
        request,
        listing::<String, Seq<ContextRef>>(graph.namespaces),
    );
}

// ---------------------------------------------------------------------------
// Prompts.

#[derive(Clone, Debug, PartialEq, Eq)]
pub struct PromptLayer {
    pub name: String,
    pub references: Vec<ContextRef>,
    pub stable: bool,
}

pub struct PromptLayerView {
    pub name: Seq<char>,
    pub references: Seq<ContextRef>,
    pub stable: bool,
}

impl View for PromptLayer {
    type V = PromptLayerView;

    open spec fn view(&self) -> PromptLayerView {
        PromptLayerView {
            name: self.name@,
            references: self.references@,
            stable: self.stable,
        }
    }
}

impl PromptLayer {
    pub fn stable(name: &str, references: Vec<ContextRef>) -> (layer: PromptLayer)
        ensures
            layer@ == (PromptLayerView { name: name@, references: references@, stable: true }),
    {
        PromptLayer { name: name.to_owned(), references, stable: true }
    }

    pub fn volatile(name: &str, references: Vec<ContextRef>) -> (layer: PromptLayer)
        ensures
            layer@ == (PromptLayerView { name: name@, references: references@, stable: false }),
    {
        PromptLayer { name: name.to_owned(), references, stable: false }
    }
}

#[derive(Clone, Debug, PartialEq, Eq)]
pub struct RenderedPrompt {
    pub text: String,
    pub stable_prefix_hash: ContentHash,
    pub stable_prefix_bytes: usize,
    pub estimated_tokens: u64,
}

pub struct RenderedPromptView {
    pub text: Seq<char>,
    pub stable_prefix_hash: Seq<u8>,
    pub stable_prefix_bytes: nat,
    pub estimated_tokens: nat,
}

impl View for RenderedPrompt {
    type V = RenderedPromptView;

    open spec fn view(&self) -> RenderedPromptView {
        RenderedPromptView {
            text: self.text@,
            stable_prefix_hash: self.stable_prefix_hash@,
            stable_prefix_bytes: self.stable_prefix_bytes as nat,
            estimated_tokens: self.estimated_tokens as nat,
        }
    }
}

/// The content that a reference stands for in a prompt, or why it may not
/// stand there.
pub open spec fn quoted(
    graph: ContextGraphView,
    principal: ContextPrincipal,
    policy: ContextTrustPolicy,
    reference: ContextRef,
) -> Result<Seq<char>, ContextErrorView> {
    let block = graph.blocks[reference.block_id];
    if !graph.knows(reference) {
        Err(ContextErrorView::UnknownBlock(reference))
    } else if !visible_to(principal, block.scope) {
        Err(ContextErrorView::NotVisible(reference))
    } else if !policy.admits(block.trust) {
        Err(ContextErrorView::NotTrusted(reference))
    } else if !graph.content.contains_key(block.content_hash) {
        Err(ContextErrorView::UnknownContent(block.content_hash))
    } else {
        Ok(lossy_text(graph.content[block.content_hash]))
    }
}

/// A heading and, line by line, what the references stand for.
pub open spec fn layer_text(
    graph: ContextGraphView,
    principal: ContextPrincipal,
    policy: ContextTrustPolicy,
    name: Seq<char>,
    references: Seq<ContextRef>,
) -> Result<Seq<char>, ContextErrorView>
    decreases references.len(),
{
    if references.len() == 0 {
        Ok("["@ + name + "]\n"@)
    } else {
        match layer_text(graph, principal, policy, name, references.drop_last()) {
            Err(error) => Err(error),
            Ok(before) => match quoted(graph, principal, policy, references.last()) {
                Err(error) => Err(error),
                Ok(text) => Ok(before + text + "\n"@),
            },
        }
    }
}

/// The text of the layers, and the bytes of those that stand before the first
/// volatile one.
pub struct LayersText {
    pub text: Seq<char>,
    pub stable_prefix: Seq<u8>,
    pub stable: bool,
}

pub open spec fn layers_text(
    graph: ContextGraphView,
    principal: ContextPrincipal,
    policy: ContextTrustPolicy,
    layers: Seq<PromptLayerView>,
) -> Result<LayersText, ContextErrorView>
    decreases layers.len(),
{
    if layers.len() == 0 {
        Ok(LayersText { text: seq![], stable_prefix: seq![], stable: true })
    } else {
        let layer = layers.last();
        match layers_text(graph, principal, policy, layers.drop_last()) {
            Err(error) => Err(error),
            Ok(before) => match layer_text(
                graph,
                principal,
                policy,
                layer.name,
                layer.references,
            ) {
                Err(error) => Err(error),
                Ok(text) => {
                    let stable = before.stable && layer.stable;
                    Ok(
                        LayersText {
                            text: before.text + text,
                            stable_prefix: if stable {
                                before.stable_prefix + encode_utf8(text)
                            } else {
                                before.stable_prefix
                            },
                            stable,
                        },
                    )
                },
            },
        }
    }
}

/// The prompt for a task.
pub open spec fn rendered(
    graph: ContextGraphView,
    principal: ContextPrincipal,
    layers: Seq<PromptLayerView>,
    task: Seq<char>,
    policy: ContextTrustPolicy,
) -> Result<RenderedPromptView, ContextErrorView> {
    match layers_text(graph, principal, policy, layers) {
        Err(error) => Err(error),
        Ok(layers) => {
            let text = layers.text + "[task]\n"@ + task + "\n"@;
            Ok(
                RenderedPromptView {
                    text,
                    stable_prefix_hash: context_digest(layers.stable_prefix),
                    stable_prefix_bytes: layers.stable_prefix.len(),
                    estimated_tokens: tokens_in(encode_utf8(text).len()),
                },
            )
        },
    }
}

proof fn refused_reference_stays(
    graph: ContextGraphView,
    principal: ContextPrincipal,
    policy: ContextTrustPolicy,
    name: Seq<char>,
    references: Seq<ContextRef>,
    count: int,
)
    requires
        0 <= count <= references.len(),
        layer_text(graph, principal, policy, name, references.take(count)) is Err,
    ensures
        layer_text(graph, principal, policy, name, references) == layer_text(
            graph,
            principal,
            policy,
            name,
            references.take(count),
        ),
    decreases references.len(),
{
    if count < references.len() {
        assert(references.drop_last().take(count) =~= references.take(count));
        refused_reference_stays(graph, principal, policy, name, references.drop_last(), count);
    } else {
        assert(references.take(count) =~= references);
    }
}

proof fn refused_layer_stays(
    graph: ContextGraphView,
    principal: ContextPrincipal,
    policy: ContextTrustPolicy,
    layers: Seq<PromptLayerView>,
    count: int,
)
    requires
        0 <= count <= layers.len(),
        layers_text(graph, principal, policy, layers.take(count)) is Err,
    ensures
        layers_text(graph, principal, policy, layers) == layers_text(
            graph,
            principal,
            policy,
            layers.take(count),
        ),
    decreases layers.len(),
{
    if count < layers.len() {
        assert(layers.drop_last().take(count) =~= layers.take(count));
        refused_layer_stays(graph, principal, policy, layers.drop_last(), count);
    } else {
        assert(layers.take(count) =~= layers);
    }
}

impl ContextGraph {
    fn quote(
        &self,
        principal: ContextPrincipal,
        policy: ContextTrustPolicy,
        reference: ContextRef,
    ) -> (result: Result<String, ContextError>)
        ensures
            outcome(result) == quoted(self@, principal, policy, reference),
    {
        let block = self.block(reference)?;
        if !can_view(principal, block) {
            return Err(ContextError::NotVisible(reference));
        }
        if !policy.allows(block.trust) {
            return Err(ContextError::NotTrusted(reference));
        }
        let content = self.content(block.content_hash)?;
        Ok(text_lossy(content))
    }

    fn render_layer(
        &self,
        principal: ContextPrincipal,
        policy: ContextTrustPolicy,
        layer: &PromptLayer,
    ) -> (result: Result<String, ContextError>)
        ensures
            outcome(result) == layer_text(
                self@,
                principal,
                policy,
                layer@.name,
                layer@.references,
            ),
    {
        let mut text = "[".to_owned();
        text.append(layer.name.as_str());
        text.append("]\n");
        let mut index: usize = 0;
        let ghost references = layer@.references;
        assert(references.take(0) =~= Seq::<ContextRef>::empty());
        while index < layer.references.len()
            invariant
                index <= references.len(),
                references == layer@.references,
                layer_text(
                    self@,
                    principal,
                    policy,
                    layer@.name,
                    references.take(index as int),
                ) == Ok::<Seq<char>, ContextErrorView>(text@),
            decreases layer.references.len() - index,
        {
            proof {
                let now = references.take(index + 1);
                assert(now.drop_last() =~= references.take(index as int));
                assert(now.last() == references[index as int]);
                if layer_text(self@, principal, policy, layer@.name, now) is Err {
                    refused_reference_stays(
                        self@,
                        principal,
                        policy,
                        layer@.name,
                        references,
                        index + 1,
                    );
                }
            }
            let quote = self.quote(principal, policy, layer.references[index])?;
            text.append(quote.as_str());
            text.append("\n");
            index += 1;
        }
        assert(references.take(references.len() as int) =~= references);
        Ok(text)
    }

    pub fn render_prompt(
        &self,
        principal: ContextPrincipal,
        layers: &[PromptLayer],
        task: &str,
    ) -> (result: Result<RenderedPrompt, ContextError>)
        ensures
            outcome(result) == rendered(
                self@,
                principal,
                views_of(layers@),
                task@,
                ContextTrustPolicy::AllowAll,
            ),
    {
        self.render_prompt_with_trust_policy(
            principal,
            layers,
            task,
            ContextTrustPolicy::AllowAll,
        )
    }

    /// The layers in order, then the task. Refused where a layer names what
    /// the principal may not see or the policy does not trust.
    pub fn render_prompt_with_trust_policy(
        &self,
        principal: ContextPrincipal,
        layers: &[PromptLayer],
        task: &str,
        trust_policy: ContextTrustPolicy,
    ) -> (result: Result<RenderedPrompt, ContextError>)
        ensures
            outcome(result) == rendered(
                self@,
                principal,
                views_of(layers@),
                task@,
                trust_policy,
            ),
    {
        let mut text = String::new();
        let mut stable_prefix: Vec<u8> = Vec::new();
        let mut stable = true;
        let mut index: usize = 0;
        let ghost views = views_of(layers@);
        proof {
            assert(views.take(0) =~= Seq::<PromptLayerView>::empty());
            assert(text@ =~= Seq::<char>::empty());
            assert(stable_prefix@ =~= Seq::<u8>::empty());
        }
        while index < layers.len()
            invariant
                index <= layers@.len(),
                views == views_of(layers@),
                layers_text(self@, principal, trust_policy, views.take(index as int)) == Ok::<
                    LayersText,
                    ContextErrorView,
                >(LayersText { text: text@, stable_prefix: stable_prefix@, stable }),
            decreases layers.len() - index,
        {
            proof {
                let now = views.take(index + 1);
                assert(now.drop_last() =~= views.take(index as int));
                assert(now.last() == layers@[index as int]@);
                if layers_text(self@, principal, trust_policy, now) is Err {
                    refused_layer_stays(self@, principal, trust_policy, views, index + 1);
                }
            }
            let layer = &layers[index];
            let rendered = self.render_layer(principal, trust_policy, layer)?;
            text.append(rendered.as_str());
            if stable && layer.stable {
                put_bytes(&mut stable_prefix, rendered.as_str().as_bytes());
            } else {
                stable = false;
            }
            index += 1;
        }
        assert(views.take(views.len() as int) =~= views);
        text.append("[task]\n");
        text.append(task);
        text.append("\n");
        let stable_prefix_hash = DeterministicContentHasher.hash(stable_prefix.as_slice());
        let estimated_tokens: u64 = estimate_tokens(text.as_str().as_bytes());
        Ok(
            RenderedPrompt {
                text,
                stable_prefix_hash,
                stable_prefix_bytes: stable_prefix.len(),
                estimated_tokens,
            },
        )
    }
}

proof fn later_layers_keep_the_prefix(
    graph: ContextGraphView,
    principal: ContextPrincipal,
    policy: ContextTrustPolicy,
    layers: Seq<PromptLayerView>,
    more: Seq<PromptLayerView>,
)
    requires
        more.len() > 0,
        !more[0].stable,
        layers_text(graph, principal, policy, layers + more) is Ok,
    ensures
        layers_text(graph, principal, policy, layers) is Ok,
        !layers_text(graph, principal, policy, layers + more)->Ok_0.stable,
        layers_text(graph, principal, policy, layers + more)->Ok_0.stable_prefix == layers_text(
            graph,
            principal,
            policy,
            layers,
        )->Ok_0.stable_prefix,
    decreases more.len(),
{
    let all = layers + more;
    assert(all.last() == more.last());
    assert(all.drop_last() =~= layers + more.drop_last());
    if more.len() == 1 {
        assert(all.drop_last() =~= layers);
    } else {
        later_layers_keep_the_prefix(graph, principal, policy, layers, more.drop_last());
    }
}

proof fn encodings_join(first: Seq<char>, second: Seq<char>)
    ensures
        encode_utf8(first + second) == encode_utf8(first) + encode_utf8(second),
    decreases first.len(),
{
    if first.len() == 0 {
        assert(first + second =~= second);
        assert(encode_utf8(first) + encode_utf8(second) =~= encode_utf8(second));
    } else {
        encodings_join(first.drop_first(), second);
        assert((first + second).drop_first() =~= first.drop_first() + second);
        assert(encode_utf8(first + second) =~= encode_utf8(first) + encode_utf8(second));
    }
}

/// The layers' text begins with their stable prefix, and is no more than it
/// while no layer is volatile.
spec fn begins_stably(layers: LayersText) -> bool {
    let bytes = encode_utf8(layers.text);
    &&& layers.stable_prefix.len() <= bytes.len()
    &&& bytes.take(layers.stable_prefix.len() as int) == layers.stable_prefix
    &&& layers.stable ==> bytes == layers.stable_prefix
}

proof fn layers_begin_stably(
    graph: ContextGraphView,
    principal: ContextPrincipal,
    policy: ContextTrustPolicy,
    layers: Seq<PromptLayerView>,
)
    requires
        layers_text(graph, principal, policy, layers) is Ok,
    ensures
        begins_stably(layers_text(graph, principal, policy, layers)->Ok_0),
    decreases layers.len(),
{
    let now = layers_text(graph, principal, policy, layers)->Ok_0;
    let bytes = encode_utf8(now.text);
    if layers.len() > 0 {
        let before = layers_text(graph, principal, policy, layers.drop_last())->Ok_0;
        let layer = layers.last();
        let text = layer_text(graph, principal, policy, layer.name, layer.references)->Ok_0;
        layers_begin_stably(graph, principal, policy, layers.drop_last());
        encodings_join(before.text, text);
    }
    assert(bytes.take(now.stable_prefix.len() as int) =~= now.stable_prefix);
}

/// The hash of a prompt's stable prefix is the digest of the first
/// `stable_prefix_bytes` bytes of its text.
pub proof fn stable_prefixes_begin_the_text(
    graph: ContextGraphView,
    principal: ContextPrincipal,
    policy: ContextTrustPolicy,
    layers: Seq<PromptLayerView>,
    task: Seq<char>,
)
    requires
        rendered(graph, principal, layers, task, policy) is Ok,
    ensures
        ({
            let prompt = rendered(graph, principal, layers, task, policy)->Ok_0;
            let bytes = encode_utf8(prompt.text);
            &&& prompt.stable_prefix_bytes <= bytes.len()
            &&& prompt.stable_prefix_hash == context_digest(
                bytes.take(prompt.stable_prefix_bytes as int),
            )
        }),
{
    let shown = layers_text(graph, principal, policy, layers)->Ok_0;
    let prompt = rendered(graph, principal, layers, task, policy)->Ok_0;
    let rest = "[task]\n"@ + task + "\n"@;
    layers_begin_stably(graph, principal, policy, layers);
    encodings_join(shown.text, rest);
    assert(prompt.text =~= shown.text + rest);
    assert(encode_utf8(prompt.text).take(shown.stable_prefix.len() as int)
        =~= shown.stable_prefix);
}

/// The stable prefix of a prompt does not depend on the task, nor on any
/// layer from the first volatile one on.
pub proof fn stable_prefixes_ignore_what_follows(
    graph: ContextGraphView,
    principal: ContextPrincipal,
    policy: ContextTrustPolicy,
    layers: Seq<PromptLayerView>,
    more: Seq<PromptLayerView>,
    task: Seq<char>,
    other_task: Seq<char>,
)
    requires
        more.len() == 0 || !more[0].stable,
        rendered(graph, principal, layers + more, task, policy) is Ok,
    ensures
        rendered(graph, principal, layers, other_task, policy) is Ok,
        rendered(graph, principal, layers, other_task, policy)->Ok_0.stable_prefix_hash == rendered(
            graph,
            principal,
            layers + more,
            task,
            policy,
        )->Ok_0.stable_prefix_hash,
        rendered(graph, principal, layers, other_task, policy)->Ok_0.stable_prefix_bytes
            == rendered(
            graph,
            principal,
            layers + more,
            task,
            policy,
        )->Ok_0.stable_prefix_bytes,
{
    if more.len() == 0 {
        assert(layers + more =~= layers);
    } else {
        later_layers_keep_the_prefix(graph, principal, policy, layers, more);
    }
}

/// A prompt is refused for a reference to another agent's private block.
pub proof fn prompts_do_not_show_private_blocks(
    graph: ContextGraphView,
    principal: ContextPrincipal,
    policy: ContextTrustPolicy,
    layers: Seq<PromptLayerView>,
    task: Seq<char>,
    i: int,
    k: int,
)
    requires
        rendered(graph, principal, layers, task, policy) is Ok,
        0 <= i < layers.len(),
        0 <= k < layers[i].references.len(),
    ensures
        graph.knows(layers[i].references[k]),
        visible_to(principal, graph.blocks[layers[i].references[k].block_id].scope),
        policy.admits(graph.blocks[layers[i].references[k].block_id].trust),
    decreases layers.len(),
{
    if i == layers.len() - 1 {
        quoted_references_are_visible(
            graph,
            principal,
            policy,
            layers[i].name,
            layers[i].references,
            k,
        );
    } else {
        assert(layers.drop_last()[i] == layers[i]);
        prompts_do_not_show_private_blocks(
            graph,
            principal,
            policy,
            layers.drop_last(),
            task,
            i,
            k,
        );
    }
}

proof fn quoted_references_are_visible(
    graph: ContextGraphView,
    principal: ContextPrincipal,
    policy: ContextTrustPolicy,
    name: Seq<char>,
    references: Seq<ContextRef>,
    k: int,
)
    requires
        layer_text(graph, principal, policy, name, references) is Ok,
        0 <= k < references.len(),
    ensures
        quoted(graph, principal, policy, references[k]) is Ok,
    decreases references.len(),
{
    if k < references.len() - 1 {
        assert(references.drop_last()[k] == references[k]);
        quoted_references_are_visible(graph, principal, policy, name, references.drop_last(), k);
    }
}

} // verus!
