//! What a search of the context graph finds.

use vstd::prelude::*;
use vstd::utf8::encode_utf8;

use crate::context::{ContextBlockId, ContextBlockView, ContextLifecycle, ContextPrincipal};
use crate::context_graph::{finite_maps_are_listed, visible_to, ContextGraphView};
use crate::context_views::{
    any_matches, content_mentions, hits_among, mentions, search_limit, searchable, searched,
    ContextSearchHitView, ContextSearchRequest, HitRank,
};
use crate::ranking::{best, ranked, ranked_is_sorted, Ranked};
use crate::table::{listing, Key};
use crate::text::{ascii, blank, found_in, lossy_text, lower_letter, lowered, stands_at, texts};

verus! {

/// The text holds the query, if case does not count.
pub open spec fn says(text: Seq<char>, query: Seq<char>) -> bool {
    found_in(lowered(text), lowered(query))
}

/// The block's content holds the query, if case does not count.
pub open spec fn content_says(
    graph: ContextGraphView,
    block: ContextBlockView,
    query: Seq<char>,
) -> bool {
    graph.content.contains_key(block.content_hash) && says(
        lossy_text(graph.content[block.content_hash]),
        query,
    )
}

/// The request reaches the block, whatever it asks for.
pub open spec fn reachable(
    graph: ContextGraphView,
    principal: ContextPrincipal,
    request: ContextSearchRequest,
    id: ContextBlockId,
) -> bool {
    let block = graph.blocks[id];
    &&& graph.blocks.contains_key(id)
    &&& any_matches(texts(request.namespace_patterns@), block.namespace)
    &&& visible_to(principal, block.scope)
    &&& request.trust_policy.admits(block.trust)
    &&& block.lifecycle != ContextLifecycle::Superseded
    &&& block.lifecycle != ContextLifecycle::Invalidated
    &&& block.lifecycle == ContextLifecycle::Stale ==> request.include_stale
    &&& block.lifecycle == ContextLifecycle::Archived ==> request.include_archived
}

/// The search should find the block: it is reachable, and its namespace or
/// its content holds the query.
pub open spec fn sought(
    graph: ContextGraphView,
    principal: ContextPrincipal,
    request: ContextSearchRequest,
    id: ContextBlockId,
) -> bool {
    &&& reachable(graph, principal, request, id)
    &&& says(graph.blocks[id].namespace, request.query@) || content_says(
        graph,
        graph.blocks[id],
        request.query@,
    )
}

/// The hit tells of the block as it is, and where the query was found.
pub open spec fn tells_of(
    graph: ContextGraphView,
    request: ContextSearchRequest,
    hit: ContextSearchHitView,
    id: ContextBlockId,
) -> bool {
    let block = graph.blocks[id];
    &&& hit.summary.reference == block.reference()
    &&& hit.summary.namespace == block.namespace
    &&& hit.summary.lifecycle == block.lifecycle
    &&& hit.summary.pinned == block.pinned
    &&& hit.summary.token_estimate == block.token_estimate
    &&& hit.summary.importance == block.importance
    &&& hit.summary.last_access_ms == block.last_access_ms
    &&& hit.matched_namespace == says(block.namespace, request.query@)
    &&& hit.matched_content == content_says(graph, block, request.query@)
}

/// The block comes before the other in a list of hits: it is more important,
/// or as important and older.
pub open spec fn listed_before(left: ContextBlockView, right: ContextBlockView) -> bool {
    left.importance > right.importance || (left.importance == right.importance && left.id.0
        < right.id.0)
}

spec fn rank_of(
    graph: ContextGraphView,
    request: ContextSearchRequest,
    id: ContextBlockId,
) -> HitRank {
    let block = graph.blocks[id];
    HitRank {
        importance: block.importance,
        reference: block.reference(),
        matched_namespace: says(block.namespace, request.query@),
        matched_content: content_says(graph, block, request.query@),
    }
}

proof fn hits_are_the_sought(
    graph: ContextGraphView,
    principal: ContextPrincipal,
    request: ContextSearchRequest,
    ids: Seq<ContextBlockId>,
)
    requires
        graph.valid(),
        forall|i: int| 0 <= i < ids.len() ==> graph.blocks.contains_key(#[trigger] ids[i]),
        forall|i: int, j: int|
            0 <= i < j < ids.len() ==> (#[trigger] ids[i]).0 < (#[trigger] ids[j]).0,
    ensures
        forall|k: int|
            0 <= k < hits_among(graph, principal, request, ids).len() ==> {
                let hit = #[trigger] hits_among(graph, principal, request, ids)[k];
                let id = hit.reference.block_id;
                ids.contains(id) && sought(graph, principal, request, id) && hit == rank_of(
                    graph,
                    request,
                    id,
                )
            },
        forall|id: ContextBlockId|
            ids.contains(id) && #[trigger] sought(graph, principal, request, id) ==> hits_among(
                graph,
                principal,
                request,
                ids,
            ).contains(rank_of(graph, request, id)),
        forall|i: int, j: int|
            0 <= i < j < hits_among(graph, principal, request, ids).len() ==> (
            #[trigger] hits_among(graph, principal, request, ids)[i]).reference.block_id.0 < (
            #[trigger] hits_among(graph, principal, request, ids)[j]).reference.block_id.0,
    decreases ids.len(),
{
    if ids.len() > 0 {
        let rest = ids.drop_last();
        let last = ids.len() - 1;
        let name = ids[last];
        assert forall|i: int| 0 <= i < rest.len() implies graph.blocks.contains_key(
            #[trigger] rest[i],
        ) by {
            assert(rest[i] == ids[i]);
        }
        assert forall|i: int, j: int| 0 <= i < j < rest.len() implies (#[trigger] rest[i]).0 < (
        #[trigger] rest[j]).0 by {
            assert(rest[i] == ids[i] && rest[j] == ids[j]);
        }
        hits_are_the_sought(graph, principal, request, rest);
        let before = hits_among(graph, principal, request, rest);
        let now = hits_among(graph, principal, request, ids);
        let block = graph.blocks[name];
        assert(graph.blocks.contains_key(name));
        assert(mentions(block.namespace, request.query@) == says(block.namespace, request.query@));
        assert(content_mentions(graph, block, request.query@) == content_says(
            graph,
            block,
            request.query@,
        ));
        assert(searchable(principal, request, block) == reachable(
            graph,
            principal,
            request,
            name,
        ));
        let found = sought(graph, principal, request, name);
        assert(now == if found {
            before.push(rank_of(graph, request, name))
        } else {
            before
        });
        assert forall|k: int| 0 <= k < now.len() implies {
            let hit = #[trigger] now[k];
            let id = hit.reference.block_id;
            ids.contains(id) && sought(graph, principal, request, id) && hit == rank_of(
                graph,
                request,
                id,
            )
        } by {
            if k < before.len() {
                let hit = before[k];
                assert(hit == now[k]);
                assert(rest.contains(hit.reference.block_id));
                let i = choose|i: int| 0 <= i < rest.len() && rest[i] == hit.reference.block_id;
                assert(ids[i] == hit.reference.block_id);
            } else {
                assert(ids[last] == name);
                assert(block.id == name);
            }
        }
        assert forall|id: ContextBlockId|
            ids.contains(id) && #[trigger] sought(
                graph,
                principal,
                request,
                id,
            ) implies now.contains(rank_of(graph, request, id)) by {
            let i = choose|i: int| 0 <= i < ids.len() && ids[i] == id;
            if i < last {
                assert(rest[i] == id);
                assert(before.contains(rank_of(graph, request, id)));
                let k = choose|k: int|
                    0 <= k < before.len() && before[k] == rank_of(graph, request, id);
                assert(now[k] == before[k]);
            } else {
                assert(now[now.len() - 1] == rank_of(graph, request, id));
            }
        }
        assert forall|i: int, j: int| 0 <= i < j < now.len() implies (
        #[trigger] now[i]).reference.block_id.0 < (#[trigger] now[j]).reference.block_id.0 by {
            assert(now[i] == before[i]);
            if j < before.len() {
                assert(now[j] == before[j]);
            } else {
                let id = before[i].reference.block_id;
                assert(rest.contains(id));
                let k = choose|k: int| 0 <= k < rest.len() && rest[k] == id;
                assert(ids[k] == id);
                assert(block.id == name);
            }
        }
    }
}

proof fn ranked_hits_are_the_sought(
    graph: ContextGraphView,
    principal: ContextPrincipal,
    request: ContextSearchRequest,
    ids: Seq<ContextBlockId>,
)
    requires
        graph.valid(),
        forall|i: int| 0 <= i < ids.len() ==> graph.blocks.contains_key(#[trigger] ids[i]),
        forall|i: int, j: int|
            0 <= i < j < ids.len() ==> (#[trigger] ids[i]).0 < (#[trigger] ids[j]).0,
    ensures
        ({
            let whole = ranked::<HitRank>(hits_among(graph, principal, request, ids));
            &&& forall|k: int|
                0 <= k < whole.len() ==> {
                    let id = (#[trigger] whole[k]).reference.block_id;
                    ids.contains(id) && sought(graph, principal, request, id) && whole[k]
                        == rank_of(graph, request, id)
                }
            &&& forall|id: ContextBlockId|
                ids.contains(id) && #[trigger] sought(graph, principal, request, id)
                    ==> whole.contains(rank_of(graph, request, id))
            &&& forall|i: int, j: int|
                0 <= i < j < whole.len() ==> listed_before(
                    graph.blocks[(#[trigger] whole[i]).reference.block_id],
                    graph.blocks[(#[trigger] whole[j]).reference.block_id],
                )
        }),
{
    let all = hits_among(graph, principal, request, ids);
    let whole = ranked::<HitRank>(all);
    hits_are_the_sought(graph, principal, request, ids);
    ranked_is_sorted::<HitRank>(all);
    all.to_multiset_ensures();
    whole.to_multiset_ensures();
    assert forall|k: int| 0 <= k < whole.len() implies {
        let id = (#[trigger] whole[k]).reference.block_id;
        ids.contains(id) && sought(graph, principal, request, id) && whole[k] == rank_of(
            graph,
            request,
            id,
        )
    } by {
        assert(whole.contains(whole[k]));
        assert(all.to_multiset().count(whole[k]) > 0);
        assert(all.contains(whole[k]));
        let i = choose|i: int| 0 <= i < all.len() && all[i] == whole[k];
        assert(ids.contains(all[i].reference.block_id));
    }
    assert forall|id: ContextBlockId|
        ids.contains(id) && #[trigger] sought(graph, principal, request, id) implies whole.contains(
        rank_of(graph, request, id),
    ) by {
        let hit = rank_of(graph, request, id);
        assert(all.contains(hit));
        assert(all.to_multiset().count(hit) > 0);
        assert(whole.to_multiset().count(hit) > 0);
    }
    assert(all.no_duplicates()) by {
        assert forall|i: int, j: int| 0 <= i < all.len() && 0 <= j < all.len() && i
            != j implies all[i] != all[j] by {
            if i < j {
                assert(all[i].reference.block_id.0 < all[j].reference.block_id.0);
            } else {
                assert(all[j].reference.block_id.0 < all[i].reference.block_id.0);
            }
        }
    }
    all.lemma_multiset_has_no_duplicates();
    whole.lemma_multiset_has_no_duplicates_conv();
    assert forall|i: int, j: int| 0 <= i < j < whole.len() implies listed_before(
        graph.blocks[(#[trigger] whole[i]).reference.block_id],
        graph.blocks[(#[trigger] whole[j]).reference.block_id],
    ) by {
        let left = whole[i];
        let right = whole[j];
        assert(left != right);
        assert(left == rank_of(graph, request, left.reference.block_id));
        assert(right == rank_of(graph, request, right.reference.block_id));
        assert(left.reference.block_id != right.reference.block_id);
        assert(HitRank::no_later(left, right));
        assert(graph.blocks.contains_key(left.reference.block_id));
        assert(graph.blocks.contains_key(right.reference.block_id));
    }
}

/// A search finds what is sought: every hit tells of a block that is reachable
/// and holds the query, the most important first and none twice; and a block
/// that is sought is left out only where the limit is reached by hits that
/// come before it.
pub proof fn searches_find_what_is_sought(
    graph: ContextGraphView,
    principal: ContextPrincipal,
    request: ContextSearchRequest,
)
    requires
        graph.valid(),
        searched(graph, principal, request) is Ok,
    ensures
        ({
            let hits = searched(graph, principal, request)->Ok_0;
            &&& hits.len() <= request.max_results
            &&& hits.len() <= 256
            &&& forall|k: int|
                0 <= k < hits.len() ==> {
                    let id = (#[trigger] hits[k]).summary.reference.block_id;
                    sought(graph, principal, request, id) && tells_of(graph, request, hits[k], id)
                }
            &&& forall|i: int, j: int|
                0 <= i < j < hits.len() ==> listed_before(
                    graph.blocks[(#[trigger] hits[i]).summary.reference.block_id],
                    graph.blocks[(#[trigger] hits[j]).summary.reference.block_id],
                )
            &&& forall|id: ContextBlockId| #[trigger]
                sought(graph, principal, request, id) ==> {
                    ||| exists|k: int|
                        0 <= k < hits.len() && (#[trigger] hits[k]).summary.reference.block_id == id
                    ||| (hits.len() == request.max_results || hits.len() == 256) && forall|k: int|
                        0 <= k < hits.len() ==> listed_before(
                            graph.blocks[(#[trigger] hits[k]).summary.reference.block_id],
                            graph.blocks[id],
                        )
                }
        }),
{
    finite_maps_are_listed(graph.blocks);
    let ids = listing::<ContextBlockId, ContextBlockView>(graph.blocks);
    let all = hits_among(graph, principal, request, ids);
    let whole = ranked::<HitRank>(all);
    let limit = search_limit(request);
    let chosen = best::<HitRank>(all, limit);
    let hits = searched(graph, principal, request)->Ok_0;
    assert forall|i: int, j: int| 0 <= i < j < ids.len() implies (#[trigger] ids[i]).0 < (
    #[trigger] ids[j]).0 by {
        assert(ContextBlockId::before(ids[i], ids[j]));
    }
    ranked_hits_are_the_sought(graph, principal, request, ids);
    assert forall|k: int| 0 <= k < hits.len() implies {
        let id = (#[trigger] hits[k]).summary.reference.block_id;
        sought(graph, principal, request, id) && tells_of(graph, request, hits[k], id) && id
            == whole[k].reference.block_id
    } by {
        assert(chosen[k] == whole[k]);
        let id = whole[k].reference.block_id;
        assert(ids.contains(id));
        assert(graph.blocks.contains_key(id));
    }
    assert forall|i: int, j: int| 0 <= i < j < hits.len() implies listed_before(
        graph.blocks[(#[trigger] hits[i]).summary.reference.block_id],
        graph.blocks[(#[trigger] hits[j]).summary.reference.block_id],
    ) by {
        assert(listed_before(
            graph.blocks[whole[i].reference.block_id],
            graph.blocks[whole[j].reference.block_id],
        ));
    }
    assert forall|id: ContextBlockId| #[trigger] sought(graph, principal, request, id) implies {
        ||| exists|k: int|
            0 <= k < hits.len() && (#[trigger] hits[k]).summary.reference.block_id == id
        ||| (hits.len() == request.max_results || hits.len() == 256) && forall|k: int|
            0 <= k < hits.len() ==> listed_before(
                graph.blocks[(#[trigger] hits[k]).summary.reference.block_id],
                graph.blocks[id],
            )
    } by {
        assert(graph.blocks.contains_key(id));
        assert(ids.contains(id));
        let hit = rank_of(graph, request, id);
        assert(whole.contains(hit));
        let place = choose|place: int| 0 <= place < whole.len() && whole[place] == hit;
        assert(graph.blocks[id].id == id);
        assert(whole[place].reference.block_id == id);
        if place < hits.len() {
            assert(hits[place].summary.reference.block_id == id);
        } else {
            assert forall|k: int| 0 <= k < hits.len() implies listed_before(
                graph.blocks[(#[trigger] hits[k]).summary.reference.block_id],
                graph.blocks[id],
            ) by {
                assert(listed_before(
                    graph.blocks[whole[k].reference.block_id],
                    graph.blocks[whole[place].reference.block_id],
                ));
            }
        }
    }
}

/// A search is refused exactly where its query is blank or longer than 512
/// bytes.
pub proof fn short_queries_are_searched(
    graph: ContextGraphView,
    principal: ContextPrincipal,
    request: ContextSearchRequest,
)
    ensures
        searched(graph, principal, request) is Ok <==> !blank(request.query@) && encode_utf8(
            request.query@,
        ).len() <= 512,
{
}

/// The requests are alike but for the query.
pub open spec fn same_reach(left: ContextSearchRequest, right: ContextSearchRequest) -> bool {
    &&& left.namespace_patterns == right.namespace_patterns
    &&& left.include_stale == right.include_stale
    &&& left.include_archived == right.include_archived
    &&& left.max_results == right.max_results
    &&& left.trust_policy == right.trust_policy
}

proof fn hits_ignore_case(
    graph: ContextGraphView,
    principal: ContextPrincipal,
    left: ContextSearchRequest,
    right: ContextSearchRequest,
    ids: Seq<ContextBlockId>,
)
    requires
        same_reach(left, right),
        lowered(left.query@) == lowered(right.query@),
    ensures
        hits_among(graph, principal, left, ids) == hits_among(graph, principal, right, ids),
    decreases ids.len(),
{
    if ids.len() > 0 {
        hits_ignore_case(graph, principal, left, right, ids.drop_last());
    }
}

/// Two queries that are the same in lower case find the same hits.
pub proof fn searches_ignore_case(
    graph: ContextGraphView,
    principal: ContextPrincipal,
    left: ContextSearchRequest,
    right: ContextSearchRequest,
)
    requires
        same_reach(left, right),
        lowered(left.query@) == lowered(right.query@),
        searched(graph, principal, left) is Ok,
        searched(graph, principal, right) is Ok,
    ensures
        searched(graph, principal, left) == searched(graph, principal, right),
{
    let ids = listing::<ContextBlockId, ContextBlockView>(graph.blocks);
    hits_ignore_case(graph, principal, left, right, ids);
}

/// The letters are the same, if case does not count.
pub open spec fn same_letter(left: char, right: char) -> bool {
    ||| left == right
    ||| 'A' <= left <= 'Z' && right as u32 == left as u32 + 32
    ||| 'A' <= right <= 'Z' && left as u32 == right as u32 + 32
}

/// The query stands in the text, letter by letter, if case does not count.
pub open spec fn stands_in(text: Seq<char>, query: Seq<char>) -> bool {
    exists|place: int| #[trigger] stands_there(text, query, place)
}

pub open spec fn stands_there(text: Seq<char>, query: Seq<char>, place: int) -> bool {
    &&& 0 <= place
    &&& place + query.len() <= text.len()
    &&& forall|k: int|
        0 <= k < query.len() ==> same_letter(#[trigger] text[place + k], query[k])
}

proof fn letters_compare_in_lower_case(left: char, right: char)
    requires
        left <= '\u{7f}',
        right <= '\u{7f}',
    ensures
        lower_letter(left) == lower_letter(right) <==> same_letter(left, right),
{
    lower_letters_are_lower(left);
    lower_letters_are_lower(right);
}

proof fn lower_letters_are_lower(c: char)
    requires
        c <= '\u{7f}',
    ensures
        lower_letter(c) as u32 == if 'A' <= c <= 'Z' {
            (c as u32 + 32) as u32
        } else {
            c as u32
        },
{
    if 'A' <= c <= 'Z' {
        let code = (c as u32 - 'A' as u32 + 'a' as u32) as u8;
        assert(code as char as u32 == code as u32);
    }
}

/// Of ASCII text, a search finds the query wherever it stands letter by
/// letter, in whatever case, and nowhere else. Text that holds the query
/// verbatim is found.
pub proof fn plain_text_is_found_in_any_case(text: Seq<char>, query: Seq<char>)
    requires
        ascii(text),
        ascii(query),
    ensures
        mentions(text, query) <==> stands_in(text, query),
        found_in(text, query) ==> mentions(text, query),
{
    let lower_text = lowered(text);
    let lower_query = lowered(query);
    assert forall|place: int| #[trigger] stands_at(lower_text, lower_query, place)
        <==> stands_there(text, query, place) by {
        if 0 <= place && place + query.len() <= text.len() {
            let part = lower_text.subrange(place, place + query.len());
            assert forall|k: int| 0 <= k < query.len() implies (part[k] == lower_query[k]
                <==> same_letter(text[place + k], query[k])) by {
                assert(text[place + k] <= '\u{7f}' && query[k] <= '\u{7f}');
                letters_compare_in_lower_case(text[place + k], query[k]);
            }
            if stands_there(text, query, place) {
                assert forall|k: int| 0 <= k < query.len() implies part[k] == lower_query[k] by {
                    assert(same_letter(text[place + k], query[k]));
                }
                assert(part =~= lower_query);
            }
            if stands_at(lower_text, lower_query, place) {
                assert forall|k: int| 0 <= k < query.len() implies same_letter(
                    #[trigger] text[place + k],
                    query[k],
                ) by {
                    assert(part[k] == lower_query[k]);
                }
            }
        }
    }
    if stands_in(text, query) {
        let place = choose|place: int| #[trigger] stands_there(text, query, place);
        assert(stands_at(lower_text, lower_query, place));
    }
    if mentions(text, query) {
        let place = choose|place: int| stands_at(lower_text, lower_query, place);
        assert(stands_there(text, query, place));
    }
    if found_in(text, query) {
        let place = choose|place: int| stands_at(text, query, place);
        assert forall|k: int| 0 <= k < query.len() implies same_letter(
            #[trigger] text[place + k],
            query[k],
        ) by {
            assert(text.subrange(place, place + query.len())[k] == query[k]);
        }
        assert(stands_there(text, query, place));
    }
}

/// A reachable block whose namespace or content holds the query verbatim, in
/// ASCII, is among the hits where the limit leaves room.
pub proof fn verbatim_mentions_are_found(
    graph: ContextGraphView,
    principal: ContextPrincipal,
    request: ContextSearchRequest,
    id: ContextBlockId,
    text: Seq<char>,
)
    requires
        graph.valid(),
        searched(graph, principal, request) is Ok,
        reachable(graph, principal, request, id),
        text == graph.blocks[id].namespace || graph.content.contains_key(
            graph.blocks[id].content_hash,
        ) && text == lossy_text(graph.content[graph.blocks[id].content_hash]),
        ascii(text),
        ascii(request.query@),
        found_in(text, request.query@),
        searched(graph, principal, request)->Ok_0.len() < request.max_results,
        searched(graph, principal, request)->Ok_0.len() < 256,
    ensures
        exists|k: int|
            0 <= k < searched(graph, principal, request)->Ok_0.len() && (
            #[trigger] searched(graph, principal, request)->Ok_0[k]).summary.reference.block_id
                == id,
{
    plain_text_is_found_in_any_case(text, request.query@);
    assert(sought(graph, principal, request, id));
    searches_find_what_is_sought(graph, principal, request);
}

} // verus!
