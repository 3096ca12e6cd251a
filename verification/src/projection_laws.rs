//! What a principal is shown of the context graph.

use vstd::prelude::*;

use crate::context::{
    ContextBlockView, ContextLifecycle, ContextPrincipal, ContextRef, ContextScope,
    ContextTrustPolicy,
};
use crate::context_graph::{namespace_matches, tokens_in, visible_to, ContextGraphView};
use crate::context_views::{
    any_matches, projected, projected_among, ContextProjectionView, ProjectionRequest,
};
use crate::kernel::TrustOrigin;
use crate::table::{finite_maps_have_listings, listed, listing, Key};
use crate::text::texts;

verus! {

// ---------------------------------------------------------------------------
// Who sees what.

/// A block is hidden exactly from the agents that are not its private owner.
pub proof fn private_blocks_are_shown_to_their_owner(
    principal: ContextPrincipal,
    scope: ContextScope,
)
    ensures
        visible_to(principal, scope) <==> !(scope matches ContextScope::Private(owner) && (
        principal matches ContextPrincipal::Agent(agent_id) && agent_id != owner)),
{
}

/// Content from outside: from remote agents, other sources, the web or tools.
pub open spec fn from_outside(trust: TrustOrigin) -> bool {
    ||| trust == TrustOrigin::RemoteAgent
    ||| trust == TrustOrigin::External
    ||| trust == TrustOrigin::WebUntrusted
    ||| trust == TrustOrigin::McpMetadata
    ||| trust == TrustOrigin::McpResult
}

/// What each policy lets through: everything; what the project, the user or
/// an agent said; or what the project or the user said.
pub proof fn policies_keep_out_what_they_name(trust: TrustOrigin)
    ensures
        ContextTrustPolicy::AllowAll.admits(trust),
        ContextTrustPolicy::ExcludeExternal.admits(trust) <==> !from_outside(trust) && trust
            != TrustOrigin::Runtime,
        ContextTrustPolicy::TrustedOnly.admits(trust) <==> !from_outside(trust) && trust
            != TrustOrigin::Runtime && trust != TrustOrigin::Generated,
{
}

/// The pattern is the star, the namespace itself, or a stem with `.*` after
/// it, where the namespace goes on from the stem with a dot.
pub open spec fn pattern_fits(pattern: Seq<char>, namespace: Seq<char>) -> bool {
    ||| pattern == seq!['*']
    ||| pattern == namespace
    ||| exists|stem: Seq<char>, rest: Seq<char>|
        #![trigger stem + rest]
        pattern == stem + seq!['.', '*'] && namespace == stem + seq!['.'] + rest && (stem
            + rest).len() + 1 == namespace.len()
}

/// A pattern matches the namespaces that it fits, and no others.
pub proof fn patterns_match_what_they_fit(pattern: Seq<char>, namespace: Seq<char>)
    ensures
        namespace_matches(pattern, namespace) <==> pattern_fits(pattern, namespace),
{
    let stem = pattern.len() - 2;
    if namespace_matches(pattern, namespace) {
        if pattern != seq!['*'] && pattern != namespace {
            let front = pattern.take(stem);
            let rest = namespace.skip(stem + 1);
            assert(pattern =~= front + seq!['.', '*']);
            assert(namespace =~= front + seq!['.'] + rest) by {
                assert forall|i: int| 0 <= i < stem + 1 implies namespace[i] == pattern[i] by {
                    assert(namespace.take(stem + 1)[i] == pattern.take(stem + 1)[i]);
                }
            }
            assert((front + rest).len() + 1 == namespace.len());
        }
    }
    if pattern_fits(pattern, namespace) && pattern != seq!['*'] {
        if pattern == namespace {
            if stem >= 0 && pattern[stem] == '.' && pattern[stem + 1] == '*' {
                assert(namespace.take(stem + 1) == pattern.take(stem + 1));
            }
        } else {
            let (front, rest) = choose|front: Seq<char>, rest: Seq<char>|
                #![trigger front + rest]
                pattern == front + seq!['.', '*'] && namespace == front + seq!['.'] + rest && (front
                    + rest).len() + 1 == namespace.len();
            assert(front.len() == stem);
            assert(namespace.take(stem + 1) =~= pattern.take(stem + 1));
        }
    }
}

/// Some patterns match a namespace exactly where one of them fits it.
pub proof fn one_fitting_pattern_is_enough(patterns: Seq<Seq<char>>, namespace: Seq<char>)
    ensures
        any_matches(patterns, namespace) <==> exists|i: int|
            0 <= i < patterns.len() && pattern_fits(#[trigger] patterns[i], namespace),
{
    assert forall|i: int| 0 <= i < patterns.len() implies (namespace_matches(
        #[trigger] patterns[i],
        namespace,
    ) <==> pattern_fits(patterns[i], namespace)) by {
        patterns_match_what_they_fit(patterns[i], namespace);
    }
}

/// Four bytes make a token, and a last part of them one more.
pub proof fn tokens_cover_their_bytes(length: nat)
    ensures
        length <= 4 * tokens_in(length),
        4 * tokens_in(length) < length + 4,
{
}

// ---------------------------------------------------------------------------
// Projections.

/// The newest block of a namespace.
pub open spec fn newest_block(graph: ContextGraphView, namespace: Seq<char>) -> ContextBlockView {
    graph.blocks[graph.namespaces[namespace].last().block_id]
}

/// The request asks for the namespace, and the principal may be shown its
/// newest block.
pub open spec fn asked_for(
    graph: ContextGraphView,
    principal: ContextPrincipal,
    request: ProjectionRequest,
    namespace: Seq<char>,
) -> bool {
    let block = newest_block(graph, namespace);
    &&& graph.namespaces.contains_key(namespace)
    &&& graph.namespaces[namespace].len() > 0
    &&& any_matches(texts(request.namespace_patterns@), namespace)
    &&& visible_to(principal, block.scope)
    &&& request.trust_policy.admits(block.trust)
    &&& block.lifecycle == ContextLifecycle::Active || block.lifecycle == ContextLifecycle::Stale
        && request.include_stale
}

/// The tokens of all the blocks together.
pub open spec fn token_sum(blocks: Seq<ContextBlockView>) -> nat
    decreases blocks.len(),
{
    if blocks.len() == 0 {
        0
    } else {
        token_sum(blocks.drop_last()) + blocks.last().token_estimate as nat
    }
}

/// What is counted of a sum.
pub open spec fn counted_sum(sum: nat) -> nat {
    if sum <= u64::MAX {
        sum
    } else {
        u64::MAX as nat
    }
}

/// One more block fits the request after those that are shown.
pub open spec fn fits(
    request: ProjectionRequest,
    shown: Seq<ContextBlockView>,
    block: ContextBlockView,
) -> bool {
    &&& request.max_blocks matches Some(limit) ==> shown.len() + 1 <= limit
    &&& request.max_tokens matches Some(limit) ==> counted_sum(
        token_sum(shown) + block.token_estimate as nat,
    ) <= limit
}

/// The namespace was left out because its block did not fit after the blocks
/// of the namespaces before it.
pub open spec fn left_out(
    graph: ContextGraphView,
    request: ProjectionRequest,
    shown: Seq<ContextBlockView>,
    chosen: Seq<Seq<char>>,
    namespace: Seq<char>,
) -> bool {
    exists|count: int| #[trigger]
        comes_at(chosen, namespace, count) && !fits(
            request,
            shown.take(count),
            newest_block(graph, namespace),
        )
}

/// The namespace comes after the first `count` of the chosen and before the
/// others.
pub open spec fn comes_at(chosen: Seq<Seq<char>>, namespace: Seq<char>, count: int) -> bool {
    &&& 0 <= count <= chosen.len()
    &&& forall|i: int| 0 <= i < count ==> String::before(#[trigger] chosen[i], namespace)
    &&& forall|i: int|
        count <= i < chosen.len() ==> String::before(namespace, #[trigger] chosen[i])
}

/// The projection shows the newest blocks of the chosen namespaces, in
/// ascending order, of those that are listed.
pub open spec fn shows(
    graph: ContextGraphView,
    principal: ContextPrincipal,
    request: ProjectionRequest,
    names: Seq<Seq<char>>,
    projection: ContextProjectionView,
    chosen: Seq<Seq<char>>,
) -> bool {
    &&& chosen.len() == projection.blocks.len()
    &&& forall|i: int|
        0 <= i < chosen.len() ==> names.contains(#[trigger] chosen[i]) && asked_for(
            graph,
            principal,
            request,
            chosen[i],
        ) && projection.blocks[i] == newest_block(graph, chosen[i])
    &&& forall|i: int, j: int|
        0 <= i < j < chosen.len() ==> String::before(#[trigger] chosen[i], #[trigger] chosen[j])
    &&& forall|i: int|
        0 <= i < chosen.len() ==> fits(
            request,
            projection.blocks.take(i),
            #[trigger] projection.blocks[i],
        )
    &&& projection.estimated_tokens == counted_sum(token_sum(projection.blocks))
    &&& projection.truncated <==> exists|namespace: Seq<char>|
        names.contains(namespace) && #[trigger] asked_for(graph, principal, request, namespace)
            && !chosen.contains(namespace)
    &&& forall|namespace: Seq<char>|
        names.contains(namespace) && #[trigger] asked_for(graph, principal, request, namespace)
            && !chosen.contains(namespace) ==> left_out(
            graph,
            request,
            projection.blocks,
            chosen,
            namespace,
        )
}

/// The names are in ascending order, and one more comes after them.
pub open spec fn goes_on(names: Seq<Seq<char>>, name: Seq<char>) -> bool {
    forall|other: Seq<char>| #[trigger] names.contains(other) ==> String::before(other, name)
}

proof fn later_namespaces_change_nothing_earlier(
    graph: ContextGraphView,
    request: ProjectionRequest,
    shown: Seq<ContextBlockView>,
    block: ContextBlockView,
    chosen: Seq<Seq<char>>,
    name: Seq<char>,
    other: Seq<char>,
)
    requires
        shown.len() == chosen.len(),
        String::before(other, name),
        left_out(graph, request, shown, chosen, other),
    ensures
        left_out(graph, request, shown.push(block), chosen.push(name), other),
{
    let count = choose|count: int| #[trigger]
        comes_at(chosen, other, count) && !fits(
            request,
            shown.take(count),
            newest_block(graph, other),
        );
    let longer = chosen.push(name);
    assert(shown.push(block).take(count) =~= shown.take(count));
    assert forall|i: int| 0 <= i < count implies String::before(#[trigger] longer[i], other) by {
        assert(chosen[i] == longer[i]);
    }
    assert forall|i: int| count <= i < longer.len() implies String::before(
        other,
        #[trigger] longer[i],
    ) by {
        if i < chosen.len() {
            assert(chosen[i] == longer[i]);
        }
    }
    assert(comes_at(longer, other, count));
}

proof fn a_fitting_block_is_shown(
    graph: ContextGraphView,
    principal: ContextPrincipal,
    request: ProjectionRequest,
    rest: Seq<Seq<char>>,
    name: Seq<char>,
    before: ContextProjectionView,
    early: Seq<Seq<char>>,
)
    requires
        shows(graph, principal, request, rest, before, early),
        goes_on(rest, name),
        asked_for(graph, principal, request, name),
        fits(request, before.blocks, newest_block(graph, name)),
    ensures
        shows(
            graph,
            principal,
            request,
            rest.push(name),
            ContextProjectionView {
                blocks: before.blocks.push(newest_block(graph, name)),
                estimated_tokens: counted_sum(
                    before.estimated_tokens + newest_block(graph, name).token_estimate as nat,
                ),
                truncated: before.truncated,
            },
            early.push(name),
        ),
{
    let block = newest_block(graph, name);
    let names = rest.push(name);
    let chosen = early.push(name);
    let blocks = before.blocks.push(block);
    String::order_laws(name, name, name);
    members_of_push(rest, name);
    members_of_push(early, name);
    assert(blocks.drop_last() =~= before.blocks);
    assert forall|i: int| 0 <= i < chosen.len() implies names.contains(#[trigger] chosen[i])
        && asked_for(graph, principal, request, chosen[i]) && blocks[i] == newest_block(
        graph,
        chosen[i],
    ) by {
        if i < early.len() {
            assert(early[i] == chosen[i]);
        }
    }
    assert forall|i: int, j: int| 0 <= i < j < chosen.len() implies String::before(
        #[trigger] chosen[i],
        #[trigger] chosen[j],
    ) by {
        assert(early[i] == chosen[i]);
        if j < early.len() {
            assert(early[j] == chosen[j]);
        } else {
            assert(rest.contains(early[i]));
        }
    }
    assert forall|i: int| 0 <= i < chosen.len() implies fits(
        request,
        blocks.take(i),
        #[trigger] blocks[i],
    ) by {
        assert(blocks.take(i) =~= before.blocks.take(i));
        if i < early.len() {
            assert(fits(request, before.blocks.take(i), before.blocks[i]));
        } else {
            assert(before.blocks.take(i) =~= before.blocks);
        }
    }
    assert forall|other: Seq<char>|
        names.contains(other) && #[trigger] asked_for(graph, principal, request, other)
            && !chosen.contains(other) implies left_out(graph, request, blocks, chosen, other) by {
        assert(rest.contains(other));
        later_namespaces_change_nothing_earlier(
            graph,
            request,
            before.blocks,
            block,
            early,
            name,
            other,
        );
    }
    if before.truncated {
        let other = choose|other: Seq<char>|
            rest.contains(other) && #[trigger] asked_for(graph, principal, request, other)
                && !early.contains(other);
        assert(names.contains(other) && !chosen.contains(other));
    }
}

proof fn members_of_push(list: Seq<Seq<char>>, one: Seq<char>)
    ensures
        forall|other: Seq<char>| #[trigger]
            list.push(one).contains(other) <==> list.contains(other) || other == one,
{
    assert forall|other: Seq<char>| #[trigger]
        list.push(one).contains(other) <==> list.contains(other) || other == one by {
        if list.contains(other) {
            let i = choose|i: int| 0 <= i < list.len() && list[i] == other;
            assert(list.push(one)[i] == other);
        }
        if list.push(one).contains(other) && other != one {
            let i = choose|i: int| 0 <= i < list.push(one).len() && list.push(one)[i] == other;
            assert(list[i] == other);
        }
        assert(list.push(one)[list.len() as int] == one);
    }
}

proof fn a_block_that_does_not_fit_is_left_out(
    graph: ContextGraphView,
    principal: ContextPrincipal,
    request: ProjectionRequest,
    rest: Seq<Seq<char>>,
    name: Seq<char>,
    before: ContextProjectionView,
    early: Seq<Seq<char>>,
)
    requires
        shows(graph, principal, request, rest, before, early),
        goes_on(rest, name),
        asked_for(graph, principal, request, name),
        !fits(request, before.blocks, newest_block(graph, name)),
    ensures
        shows(
            graph,
            principal,
            request,
            rest.push(name),
            ContextProjectionView { truncated: true, ..before },
            early,
        ),
{
    let names = rest.push(name);
    String::order_laws(name, name, name);
    members_of_push(rest, name);
    assert(before.blocks.take(early.len() as int) =~= before.blocks);
    assert forall|i: int| 0 <= i < early.len() implies String::before(
        #[trigger] early[i],
        name,
    ) by {
        assert(rest.contains(early[i]));
    }
    assert(!early.contains(name)) by {
        if early.contains(name) {
            let i = choose|i: int| 0 <= i < early.len() && early[i] == name;
            assert(String::before(early[i], name));
        }
    }
    assert(comes_at(early, name, early.len() as int));
    assert(left_out(graph, request, before.blocks, early, name));
    assert(names.contains(name));
}

proof fn a_block_not_asked_for_is_passed_over(
    graph: ContextGraphView,
    principal: ContextPrincipal,
    request: ProjectionRequest,
    rest: Seq<Seq<char>>,
    name: Seq<char>,
    before: ContextProjectionView,
    early: Seq<Seq<char>>,
)
    requires
        shows(graph, principal, request, rest, before, early),
        !asked_for(graph, principal, request, name),
    ensures
        shows(graph, principal, request, rest.push(name), before, early),
{
    members_of_push(rest, name);
    if before.truncated {
        let other = choose|other: Seq<char>|
            rest.contains(other) && #[trigger] asked_for(graph, principal, request, other)
                && !early.contains(other);
        assert(rest.push(name).contains(other));
    }
}

proof fn listed_projections_show(
    graph: ContextGraphView,
    principal: ContextPrincipal,
    request: ProjectionRequest,
    names: Seq<Seq<char>>,
) -> (chosen: Seq<Seq<char>>)
    requires
        forall|i: int, j: int|
            0 <= i < j < names.len() ==> String::before(#[trigger] names[i], #[trigger] names[j]),
        forall|i: int| 0 <= i < names.len() ==> graph.namespaces.contains_key(#[trigger] names[i]),
    ensures
        shows(
            graph,
            principal,
            request,
            names,
            projected_among(graph, principal, request, names),
            chosen,
        ),
    decreases names.len(),
{
    if names.len() == 0 {
        Seq::<Seq<char>>::empty()
    } else {
        let rest = names.drop_last();
        let last = names.len() - 1;
        let name = names[last];
        assert forall|i: int, j: int| 0 <= i < j < rest.len() implies String::before(
            #[trigger] rest[i],
            #[trigger] rest[j],
        ) by {
            assert(rest[i] == names[i] && rest[j] == names[j]);
        }
        assert forall|i: int| 0 <= i < rest.len() implies graph.namespaces.contains_key(
            #[trigger] rest[i],
        ) by {
            assert(rest[i] == names[i]);
        }
        let before = projected_among(graph, principal, request, rest);
        let early = listed_projections_show(graph, principal, request, rest);
        assert forall|other: Seq<char>| #[trigger] rest.contains(other) implies String::before(
            other,
            name,
        ) by {
            let i = choose|i: int| 0 <= i < rest.len() && rest[i] == other;
            assert(names[i] == other);
        }
        assert(rest.push(name) =~= names);
        if !asked_for(graph, principal, request, name) {
            a_block_not_asked_for_is_passed_over(
                graph,
                principal,
                request,
                rest,
                name,
                before,
                early,
            );
            early
        } else if fits(request, before.blocks, newest_block(graph, name)) {
            a_fitting_block_is_shown(graph, principal, request, rest, name, before, early);
            early.push(name)
        } else {
            a_block_that_does_not_fit_is_left_out(
                graph,
                principal,
                request,
                rest,
                name,
                before,
                early,
            );
            early
        }
    }
}

/// A projection shows the newest blocks of namespaces that were asked for, in
/// ascending order and each once. Its estimate is the sum of the tokens that
/// it shows, every block fitted the limits when its turn came, and it is
/// marked as cut exactly where a namespace that was asked for is left out,
/// which happens only where its block did not fit.
pub proof fn projections_show_what_fits(
    graph: ContextGraphView,
    principal: ContextPrincipal,
    request: ProjectionRequest,
) -> (chosen: Seq<Seq<char>>)
    requires
        graph.namespaces.dom().finite(),
    ensures
        ({
            let projection = projected(graph, principal, request);
            &&& chosen.len() == projection.blocks.len()
            &&& forall|i: int|
                0 <= i < chosen.len() ==> asked_for(graph, principal, request, #[trigger] chosen[i])
                    && projection.blocks[i] == newest_block(graph, chosen[i])
            &&& forall|i: int, j: int|
                0 <= i < j < chosen.len() ==> String::before(
                    #[trigger] chosen[i],
                    #[trigger] chosen[j],
                )
            &&& projection.estimated_tokens == counted_sum(token_sum(projection.blocks))
            &&& forall|i: int|
                0 <= i < chosen.len() ==> fits(
                    request,
                    projection.blocks.take(i),
                    #[trigger] projection.blocks[i],
                )
            &&& projection.truncated <==> exists|namespace: Seq<char>| #[trigger]
                asked_for(graph, principal, request, namespace) && !chosen.contains(namespace)
            &&& forall|namespace: Seq<char>| #[trigger]
                asked_for(graph, principal, request, namespace) && !chosen.contains(namespace)
                    ==> left_out(graph, request, projection.blocks, chosen, namespace)
            &&& request.max_blocks matches Some(limit) ==> projection.blocks.len() <= limit
            &&& request.max_tokens matches Some(limit) ==> counted_sum(
                token_sum(projection.blocks),
            ) <= limit
        }),
{
    let names = listing::<String, Seq<ContextRef>>(graph.namespaces);
    finite_maps_have_listings::<String, Seq<ContextRef>>(graph.namespaces);
    assert(listed::<String, Seq<ContextRef>>(graph.namespaces, names));
    let chosen = listed_projections_show(graph, principal, request, names);
    let projection = projected(graph, principal, request);
    assert forall|namespace: Seq<char>| #[trigger]
        asked_for(graph, principal, request, namespace) implies names.contains(namespace) by {
        assert(graph.namespaces.contains_key(namespace));
    }
    let count = chosen.len() as int;
    if count > 0 {
        assert(projection.blocks.take(count - 1) =~= projection.blocks.drop_last());
        assert(fits(request, projection.blocks.take(count - 1), projection.blocks[count - 1]));
    }
    chosen
}

} // verus!
