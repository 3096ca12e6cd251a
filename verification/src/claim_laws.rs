//! What publishing an assumption finds and records.

use vstd::prelude::*;
use vstd::utf8::encode_utf8;

use crate::assumptions::{
    applied, assumption_check, conflicts_with, lists_contradictions, marking_keeps_assumptions,
    new_conflicts_only, normalized, prepared, publication, publish_refusal, published, settled,
    texts_check, with_conflicts, AssumptionConflictView, AssumptionErrorView, AssumptionGraphView,
    AssumptionState, AssumptionTransitionView, AssumptionView,
};
use crate::ids::{AgentId, AssumptionId, ConflictId};
use crate::kernel::combination_never_upgrades_trust;
use crate::normal_laws::{collapsing_and_lowering_commute, collapsing_joins_the_words};
use crate::scan::{joined_with, words_of};
use crate::text::{ascii, ascii_lower, blank};

verus! {

/// The two claims cannot both hold: one subject, two values, and the one that
/// is there is neither invalidated nor resolved.
pub open spec fn at_odds(existing: AssumptionView, claim: AssumptionView) -> bool {
    &&& existing.subject == claim.subject
    &&& existing.normalized_value != claim.normalized_value
    &&& existing.state != AssumptionState::Invalidated
    &&& existing.state != AssumptionState::Resolved
}

/// The conflict is between two assumptions, the lower identity first, and
/// concerns their owners and nobody else.
pub open spec fn tells_of_both(
    conflict: AssumptionConflictView,
    existing: AssumptionView,
    other: AssumptionId,
    claim: AssumptionView,
) -> bool {
    &&& conflict.subject == claim.subject
    &&& conflict.left == other && conflict.right == claim.id || conflict.left == claim.id
        && conflict.right == other
    &&& conflict.left.0 <= conflict.right.0
    &&& forall|agent: AgentId| #[trigger]
        conflict.affected_agents.contains(agent) <==> agent == existing.owner || agent
            == claim.owner
    &&& forall|i: int, j: int|
        0 <= i < j < conflict.affected_agents.len() ==> (#[trigger] conflict.affected_agents[i]).0
            < (#[trigger] conflict.affected_agents[j]).0
}

/// Publishing a claim reports one conflict for each claim that it is at odds
/// with, and for no other. Those claims and the new one are marked, each
/// conflict is kept under its identity, and everything else stays as it was.
pub proof fn publications_report_every_contradiction(
    graph: AssumptionGraphView,
    claim: AssumptionView,
    found: Seq<AssumptionId>,
    fresh: Seq<ConflictId>,
)
    requires
        publish_refusal(graph, claim) is None,
        lists_contradictions(graph.assumptions, claim, found),
        fresh.len() == found.len(),
        fresh.no_duplicates(),
        forall|i: int| 0 <= i < fresh.len() ==> !graph.conflicts.contains_key(#[trigger] fresh[i]),
    ensures
        ({
            let said = publication(graph, claim, found, fresh);
            let now = published(graph, claim, found, fresh);
            let any = exists|id: AssumptionId|
                graph.assumptions.contains_key(id) && at_odds(
                    #[trigger] graph.assumptions[id],
                    claim,
                );
            &&& said.conflicts.len() == found.len()
            &&& forall|i: int|
                0 <= i < said.conflicts.len() ==> {
                    &&& (#[trigger] said.conflicts[i]).id == fresh[i]
                    &&& graph.assumptions.contains_key(found[i])
                    &&& at_odds(graph.assumptions[found[i]], claim)
                    &&& tells_of_both(
                        said.conflicts[i],
                        graph.assumptions[found[i]],
                        found[i],
                        claim,
                    )
                    &&& now.conflicts.contains_key(fresh[i])
                    &&& now.conflicts[fresh[i]] == said.conflicts[i]
                }
            &&& forall|id: AssumptionId|
                graph.assumptions.contains_key(id) && at_odds(
                    #[trigger] graph.assumptions[id],
                    claim,
                ) ==> found.contains(id)
            &&& found.no_duplicates()
            &&& said.assumption == now.assumptions[claim.id]
            &&& said.assumption == (AssumptionView {
                state: if any {
                    AssumptionState::Conflicted
                } else {
                    claim.state
                },
                ..claim
            })
            &&& now.assumptions.dom() =~= graph.assumptions.dom().insert(claim.id)
            &&& forall|id: AssumptionId| #[trigger]
                graph.assumptions.contains_key(id) ==> now.assumptions[id] == (AssumptionView {
                    state: if at_odds(graph.assumptions[id], claim) {
                        AssumptionState::Conflicted
                    } else {
                        graph.assumptions[id].state
                    },
                    ..graph.assumptions[id]
                })
            &&& forall|id: ConflictId| #[trigger]
                graph.conflicts.contains_key(id) ==> now.conflicts.contains_key(id)
                    && now.conflicts[id] == graph.conflicts[id]
            &&& forall|id: ConflictId| #[trigger]
                now.conflicts.contains_key(id) ==> graph.conflicts.contains_key(id)
                    || fresh.contains(id)
        }),
{
    let said = publication(graph, claim, found, fresh);
    let now = published(graph, claim, found, fresh);
    let base = graph.assumptions.insert(claim.id, settled(claim, found));
    assert forall|i: int| 0 <= i < found.len() implies graph.assumptions.contains_key(
        #[trigger] found[i],
    ) && at_odds(graph.assumptions[found[i]], claim) by {
        assert(found.contains(found[i]));
    }
    assert(found.no_duplicates()) by {
        assert forall|i: int, j: int| 0 <= i < found.len() && 0 <= j < found.len() && i
            != j implies found[i] != found[j] by {
            if i < j {
                assert(found[i].0 < found[j].0);
            } else {
                assert(found[j].0 < found[i].0);
            }
        }
    }
    marking_keeps_assumptions(base, found);
    let all = conflicts_with(graph.assumptions, claim, found, fresh);
    new_conflicts_are_kept(graph.conflicts, all);
    assert forall|i: int| 0 <= i < all.len() implies tells_of_both(
        #[trigger] all[i],
        graph.assumptions[found[i]],
        found[i],
        claim,
    ) by {
        let conflict = all[i];
        let left = graph.assumptions[found[i]].owner;
        let right = claim.owner;
        assert forall|agent: AgentId| #[trigger]
            conflict.affected_agents.contains(agent) <==> agent == left || agent == right by {
            assert(conflict.affected_agents.len() > 0);
            assert(conflict.affected_agents[0] == left || conflict.affected_agents[0] == right);
            if left.0 < right.0 {
                assert(conflict.affected_agents[1] == right);
            } else if left.0 > right.0 {
                assert(conflict.affected_agents[1] == left);
            }
        }
        assert(left.0 == right.0 ==> left == right);
    }
    assert forall|id: ConflictId| #[trigger] graph.conflicts.contains_key(id) implies (
    now.conflicts.contains_key(id) && now.conflicts[id] == graph.conflicts[id]) by {
        assert forall|i: int| 0 <= i < all.len() implies (#[trigger] all[i]).id != id by {
            assert(all[i].id == fresh[i]);
        }
        other_conflicts_stay(graph.conflicts, all, id);
    }
    assert forall|id: ConflictId| #[trigger]
        now.conflicts.contains_key(id) implies graph.conflicts.contains_key(id) || fresh.contains(
        id,
    ) by {
        if !graph.conflicts.contains_key(id) && !fresh.contains(id) {
            assert forall|i: int| 0 <= i < all.len() implies (#[trigger] all[i]).id != id by {
                assert(all[i].id == fresh[i]);
            }
            new_conflicts_only(graph.conflicts, all, id);
        }
    }
    let any = exists|id: AssumptionId|
        graph.assumptions.contains_key(id) && at_odds(#[trigger] graph.assumptions[id], claim);
    if found.len() > 0 {
        assert(at_odds(graph.assumptions[found[0]], claim));
    } else if any {
        let id = choose|id: AssumptionId|
            graph.assumptions.contains_key(id) && at_odds(#[trigger] graph.assumptions[id], claim);
        assert(found.contains(id));
    }
    if found.contains(claim.id) {
        let i = choose|i: int| 0 <= i < found.len() && found[i] == claim.id;
        assert(graph.assumptions.contains_key(found[i]));
    }
    assert(now.assumptions[claim.id] == settled(claim, found));
}

proof fn other_conflicts_stay(
    conflicts: Map<ConflictId, AssumptionConflictView>,
    new: Seq<AssumptionConflictView>,
    id: ConflictId,
)
    requires
        conflicts.contains_key(id),
        forall|i: int| 0 <= i < new.len() ==> (#[trigger] new[i]).id != id,
    ensures
        with_conflicts(conflicts, new).contains_key(id),
        with_conflicts(conflicts, new)[id] == conflicts[id],
    decreases new.len(),
{
    if new.len() > 0 {
        let rest = new.drop_last();
        assert(new[new.len() - 1].id != id);
        assert forall|i: int| 0 <= i < rest.len() implies (#[trigger] rest[i]).id != id by {
            assert(rest[i] == new[i]);
        }
        other_conflicts_stay(conflicts, rest, id);
    }
}

proof fn new_conflicts_are_kept(
    conflicts: Map<ConflictId, AssumptionConflictView>,
    new: Seq<AssumptionConflictView>,
)
    requires
        forall|i: int, j: int|
            0 <= i < j < new.len() ==> (#[trigger] new[i]).id != (#[trigger] new[j]).id,
    ensures
        forall|i: int|
            0 <= i < new.len() ==> with_conflicts(conflicts, new).contains_key(
                (#[trigger] new[i]).id,
            ) && with_conflicts(conflicts, new)[new[i].id] == new[i],
    decreases new.len(),
{
    if new.len() > 0 {
        let rest = new.drop_last();
        let last = new.len() - 1;
        assert forall|i: int, j: int| 0 <= i < j < rest.len() implies (#[trigger] rest[i]).id != (
        #[trigger] rest[j]).id by {
            assert(rest[i] == new[i] && rest[j] == new[j]);
        }
        new_conflicts_are_kept(conflicts, rest);
        assert forall|i: int| 0 <= i < new.len() implies with_conflicts(
            conflicts,
            new,
        ).contains_key((#[trigger] new[i]).id) && with_conflicts(conflicts, new)[new[i].id]
            == new[i] by {
            if i < last {
                assert(rest[i] == new[i]);
                assert(new[i].id != new[last].id);
            }
        }
    }
}

/// A claim is published as it was made: only its subject and value are
/// normalized, and its trust comes down to that of its least trusted input.
pub proof fn claims_are_published_as_made(claim: AssumptionView)
    ensures
        ({
            let said = prepared(claim);
            &&& said == (AssumptionView {
                subject: said.subject,
                normalized_value: said.normalized_value,
                trust: said.trust,
                ..claim
            })
            &&& said.subject == normalized(claim.subject)
            &&& said.normalized_value == normalized(claim.normalized_value)
            &&& said.trust.rank() <= claim.trust.rank()
            &&& forall|i: int|
                0 <= i < claim.input_origins.len() ==> said.trust.rank() <= (
                #[trigger] claim.input_origins[i]).rank()
            &&& said.trust == claim.trust || claim.input_origins.contains(said.trust)
        }),
{
    combination_never_upgrades_trust(claim.trust, claim.input_origins);
}

/// A normalized text is its words in lower case, a space between each two.
pub proof fn normalized_texts_are_their_words(text: Seq<char>)
    requires
        ascii(text),
    ensures
        normalized(text) == joined_with(words_of(ascii_lower(text)), " "@),
{
    collapsing_and_lowering_commute(text);
    collapsing_joins_the_words(ascii_lower(text));
}

/// The text says something, in at most 65536 bytes.
pub open spec fn fair_text(text: Seq<char>) -> bool {
    !blank(text) && encode_utf8(text).len() <= 65536
}

/// At most 64 such texts.
pub open spec fn fair_texts(list: Seq<Seq<char>>) -> bool {
    list.len() <= 64 && forall|i: int| 0 <= i < list.len() ==> fair_text(#[trigger] list[i])
}

proof fn texts_are_checked_one_by_one(field: Seq<char>, list: Seq<Seq<char>>)
    ensures
        texts_check(field, list) is Ok <==> forall|i: int|
            0 <= i < list.len() ==> fair_text(#[trigger] list[i]),
    decreases list.len(),
{
    if list.len() > 0 {
        let rest = list.drop_last();
        let last = list.len() - 1;
        texts_are_checked_one_by_one(field, rest);
        if forall|i: int| 0 <= i < list.len() ==> fair_text(#[trigger] list[i]) {
            assert forall|i: int| 0 <= i < rest.len() implies fair_text(#[trigger] rest[i]) by {
                assert(rest[i] == list[i]);
            }
            assert(fair_text(list[last]));
        }
        if texts_check(field, list) is Ok {
            assert forall|i: int| 0 <= i < list.len() implies fair_text(#[trigger] list[i]) by {
                if i < last {
                    assert(rest[i] == list[i]);
                }
            }
        }
    }
}

/// A claim is valid exactly where it names a run and an owner, says its
/// subject, value and claim, and keeps to the bounds on lists, revision,
/// confidence and origins.
pub proof fn valid_claims_keep_to_the_bounds(claim: AssumptionView)
    ensures
        assumption_check(claim) is Ok <==> {
            &&& claim.run_id.0 != 0
            &&& claim.owner.0 != 0
            &&& fair_text(claim.subject)
            &&& fair_text(claim.normalized_value)
            &&& fair_text(claim.claim)
            &&& fair_texts(claim.evidence)
            &&& fair_texts(claim.dependencies)
            &&& claim.revision != 0
            &&& claim.confidence_millis <= 1000
            &&& claim.input_origins.len() <= 32
        },
{
    texts_are_checked_one_by_one("evidence"@, claim.evidence);
    texts_are_checked_one_by_one("dependencies"@, claim.dependencies);
}

/// A replayed transition does what it says and nothing else, or is refused
/// and reported.
pub proof fn transitions_do_what_they_say(
    graph: AssumptionGraphView,
    transition: AssumptionTransitionView,
)
    ensures
        ({
            let (now, result) = applied(graph, transition);
            match transition {
                AssumptionTransitionView::Created { assumption } => {
                    &&& result is Ok ==> now.assumptions == graph.assumptions.insert(
                        assumption.id,
                        assumption,
                    ) && !graph.assumptions.contains_key(assumption.id)
                    &&& result is Ok ==> forall|i: int|
                        0 <= i < assumption.input_origins.len() ==> assumption.trust.rank() <= (
                        #[trigger] assumption.input_origins[i]).rank()
                    &&& result is Err ==> now == graph
                    &&& now.conflicts == graph.conflicts
                },
                AssumptionTransitionView::StateChanged { assumption_id, state } => {
                    &&& result is Ok <==> graph.assumptions.contains_key(assumption_id)
                    &&& result is Ok ==> now.assumptions == graph.assumptions.insert(
                        assumption_id,
                        AssumptionView { state, ..graph.assumptions[assumption_id] },
                    )
                    &&& result is Err ==> now == graph && result == Err::<(), AssumptionErrorView>(
                        AssumptionErrorView::Unknown(assumption_id),
                    )
                    &&& now.conflicts == graph.conflicts
                },
                AssumptionTransitionView::ConflictDetected { conflict } => {
                    let known = graph.assumptions.contains_key(conflict.left)
                        && graph.assumptions.contains_key(conflict.right);
                    &&& result is Ok <==> known && !graph.conflicts.contains_key(conflict.id)
                    &&& known ==> now.conflicts == graph.conflicts.insert(conflict.id, conflict)
                    &&& !known ==> now == graph
                    &&& now.assumptions == graph.assumptions
                },
            }
        }),
{
    if let AssumptionTransitionView::Created { assumption } = transition {
        combination_never_upgrades_trust(assumption.trust, assumption.input_origins);
    }
}

} // verus!
