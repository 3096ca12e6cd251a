//! What stores accept and give back, and where a fork may go on.

use vstd::prelude::*;

use crate::agent::fork_refusal;
use crate::artifact::{content_digest, ArtifactRefView};
use crate::event_codec::kind_within;
use crate::event_store::{
    bare, latest_snapshot, rebuilt, snapshot_check, snapshot_of, stamped, state_from,
    RuntimeSnapshotView, SnapshotKey, StoredEventView,
};
use crate::fork::{branch_to_fork, child_check, continuation_of};
use crate::fork_laws::parts_of_a_history_are_whole;
use crate::ids::{AgentId, BranchId, EventId, RunId, TaskId};
use crate::kernel::{EventKindView, EventView};
use crate::memory_store::{batch_duplicate, id_among, sequences_from};
use crate::rows::{
    batch_refusal, migration, schema_checksum, snapshot_clash, trust_after, trust_in,
    ArtifactRowView, MigrationPlan,
};
use crate::state::{initial_state, replayed, RuntimeStateView, Sequence, StoreErrorView};
use crate::state_laws::ends_a_run;

verus! {

// ---------------------------------------------------------------------------
// Appending.

/// The identity is that of a stored event.
pub open spec fn is_stored(history: Seq<StoredEventView>, id: EventId) -> bool {
    exists|i: int| 0 <= i < history.len() && (#[trigger] history[i]).event.id == id
}

/// A batch is accepted exactly where its events have identities of their own:
/// none is stored already, and no two are the same.
pub proof fn batches_need_new_identities(history: Seq<StoredEventView>, events: Seq<EventView>)
    ensures
        batch_duplicate(history, events) is None <==> {
            &&& forall|i: int|
                0 <= i < events.len() ==> !is_stored(history, (#[trigger] events[i]).id)
            &&& forall|i: int, j: int|
                0 <= i < j < events.len() ==> (#[trigger] events[i]).id != (#[trigger] events[j]).id
        },
    decreases events.len(),
{
    if events.len() > 0 {
        let rest = events.drop_last();
        let last = events.len() - 1;
        batches_need_new_identities(history, rest);
        let fresh = forall|i: int|
            0 <= i < events.len() ==> !is_stored(history, (#[trigger] events[i]).id);
        let apart = forall|i: int, j: int|
            0 <= i < j < events.len() ==> (#[trigger] events[i]).id != (#[trigger] events[j]).id;
        if fresh && apart {
            assert forall|i: int| 0 <= i < rest.len() implies !is_stored(
                history,
                (#[trigger] rest[i]).id,
            ) by {
                assert(rest[i] == events[i]);
            }
            assert forall|i: int, j: int| 0 <= i < j < rest.len() implies (#[trigger] rest[i]).id
                != (#[trigger] rest[j]).id by {
                assert(rest[i] == events[i] && rest[j] == events[j]);
            }
            assert(!is_stored(history, events[last].id));
            if id_among(rest, events[last].id) {
                let i = choose|i: int|
                    0 <= i < rest.len() && (#[trigger] rest[i]).id == events[last].id;
                assert(events[i].id == events[last].id);
            }
        }
        if batch_duplicate(history, events) is None {
            assert forall|i: int| 0 <= i < events.len() implies !is_stored(
                history,
                (#[trigger] events[i]).id,
            ) by {
                if i < last {
                    assert(rest[i] == events[i]);
                }
            }
            assert forall|i: int, j: int| 0 <= i < j < events.len() implies (
            #[trigger] events[i]).id != (#[trigger] events[j]).id by {
                assert(rest[i] == events[i]);
                if j < last {
                    assert(rest[j] == events[j]);
                } else {
                    assert(!id_among(rest, events[last].id));
                }
            }
        }
    }
}

/// The identity that a batch is refused for stands in it twice, or is stored
/// already.
pub proof fn refused_identities_are_taken(history: Seq<StoredEventView>, events: Seq<EventView>)
    ensures
        batch_duplicate(history, events) matches Some(id) ==> exists|j: int|
            {
                &&& 0 <= j < events.len()
                &&& (#[trigger] events[j]).id == id
                &&& is_stored(history, id) || exists|i: int|
                    0 <= i < j && (#[trigger] events[i]).id == id
            },
    decreases events.len(),
{
    if events.len() > 0 && batch_duplicate(history, events) is Some {
        let rest = events.drop_last();
        let last = events.len() - 1;
        let id = batch_duplicate(history, events)->0;
        refused_identities_are_taken(history, rest);
        if batch_duplicate(history, rest) is Some {
            let j = choose|j: int|
                {
                    &&& 0 <= j < rest.len()
                    &&& (#[trigger] rest[j]).id == id
                    &&& is_stored(history, id) || exists|i: int|
                        0 <= i < j && (#[trigger] rest[i]).id == id
                };
            assert(events[j].id == id);
            if !is_stored(history, id) {
                let i = choose|i: int| 0 <= i < j && (#[trigger] rest[i]).id == id;
                assert(events[i].id == id);
            }
        } else {
            assert(events[last].id == id);
            if id_among(rest, id) {
                let i = choose|i: int| 0 <= i < rest.len() && (#[trigger] rest[i]).id == id;
                assert(events[i].id == id);
            }
        }
    }
}

/// Appended events are numbered on, one after the other, as long as numbers
/// last.
pub proof fn appended_events_are_numbered(next: Sequence, events: Seq<EventView>, i: int)
    requires
        0 <= i < events.len(),
        next + events.len() <= Sequence::MAX,
    ensures
        stamped(sequences_from(next, events.len()), events).len() == events.len(),
        stamped(sequences_from(next, events.len()), events)[i].sequence == next + i,
        stamped(sequences_from(next, events.len()), events)[i].event == events[i],
{
}

// ---------------------------------------------------------------------------
// Reconstructing.

/// A run is reconstructed by replaying its own events, all of them and in
/// order; one without events is unknown.
pub proof fn runs_are_rebuilt_from_their_events(history: Seq<StoredEventView>, run_id: RunId)
    ensures
        ({
            let own = history.filter(|stored: StoredEventView| stored.event.run_id == run_id);
            let state = replayed(initial_state(run_id), bare(own));
            &&& own.len() == 0 ==> rebuilt(history, run_id) == Err::<
                RuntimeStateView,
                StoreErrorView,
            >(StoreErrorView::UnknownRun(run_id))
            &&& own.len() > 0 ==> (rebuilt(history, run_id) is Ok <==> state is Ok)
            &&& own.len() > 0 && state is Err ==> rebuilt(history, run_id) == state
            &&& rebuilt(history, run_id) matches Ok(found) ==> {
                &&& found == (RuntimeStateView {
                    events_applied: found.events_applied,
                    ..state->Ok_0
                })
                &&& own.len() <= u64::MAX ==> found.events_applied == own.len()
            }
            &&& rebuilt(history, run_id) == state_from(own, run_id)
        }),
{
    parts_of_a_history_are_whole(history, run_id, 0);
}

/// A snapshot is taken of the reconstructed run, at its last event.
pub proof fn snapshots_are_of_the_last_event(history: Seq<StoredEventView>, run_id: RunId)
    ensures
        snapshot_of(history, run_id) is Ok <==> rebuilt(history, run_id) is Ok,
        snapshot_of(history, run_id) matches Ok(snapshot) ==> {
            let own = history.filter(|stored: StoredEventView| stored.event.run_id == run_id);
            &&& snapshot.run_id == run_id
            &&& Ok::<RuntimeStateView, StoreErrorView>(snapshot.state) == rebuilt(history, run_id)
            &&& own.len() > 0
            &&& snapshot.at_sequence == own.last().sequence
        },
{
    parts_of_a_history_are_whole(history, run_id, 0);
}

/// A snapshot is saved exactly where it is what the run's events up to its
/// position replay to, and the run has an event at that position, the last of
/// them.
pub proof fn snapshots_tell_what_happened(
    history: Seq<StoredEventView>,
    snapshot: RuntimeSnapshotView,
)
    ensures
        ({
            let own = history.filter(
                |stored: StoredEventView| stored.event.run_id == snapshot.run_id,
            );
            let prefix = own.filter(
                |stored: StoredEventView| stored.sequence <= snapshot.at_sequence,
            );
            snapshot_check(history, snapshot) is Ok <==> {
                &&& snapshot.state.run_id == snapshot.run_id
                &&& prefix.len() > 0
                &&& prefix.last().sequence == snapshot.at_sequence
                &&& snapshot.state.events_applied == prefix.len() as u64
                &&& replayed(initial_state(snapshot.run_id), bare(prefix)) == Ok::<
                    RuntimeStateView,
                    StoreErrorView,
                >(snapshot.state)
            }
        }),
{
    parts_of_a_history_are_whole(history, snapshot.run_id, 0);
    let own = history.filter(|stored: StoredEventView| stored.event.run_id == snapshot.run_id);
    parts_of_a_history_are_whole(own, snapshot.run_id, snapshot.at_sequence);
}

/// The snapshot that is loaded is one of the run's, not later than was asked
/// for, and no other such is later.
pub proof fn loaded_snapshots_are_the_latest(
    snapshots: Map<SnapshotKey, RuntimeSnapshotView>,
    run_id: RunId,
    at_or_before: Option<Sequence>,
    key: SnapshotKey,
)
    ensures
        latest_snapshot(snapshots, run_id, at_or_before, key) <==> {
            &&& snapshots.contains_key(key)
            &&& key.run_id == run_id
            &&& at_or_before is None || key.at_sequence <= at_or_before->0
            &&& forall|other: SnapshotKey| #[trigger]
                snapshots.contains_key(other) && other.run_id == run_id && (at_or_before is None
                    || other.at_sequence <= at_or_before->0) ==> other.at_sequence
                    <= key.at_sequence
        },
{
    if latest_snapshot(snapshots, run_id, at_or_before, key) {
        assert forall|other: SnapshotKey| #[trigger]
            snapshots.contains_key(other) && other.run_id == run_id && (at_or_before is None
                || other.at_sequence <= at_or_before->0) implies other.at_sequence
            <= key.at_sequence by {
            assert(crate::event_store::eligible_snapshot(
                snapshots.dom(),
                run_id,
                at_or_before,
                other,
            ));
        }
    } else if crate::event_store::eligible_snapshot(snapshots.dom(), run_id, at_or_before, key) {
        let other = choose|other: SnapshotKey|
            #[trigger] crate::event_store::eligible_snapshot(
                snapshots.dom(),
                run_id,
                at_or_before,
                other,
            ) && other.at_sequence > key.at_sequence;
        assert(snapshots.contains_key(other));
    }
}

// ---------------------------------------------------------------------------
// Forking and going on.

/// A child run must be new, and the branch known and of another run.
pub proof fn children_are_new_runs(
    events: nat,
    child: RunId,
    found: Option<crate::event_store::BranchMetadata>,
    branch_id: BranchId,
)
    ensures
        child_check(events, child) is Ok <==> events == 0,
        branch_to_fork(found, branch_id, child) is Ok <==> (found matches Some(branch)
            && branch.parent_run_id != child),
        branch_to_fork(found, branch_id, child) matches Ok(branch) ==> found == Some(branch),
        found is None ==> branch_to_fork(found, branch_id, child) == Err::<
            crate::event_store::BranchMetadata,
            StoreErrorView,
        >(StoreErrorView::UnknownBranch(branch_id)),
{
}

/// A run may go on from a trace exactly where the trace begins with its
/// creation, holds events of the run alone, creates the task and the agent,
/// and has not ended.
pub proof fn prefixes_that_may_go_on(
    prefix: Seq<EventView>,
    run_id: RunId,
    task_id: TaskId,
    agent_id: AgentId,
)
    ensures
        fork_refusal(prefix, run_id, task_id, agent_id) is None <==> {
            &&& prefix.len() > 0
            &&& prefix[0].kind == (EventKindView::RunCreated { run_id })
            &&& forall|i: int| 0 <= i < prefix.len() ==> (#[trigger] prefix[i]).run_id == run_id
            &&& exists|i: int|
                0 <= i < prefix.len() && ((#[trigger] prefix[i]).kind matches
                    EventKindView::TaskCreated { task_id: id, run_id: run, .. } && id == task_id
                    && run == run_id)
            &&& exists|i: int|
                0 <= i < prefix.len() && ((#[trigger] prefix[i]).kind matches
                    EventKindView::AgentCreated { agent } && agent.id == agent_id)
            &&& forall|i: int|
                0 <= i < prefix.len() ==> !ends_a_run((#[trigger] prefix[i]).kind)
        },
{
    let foreign = |event: EventView| event.run_id != run_id;
    let task = |event: EventView| crate::agent::creates_task(event, task_id, run_id);
    let agent = |event: EventView| crate::agent::creates_agent(event, agent_id);
    let end = |event: EventView| crate::agent::ends_run(event);
    assert forall|i: int| 0 <= i < prefix.len() implies {
        &&& foreign(#[trigger] prefix[i]) <==> prefix[i].run_id != run_id
        &&& end(prefix[i]) <==> ends_a_run(prefix[i].kind)
        &&& task(prefix[i]) <==> (prefix[i].kind matches EventKindView::TaskCreated {
            task_id: id,
            run_id: run,
            ..
        } && id == task_id && run == run_id)
        &&& agent(prefix[i]) <==> (prefix[i].kind matches EventKindView::AgentCreated { agent }
            && agent.id == agent_id)
    } by {}
}

proof fn identities_differ_throughout(
    prefix: Seq<EventView>,
    added: Seq<EventView>,
    start: Seq<StoredEventView>,
)
    requires
        bare(start) == prefix,
        batch_duplicate(Seq::<StoredEventView>::empty(), prefix) is None,
        batch_duplicate(start, added) is None,
    ensures
        forall|i: int, j: int|
            0 <= i < j < (prefix + added).len() ==> (#[trigger] (prefix + added)[i]).id != (
            #[trigger] (prefix + added)[j]).id,
{
    let execution = prefix + added;
    batches_need_new_identities(Seq::<StoredEventView>::empty(), prefix);
    batches_need_new_identities(start, added);
    assert forall|i: int, j: int| 0 <= i < j < execution.len() implies (
    #[trigger] execution[i]).id != (#[trigger] execution[j]).id by {
        if j < prefix.len() {
            assert(prefix[i] == execution[i] && prefix[j] == execution[j]);
        } else {
            let b = j - prefix.len();
            assert(added[b] == execution[j]);
            if i < prefix.len() {
                assert(bare(start)[i] == start[i].event);
                assert(prefix[i] == execution[i]);
                assert(!is_stored(start, added[b].id));
            } else {
                assert(added[i - prefix.len()] == execution[i]);
            }
        }
    }
}

/// What a continued fork adds is what the execution recorded after the prefix,
/// all of it and in order. It is accepted only where the execution and the
/// store begin with the prefix, something is added, every addition belongs to
/// the child, identities differ, and the whole replays.
#[verifier::spinoff_prover]
pub proof fn continuations_go_on_from_the_prefix(
    child: RunId,
    prefix: Seq<EventView>,
    execution: Seq<EventView>,
    persisted: Seq<EventView>,
)
    requires
        continuation_of(child, prefix, execution, persisted) is Ok,
        execution.len() < Sequence::MAX,
    ensures
        ({
            let added = continuation_of(child, prefix, execution, persisted)->Ok_0;
            &&& execution == prefix + added
            &&& added.len() > 0
            &&& prefix.len() <= persisted.len()
            &&& forall|i: int| 0 <= i < prefix.len() ==> #[trigger] persisted[i] == prefix[i]
            &&& forall|i: int| 0 <= i < added.len() ==> (#[trigger] added[i]).run_id == child
            &&& forall|i: int, j: int|
                0 <= i < j < execution.len() ==> (#[trigger] execution[i]).id != (
                #[trigger] execution[j]).id
            &&& replayed(
                initial_state(child),
                execution.filter(|event: EventView| event.run_id == child),
            ) is Ok
        }),
{
    let added = continuation_of(child, prefix, execution, persisted)->Ok_0;
    assert(execution =~= prefix + added) by {
        assert(execution =~= execution.take(prefix.len() as int) + execution.skip(
            prefix.len() as int,
        ));
    }
    assert forall|i: int| 0 <= i < prefix.len() implies #[trigger] persisted[i] == prefix[i] by {
        assert(persisted.take(prefix.len() as int)[i] == prefix[i]);
    }
    let start = stamped(sequences_from(1, prefix.len()), prefix);
    let next = crate::memory_store::sequence_ahead(1, prefix.len());
    let whole = start + stamped(sequences_from(next, added.len()), added);
    assert(bare(start) =~= prefix);
    identities_differ_throughout(prefix, added, start);
    runs_are_rebuilt_from_their_events(whole, child);
    assert(bare(whole) =~= execution);
    own_events_of_a_history(whole, child);
}

proof fn own_events_of_a_history(history: Seq<StoredEventView>, run_id: RunId)
    ensures
        bare(history.filter(|stored: StoredEventView| stored.event.run_id == run_id)) == bare(
            history,
        ).filter(|event: EventView| event.run_id == run_id),
    decreases history.len(),
{
    reveal(Seq::filter);
    let own = history.filter(|stored: StoredEventView| stored.event.run_id == run_id);
    if history.len() == 0 {
        assert(bare(own) =~= Seq::<EventView>::empty());
    } else {
        let rest = history.drop_last();
        own_events_of_a_history(rest, run_id);
        let early = rest.filter(|stored: StoredEventView| stored.event.run_id == run_id);
        assert(bare(history).drop_last() =~= bare(rest));
        assert(bare(history).last() == history.last().event);
        if history.last().event.run_id == run_id {
            assert(own == early.push(history.last()));
            assert(bare(own) =~= bare(early).push(history.last().event));
        } else {
            assert(own == early);
        }
    }
}

// ---------------------------------------------------------------------------
// Databases.

/// A database is opened exactly where it is new, or notes a version that is
/// known with the checksum of that version. Only the first is upgraded.
pub proof fn known_databases_are_opened(current: Option<i64>, noted: Seq<u8>)
    ensures
        migration(current, noted) is Ok <==> {
            ||| current is None
            ||| (current == Some(1i64) || current == Some(2i64)) && noted == schema_checksum(
                current->0,
            )
        },
        migration(current, noted) == Ok::<MigrationPlan, Seq<char>>(MigrationPlan::Create)
            <==> current is None,
        migration(current, noted) == Ok::<MigrationPlan, Seq<char>>(MigrationPlan::Upgrade)
            ==> current == Some(1i64),
        migration(current, noted) == Ok::<MigrationPlan, Seq<char>>(MigrationPlan::Keep)
            ==> current == Some(2i64),
{
}

/// A stored snapshot is never replaced by another: the same is accepted, and a
/// row whose checksum does not fit is refused.
pub proof fn stored_snapshots_never_change(
    run_id: RunId,
    at_sequence: Sequence,
    existing: Seq<u8>,
    checksum: Seq<u8>,
    blob: Seq<u8>,
)
    ensures
        snapshot_clash(run_id, at_sequence, existing, checksum, blob) is None <==> existing == blob
            && checksum == content_digest(existing),
        checksum == content_digest(existing) && existing != blob ==> (snapshot_clash(
            run_id,
            at_sequence,
            existing,
            checksum,
            blob,
        ) matches Some(refused) && refused is InvalidTransition),
{
}

/// An artifact is stored again exactly where its row is intact and tells of
/// the same content, type and size; its trust is then that of the row or of
/// the new source, whichever is lower.
pub proof fn artifacts_are_stored_again(
    row: ArtifactRowView,
    reference: ArtifactRefView,
    bytes: Seq<u8>,
)
    ensures
        trust_after(row, reference, bytes) is Ok <==> {
            &&& row.checksum == content_digest(row.payload)
            &&& row.payload == bytes
            &&& row.media_type == reference.media_type
            &&& row.size_bytes == bytes.len()
            &&& trust_in(row.trust_tag) is Ok
        },
        trust_after(row, reference, bytes) matches Ok(trust) ==> {
            let before = trust_in(row.trust_tag)->Ok_0;
            &&& trust == before || trust == reference.trust
            &&& trust.rank() <= before.rank()
            &&& trust.rank() <= reference.trust.rank()
        },
{
}

/// A batch fits the database exactly where its identities differ and every
/// event can be encoded.
pub proof fn batches_fit_the_database(events: Seq<EventView>)
    ensures
        batch_refusal(events) is None <==> {
            &&& forall|i: int, j: int|
                0 <= i < j < events.len() ==> (#[trigger] events[i]).id != (#[trigger] events[j]).id
            &&& forall|i: int|
                0 <= i < events.len() ==> kind_within(
                    (#[trigger] events[i]).kind,
                    u32::MAX as int,
                )
        },
    decreases events.len(),
{
    if events.len() > 0 {
        let rest = events.drop_last();
        let last = events.len() - 1;
        batches_fit_the_database(rest);
        let apart = forall|i: int, j: int|
            0 <= i < j < events.len() ==> (#[trigger] events[i]).id != (#[trigger] events[j]).id;
        let fit = forall|i: int|
            0 <= i < events.len() ==> kind_within((#[trigger] events[i]).kind, u32::MAX as int);
        if apart && fit {
            assert forall|i: int, j: int| 0 <= i < j < rest.len() implies (#[trigger] rest[i]).id
                != (#[trigger] rest[j]).id by {
                assert(rest[i] == events[i] && rest[j] == events[j]);
            }
            assert forall|i: int| 0 <= i < rest.len() implies kind_within(
                (#[trigger] rest[i]).kind,
                u32::MAX as int,
            ) by {
                assert(rest[i] == events[i]);
            }
            assert(kind_within(events[last].kind, u32::MAX as int));
            if id_among(rest, events[last].id) {
                let i = choose|i: int|
                    0 <= i < rest.len() && (#[trigger] rest[i]).id == events[last].id;
                assert(events[i].id == events[last].id);
            }
        }
        if batch_refusal(events) is None {
            assert forall|i: int, j: int| 0 <= i < j < events.len() implies (
            #[trigger] events[i]).id != (#[trigger] events[j]).id by {
                assert(rest[i] == events[i]);
                if j < last {
                    assert(rest[j] == events[j]);
                } else {
                    assert(!id_among(rest, events[last].id));
                }
            }
            assert forall|i: int| 0 <= i < events.len() implies kind_within(
                (#[trigger] events[i]).kind,
                u32::MAX as int,
            ) by {
                if i < last {
                    assert(rest[i] == events[i]);
                }
            }
        }
    }
}

} // verus!
