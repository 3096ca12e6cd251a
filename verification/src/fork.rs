//! Forking a run: copying a prefix of its history into a child run, and
//! continuing the child.

use vstd::prelude::*;
use vstd::string::StringExecFns;

use crate::codec::outcome;
use crate::event_store::{
    bare, fork_check, of_run, of_run_members, rebuilt, select_up_to, snapshot_check, snapshot_of,
    stamped, stored_views, up_to, validate_fork_sequence, after, BranchMetadata, BranchStore,
    EventStore, ForkedRun, ReplayMode, StoredEvent, StoredEventView,
};
use crate::ids::{id_text, BranchId, EventId, IdSource, RunId};
use crate::kernel::{event_views, Event, EventKind, EventKindView, EventTrace, EventView};
use crate::memory_store::{batch_duplicate, sequences_from, InMemoryEventStore};
use crate::remap::{event_in_run, remap_event_for_run, VersionedPayload};
use crate::state::{
    initial_state, invalid, phrase, replay_composes, replayed, Sequence, StoreError, StoreErrorView,
};
use crate::table::{Record, Table};

verus! {

// ---------------------------------------------------------------------------
// Planning.

pub open spec fn ends_run(kind: EventKindView) -> bool {
    kind is RunCompleted || kind is RunCancelled || kind is RunFailed
}

pub open spec fn has_terminal(events: Seq<StoredEventView>) -> bool {
    exists|i: int| 0 <= i < events.len() && ends_run((#[trigger] events[i]).event.kind)
}

/// Events moved to a child run, under fresh identities. `tools` holds the
/// payloads that the tool runtime re-encoded, by the event they belong to.
pub open spec fn moved_prefix(
    prefix: Seq<StoredEventView>,
    child_run_id: RunId,
    fresh: Seq<EventId>,
    tools: Map<EventId, (u16, Seq<u8>)>,
) -> Seq<EventView> {
    Seq::new(
        prefix.len(),
        |i: int|
            event_in_run(
                prefix[i].event,
                child_run_id,
                fresh[i],
                tools.get(prefix[i].event.id),
            ),
    )
}

/// The identities a source issues next.
pub open spec fn fresh_events(ids: IdSource, count: nat) -> Seq<EventId> {
    Seq::new(count, |i: int| EventId(ids.upcoming(i as nat)))
}

/// What the child run begins with, or why the fork is refused.
pub open spec fn fork_plan(
    parent_events: Seq<StoredEventView>,
    branch: BranchMetadata,
    child_run_id: RunId,
    ids: IdSource,
    tools: Map<EventId, (u16, Seq<u8>)>,
) -> Result<Seq<EventView>, StoreErrorView> {
    let prefix = up_to(parent_events, branch.fork_sequence);
    match fork_check(parent_events, branch.parent_run_id, branch.fork_sequence) {
        Err(error) => Err(error),
        Ok(_) => if branch.replay_mode.live() && has_terminal(prefix) {
            Err(
                StoreErrorView::InvalidTransition(
                    "live fork cannot begin after a terminal parent event"@,
                ),
            )
        } else {
            Ok(moved_prefix(prefix, child_run_id, fresh_events(ids, prefix.len()), tools))
        },
    }
}

fn contains_terminal(events: &Vec<StoredEvent>) -> (found: bool)
    ensures
        found == has_terminal(stored_views(events@)),
{
    let ghost views = stored_views(events@);
    let mut index: usize = 0;
    while index < events.len()
        invariant
            index <= events@.len(),
            views == stored_views(events@),
            forall|i: int| 0 <= i < index ==> !ends_run((#[trigger] views[i]).event.kind),
        decreases events.len() - index,
    {
        let terminal = matches!(
            events[index].event.kind,
            EventKind::RunCompleted { .. } | EventKind::RunCancelled { .. } | EventKind::RunFailed {
                ..
            }
        );
        assert(views[index as int] == events@[index as int]@);
        if terminal {
            return true;
        }
        index += 1;
    }
    false
}

proof fn up_to_is_no_longer(events: Seq<StoredEventView>, sequence: Sequence)
    ensures
        up_to(events, sequence).len() <= events.len(),
    decreases events.len(),
{
    if events.len() > 0 {
        up_to_is_no_longer(events.drop_last(), sequence);
    }
}

proof fn of_run_is_no_longer(events: Seq<StoredEventView>, run_id: RunId)
    ensures
        of_run(events, run_id).len() <= events.len(),
    decreases events.len(),
{
    if events.len() > 0 {
        of_run_is_no_longer(events.drop_last(), run_id);
    }
}

/// Plans a fork from the parent's events: the prefix up to the fork, moved to
/// the child run.
pub fn plan_fork(
    ids: &mut IdSource,
    parent_events: &Vec<StoredEvent>,
    branch: &BranchMetadata,
    child_run_id: RunId,
    tools: &Table<EventId, VersionedPayload>,
) -> (result: Result<Vec<Event>, StoreError>)
    requires
        old(ids).can_issue(parent_events@.len()),
    ensures
        match fork_plan(stored_views(parent_events@), *branch, child_run_id, *old(ids), tools@) {
            Ok(prefix) => {
                &&& result is Ok
                &&& event_views(result->Ok_0@) == prefix
                &&& final(ids).issued_from(old(ids), prefix.len())
            },
            Err(error) => {
                &&& result is Err
                &&& result->Err_0@ == error
                &&& final(ids).issued_from(old(ids), 0)
            },
        },
{
    validate_fork_sequence(parent_events, branch.parent_run_id, branch.fork_sequence)?;
    let prefix = select_up_to(parent_events, branch.fork_sequence);
    let ghost views = stored_views(prefix@);
    proof {
        up_to_is_no_longer(stored_views(parent_events@), branch.fork_sequence);
        assert(views.len() == prefix@.len());
    }
    if branch.replay_mode != ReplayMode::Recorded && contains_terminal(&prefix) {
        return Err(invalid("live fork cannot begin after a terminal parent event"));
    }
    let ghost fresh = fresh_events(*ids, views.len());
    let ghost whole = moved_prefix(views, child_run_id, fresh, tools@);
    let mut moved: Vec<Event> = Vec::new();
    let mut index: usize = 0;
    assert(event_views(moved@) =~= whole.take(0));
    while index < prefix.len()
        invariant
            index <= prefix@.len(),
            views == stored_views(prefix@),
            fresh == fresh_events(*old(ids), views.len()),
            whole == moved_prefix(views, child_run_id, fresh, tools@),
            event_views(moved@) == whole.take(index as int),
            old(ids).can_issue(prefix@.len()),
            ids.issued_from(old(ids), index as nat),
        decreases prefix.len() - index,
    {
        let stored = &prefix[index];
        let ghost before = event_views(moved@);
        let event = remap_event_for_run(
            ids,
            &stored.event,
            child_run_id,
            tools.get(&stored.event.id),
        );
        moved.push(event);
        index += 1;
        proof {
            assert(views[index - 1] == stored@);
            assert(event@ == whole[index - 1]);
            assert(event_views(moved@) =~= before.push(event@));
            assert(whole.take(index as int) =~= whole.take(index - 1).push(whole[index - 1]));
        }
    }
    assert(whole.take(whole.len() as int) =~= whole);
    Ok(moved)
}

// ---------------------------------------------------------------------------
// Materializing.

/// Why a child run is refused, given how many events it has.
pub open spec fn child_check(events: nat, child_run_id: RunId) -> Result<(), StoreErrorView> {
    if events > 0 {
        Err(
            StoreErrorView::InvalidTransition(
                "child run "@ + id_text("run"@, child_run_id.0) + " already has events"@,
            ),
        )
    } else {
        Ok(())
    }
}

/// Checks that a child run has no events yet.
pub fn check_new_child(existing: &Vec<StoredEvent>, child_run_id: RunId) -> (result: Result<
    (),
    StoreError,
>)
    ensures
        outcome(result) == child_check(existing@.len(), child_run_id),
{
    if existing.len() > 0 {
        return Err(
            StoreError::InvalidTransition(
                phrase("child run ", child_run_id.to_text().as_str(), " already has events"),
            ),
        );
    }
    Ok(())
}

/// The branch to fork, given what was found under its identity.
pub open spec fn branch_to_fork(
    found: Option<BranchMetadata>,
    branch_id: BranchId,
    child_run_id: RunId,
) -> Result<BranchMetadata, StoreErrorView> {
    match found {
        None => Err(StoreErrorView::UnknownBranch(branch_id)),
        Some(branch) => if branch.parent_run_id == child_run_id {
            Err(StoreErrorView::InvalidTransition("child run must differ from parent run"@))
        } else {
            Ok(branch)
        },
    }
}

/// Checks that a branch is there and belongs to another run.
pub fn forkable_branch(
    found: Option<BranchMetadata>,
    branch_id: BranchId,
    child_run_id: RunId,
) -> (result: Result<BranchMetadata, StoreError>)
    ensures
        outcome(result) == branch_to_fork(found, branch_id, child_run_id),
{
    let branch = match found {
        Some(branch) => branch,
        None => {
            return Err(StoreError::UnknownBranch(branch_id));
        },
    };
    if branch.parent_run_id == child_run_id {
        return Err(invalid("child run must differ from parent run"));
    }
    Ok(branch)
}

/// What is said of a fork whose events were appended.
pub fn forked_run(
    branch: &BranchMetadata,
    child_run_id: RunId,
    child_sequences: Vec<Sequence>,
    prefix: Vec<Event>,
) -> (fork: ForkedRun)
    ensures
        fork.branch_id == branch.branch_id,
        fork.parent_run_id == branch.parent_run_id,
        fork.child_run_id == child_run_id,
        fork.fork_sequence == branch.fork_sequence,
        fork.replay_mode == branch.replay_mode,
        fork.copied_event_count == child_sequences@.len() as u64,
        fork.child_sequences@ == child_sequences@,
        fork.child_prefix@ == event_views(prefix@),
{
    ForkedRun {
        branch_id: branch.branch_id,
        parent_run_id: branch.parent_run_id,
        child_run_id,
        fork_sequence: branch.fork_sequence,
        replay_mode: branch.replay_mode,
        copied_event_count: child_sequences.len() as u64,
        child_sequences,
        child_prefix: EventTrace { events: prefix },
    }
}

/// The events that a fork appends, or why it is refused.
pub open spec fn fork_result(
    history: Seq<StoredEventView>,
    branches: Map<BranchId, BranchMetadata>,
    ids: IdSource,
    tools: Map<EventId, (u16, Seq<u8>)>,
    branch_id: BranchId,
    child_run_id: RunId,
) -> Result<Seq<EventView>, StoreErrorView> {
    match child_check(of_run(history, child_run_id).len(), child_run_id) {
        Err(error) => Err(error),
        Ok(_) => match branch_to_fork(branches.get(branch_id), branch_id, child_run_id) {
            Err(error) => Err(error),
            Ok(branch) => match fork_plan(
                of_run(history, branch.parent_run_id),
                branch,
                child_run_id,
                ids,
                tools,
            ) {
                Err(error) => Err(error),
                Ok(prefix) => appendable(history, prefix),
            },
        },
    }
}

/// Events that a store takes, or the identity that is in the way.
pub open spec fn appendable(history: Seq<StoredEventView>, events: Seq<EventView>) -> Result<
    Seq<EventView>,
    StoreErrorView,
> {
    match batch_duplicate(history, events) {
        Some(id) => Err(StoreErrorView::DuplicateEvent(id)),
        None => Ok(events),
    }
}

/// A store in which forks can be materialized.
pub trait ForkStore: BranchStore {
    fn materialize_fork(
        &mut self,
        ids: &mut IdSource,
        branch_id: BranchId,
        child_run_id: RunId,
        tools: &Table<EventId, VersionedPayload>,
    ) -> (result: Result<ForkedRun, StoreError>)
        requires
            old(self).valid(),
            old(ids).can_issue(old(self).history().len()),
        ensures
            final(self).valid(),
            match result {
                Ok(fork) => materialized(
                    old(self).history(),
                    old(self).branches(),
                    *old(ids),
                    tools@,
                    fork,
                    final(self).history(),
                ) && fork.branch_id == branch_id && fork.child_run_id == child_run_id,
                Err(_) => final(self).history() == old(self).history(),
            },
            // What refuses a fork, whatever else the store may report.
            of_run(old(self).history(), child_run_id).len() > 0 ==> result is Err,
            !old(self).branches().contains_key(branch_id) ==> result is Err,
            old(self).branches().contains_key(branch_id) ==> {
                let branch = old(self).branches()[branch_id];
                &&& branch.parent_run_id == child_run_id ==> result is Err
                &&& fork_plan(
                    of_run(old(self).history(), branch.parent_run_id),
                    branch,
                    child_run_id,
                    *old(ids),
                    tools@,
                ) is Err ==> result is Err
            },
            // Where the store itself does not fail, only the request decides.
            final(self).reliable() == old(self).reliable(),
            old(self).reliable() ==> match fork_result(
                old(self).history(),
                old(self).branches(),
                *old(ids),
                tools@,
                branch_id,
                child_run_id,
            ) {
                Ok(prefix) => result matches Ok(fork) && fork.child_prefix@ == prefix,
                Err(refused) => result matches Err(error) && error@ == refused,
            },
    ;
}

/// What a materialized fork says, and what it left behind.
pub open spec fn materialized(
    before: Seq<StoredEventView>,
    branches: Map<BranchId, BranchMetadata>,
    ids: IdSource,
    tools: Map<EventId, (u16, Seq<u8>)>,
    fork: ForkedRun,
    after: Seq<StoredEventView>,
) -> bool {
    let branch = branches[fork.branch_id];
    let prefix = fork.child_prefix@;
    &&& branches.contains_key(fork.branch_id)
    &&& fork.parent_run_id == branch.parent_run_id
    &&& fork.fork_sequence == branch.fork_sequence
    &&& fork.replay_mode == branch.replay_mode
    &&& fork.child_run_id != fork.parent_run_id
    &&& of_run(before, fork.child_run_id).len() == 0
    &&& fork_plan(
        of_run(before, fork.parent_run_id),
        branch,
        fork.child_run_id,
        ids,
        tools,
    ) == Ok::<Seq<EventView>, StoreErrorView>(prefix)
    &&& fork.child_sequences@.len() == prefix.len()
    &&& fork.copied_event_count == prefix.len() as u64
    &&& after == before + stamped(fork.child_sequences@, prefix)
}

impl<T: BranchStore> ForkStore for T {
    fn materialize_fork(
        &mut self,
        ids: &mut IdSource,
        branch_id: BranchId,
        child_run_id: RunId,
        tools: &Table<EventId, VersionedPayload>,
    ) -> (result: Result<ForkedRun, StoreError>) {
        let existing = self.events(child_run_id)?;
        assert(stored_views(existing@).len() == existing@.len());
        check_new_child(&existing, child_run_id)?;
        let branch = forkable_branch(self.branch(branch_id)?, branch_id, child_run_id)?;
        let parent_events = self.events(branch.parent_run_id)?;
        proof {
            of_run_is_no_longer(self.history(), branch.parent_run_id);
            assert(stored_views(parent_events@).len() == parent_events@.len());
        }
        let prefix = plan_fork(ids, &parent_events, &branch, child_run_id, tools)?;
        let child_sequences = self.append_batch(prefix.as_slice())?;
        let mut forked = forked_run(&branch, child_run_id, child_sequences, prefix);
        forked.branch_id = branch_id;
        Ok(forked)
    }
}

// ---------------------------------------------------------------------------
// Continuing.

pub open spec fn starts_with(list: Seq<EventView>, prefix: Seq<EventView>) -> bool {
    prefix.len() <= list.len() && list.take(prefix.len() as int) == prefix
}

pub open spec fn all_of_run(events: Seq<EventView>, run_id: RunId) -> bool {
    forall|i: int| 0 <= i < events.len() ==> (#[trigger] events[i]).run_id == run_id
}

/// The projection of prefix and continuation together accepts them.
pub open spec fn continuation_replays(
    prefix: Seq<EventView>,
    continuation: Seq<EventView>,
    run_id: RunId,
) -> Result<(), StoreErrorView> {
    let start = stamped(sequences_from(1, prefix.len()), prefix);
    match batch_duplicate(Seq::<StoredEventView>::empty(), prefix) {
        Some(id) => Err(StoreErrorView::DuplicateEvent(id)),
        None => match batch_duplicate(start, continuation) {
            Some(id) => Err(StoreErrorView::DuplicateEvent(id)),
            None => {
                let next = crate::memory_store::sequence_ahead(1, prefix.len());
                let whole = start + stamped(
                    sequences_from(next, continuation.len()),
                    continuation,
                );
                match rebuilt(whole, run_id) {
                    Err(error) => Err(error),
                    Ok(_) => Ok(()),
                }
            },
        },
    }
}

/// The new events of a continued fork, or why they are refused.
pub open spec fn continuation_of(
    child_run_id: RunId,
    prefix: Seq<EventView>,
    execution: Seq<EventView>,
    persisted: Seq<EventView>,
) -> Result<Seq<EventView>, StoreErrorView> {
    let continuation = execution.skip(prefix.len() as int);
    if !starts_with(execution, prefix) {
        Err(
            StoreErrorView::InvalidTransition(
                "fork continuation does not preserve the materialized child prefix"@,
            ),
        )
    } else if !starts_with(persisted, prefix) {
        Err(
            StoreErrorView::InvalidTransition(
                "fork child prefix is not present in the target store"@,
            ),
        )
    } else if continuation.len() == 0 {
        Err(StoreErrorView::InvalidTransition("fork continuation contains no new events"@))
    } else if !all_of_run(continuation, child_run_id) {
        Err(
            StoreErrorView::InvalidTransition(
                "fork continuation contains an event from another run"@,
            ),
        )
    } else {
        match continuation_replays(prefix, continuation, child_run_id) {
            Err(error) => Err(error),
            Ok(_) => Ok(continuation),
        }
    }
}

fn events_start_with(list: &[Event], prefix: &[Event]) -> (result: bool)
    ensures
        result == starts_with(event_views(list@), event_views(prefix@)),
{
    let ghost all = event_views(list@);
    let ghost want = event_views(prefix@);
    if list.len() < prefix.len() {
        return false;
    }
    let mut index: usize = 0;
    while index < prefix.len()
        invariant
            index <= prefix@.len(),
            prefix@.len() <= list@.len(),
            all == event_views(list@),
            want == event_views(prefix@),
            forall|i: int| 0 <= i < index ==> all[i] == #[trigger] want[i],
        decreases prefix.len() - index,
    {
        if !list[index].same(&prefix[index]) {
            proof {
                assert(all.take(want.len() as int)[index as int] == list@[index as int]@);
                assert(want[index as int] == prefix@[index as int]@);
            }
            return false;
        }
        assert(want[index as int] == prefix@[index as int]@);
        index += 1;
    }
    assert(all.take(want.len() as int) =~= want);
    true
}

/// Checks what a continued fork adds, given what the store holds of the
/// child run.
pub fn check_continuation(
    fork: &ForkedRun,
    execution_trace: &EventTrace,
    persisted: &Vec<Event>,
) -> (result: Result<Vec<Event>, StoreError>)
    ensures
        match continuation_of(
            fork.child_run_id,
            fork.child_prefix@,
            execution_trace@,
            event_views(persisted@),
        ) {
            Ok(continuation) => result is Ok && event_views(result->Ok_0@) == continuation,
            Err(error) => result is Err && result->Err_0@ == error,
        },
{
    let prefix = fork.child_prefix.events();
    let execution = execution_trace.events();
    if !events_start_with(execution, prefix) {
        return Err(
            invalid("fork continuation does not preserve the materialized child prefix"),
        );
    }
    if !events_start_with(persisted.as_slice(), prefix) {
        return Err(invalid("fork child prefix is not present in the target store"));
    }
    let ghost views = execution_trace@;
    let ghost rest = views.skip(prefix@.len() as int);
    assert(event_views(prefix@).len() == prefix@.len());
    assert(event_views(execution@).len() == execution@.len());
    if execution.len() == prefix.len() {
        return Err(invalid("fork continuation contains no new events"));
    }
    let mut continuation: Vec<Event> = Vec::new();
    let mut foreign = false;
    let mut index: usize = prefix.len();
    assert(event_views(continuation@) =~= rest.take(0));
    while index < execution.len()
        invariant
            prefix@.len() <= index <= execution@.len(),
            views == event_views(execution@),
            rest == views.skip(prefix@.len() as int),
            event_views(continuation@) == rest.take(index - prefix@.len()),
            foreign == !all_of_run(rest.take(index - prefix@.len()), fork.child_run_id),
        decreases execution.len() - index,
    {
        let event = &execution[index];
        let ghost before = rest.take(index - prefix@.len());
        let ghost next = rest.take(index + 1 - prefix@.len());
        proof {
            assert(next =~= before.push(event@));
            assert(next[next.len() - 1] == event@);
            if !all_of_run(before, fork.child_run_id) {
                let i = choose|i: int|
                    0 <= i < before.len() && (#[trigger] before[i]).run_id != fork.child_run_id;
                assert(next[i].run_id != fork.child_run_id);
            } else {
                assert forall|i: int| 0 <= i < next.len() - 1 implies (
                #[trigger] next[i]).run_id == fork.child_run_id by {
                    assert(before[i] == next[i]);
                }
            }
        }
        if event.run_id != fork.child_run_id {
            foreign = true;
        }
        let ghost had = event_views(continuation@);
        continuation.push(event.clone());
        assert(event_views(continuation@) =~= had.push(event@));
        index += 1;
    }
    assert(rest.take(rest.len() as int) =~= rest);
    if foreign {
        return Err(invalid("fork continuation contains an event from another run"));
    }
    let mut validation = InMemoryEventStore::new();
    validation.append_batch(prefix)?;
    proof {
        let none = Seq::<StoredEventView>::empty();
        let start = stamped(sequences_from(1, prefix@.len()), event_views(prefix@));
        assert(none + start =~= start);
    }
    validation.append_batch(continuation.as_slice())?;
    validation.reconstruct(fork.child_run_id)?;
    Ok(continuation)
}

/// Stores what a continued fork adds, once it is known to extend the child
/// run as it is stored. Only the new events are appended.
pub fn persist_fork_continuation<S: EventStore>(
    store: &mut S,
    fork: &ForkedRun,
    execution_trace: &EventTrace,
) -> (result: Result<Vec<Sequence>, StoreError>)
    requires
        old(store).valid(),
    ensures
        final(store).valid(),
        match result {
            Ok(sequences) => {
                let checked = continuation_of(
                    fork.child_run_id,
                    fork.child_prefix@,
                    execution_trace@,
                    bare(of_run(old(store).history(), fork.child_run_id)),
                );
                &&& checked is Ok
                &&& sequences@.len() == checked->Ok_0.len()
                &&& final(store).history() == old(store).history() + stamped(
                    sequences@,
                    checked->Ok_0,
                )
            },
            Err(_) => final(store).history() == old(store).history(),
        },
        continuation_of(
            fork.child_run_id,
            fork.child_prefix@,
            execution_trace@,
            bare(of_run(old(store).history(), fork.child_run_id)),
        ) is Err ==> result is Err,
        final(store).reliable() == old(store).reliable(),
        old(store).reliable() ==> match continuation_of(
            fork.child_run_id,
            fork.child_prefix@,
            execution_trace@,
            bare(of_run(old(store).history(), fork.child_run_id)),
        ) {
            Err(refused) => result matches Err(error) && error@ == refused,
            Ok(continuation) => match appendable(old(store).history(), continuation) {
                Err(refused) => result matches Err(error) && error@ == refused,
                Ok(_) => result is Ok,
            },
        },
{
    let stored = store.events(fork.child_run_id)?;
    let mut persisted: Vec<Event> = Vec::new();
    let mut index: usize = 0;
    assert(event_views(persisted@) =~= bare(stored_views(stored@.take(0))));
    while index < stored.len()
        invariant
            index <= stored@.len(),
            event_views(persisted@) == bare(stored_views(stored@.take(index as int))),
        decreases stored.len() - index,
    {
        let ghost had = event_views(persisted@);
        persisted.push(stored[index].event.clone());
        index += 1;
        proof {
            assert(event_views(persisted@) =~= had.push(stored@[index - 1].event@));
            assert(event_views(persisted@) =~= bare(stored_views(stored@.take(index as int))));
        }
    }
    assert(stored@.take(stored@.len() as int) =~= stored@);
    let continuation = check_continuation(fork, execution_trace, &persisted)?;
    store.append_batch(continuation.as_slice())
}

// ---------------------------------------------------------------------------
// Laws of histories and forks.

/// Appending events of other runs does not change what a run's history is.
pub proof fn appends_are_isolated(
    history: Seq<StoredEventView>,
    added: Seq<StoredEventView>,
    run_id: RunId,
)
    requires
        forall|i: int| 0 <= i < added.len() ==> (#[trigger] added[i]).event.run_id != run_id,
    ensures
        of_run(history + added, run_id) == of_run(history, run_id),
    decreases added.len(),
{
    if added.len() == 0 {
        assert(history + added =~= history);
    } else {
        assert((history + added).drop_last() =~= history + added.drop_last());
        assert(added[added.len() - 1].event.run_id != run_id);
        assert forall|i: int| 0 <= i < added.drop_last().len() implies (
        #[trigger] added.drop_last()[i]).event.run_id != run_id by {
            assert(added.drop_last()[i] == added[i]);
        }
        appends_are_isolated(history, added.drop_last(), run_id);
    }
}

/// Events appended to a run are read back after those it had.
pub proof fn appends_are_read_back(
    history: Seq<StoredEventView>,
    added: Seq<StoredEventView>,
    run_id: RunId,
)
    requires
        forall|i: int| 0 <= i < added.len() ==> (#[trigger] added[i]).event.run_id == run_id,
    ensures
        of_run(history + added, run_id) == of_run(history, run_id) + added,
    decreases added.len(),
{
    if added.len() == 0 {
        assert(history + added =~= history);
        assert(of_run(history, run_id) + added =~= of_run(history, run_id));
    } else {
        assert((history + added).drop_last() =~= history + added.drop_last());
        assert(added[added.len() - 1].event.run_id == run_id);
        assert forall|i: int| 0 <= i < added.drop_last().len() implies (
        #[trigger] added.drop_last()[i]).event.run_id == run_id by {
            assert(added.drop_last()[i] == added[i]);
        }
        appends_are_read_back(history, added.drop_last(), run_id);
        assert(of_run(history + added, run_id) =~= of_run(history, run_id) + added);
    }
}

/// A fork leaves every other run as it was, the parent among them, and the
/// child holds exactly the moved prefix.
pub proof fn forks_are_isolated(
    before: Seq<StoredEventView>,
    branches: Map<BranchId, BranchMetadata>,
    ids: IdSource,
    tools: Map<EventId, (u16, Seq<u8>)>,
    fork: ForkedRun,
    after: Seq<StoredEventView>,
    other: RunId,
)
    requires
        materialized(before, branches, ids, tools, fork, after),
        other != fork.child_run_id,
    ensures
        of_run(after, other) == of_run(before, other),
        bare(of_run(after, fork.child_run_id)) == fork.child_prefix@,
        all_of_run(fork.child_prefix@, fork.child_run_id),
{
    let prefix = fork.child_prefix@;
    let added = stamped(fork.child_sequences@, prefix);
    let parent = up_to(of_run(before, fork.parent_run_id), fork.fork_sequence);
    assert(prefix == moved_prefix(
        parent,
        fork.child_run_id,
        fresh_events(ids, parent.len()),
        tools,
    ));
    assert forall|i: int| 0 <= i < prefix.len() implies (#[trigger] prefix[i]).run_id
        == fork.child_run_id by {}
    assert forall|i: int| 0 <= i < added.len() implies (#[trigger] added[i]).event.run_id
        == fork.child_run_id by {
        assert(added[i].event == prefix[i]);
    }
    appends_are_isolated(before, added, other);
    appends_are_read_back(before, added, fork.child_run_id);
    assert(of_run(before, fork.child_run_id) =~= seq![]);
    assert(bare(of_run(after, fork.child_run_id)) =~= prefix);
}

/// In a history whose sequences never fall, a snapshot taken of a run passes
/// the check that saving it makes.
pub proof fn snapshots_are_accepted(history: Seq<StoredEventView>, run_id: RunId)
    requires
        forall|i: int, j: int|
            #![trigger history[i], history[j]]
            0 <= i < j < history.len() ==> history[i].sequence <= history[j].sequence,
        snapshot_of(history, run_id) is Ok,
        history.len() <= u64::MAX,
    ensures
        snapshot_check(history, snapshot_of(history, run_id)->Ok_0) is Ok,
{
    let events = of_run(history, run_id);
    let last = events.last().sequence;
    of_run_never_falls(history, run_id);
    of_run_is_no_longer(history, run_id);
    whole_prefix(events, last);
    crate::state::replay_counts_events(initial_state(run_id), bare(events));
}

proof fn of_run_never_falls(history: Seq<StoredEventView>, run_id: RunId)
    requires
        forall|i: int, j: int|
            #![trigger history[i], history[j]]
            0 <= i < j < history.len() ==> history[i].sequence <= history[j].sequence,
    ensures
        forall|i: int, j: int|
            #![trigger of_run(history, run_id)[i], of_run(history, run_id)[j]]
            0 <= i < j < of_run(history, run_id).len() ==> of_run(history, run_id)[i].sequence
                <= of_run(history, run_id)[j].sequence,
    decreases history.len(),
{
    if history.len() > 0 {
        let front = history.drop_last();
        assert forall|i: int, j: int|
            #![trigger front[i], front[j]]
            0 <= i < j < front.len() implies front[i].sequence <= front[j].sequence by {
            assert(front[i] == history[i] && front[j] == history[j]);
        }
        of_run_never_falls(front, run_id);
        of_run_members(front, run_id);
        let all = of_run(history, run_id);
        let part = of_run(front, run_id);
        assert forall|i: int, j: int| #![trigger all[i], all[j]] 0 <= i < j < all.len() implies all[i].sequence
            <= all[j].sequence by {
            assert(all[i] == part[i]);
            if j < part.len() {
                assert(all[j] == part[j]);
            } else {
                let k = choose|k: int| 0 <= k < front.len() && front[k] == part[i];
                assert(history[k] == part[i]);
                assert(history[history.len() - 1] == all[j]);
            }
        }
    }
}

/// Nothing of a list is later than its last event.
proof fn whole_prefix(events: Seq<StoredEventView>, limit: Sequence)
    requires
        forall|i: int| 0 <= i < events.len() ==> (#[trigger] events[i]).sequence <= limit,
    ensures
        up_to(events, limit) == events,
    decreases events.len(),
{
    if events.len() > 0 {
        assert(events[events.len() - 1].sequence <= limit);
        assert forall|i: int| 0 <= i < events.drop_last().len() implies (
        #[trigger] events.drop_last()[i]).sequence <= limit by {
            assert(events.drop_last()[i] == events[i]);
        }
        whole_prefix(events.drop_last(), limit);
        assert(events =~= events.drop_last().push(events.last()));
    } else {
        assert(up_to(events, limit) =~= events);
    }
}

/// Replaying what came after a snapshot onto its state gives the state of
/// the whole run.
pub proof fn snapshot_and_later_events_rebuild(
    events: Seq<StoredEventView>,
    run_id: RunId,
    at_sequence: Sequence,
)
    requires
        forall|i: int, j: int|
            #![trigger events[i], events[j]]
            0 <= i < j < events.len() ==> events[i].sequence <= events[j].sequence,
        replayed(initial_state(run_id), bare(up_to(events, at_sequence))) is Ok,
    ensures
        up_to(events, at_sequence) + after(events, at_sequence) == events,
        replayed(
            replayed(initial_state(run_id), bare(up_to(events, at_sequence)))->Ok_0,
            bare(after(events, at_sequence)),
        ) == replayed(initial_state(run_id), bare(events)),
{
    split_at_sequence(events, at_sequence);
    let early = up_to(events, at_sequence);
    let late = after(events, at_sequence);
    assert(bare(events) =~= bare(early) + bare(late));
    replay_composes(initial_state(run_id), bare(early), bare(late));
}

proof fn split_at_sequence(events: Seq<StoredEventView>, sequence: Sequence)
    requires
        forall|i: int, j: int|
            #![trigger events[i], events[j]]
            0 <= i < j < events.len() ==> events[i].sequence <= events[j].sequence,
    ensures
        up_to(events, sequence) + after(events, sequence) == events,
        events.len() > 0 && events.last().sequence <= sequence ==> after(events, sequence).len()
            == 0,
    decreases events.len(),
{
    if events.len() == 0 {
        assert(up_to(events, sequence) + after(events, sequence) =~= events);
    } else {
        let front = events.drop_last();
        assert forall|i: int, j: int|
            #![trigger front[i], front[j]]
            0 <= i < j < front.len() implies front[i].sequence <= front[j].sequence by {
            assert(front[i] == events[i] && front[j] == events[j]);
        }
        split_at_sequence(front, sequence);
        if events.last().sequence <= sequence {
            if front.len() > 0 {
                assert(events[front.len() - 1].sequence <= events[events.len() - 1].sequence);
                assert(front.last() == events[front.len() - 1]);
            }
            assert(after(front, sequence) =~= seq![]);
            assert(up_to(front, sequence) =~= front) by {
                assert(up_to(front, sequence) + after(front, sequence) =~= up_to(front, sequence));
            }
            assert(up_to(events, sequence) == front.push(events.last()));
            assert(after(events, sequence) == after(front, sequence));
            assert(events =~= front.push(events.last()));
            assert(up_to(events, sequence) + after(events, sequence) =~= events);
        } else {
            assert(after(events, sequence) == after(front, sequence).push(events.last()));
            assert(up_to(events, sequence) == up_to(front, sequence));
            assert(up_to(events, sequence) + after(events, sequence) =~= (up_to(front, sequence)
                + after(front, sequence)).push(events.last()));
            assert(events =~= front.push(events.last()));
        }
    }
}

} // verus!
