//! The in-memory event store.

use vstd::prelude::*;

use crate::codec::outcome;
use crate::event_store::{
    branches_of, branches_of_a_run_name_it, select_branches, select_snapshot, after, fork_check,
    id_stored, of_run, rebuilt, reconstruct_events, select_after, select_run, snapshot_check,
    snapshot_events, snapshot_of, stamped, stored_views, validate_fork_sequence, validate_snapshot,
    BranchMetadata, BranchStore, EventStore, RecordedReplay, ReplayMode, RuntimeSnapshot,
    RuntimeSnapshotView, SnapshotKey, SnapshotStore, StoredEvent, StoredEventView,
};
use crate::ids::{BranchId, EventId, IdSource, RunId};
use crate::kernel::{event_views, Event, EventTrace, EventView};
use crate::state::{RuntimeState, Sequence, StoreError, StoreErrorView};
use crate::table::{Record, Table, Replica};

verus! {

/// Events in memory, with the identities that are taken, the branches and
/// the snapshots.
#[derive(Debug)]
pub struct InMemoryEventStore {
    next_sequence: Sequence,
    events: Vec<StoredEvent>,
    event_ids: Table<EventId, Sequence>,
    branches: Table<BranchId, BranchMetadata>,
    snapshots: Table<SnapshotKey, RuntimeSnapshot>,
}

/// The sequence after one that was given out; it stops at the largest.
pub open spec fn sequence_after(sequence: Sequence) -> Sequence {
    if sequence == Sequence::MAX {
        Sequence::MAX
    } else {
        (sequence + 1) as Sequence
    }
}

/// The sequence `ahead` places on.
pub open spec fn sequence_ahead(sequence: Sequence, ahead: nat) -> Sequence {
    if sequence + ahead > Sequence::MAX {
        Sequence::MAX
    } else {
        (sequence + ahead) as Sequence
    }
}

/// Sequences grow along a history, and are below the next one, until they
/// reach the largest.
pub open spec fn sequences_grow(history: Seq<StoredEventView>, next: Sequence) -> bool {
    &&& forall|i: int, j: int|
        #![trigger history[i], history[j]]
        0 <= i < j < history.len() ==> history[i].sequence < history[j].sequence || (
        history[i].sequence <= history[j].sequence && history[j].sequence == Sequence::MAX)
    &&& forall|i: int|
        0 <= i < history.len() ==> (#[trigger] history[i]).sequence < next || next == Sequence::MAX
}

/// The first identity of a batch that is stored already or occurs in the
/// batch before.
pub open spec fn batch_duplicate(history: Seq<StoredEventView>, events: Seq<EventView>) -> Option<
    EventId,
>
    decreases events.len(),
{
    if events.len() == 0 {
        None
    } else {
        match batch_duplicate(history, events.drop_last()) {
            Some(id) => Some(id),
            None => if id_stored(history, events.last().id) || id_among(
                events.drop_last(),
                events.last().id,
            ) {
                Some(events.last().id)
            } else {
                None
            },
        }
    }
}

pub open spec fn id_among(events: Seq<EventView>, id: EventId) -> bool {
    exists|i: int| 0 <= i < events.len() && (#[trigger] events[i]).id == id
}

/// The sequences that a batch of events gets.
pub open spec fn sequences_from(next: Sequence, count: nat) -> Seq<Sequence> {
    Seq::new(count, |i: int| sequence_ahead(next, i as nat))
}

impl InMemoryEventStore {
    /// The sequence of the next event.
    pub closed spec fn upcoming(&self) -> Sequence {
        self.next_sequence
    }

    pub closed spec fn branch_map(&self) -> Map<BranchId, BranchMetadata> {
        self.branches@
    }

    pub closed spec fn snapshot_map(&self) -> Map<SnapshotKey, RuntimeSnapshotView> {
        self.snapshots@
    }

    closed spec fn ids_match(&self) -> bool {
        forall|id: EventId|
            #[trigger] self.event_ids@.contains_key(id) <==> id_stored(
                stored_views(self.events@),
                id,
            )
    }

    pub fn new() -> (store: InMemoryEventStore)
        ensures
            store.valid(),
            store.history() == Seq::<StoredEventView>::empty(),
            store.upcoming() == 1,
            store.branch_map() == Map::<BranchId, BranchMetadata>::empty(),
            store.snapshot_map() == Map::<SnapshotKey, RuntimeSnapshotView>::empty(),
    {
        let store = InMemoryEventStore {
            next_sequence: 1,
            events: Vec::new(),
            event_ids: Table::new(),
            branches: Table::new(),
            snapshots: Table::new(),
        };
        assert(store.history() =~= Seq::<StoredEventView>::empty());
        store
    }

    pub fn all_events(&self) -> (events: &[StoredEvent])
        ensures
            stored_views(events@) == self.history(),
    {
        self.events.as_slice()
    }

    pub(crate) fn stored(&self) -> (events: &Vec<StoredEvent>)
        ensures
            stored_views(events@) == self.history(),
    {
        &self.events
    }

    pub fn contains_event_id(&self, event_id: EventId) -> (present: bool)
        requires
            self.valid(),
        ensures
            present == id_stored(self.history(), event_id),
    {
        self.event_ids.contains_key(&event_id)
    }

    pub fn next_sequence(&self) -> (sequence: Sequence)
        ensures
            sequence == self.upcoming(),
    {
        self.next_sequence
    }

    /// Appends every event of a trace, or none.
    pub fn append_trace(&mut self, trace: &EventTrace) -> (result: Result<
        Vec<Sequence>,
        StoreError,
    >)
        requires
            old(self).valid(),
        ensures
            final(self).valid(),
            match batch_duplicate(old(self).history(), trace@) {
                Some(id) => {
                    &&& result is Err
                    &&& result->Err_0@ == StoreErrorView::DuplicateEvent(id)
                    &&& final(self).history() == old(self).history()
                },
                None => {
                    &&& result is Ok
                    &&& result->Ok_0@ == sequences_from(old(self).upcoming(), trace@.len())
                    &&& final(self).history() == old(self).history() + stamped(
                        result->Ok_0@,
                        trace@,
                    )
                },
            },
    {
        self.append_batch(trace.events())
    }

    /// The events of a run and the state they add up to, from the record
    /// alone.
    pub fn recorded_replay(&self, run_id: RunId) -> (result: Result<RecordedReplay, StoreError>)
        requires
            self.valid(),
        ensures
            match rebuilt(self.history(), run_id) {
                Ok(state) => {
                    &&& result is Ok
                    &&& result->Ok_0.recorded() == of_run(self.history(), run_id)
                    &&& result->Ok_0.rebuilt() == state
                },
                Err(error) => result is Err && result->Err_0@ == error,
            },
    {
        RecordedReplay::of_events(run_id, self.events(run_id)?)
    }

    /// Pushes one event that is known to be new.
    fn push_event(&mut self, event: Event) -> (sequence: Sequence)
        requires
            old(self).valid(),
            !id_stored(old(self).history(), event@.id),
        ensures
            final(self).valid(),
            sequence == old(self).upcoming(),
            final(self).upcoming() == sequence_after(old(self).upcoming()),
            final(self).history() == old(self).history().push(
                (StoredEventView { sequence, event: event@ }),
            ),
            final(self).branch_map() == old(self).branch_map(),
            final(self).snapshot_map() == old(self).snapshot_map(),
    {
        let ghost before = stored_views(self.events@);
        let sequence: Sequence = self.next_sequence;
        let id = event.id;
        self.next_sequence = sequence.saturating_add(1);
        self.event_ids.insert(id, sequence);
        self.events.push(StoredEvent { sequence, event });
        proof {
            let now = stored_views(self.events@);
            let added = StoredEventView { sequence, event: event@ };
            assert(now =~= before.push(added));
            assert(now[now.len() - 1].event.id == id);
            assert forall|other: EventId|
                #[trigger] self.event_ids@.contains_key(other) <==> id_stored(now, other) by {
                if id_stored(before, other) {
                    let i = choose|i: int|
                        0 <= i < before.len() && (#[trigger] before[i]).event.id == other;
                    assert(now[i].event.id == other);
                }
                if id_stored(now, other) && other != id {
                    let i = choose|i: int|
                        0 <= i < now.len() && (#[trigger] now[i]).event.id == other;
                    assert(before[i].event.id == other);
                }
            }
            assert forall|i: int, j: int|
                #![trigger now[i], now[j]]
                0 <= i < j < now.len() implies now[i].sequence < now[j].sequence || (
            now[i].sequence <= now[j].sequence && now[j].sequence == Sequence::MAX) by {
                assert(now[i] == before[i]);
                if j < before.len() {
                    assert(now[j] == before[j]);
                }
            }
            assert forall|i: int| 0 <= i < now.len() implies (#[trigger] now[i]).sequence
                < self.next_sequence || self.next_sequence == Sequence::MAX by {
                if i < before.len() {
                    assert(now[i] == before[i]);
                }
            }
        }
        sequence
    }

    /// Looks for an identity that a batch repeats.
    pub fn find_duplicate(&self, events: &[Event]) -> (duplicate: Option<EventId>)
        requires
            self.valid(),
        ensures
            duplicate == batch_duplicate(self.history(), event_views(events@)),
    {
        let ghost views = event_views(events@);
        let mut staged: Table<EventId, Sequence> = Table::new();
        let mut index: usize = 0;
        assert(views.take(0) =~= Seq::<EventView>::empty());
        while index < events.len()
            invariant
                self.valid(),
                index <= events@.len(),
                views == event_views(events@),
                batch_duplicate(self.history(), views.take(index as int)) is None,
                forall|id: EventId| #[trigger]
                    staged@.contains_key(id) <==> id_among(views.take(index as int), id),
            decreases events.len() - index,
        {
            let id = events[index].id;
            let ghost before = views.take(index as int);
            let ghost next = views.take(index + 1);
            proof {
                assert(next.drop_last() =~= before);
                assert(next.last() == events@[index as int]@);
            }
            let stored = self.event_ids.contains_key(&id);
            let repeated = staged.insert(id, 0);
            if stored || repeated {
                proof {
                    found_duplicate_stays(self.history(), views, index + 1);
                }
                return Some(id);
            }
            proof {
                assert forall|other: EventId| #[trigger]
                    staged@.contains_key(other) <==> id_among(next, other) by {
                    if id_among(before, other) {
                        let i = choose|i: int|
                            0 <= i < before.len() && (#[trigger] before[i]).id == other;
                        assert(next[i].id == other);
                    }
                    if other == id {
                        assert(next[index as int].id == other);
                    }
                    if id_among(next, other) && other != id {
                        let i = choose|i: int|
                            0 <= i < next.len() && (#[trigger] next[i]).id == other;
                        assert(before[i].id == other);
                    }
                }
            }
            index += 1;
        }
        assert(views.take(views.len() as int) =~= views);
        None
    }
}

impl Replica for u64 {
    fn replica(&self) -> (copy: u64) {
        *self
    }
}

impl Clone for InMemoryEventStore {
    fn clone(&self) -> (copy: InMemoryEventStore)
        ensures
            copy.valid() == self.valid(),
            copy.history() == self.history(),
            copy.upcoming() == self.upcoming(),
            copy.branch_map() == self.branch_map(),
            copy.snapshot_map() == self.snapshot_map(),
    {
        let mut events: Vec<StoredEvent> = Vec::new();
        let ghost views = stored_views(self.events@);
        let mut index: usize = 0;
        assert(stored_views(events@) =~= views.take(0));
        while index < self.events.len()
            invariant
                index <= self.events@.len(),
                views == stored_views(self.events@),
                stored_views(events@) == views.take(index as int),
            decreases self.events.len() - index,
        {
            let ghost before = events@;
            events.push(self.events[index].clone());
            index += 1;
            proof {
                assert(stored_views(events@) =~= stored_views(before).push(views[index - 1]));
                assert(stored_views(events@) =~= views.take(index as int));
            }
        }
        assert(views.take(views.len() as int) =~= views);
        let copy = InMemoryEventStore {
            next_sequence: self.next_sequence,
            events,
            event_ids: self.event_ids.clone(),
            branches: self.branches.clone(),
            snapshots: self.snapshots.clone(),
        };
        proof {
            assert(stored_views(copy.events@) == stored_views(self.events@));
            assert(copy.event_ids@ == self.event_ids@);
            assert(copy.ids_match() == self.ids_match()) by {
                assert(forall|id: EventId| #[trigger]
                    self.event_ids@.contains_key(id) == copy.event_ids@.contains_key(id));
            }
        }
        copy
    }
}

impl Default for InMemoryEventStore {
    fn default() -> (store: InMemoryEventStore)
        ensures
            store.valid(),
            store.history() == Seq::<StoredEventView>::empty(),
            store.upcoming() == 1,
    {
        InMemoryEventStore::new()
    }
}

proof fn found_duplicate_stays(history: Seq<StoredEventView>, events: Seq<EventView>, count: int)
    requires
        0 <= count <= events.len(),
        batch_duplicate(history, events.take(count)) is Some,
    ensures
        batch_duplicate(history, events) == batch_duplicate(history, events.take(count)),
    decreases events.len() - count,
{
    if count == events.len() {
        assert(events.take(count) =~= events);
    } else {
        assert(events.take(count + 1).drop_last() =~= events.take(count));
        found_duplicate_stays(history, events, count + 1);
    }
}

/// A batch without repeats has none in its parts, and its next event is new
/// after the events before it are stored.
proof fn next_of_batch_is_new(
    history: Seq<StoredEventView>,
    events: Seq<EventView>,
    sequences: Seq<Sequence>,
    count: int,
)
    requires
        batch_duplicate(history, events) is None,
        0 <= count < events.len(),
        sequences.len() == count,
    ensures
        !id_stored(history + stamped(sequences, events.take(count)), events[count].id),
{
    let part = events.take(count + 1);
    assert(batch_duplicate(history, part) is None) by {
        if batch_duplicate(history, part) is Some {
            found_duplicate_stays(history, events, count + 1);
        }
    }
    assert(part.drop_last() =~= events.take(count));
    assert(part.last() == events[count]);
    let whole = history + stamped(sequences, events.take(count));
    if id_stored(whole, events[count].id) {
        let i = choose|i: int|
            0 <= i < whole.len() && (#[trigger] whole[i]).event.id == events[count].id;
        if i < history.len() {
            assert(history[i].event.id == events[count].id);
        } else {
            assert(events.take(count)[i - history.len()].id == events[count].id);
        }
    }
}

impl EventStore for InMemoryEventStore {
    closed spec fn valid(&self) -> bool {
        &&& self.ids_match()
        &&& sequences_grow(stored_views(self.events@), self.next_sequence)
    }

    closed spec fn history(&self) -> Seq<StoredEventView> {
        stored_views(self.events@)
    }

    open spec fn reliable(&self) -> bool {
        true
    }

    fn append(&mut self, event: Event) -> (result: Result<Sequence, StoreError>)
        ensures
            if id_stored(old(self).history(), event@.id) {
                &&& result is Err
                &&& result->Err_0@ == StoreErrorView::DuplicateEvent(event@.id)
                &&& final(self).upcoming() == old(self).upcoming()
            } else {
                &&& result == Ok::<Sequence, StoreError>(old(self).upcoming())
                &&& final(self).upcoming() == sequence_after(old(self).upcoming())
            },
            final(self).branch_map() == old(self).branch_map(),
            final(self).snapshot_map() == old(self).snapshot_map(),
    {
        if self.event_ids.contains_key(&event.id) {
            return Err(StoreError::DuplicateEvent(event.id));
        }
        Ok(self.push_event(event))
    }

    fn append_batch(&mut self, events: &[Event]) -> (result: Result<Vec<Sequence>, StoreError>)
        ensures
            match batch_duplicate(old(self).history(), event_views(events@)) {
                Some(id) => {
                    &&& result is Err
                    &&& result->Err_0@ == StoreErrorView::DuplicateEvent(id)
                    &&& final(self).upcoming() == old(self).upcoming()
                },
                None => {
                    &&& result is Ok
                    &&& result->Ok_0@ == sequences_from(old(self).upcoming(), events@.len())
                    &&& final(self).upcoming() == sequence_ahead(
                        old(self).upcoming(),
                        events@.len(),
                    )
                },
            },
            final(self).branch_map() == old(self).branch_map(),
            final(self).snapshot_map() == old(self).snapshot_map(),
    {
        match self.find_duplicate(events) {
            Some(id) => {
                return Err(StoreError::DuplicateEvent(id));
            },
            None => {},
        }
        let ghost start = self.history();
        let ghost views = event_views(events@);
        let ghost next = self.upcoming();
        let mut sequences: Vec<Sequence> = Vec::new();
        let mut index: usize = 0;
        assert(start + stamped(sequences@, views.take(0)) =~= start);
        while index < events.len()
            invariant
                self.valid(),
                index <= events@.len(),
                start == old(self).history(),
                next == old(self).upcoming(),
                views == event_views(events@),
                batch_duplicate(start, views) is None,
                sequences@.len() == index,
                forall|i: int|
                    0 <= i < index ==> #[trigger] sequences@[i] == sequence_ahead(next, i as nat),
                self.upcoming() == sequence_ahead(next, index as nat),
                self.history() == start + stamped(sequences@, views.take(index as int)),
                self.branch_map() == old(self).branch_map(),
                self.snapshot_map() == old(self).snapshot_map(),
            decreases events.len() - index,
        {
            let ghost before = sequences@;
            proof {
                next_of_batch_is_new(start, views, sequences@, index as int);
            }
            let sequence: Sequence = self.push_event(events[index].clone());
            sequences.push(sequence);
            index += 1;
            proof {
                let was = start + stamped(before, views.take(index - 1));
                let now = start + stamped(sequences@, views.take(index as int));
                let added = StoredEventView { sequence, event: views[index - 1] };
                assert(now =~= was.push(added));
            }
        }
        proof {
            assert(views.take(views.len() as int) =~= views);
            assert(sequences@ =~= sequences_from(next, events@.len()));
        }
        Ok(sequences)
    }

    fn events(&self, run_id: RunId) -> (result: Result<Vec<StoredEvent>, StoreError>)
        ensures
            result is Ok,
    {
        Ok(select_run(&self.events, run_id))
    }

    fn events_since(&self, run_id: RunId, sequence: Sequence) -> (result: Result<
        Vec<StoredEvent>,
        StoreError,
    >)
        ensures
            result is Ok,
    {
        let own = select_run(&self.events, run_id);
        Ok(select_after(&own, sequence))
    }

    fn reconstruct(&self, run_id: RunId) -> (result: Result<RuntimeState, StoreError>)
        ensures
            outcome(result) == rebuilt(self.history(), run_id),
    {
        let own = select_run(&self.events, run_id);
        assert(stored_views(own@).len() == own@.len());
        reconstruct_events(run_id, &own)
    }

    fn snapshot(&self, run_id: RunId) -> (result: Result<RuntimeSnapshot, StoreError>)
        ensures
            outcome(result) == snapshot_of(self.history(), run_id),
    {
        let own = select_run(&self.events, run_id);
        assert(stored_views(own@).len() == own@.len());
        snapshot_events(run_id, &own)
    }
}

impl BranchStore for InMemoryEventStore {
    open spec fn branches(&self) -> Map<BranchId, BranchMetadata> {
        self.branch_map()
    }

    fn create_branch(
        &mut self,
        ids: &mut IdSource,
        parent_run_id: RunId,
        fork_sequence: Sequence,
        replay_mode: ReplayMode,
        created_at_ms: u64,
    ) -> (result: Result<BranchMetadata, StoreError>)
        ensures
            match fork_check(old(self).history(), parent_run_id, fork_sequence) {
                Ok(_) => result is Ok && final(ids).issued_from(old(ids), 1),
                Err(error) => result is Err && result->Err_0@ == error && final(ids).issued_from(
                    old(ids),
                    0,
                ),
            },
            final(self).upcoming() == old(self).upcoming(),
            final(self).snapshot_map() == old(self).snapshot_map(),
    {
        validate_fork_sequence(&self.events, parent_run_id, fork_sequence)?;
        let branch = BranchMetadata {
            branch_id: BranchId::new(ids),
            parent_run_id,
            fork_sequence,
            replay_mode,
            created_at_ms,
        };
        self.branches.insert(branch.branch_id, branch);
        Ok(branch)
    }

    fn branch(&self, branch_id: BranchId) -> (result: Result<Option<BranchMetadata>, StoreError>)
        ensures
            result is Ok,
    {
        match self.branches.get(&branch_id) {
            Some(branch) => Ok(Some(*branch)),
            None => Ok(None),
        }
    }

    fn branches_for_run(&self, parent_run_id: RunId) -> (result: Result<
        Vec<BranchMetadata>,
        StoreError,
    >)
        ensures
            result is Ok,
            result->Ok_0@ == branches_of(self.branch_map(), parent_run_id),
    {
        let found = select_branches(&self.branches, parent_run_id);
        proof {
            assert forall|branch: BranchMetadata| #[trigger] found@.contains(branch) <==> (
            branch.parent_run_id == parent_run_id && exists|id: BranchId|
                self.branches().contains_key(id) && #[trigger] self.branches()[id] == branch) by {
                branches_of_a_run_name_it(self.branches(), parent_run_id, branch);
            }
        }
        Ok(found)
    }
}

impl SnapshotStore for InMemoryEventStore {
    open spec fn snapshots(&self) -> Map<SnapshotKey, RuntimeSnapshotView> {
        self.snapshot_map()
    }

    fn save_snapshot(&mut self, snapshot: &RuntimeSnapshot) -> (result: Result<(), StoreError>)
        ensures
            outcome(result) == snapshot_check(old(self).history(), snapshot@),
            final(self).upcoming() == old(self).upcoming(),
            final(self).branch_map() == old(self).branch_map(),
    {
        validate_snapshot(&self.events, snapshot)?;
        let key = SnapshotKey { run_id: snapshot.run_id, at_sequence: snapshot.at_sequence };
        self.snapshots.insert(key, snapshot.duplicate());
        Ok(())
    }

    fn load_snapshot(&self, run_id: RunId, at_or_before: Option<Sequence>) -> (result: Result<
        Option<RuntimeSnapshot>,
        StoreError,
    >)
        ensures
            result is Ok,
    {
        let found = select_snapshot(&self.snapshots, run_id, at_or_before);
        assert(self.snapshots@ == self.snapshots());
        Ok(found)
    }
}

} // verus!
