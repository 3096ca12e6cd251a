//! The event history of runs: appending, reading back, rebuilding state,
//! snapshots, branches and forks.

use vstd::prelude::*;
use vstd::string::StringExecFns;

use crate::codec::outcome;
use crate::ids::{id_text, BranchId, EventId, IdSource, RunId};
use crate::kernel::{event_views, Event, EventTrace, EventView};
use crate::memory_store::batch_duplicate;
use crate::state::{
    applied, initial_state, invalid, replay_composes, replayed, RuntimeState, RuntimeStateView,
    Sequence, StoreError, StoreErrorView,
};
use crate::table::{
    entry_in_map, listed, listing, map_entry_has_index, table_is_listed, Key, Rank, Record, Table,
};
use crate::text::{decimal, numbered, push_decimal};

verus! {

// ---------------------------------------------------------------------------
// Stored events, branches, snapshots and forks.

#[derive(Clone, Copy, Debug, PartialEq, Eq, Structural)]
pub enum ReplayMode {
    Recorded,
    ReexecuteLive,
    ForkLive,
}

impl ReplayMode {
    /// The name under which a mode is stored.
    pub open spec fn name(self) -> Seq<char> {
        match self {
            ReplayMode::Recorded => "recorded"@,
            ReplayMode::ReexecuteLive => "reexecute_live"@,
            ReplayMode::ForkLive => "fork_live"@,
        }
    }

    /// The mode that is stored under a name.
    pub open spec fn named(name: Seq<char>) -> Result<ReplayMode, StoreErrorView> {
        if name == "recorded"@ {
            Ok(ReplayMode::Recorded)
        } else if name == "reexecute_live"@ {
            Ok(ReplayMode::ReexecuteLive)
        } else if name == "fork_live"@ {
            Ok(ReplayMode::ForkLive)
        } else {
            Err(StoreErrorView::Corrupt("unknown branch replay mode "@ + name))
        }
    }

    /// The child run executes live after the fork.
    pub open spec fn live(self) -> bool {
        self != ReplayMode::Recorded
    }

    pub fn as_str(self) -> (name: &'static str)
        ensures
            name@ == self.name(),
    {
        match self {
            ReplayMode::Recorded => "recorded",
            ReplayMode::ReexecuteLive => "reexecute_live",
            ReplayMode::ForkLive => "fork_live",
        }
    }

    pub fn parse(value: &str) -> (result: Result<ReplayMode, StoreError>)
        ensures
            match ReplayMode::named(value@) {
                Ok(mode) => result == Ok::<ReplayMode, StoreError>(mode),
                Err(error) => result is Err && result->Err_0@ == error,
            },
    {
        let name = value.to_owned();
        if name == "recorded".to_owned() {
            Ok(ReplayMode::Recorded)
        } else if name == "reexecute_live".to_owned() {
            Ok(ReplayMode::ReexecuteLive)
        } else if name == "fork_live".to_owned() {
            Ok(ReplayMode::ForkLive)
        } else {
            let mut message = "unknown branch replay mode ".to_owned();
            message.append(value);
            Err(StoreError::Corrupt(message))
        }
    }
}

/// Modes are read back from the names they are stored under.
pub proof fn replay_mode_names_read_back(mode: ReplayMode)
    ensures
        ReplayMode::named(mode.name()) == Ok::<ReplayMode, StoreErrorView>(mode),
{
    reveal_strlit("recorded");
    reveal_strlit("reexecute_live");
    reveal_strlit("fork_live");
    assert("recorded"@.len() == 8);
    assert("reexecute_live"@.len() == 14);
    assert("fork_live"@.len() == 9);
}

#[derive(Clone, Copy, Debug, PartialEq, Eq)]
pub struct BranchMetadata {
    pub branch_id: BranchId,
    pub parent_run_id: RunId,
    pub fork_sequence: Sequence,
    pub replay_mode: ReplayMode,
    pub created_at_ms: u64,
}

impl View for BranchMetadata {
    type V = BranchMetadata;

    open spec fn view(&self) -> BranchMetadata {
        *self
    }
}

impl Record for BranchMetadata {
    fn duplicate(&self) -> (copy: BranchMetadata) {
        *self
    }

    fn same(&self, other: &BranchMetadata) -> (same: bool) {
        self.branch_id == other.branch_id && self.parent_run_id == other.parent_run_id
            && self.fork_sequence == other.fork_sequence && self.replay_mode == other.replay_mode
            && self.created_at_ms == other.created_at_ms
    }
}

#[derive(Debug, PartialEq, Eq)]
pub struct StoredEvent {
    pub sequence: Sequence,
    pub event: Event,
}

pub struct StoredEventView {
    pub sequence: Sequence,
    pub event: EventView,
}

impl View for StoredEvent {
    type V = StoredEventView;

    open spec fn view(&self) -> StoredEventView {
        StoredEventView { sequence: self.sequence, event: self.event@ }
    }
}

impl Clone for StoredEvent {
    fn clone(&self) -> (copy: StoredEvent)
        ensures
            copy@ == self@,
    {
        StoredEvent { sequence: self.sequence, event: self.event.clone() }
    }
}

pub open spec fn stored_views(events: Seq<StoredEvent>) -> Seq<StoredEventView> {
    events.map_values(|stored: StoredEvent| stored@)
}

/// The events of a history, without their sequences.
pub open spec fn bare(history: Seq<StoredEventView>) -> Seq<EventView> {
    history.map_values(|stored: StoredEventView| stored.event)
}

#[derive(Clone, Debug, PartialEq, Eq)]
pub struct RuntimeSnapshot {
    pub run_id: RunId,
    pub at_sequence: Sequence,
    pub state: RuntimeState,
}

pub struct RuntimeSnapshotView {
    pub run_id: RunId,
    pub at_sequence: Sequence,
    pub state: RuntimeStateView,
}

impl View for RuntimeSnapshot {
    type V = RuntimeSnapshotView;

    open spec fn view(&self) -> RuntimeSnapshotView {
        RuntimeSnapshotView {
            run_id: self.run_id,
            at_sequence: self.at_sequence,
            state: self.state@,
        }
    }
}

impl Record for RuntimeSnapshot {
    fn duplicate(&self) -> (copy: RuntimeSnapshot) {
        RuntimeSnapshot {
            run_id: self.run_id,
            at_sequence: self.at_sequence,
            state: self.state.duplicate(),
        }
    }

    fn same(&self, other: &RuntimeSnapshot) -> (same: bool) {
        self.run_id == other.run_id && self.at_sequence == other.at_sequence && self.state.same(
            &other.state,
        )
    }
}

/// Where a snapshot belongs: a run, and a position in its history.
#[derive(Clone, Copy, Debug, PartialEq, Eq, Structural)]
pub struct SnapshotKey {
    pub run_id: RunId,
    pub at_sequence: Sequence,
}

impl Key for SnapshotKey {
    type Model = SnapshotKey;

    open spec fn model(&self) -> SnapshotKey {
        *self
    }

    open spec fn before(left: SnapshotKey, right: SnapshotKey) -> bool {
        left.run_id.0 < right.run_id.0 || (left.run_id == right.run_id && left.at_sequence
            < right.at_sequence)
    }

    proof fn order_laws(a: SnapshotKey, b: SnapshotKey, c: SnapshotKey) {
    }

    fn rank(&self, other: &SnapshotKey) -> (rank: Rank) {
        if self.run_id.0 < other.run_id.0 {
            Rank::Below
        } else if self.run_id.0 > other.run_id.0 {
            Rank::Above
        } else if self.at_sequence < other.at_sequence {
            Rank::Below
        } else if self.at_sequence > other.at_sequence {
            Rank::Above
        } else {
            Rank::Same
        }
    }

    fn copied(&self) -> (copy: SnapshotKey) {
        *self
    }
}

/// The recorded events of a run and the state they add up to.
#[derive(Clone, Debug, PartialEq, Eq)]
pub struct RecordedReplay {
    events: Vec<StoredEvent>,
    state: RuntimeState,
}

impl RecordedReplay {
    pub closed spec fn recorded(&self) -> Seq<StoredEventView> {
        stored_views(self.events@)
    }

    pub closed spec fn rebuilt(&self) -> RuntimeStateView {
        self.state@
    }

    /// Replays a run's own events.
    pub fn of_events(run_id: RunId, events: Vec<StoredEvent>) -> (result: Result<
        RecordedReplay,
        StoreError,
    >)
        ensures
            match state_from(stored_views(events@), run_id) {
                Ok(state) => result matches Ok(replay) && replay.recorded() == stored_views(events@)
                    && replay.rebuilt() == state,
                Err(refused) => result matches Err(error) && error@ == refused,
            },
    {
        let state = reconstruct_events(run_id, &events)?;
        Ok(RecordedReplay { events, state })
    }

    pub fn events(&self) -> (events: &[StoredEvent])
        ensures
            stored_views(events@) == self.recorded(),
    {
        self.events.as_slice()
    }

    pub fn state(&self) -> (state: &RuntimeState)
        ensures
            state@ == self.rebuilt(),
    {
        &self.state
    }
}

#[derive(Clone, Debug, PartialEq, Eq)]
pub struct ForkedRun {
    pub branch_id: BranchId,
    pub parent_run_id: RunId,
    pub child_run_id: RunId,
    pub fork_sequence: Sequence,
    pub replay_mode: ReplayMode,
    pub copied_event_count: u64,
    pub child_sequences: Vec<Sequence>,
    pub child_prefix: EventTrace,
}

// ---------------------------------------------------------------------------
// Reading a history.

/// The events of one run, in order.
pub open spec fn of_run(history: Seq<StoredEventView>, run_id: RunId) -> Seq<StoredEventView>
    decreases history.len(),
{
    if history.len() == 0 {
        seq![]
    } else if history.last().event.run_id == run_id {
        of_run(history.drop_last(), run_id).push(history.last())
    } else {
        of_run(history.drop_last(), run_id)
    }
}

/// The events of a history after a position, in order.
pub open spec fn after(history: Seq<StoredEventView>, sequence: Sequence) -> Seq<StoredEventView>
    decreases history.len(),
{
    if history.len() == 0 {
        seq![]
    } else if history.last().sequence > sequence {
        after(history.drop_last(), sequence).push(history.last())
    } else {
        after(history.drop_last(), sequence)
    }
}

/// The events of a history up to a position, in order.
pub open spec fn up_to(history: Seq<StoredEventView>, sequence: Sequence) -> Seq<StoredEventView>
    decreases history.len(),
{
    if history.len() == 0 {
        seq![]
    } else if history.last().sequence <= sequence {
        up_to(history.drop_last(), sequence).push(history.last())
    } else {
        up_to(history.drop_last(), sequence)
    }
}

pub open spec fn has_run(history: Seq<StoredEventView>, run_id: RunId) -> bool {
    exists|i: int| 0 <= i < history.len() && (#[trigger] history[i]).event.run_id == run_id
}

pub open spec fn has_position(
    history: Seq<StoredEventView>,
    run_id: RunId,
    sequence: Sequence,
) -> bool {
    exists|i: int|
        0 <= i < history.len() && (#[trigger] history[i]).event.run_id == run_id
            && history[i].sequence == sequence
}

pub open spec fn id_stored(history: Seq<StoredEventView>, id: EventId) -> bool {
    exists|i: int| 0 <= i < history.len() && (#[trigger] history[i]).event.id == id
}

/// The state that the events of a run add up to.
pub open spec fn rebuilt(history: Seq<StoredEventView>, run_id: RunId) -> Result<
    RuntimeStateView,
    StoreErrorView,
> {
    let events = of_run(history, run_id);
    if events.len() == 0 {
        Err(StoreErrorView::UnknownRun(run_id))
    } else {
        match replayed(initial_state(run_id), bare(events)) {
            Err(error) => Err(error),
            Ok(state) => Ok(RuntimeStateView { events_applied: events.len() as u64, ..state }),
        }
    }
}

/// The snapshot of a run at its last event.
pub open spec fn snapshot_of(history: Seq<StoredEventView>, run_id: RunId) -> Result<
    RuntimeSnapshotView,
    StoreErrorView,
> {
    match rebuilt(history, run_id) {
        Err(error) => Err(error),
        Ok(state) => Ok(
            RuntimeSnapshotView {
                run_id,
                at_sequence: of_run(history, run_id).last().sequence,
                state,
            },
        ),
    }
}

/// Whether a run can be forked at a position.
pub open spec fn fork_check(
    history: Seq<StoredEventView>,
    parent_run_id: RunId,
    fork_sequence: Sequence,
) -> Result<(), StoreErrorView> {
    if !has_run(history, parent_run_id) {
        Err(StoreErrorView::UnknownRun(parent_run_id))
    } else if !has_position(history, parent_run_id, fork_sequence) {
        Err(
            StoreErrorView::InvalidTransition(
                "fork sequence "@ + decimal(fork_sequence as nat) + " is not present in run "@
                    + id_text("run"@, parent_run_id.0),
            ),
        )
    } else {
        Ok(())
    }
}

/// Whether a snapshot is what the history says it is.
pub open spec fn snapshot_check(
    history: Seq<StoredEventView>,
    snapshot: RuntimeSnapshotView,
) -> Result<(), StoreErrorView> {
    let prefix = up_to(of_run(history, snapshot.run_id), snapshot.at_sequence);
    if snapshot.state.run_id != snapshot.run_id {
        Err(StoreErrorView::InvalidTransition("snapshot state belongs to another run"@))
    } else if !(prefix.len() > 0 && prefix.last().sequence == snapshot.at_sequence) {
        if !has_run(history, snapshot.run_id) {
            Err(StoreErrorView::UnknownRun(snapshot.run_id))
        } else {
            Err(
                StoreErrorView::InvalidTransition(
                    "snapshot sequence "@ + decimal(snapshot.at_sequence as nat)
                        + " is not present in run "@ + id_text("run"@, snapshot.run_id.0),
                ),
            )
        }
    } else if snapshot.state.events_applied != prefix.len() as u64 {
        Err(
            StoreErrorView::InvalidTransition(
                "snapshot has "@ + decimal(snapshot.state.events_applied as nat)
                    + " applied events, expected "@ + decimal(prefix.len() as u64 as nat),
            ),
        )
    } else {
        match replayed(initial_state(snapshot.run_id), bare(prefix)) {
            Err(error) => Err(error),
            Ok(state) => if state != snapshot.state {
                Err(
                    StoreErrorView::InvalidTransition(
                        "snapshot state does not match event prefix at sequence "@ + decimal(
                            snapshot.at_sequence as nat,
                        ),
                    ),
                )
            } else {
                Ok(())
            },
        }
    }
}

pub(crate) proof fn of_run_members(history: Seq<StoredEventView>, run_id: RunId)
    ensures
        of_run(history, run_id).len() > 0 <==> has_run(history, run_id),
        forall|i: int|
            0 <= i < of_run(history, run_id).len() ==> (
            #[trigger] of_run(history, run_id)[i]).event.run_id == run_id,
        forall|i: int|
            0 <= i < of_run(history, run_id).len() ==> exists|j: int|
                0 <= j < history.len() && history[j] == #[trigger] of_run(history, run_id)[i],
    decreases history.len(),
{
    if history.len() > 0 {
        let front = history.drop_last();
        of_run_members(front, run_id);
        if has_run(front, run_id) {
            let i = choose|i: int|
                0 <= i < front.len() && (#[trigger] front[i]).event.run_id == run_id;
            assert(history[i].event.run_id == run_id);
        }
        if history.last().event.run_id == run_id {
            assert(history[history.len() - 1].event.run_id == run_id);
        }
        if has_run(history, run_id) && history.last().event.run_id != run_id {
            let i = choose|i: int|
                0 <= i < history.len() && (#[trigger] history[i]).event.run_id == run_id;
            assert(front[i] == history[i]);
        }
        assert forall|i: int| 0 <= i < of_run(history, run_id).len() implies exists|j: int|
            0 <= j < history.len() && history[j] == #[trigger] of_run(history, run_id)[i] by {
            let part = of_run(front, run_id);
            if i < part.len() {
                assert(part[i] == of_run(history, run_id)[i]);
                let j = choose|j: int| 0 <= j < front.len() && front[j] == part[i];
                assert(history[j] == of_run(history, run_id)[i]);
            } else {
                assert(history[history.len() - 1] == of_run(history, run_id)[i]);
            }
        }
    }
}

/// Replays a list of stored events onto a fresh projection.
fn replay_stored(run_id: RunId, events: &Vec<StoredEvent>) -> (result: Result<
    RuntimeState,
    StoreError,
>)
    ensures
        outcome(result) == replayed(initial_state(run_id), bare(stored_views(events@))),
{
    let mut state = RuntimeState::new(run_id);
    let ghost views = bare(stored_views(events@));
    let mut index: usize = 0;
    assert(views.take(0) =~= Seq::<EventView>::empty());
    while index < events.len()
        invariant
            index <= events@.len(),
            views == bare(stored_views(events@)),
            replayed(initial_state(run_id), views.take(index as int)) == Ok::<
                RuntimeStateView,
                StoreErrorView,
            >(state@),
        decreases events.len() - index,
    {
        proof {
            let next = views.take(index + 1);
            assert(next.drop_last() =~= views.take(index as int));
            assert(next.last() == events@[index as int].event@);
        }
        match state.apply_event(&events[index].event) {
            Ok(_) => {},
            Err(error) => {
                proof {
                    assert(views =~= views.take(index + 1) + views.skip(index + 1));
                    replay_composes(
                        initial_state(run_id),
                        views.take(index + 1),
                        views.skip(index + 1),
                    );
                }
                return Err(error);
            },
        }
        index += 1;
    }
    assert(views.take(views.len() as int) =~= views);
    Ok(state)
}

/// The events of one run among stored events.
pub fn select_run(events: &Vec<StoredEvent>, run_id: RunId) -> (selected: Vec<StoredEvent>)
    ensures
        stored_views(selected@) == of_run(stored_views(events@), run_id),
{
    let ghost views = stored_views(events@);
    let mut selected: Vec<StoredEvent> = Vec::new();
    let mut index: usize = 0;
    assert(stored_views(selected@) =~= of_run(views.take(0), run_id));
    while index < events.len()
        invariant
            index <= events@.len(),
            views == stored_views(events@),
            stored_views(selected@) == of_run(views.take(index as int), run_id),
        decreases events.len() - index,
    {
        proof {
            let next = views.take(index + 1);
            assert(next.drop_last() =~= views.take(index as int));
            assert(next.last() == events@[index as int]@);
        }
        if events[index].event.run_id == run_id {
            let ghost before = stored_views(selected@);
            selected.push(events[index].clone());
            assert(stored_views(selected@) =~= before.push(events@[index as int]@));
        }
        index += 1;
    }
    assert(views.take(views.len() as int) =~= views);
    selected
}

/// The stored events after a position.
pub fn select_after(events: &Vec<StoredEvent>, sequence: Sequence) -> (selected: Vec<StoredEvent>)
    ensures
        stored_views(selected@) == after(stored_views(events@), sequence),
{
    let ghost views = stored_views(events@);
    let mut selected: Vec<StoredEvent> = Vec::new();
    let mut index: usize = 0;
    assert(stored_views(selected@) =~= after(views.take(0), sequence));
    while index < events.len()
        invariant
            index <= events@.len(),
            views == stored_views(events@),
            stored_views(selected@) == after(views.take(index as int), sequence),
        decreases events.len() - index,
    {
        proof {
            let next = views.take(index + 1);
            assert(next.drop_last() =~= views.take(index as int));
            assert(next.last() == events@[index as int]@);
        }
        if events[index].sequence > sequence {
            let ghost before = stored_views(selected@);
            selected.push(events[index].clone());
            assert(stored_views(selected@) =~= before.push(events@[index as int]@));
        }
        index += 1;
    }
    assert(views.take(views.len() as int) =~= views);
    selected
}

/// The stored events up to a position.
pub fn select_up_to(events: &Vec<StoredEvent>, sequence: Sequence) -> (selected: Vec<StoredEvent>)
    ensures
        stored_views(selected@) == up_to(stored_views(events@), sequence),
{
    let ghost views = stored_views(events@);
    let mut selected: Vec<StoredEvent> = Vec::new();
    let mut index: usize = 0;
    assert(stored_views(selected@) =~= up_to(views.take(0), sequence));
    while index < events.len()
        invariant
            index <= events@.len(),
            views == stored_views(events@),
            stored_views(selected@) == up_to(views.take(index as int), sequence),
        decreases events.len() - index,
    {
        proof {
            let next = views.take(index + 1);
            assert(next.drop_last() =~= views.take(index as int));
            assert(next.last() == events@[index as int]@);
        }
        if events[index].sequence <= sequence {
            let ghost before = stored_views(selected@);
            selected.push(events[index].clone());
            assert(stored_views(selected@) =~= before.push(events@[index as int]@));
        }
        index += 1;
    }
    assert(views.take(views.len() as int) =~= views);
    selected
}

/// The state that a run's own events lead to.
pub open spec fn state_from(own: Seq<StoredEventView>, run_id: RunId) -> Result<
    RuntimeStateView,
    StoreErrorView,
> {
    if own.len() == 0 {
        Err(StoreErrorView::UnknownRun(run_id))
    } else {
        match replayed(initial_state(run_id), bare(own)) {
            Err(error) => Err(error),
            Ok(state) => Ok(RuntimeStateView { events_applied: own.len() as u64, ..state }),
        }
    }
}

/// Rebuilds a run from its own events.
pub fn reconstruct_events(run_id: RunId, events: &Vec<StoredEvent>) -> (result: Result<
    RuntimeState,
    StoreError,
>)
    ensures
        outcome(result) == state_from(stored_views(events@), run_id),
{
    assert(stored_views(events@).len() == events@.len());
    if events.len() == 0 {
        return Err(StoreError::UnknownRun(run_id));
    }
    let mut state = replay_stored(run_id, events)?;
    state.events_applied = events.len() as u64;
    Ok(state)
}

/// A snapshot of a run at the last of its own events.
pub fn snapshot_events(run_id: RunId, events: &Vec<StoredEvent>) -> (result: Result<
    RuntimeSnapshot,
    StoreError,
>)
    ensures
        outcome(result) == (match state_from(stored_views(events@), run_id) {
            Err(error) => Err(error),
            Ok(state) => Ok(
                RuntimeSnapshotView {
                    run_id,
                    at_sequence: stored_views(events@).last().sequence,
                    state,
                },
            ),
        }),
{
    assert(stored_views(events@).len() == events@.len());
    let state = reconstruct_events(run_id, events)?;
    let at_sequence: Sequence = events[events.len() - 1].sequence;
    assert(stored_views(events@).last() == events@.last()@);
    Ok(RuntimeSnapshot { run_id, at_sequence, state })
}

/// Checks that a run can be forked at a position.
pub fn validate_fork_sequence(
    events: &Vec<StoredEvent>,
    parent_run_id: RunId,
    fork_sequence: Sequence,
) -> (result: Result<(), StoreError>)
    ensures
        outcome(result) == fork_check(stored_views(events@), parent_run_id, fork_sequence),
{
    let ghost views = stored_views(events@);
    let mut known = false;
    let mut present = false;
    let mut index: usize = 0;
    while index < events.len()
        invariant
            index <= events@.len(),
            views == stored_views(events@),
            known == has_run(views.take(index as int), parent_run_id),
            present == has_position(views.take(index as int), parent_run_id, fork_sequence),
        decreases events.len() - index,
    {
        let stored = &events[index];
        let ghost before = views.take(index as int);
        let ghost next = views.take(index + 1);
        proof {
            assert(next[index as int] == stored@);
            assert forall|i: int| 0 <= i < index implies before[i] == next[i] by {}
            if known {
                let i = choose|i: int|
                    0 <= i < before.len() && (#[trigger] before[i]).event.run_id == parent_run_id;
                assert(next[i].event.run_id == parent_run_id);
            }
            if present {
                let i = choose|i: int|
                    0 <= i < before.len() && (#[trigger] before[i]).event.run_id == parent_run_id
                        && before[i].sequence == fork_sequence;
                assert(next[i].event.run_id == parent_run_id);
            }
            if has_run(next, parent_run_id) && stored.event.run_id != parent_run_id {
                let i = choose|i: int|
                    0 <= i < next.len() && (#[trigger] next[i]).event.run_id == parent_run_id;
                assert(before[i].event.run_id == parent_run_id);
            }
            if has_position(next, parent_run_id, fork_sequence) && !(stored.event.run_id
                == parent_run_id && stored.sequence == fork_sequence) {
                let i = choose|i: int|
                    0 <= i < next.len() && (#[trigger] next[i]).event.run_id == parent_run_id
                        && next[i].sequence == fork_sequence;
                assert(before[i].event.run_id == parent_run_id);
            }
        }
        if stored.event.run_id == parent_run_id {
            known = true;
            if stored.sequence == fork_sequence {
                present = true;
            }
        }
        index += 1;
    }
    assert(views.take(views.len() as int) =~= views);
    if !known {
        return Err(StoreError::UnknownRun(parent_run_id));
    }
    if !present {
        let mut message = numbered("fork sequence ", fork_sequence as u128);
        message.append(" is not present in run ");
        message.append(parent_run_id.to_text().as_str());
        return Err(StoreError::InvalidTransition(message));
    }
    Ok(())
}

/// Checks a snapshot against the history it claims to summarize.
pub fn validate_snapshot(events: &Vec<StoredEvent>, snapshot: &RuntimeSnapshot) -> (result: Result<
    (),
    StoreError,
>)
    ensures
        outcome(result) == snapshot_check(stored_views(events@), snapshot@),
{
    if snapshot.state.run_id != snapshot.run_id {
        return Err(invalid("snapshot state belongs to another run"));
    }
    let own = select_run(events, snapshot.run_id);
    let prefix = select_up_to(&own, snapshot.at_sequence);
    let count: usize = prefix.len();
    proof {
        of_run_members(stored_views(events@), snapshot.run_id);
        assert(stored_views(own@).len() == own@.len());
        assert(stored_views(prefix@).len() == prefix@.len());
    }
    let exact = count > 0 && prefix[count - 1].sequence == snapshot.at_sequence;
    proof {
        if count > 0 {
            assert(stored_views(prefix@).last() == prefix@[count - 1]@);
        }
    }
    if !exact {
        if own.len() == 0 {
            return Err(StoreError::UnknownRun(snapshot.run_id));
        }
        let mut message = numbered("snapshot sequence ", snapshot.at_sequence as u128);
        message.append(" is not present in run ");
        message.append(snapshot.run_id.to_text().as_str());
        return Err(StoreError::InvalidTransition(message));
    }
    let expected: u64 = count as u64;
    if snapshot.state.events_applied != expected {
        let mut message = numbered("snapshot has ", snapshot.state.events_applied as u128);
        message.append(" applied events, expected ");
        push_decimal(&mut message, expected as u128);
        return Err(StoreError::InvalidTransition(message));
    }
    let state = replay_stored(snapshot.run_id, &prefix)?;
    if !state.same(&snapshot.state) {
        return Err(
            StoreError::InvalidTransition(
                numbered(
                    "snapshot state does not match event prefix at sequence ",
                    snapshot.at_sequence as u128,
                ),
            ),
        );
    }
    Ok(())
}

// ---------------------------------------------------------------------------
// Stores.

/// Events under the sequences they were given.
pub open spec fn stamped(sequences: Seq<Sequence>, events: Seq<EventView>) -> Seq<
    StoredEventView,
> {
    Seq::new(
        events.len(),
        |i: int| StoredEventView { sequence: sequences[i], event: events[i] },
    )
}

/// A store of events. A refused or failed append leaves the history as it
/// was.
pub trait EventStore {
    /// What every store keeps true of itself.
    spec fn valid(&self) -> bool;

    /// All stored events, in order.
    spec fn history(&self) -> Seq<StoredEventView>;

    /// Nothing but what is asked makes an operation fail: the store itself
    /// does not.
    spec fn reliable(&self) -> bool;

    fn append(&mut self, event: Event) -> (result: Result<Sequence, StoreError>)
        requires
            old(self).valid(),
        ensures
            final(self).valid(),
            match result {
                Ok(sequence) => final(self).history() == old(self).history().push(
                    (StoredEventView { sequence, event: event@ }),
                ),
                Err(_) => final(self).history() == old(self).history(),
            },
            final(self).reliable() == old(self).reliable(),
            old(self).reliable() ==> if id_stored(old(self).history(), event@.id) {
                result matches Err(error) && error@ == StoreErrorView::DuplicateEvent(event@.id)
            } else {
                result is Ok
            },
    ;

    fn append_batch(&mut self, events: &[Event]) -> (result: Result<Vec<Sequence>, StoreError>)
        requires
            old(self).valid(),
        ensures
            final(self).valid(),
            match result {
                Ok(sequences) => {
                    &&& sequences@.len() == events@.len()
                    &&& final(self).history() == old(self).history() + stamped(
                        sequences@,
                        event_views(events@),
                    )
                },
                Err(_) => final(self).history() == old(self).history(),
            },
            final(self).reliable() == old(self).reliable(),
            old(self).reliable() ==> match batch_duplicate(
                old(self).history(),
                event_views(events@),
            ) {
                Some(id) => result matches Err(error) && error@ == StoreErrorView::DuplicateEvent(
                    id,
                ),
                None => result is Ok,
            },
    ;

    fn events(&self, run_id: RunId) -> (result: Result<Vec<StoredEvent>, StoreError>)
        requires
            self.valid(),
        ensures
            result is Ok ==> stored_views(result->Ok_0@) == of_run(self.history(), run_id),
            self.reliable() ==> result is Ok,
    ;

    fn events_since(&self, run_id: RunId, sequence: Sequence) -> (result: Result<
        Vec<StoredEvent>,
        StoreError,
    >)
        requires
            self.valid(),
        ensures
            result is Ok ==> stored_views(result->Ok_0@) == after(
                of_run(self.history(), run_id),
                sequence,
            ),
            self.reliable() ==> result is Ok,
    ;

    fn reconstruct(&self, run_id: RunId) -> (result: Result<RuntimeState, StoreError>)
        requires
            self.valid(),
        ensures
            result is Ok ==> rebuilt(self.history(), run_id) == Ok::<
                RuntimeStateView,
                StoreErrorView,
            >(result->Ok_0@),
            self.reliable() ==> outcome(result) == rebuilt(self.history(), run_id),
    ;

    fn snapshot(&self, run_id: RunId) -> (result: Result<RuntimeSnapshot, StoreError>)
        requires
            self.valid(),
        ensures
            result is Ok ==> snapshot_of(self.history(), run_id) == Ok::<
                RuntimeSnapshotView,
                StoreErrorView,
            >(result->Ok_0@),
            self.reliable() ==> outcome(result) == snapshot_of(self.history(), run_id),
    ;
}

/// A store of branches. Creating one changes nothing else.
pub trait BranchStore: EventStore {
    spec fn branches(&self) -> Map<BranchId, BranchMetadata>;

    fn create_branch(
        &mut self,
        ids: &mut IdSource,
        parent_run_id: RunId,
        fork_sequence: Sequence,
        replay_mode: ReplayMode,
        created_at_ms: u64,
    ) -> (result: Result<BranchMetadata, StoreError>)
        requires
            old(self).valid(),
            old(ids).can_issue(1),
        ensures
            final(self).valid(),
            final(self).history() == old(self).history(),
            match result {
                Ok(branch) => {
                    &&& fork_check(old(self).history(), parent_run_id, fork_sequence) is Ok
                    &&& branch == (BranchMetadata {
                        branch_id: BranchId(old(ids).upcoming(0)),
                        parent_run_id,
                        fork_sequence,
                        replay_mode,
                        created_at_ms,
                    })
                    &&& final(self).branches() == old(self).branches().insert(
                        branch.branch_id,
                        branch,
                    )
                },
                Err(_) => final(self).branches() == old(self).branches(),
            },
            final(self).reliable() == old(self).reliable(),
            old(self).reliable() ==> match fork_check(
                old(self).history(),
                parent_run_id,
                fork_sequence,
            ) {
                Ok(_) => result is Ok,
                Err(refused) => result matches Err(error) && error@ == refused,
            },
    ;

    fn branch(&self, branch_id: BranchId) -> (result: Result<Option<BranchMetadata>, StoreError>)
        requires
            self.valid(),
        ensures
            result is Ok ==> result->Ok_0 == self.branches().get(branch_id),
            self.reliable() ==> result is Ok,
    ;

    fn branches_for_run(&self, parent_run_id: RunId) -> (result: Result<
        Vec<BranchMetadata>,
        StoreError,
    >)
        requires
            self.valid(),
        ensures
            result is Ok ==> forall|branch: BranchMetadata| #[trigger]
                result->Ok_0@.contains(branch) <==> (branch.parent_run_id == parent_run_id
                    && exists|id: BranchId|
                    self.branches().contains_key(id) && #[trigger] self.branches()[id] == branch),
            self.reliable() ==> result is Ok,
    ;
}

/// A store of snapshots. Saving one changes nothing else.
pub trait SnapshotStore: EventStore {
    spec fn snapshots(&self) -> Map<SnapshotKey, RuntimeSnapshotView>;

    fn save_snapshot(&mut self, snapshot: &RuntimeSnapshot) -> (result: Result<(), StoreError>)
        requires
            old(self).valid(),
        ensures
            final(self).valid(),
            final(self).history() == old(self).history(),
            match result {
                Ok(_) => {
                    &&& snapshot_check(old(self).history(), snapshot@) is Ok
                    &&& final(self).snapshots() == old(self).snapshots().insert(
                        (SnapshotKey {
                            run_id: snapshot.run_id,
                            at_sequence: snapshot.at_sequence,
                        }),
                        snapshot@,
                    )
                },
                Err(_) => final(self).snapshots() == old(self).snapshots(),
            },
            final(self).reliable() == old(self).reliable(),
            old(self).reliable() ==> outcome(result) == snapshot_check(
                old(self).history(),
                snapshot@,
            ),
    ;

    fn load_snapshot(&self, run_id: RunId, at_or_before: Option<Sequence>) -> (result: Result<
        Option<RuntimeSnapshot>,
        StoreError,
    >)
        requires
            self.valid(),
        ensures
            match result {
                Ok(Some(snapshot)) => exists|key: SnapshotKey|
                    {
                        &&& #[trigger] latest_snapshot(self.snapshots(), run_id, at_or_before, key)
                        &&& snapshot@ == self.snapshots()[key]
                    },
                Ok(None) => forall|key: SnapshotKey|
                    !(#[trigger] eligible_snapshot(self.snapshots().dom(), run_id, at_or_before, key)),
                Err(_) => !self.reliable(),
            },
    ;
}

/// A snapshot of the run that is not later than asked for.
pub open spec fn eligible_snapshot(
    keys: Set<SnapshotKey>,
    run_id: RunId,
    at_or_before: Option<Sequence>,
    key: SnapshotKey,
) -> bool {
    keys.contains(key) && key.run_id == run_id && (at_or_before is Some ==> key.at_sequence
        <= at_or_before->0)
}

/// The last such snapshot.
pub open spec fn latest_snapshot(
    snapshots: Map<SnapshotKey, RuntimeSnapshotView>,
    run_id: RunId,
    at_or_before: Option<Sequence>,
    key: SnapshotKey,
) -> bool {
    &&& eligible_snapshot(snapshots.dom(), run_id, at_or_before, key)
    &&& forall|other: SnapshotKey| #[trigger]
        eligible_snapshot(snapshots.dom(), run_id, at_or_before, other) ==> other.at_sequence
            <= key.at_sequence
}

/// The branches of a run among those with the given identities, in their
/// order.
pub open spec fn branches_among(
    branches: Map<BranchId, BranchMetadata>,
    ids: Seq<BranchId>,
    parent_run_id: RunId,
) -> Seq<BranchMetadata>
    decreases ids.len(),
{
    if ids.len() == 0 {
        seq![]
    } else {
        let found = branches_among(branches, ids.drop_last(), parent_run_id);
        let branch = branches[ids.last()];
        if branch.parent_run_id == parent_run_id {
            found.push(branch)
        } else {
            found
        }
    }
}

/// The branches of a run, by ascending identity.
pub open spec fn branches_of(
    branches: Map<BranchId, BranchMetadata>,
    parent_run_id: RunId,
) -> Seq<BranchMetadata> {
    branches_among(branches, listing::<BranchId, BranchMetadata>(branches), parent_run_id)
}

proof fn branches_among_members(
    branches: Map<BranchId, BranchMetadata>,
    ids: Seq<BranchId>,
    parent_run_id: RunId,
    branch: BranchMetadata,
)
    ensures
        branches_among(branches, ids, parent_run_id).contains(branch) <==> (branch.parent_run_id
            == parent_run_id && exists|i: int|
            0 <= i < ids.len() && branches[#[trigger] ids[i]] == branch),
    decreases ids.len(),
{
    let found = branches_among(branches, ids, parent_run_id);
    if ids.len() > 0 {
        let before = branches_among(branches, ids.drop_last(), parent_run_id);
        branches_among_members(branches, ids.drop_last(), parent_run_id, branch);
        let last = branches[ids.last()];
        if before.contains(branch) {
            let k = before.index_of(branch);
            assert(found[k] == branch);
            let i = choose|i: int|
                0 <= i < ids.drop_last().len() && branches[#[trigger] ids.drop_last()[i]] == branch;
            assert(branches[ids[i]] == branch);
        }
        if branch == last && branch.parent_run_id == parent_run_id {
            assert(found[found.len() - 1] == branch);
            assert(branches[ids[ids.len() - 1]] == branch);
        }
        if found.contains(branch) && !before.contains(branch) {
            assert(branch == last) by {
                let k = found.index_of(branch);
                if k < before.len() {
                    assert(before[k] == branch);
                }
            }
        }
        if branch.parent_run_id == parent_run_id && exists|i: int|
            0 <= i < ids.len() && branches[#[trigger] ids[i]] == branch {
            let i = choose|i: int| 0 <= i < ids.len() && branches[#[trigger] ids[i]] == branch;
            if i < ids.len() - 1 {
                assert(ids.drop_last()[i] == ids[i]);
            }
        }
    }
}

/// The branches of a run are those that name it as their parent.
pub proof fn branches_of_a_run_name_it(
    branches: Map<BranchId, BranchMetadata>,
    parent_run_id: RunId,
    branch: BranchMetadata,
)
    requires
        listed::<BranchId, BranchMetadata>(
            branches,
            listing::<BranchId, BranchMetadata>(branches),
        ),
    ensures
        branches_of(branches, parent_run_id).contains(branch) <==> (branch.parent_run_id
            == parent_run_id && exists|id: BranchId|
            branches.contains_key(id) && #[trigger] branches[id] == branch),
{
    let ids = listing::<BranchId, BranchMetadata>(branches);
    branches_among_members(branches, ids, parent_run_id, branch);
    if exists|i: int| 0 <= i < ids.len() && branches[#[trigger] ids[i]] == branch {
        let i = choose|i: int| 0 <= i < ids.len() && branches[#[trigger] ids[i]] == branch;
        assert(branches.contains_key(ids[i]));
    }
    if exists|id: BranchId| branches.contains_key(id) && #[trigger] branches[id] == branch {
        let id = choose|id: BranchId|
            branches.contains_key(id) && #[trigger] branches[id] == branch;
        assert(ids.contains(id));
        let i = ids.index_of(id);
        assert(branches[ids[i]] == branch);
    }
}

/// Selects the branches of a run.
pub(crate) fn select_branches(
    branches: &Table<BranchId, BranchMetadata>,
    parent_run_id: RunId,
) -> (found: Vec<BranchMetadata>)
    ensures
        found@ == branches_of(branches@, parent_run_id),
        listed::<BranchId, BranchMetadata>(
            branches@,
            listing::<BranchId, BranchMetadata>(branches@),
        ),
{
    let ghost ids = listing::<BranchId, BranchMetadata>(branches@);
    let length: usize = branches.len();
    proof {
        table_is_listed(branches.keys(), branches.values());
    }
    let mut found: Vec<BranchMetadata> = Vec::new();
    let mut index: usize = 0;
    while index < length
        invariant
            index <= length,
            length == ids.len(),
            length == branches.keys().len(),
            branches.well_formed(),
            ids == listing::<BranchId, BranchMetadata>(branches@),
            forall|i: int| 0 <= i < length ==> (#[trigger] branches.keys()[i]) == ids[i],
            found@ == branches_among(branches@, ids.take(index as int), parent_run_id),
        decreases length - index,
    {
        let branch = *branches.value_at(index);
        proof {
            entry_in_map(branches.keys(), branches.values(), index as int);
            assert(branches.keys()[index as int] == ids[index as int]);
            assert(ids.take(index + 1).drop_last() =~= ids.take(index as int));
        }
        if branch.parent_run_id == parent_run_id {
            found.push(branch);
        }
        index += 1;
    }
    assert(ids.take(index as int) =~= ids);
    found
}

/// Selects the last snapshot of a run that is not later than asked for.
pub(crate) fn select_snapshot(
    snapshots: &Table<SnapshotKey, RuntimeSnapshot>,
    run_id: RunId,
    at_or_before: Option<Sequence>,
) -> (found: Option<RuntimeSnapshot>)
    ensures
        match found {
            Some(snapshot) => exists|key: SnapshotKey|
                {
                    &&& #[trigger] latest_snapshot(snapshots@, run_id, at_or_before, key)
                    &&& snapshot@ == snapshots@[key]
                },
            None => forall|key: SnapshotKey|
                !(#[trigger] eligible_snapshot(snapshots@.dom(), run_id, at_or_before, key)),
        },
{
    let ghost keys = snapshots.keys();
    let ghost values = snapshots.values();
    let limit: Sequence = match at_or_before {
        Some(sequence) => sequence,
        None => Sequence::MAX,
    };
    let length: usize = snapshots.len();
    let mut found: Option<usize> = None;
    let mut index: usize = 0;
    while index < length
        invariant
            index <= length,
            length == keys.len(),
            keys == snapshots.keys(),
            values == snapshots.values(),
            snapshots.well_formed(),
            limit == (match at_or_before {
                Some(sequence) => sequence,
                None => Sequence::MAX,
            }),
            match found {
                Some(place) => {
                    &&& place < index
                    &&& keys[place as int].run_id == run_id
                    &&& keys[place as int].at_sequence <= limit
                    &&& forall|i: int|
                        place < i < index ==> !((#[trigger] keys[i]).run_id == run_id
                            && keys[i].at_sequence <= limit)
                },
                None => forall|i: int|
                    0 <= i < index ==> !((#[trigger] keys[i]).run_id == run_id
                        && keys[i].at_sequence <= limit),
            },
        decreases length - index,
    {
        let key = snapshots.key_at(index);
        if key.run_id == run_id && key.at_sequence <= limit {
            found = Some(index);
        }
        index += 1;
    }
    match found {
        Some(place) => {
            let snapshot = snapshots.value_at(place);
            proof {
                let key = keys[place as int];
                assert forall|other: SnapshotKey| #[trigger]
                    eligible_snapshot(
                        snapshots@.dom(),
                        run_id,
                        at_or_before,
                        other,
                    ) implies other.at_sequence <= key.at_sequence by {
                    let i = map_entry_has_index(keys, values, other);
                    assert(keys[i] == other);
                    if i > place {
                    } else if i < place {
                        assert(SnapshotKey::before(keys[i], key));
                    }
                }
                assert(latest_snapshot(snapshots@, run_id, at_or_before, key));
            }
            Some(snapshot.duplicate())
        },
        None => {
            proof {
                assert forall|key: SnapshotKey| !(#[trigger] eligible_snapshot(
                    snapshots@.dom(),
                    run_id,
                    at_or_before,
                    key,
                )) by {
                    if eligible_snapshot(snapshots@.dom(), run_id, at_or_before, key) {
                        let i = map_entry_has_index(keys, values, key);
                        assert(keys[i] == key);
                    }
                }
            }
            None
        },
    }
}

} // verus!
