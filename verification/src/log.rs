//! The durable event log without its input and output: opening, preparing
//! what is to be written, and taking in what was.

use vstd::prelude::*;
use vstd::string::StringExecFns;
use vstd::utf8::encode_utf8;

use crate::codec::outcome;
use crate::event_codec::{
    encode_event, event_bytes, kind_well_formed, kind_within, text_bytes, MAX_FRAME_BYTES,
};
use crate::event_store::{
    fork_check, snapshot_check, validate_fork_sequence, validate_snapshot, BranchMetadata,
    EventStore, ReplayMode, RuntimeSnapshot, RuntimeSnapshotView, SnapshotKey, StoredEventView,
};
use crate::frame_laws::{
    committable, committed_batches_are_recovered, encoded_events_are_committable,
    torn_batches_are_dropped,
};
use crate::frames::{
    batch_bytes, batched_recovered, blobs, corrupt, encode_batch, history_of, holds,
    legacy_recovered, optional_offset, oversized, payloads_fit, recover_batched_events,
    recover_legacy_events, MAX_BATCH_EVENTS,
};
use crate::ids::{id_text, BranchId, IdSource, RunId};
use crate::kernel::{event_views, Event, EventView};
use crate::memory_store::{batch_duplicate, sequence_ahead, InMemoryEventStore};
use crate::metadata::{has_prefix, starts_with, Metadata, MetadataView};
use crate::state::{Sequence, StoreError, StoreErrorView};
use crate::table::Record;
use crate::text::{decimal, push_decimal};

verus! {

pub open spec fn log_magic() -> Seq<u8> {
    encode_utf8("ORYNTH-EVENT-2\n"@)
}

pub open spec fn legacy_log_magic() -> Seq<u8> {
    encode_utf8("ORYNTH-EVENT-1\n"@)
}

/// The header that a new log begins with.
pub fn new_log_header() -> (header: Vec<u8>)
    ensures
        header@ == log_magic(),
{
    vstd::slice::slice_to_vec("ORYNTH-EVENT-2\n".as_bytes())
}

/// The format of a log: batches, or single events in the first one.
pub open spec fn log_version(bytes: Seq<u8>) -> Option<u8> {
    if starts_with(bytes, log_magic()) {
        Some(2)
    } else if starts_with(bytes, legacy_log_magic()) {
        Some(1)
    } else {
        None
    }
}

/// What the bytes of a log hold, and where it must be cut off, if anywhere.
pub open spec fn log_recovered(bytes: Seq<u8>) -> Result<
    (Seq<EventView>, Option<int>),
    StoreErrorView,
> {
    match log_version(bytes) {
        None => corrupt("event store header is invalid"@),
        Some(version) => if version == 1 {
            legacy_recovered(bytes, legacy_log_magic().len() as int, seq![])
        } else {
            batched_recovered(bytes, log_magic().len() as int, seq![], None)
        },
    }
}

/// An event log that has been read: its format, its events, its branches and
/// its snapshots.
pub struct EventLog {
    format_version: u8,
    memory: InMemoryEventStore,
    metadata: Metadata,
}

impl EventLog {
    pub closed spec fn version(&self) -> u8 {
        self.format_version
    }

    pub closed spec fn store(&self) -> InMemoryEventStore {
        self.memory
    }

    pub closed spec fn known(&self) -> Metadata {
        self.metadata
    }

    /// Reads a log. With it comes the offset at which a torn tail begins.
    pub fn recover(bytes: &[u8]) -> (result: Result<(EventLog, Option<usize>), StoreError>)
        ensures
            match log_recovered(bytes@) {
                Ok((events, cut)) => {
                    &&& result is Ok
                    &&& holds(result->Ok_0.0.store(), events)
                    &&& Some(result->Ok_0.0.version()) == log_version(bytes@)
                    &&& result->Ok_0.0.known()@ == crate::metadata::no_metadata()
                    &&& optional_offset(result->Ok_0.1) == cut
                },
                Err(error) => result is Err && result->Err_0@ == error,
            },
    {
        let current = "ORYNTH-EVENT-2\n".as_bytes();
        let legacy = "ORYNTH-EVENT-1\n".as_bytes();
        if has_prefix(bytes, current) {
            let (memory, cut) = recover_batched_events(bytes, current)?;
            Ok((EventLog { format_version: 2, memory, metadata: Metadata::new() }, cut))
        } else if has_prefix(bytes, legacy) {
            let (memory, cut) = recover_legacy_events(bytes, legacy)?;
            Ok((EventLog { format_version: 1, memory, metadata: Metadata::new() }, cut))
        } else {
            Err(StoreError::Corrupt("event store header is invalid".to_owned()))
        }
    }

    pub fn events(&self) -> (store: &InMemoryEventStore)
        ensures
            *store == self.store(),
    {
        &self.memory
    }

    pub fn metadata(&self) -> (metadata: &Metadata)
        ensures
            *metadata == self.known(),
    {
        &self.metadata
    }

    /// Takes in metadata that was read or written.
    pub fn set_metadata(&mut self, metadata: Metadata)
        ensures
            final(self).known() == metadata,
            final(self).store() == old(self).store(),
            final(self).version() == old(self).version(),
    {
        self.metadata = metadata;
    }

    /// The bytes that append a batch of events, or why they are refused.
    /// Nothing is to be written for an empty batch.
    pub fn prepare_batch(&self, events: &[Event]) -> (result: Result<Vec<u8>, StoreError>)
        requires
            self.store().valid(),
        ensures
            outcome(result) == batch_prepared(
                self.version(),
                self.store().history(),
                self.store().upcoming(),
                event_views(events@),
            ),
    {
        if self.format_version == 1 {
            return Err(
                StoreError::Storage(
                    "legacy v1 event stores are read-only; migrate before appending".to_owned(),
                ),
            );
        }
        if events.len() > MAX_BATCH_EVENTS {
            return Err(StoreError::Storage("event batch is too large".to_owned()));
        }
        match self.memory.find_duplicate(events) {
            Some(id) => {
                return Err(StoreError::DuplicateEvent(id));
            },
            None => {},
        }
        let next: Sequence = self.memory.next_sequence();
        let ghost views = event_views(events@);
        let mut payloads: Vec<Vec<u8>> = Vec::new();
        let mut index: usize = 0;
        assert(views.take(0) =~= Seq::<EventView>::empty());
        assert(blobs(payloads@) =~= Seq::<Seq<u8>>::empty());
        while index < events.len()
            invariant
                index <= events@.len(),
                events@.len() <= MAX_BATCH_EVENTS,
                views == event_views(events@),
                payloads@.len() == index,
                encodings(next, views.take(index as int)) == Ok::<
                    Seq<Seq<u8>>,
                    StoreErrorView,
                >(blobs(payloads@)),
                next + index <= Sequence::MAX,
                self.format_version != 1,
                batch_duplicate(self.store().history(), views) is None,
                next == self.store().upcoming(),
            decreases events.len() - index,
        {
            proof {
                let now = views.take(index + 1);
                assert(now.drop_last() =~= views.take(index as int));
                assert(now.last() == events@[index as int]@);
                if encodings(next, now) is Err {
                    failed_encodings_stay(next, views, index + 1);
                }
            }
            let payload = match encode_event(&events[index]) {
                Ok(payload) => payload,
                Err(message) => {
                    return Err(StoreError::Corrupt(message));
                },
            };
            if next + index as u64 == Sequence::MAX {
                return Err(StoreError::Storage("event sequence overflow".to_owned()));
            }
            let ghost before = blobs(payloads@);
            payloads.push(payload);
            assert(blobs(payloads@) =~= before.push(payload@));
            index += 1;
        }
        assert(views.take(views.len() as int) =~= views);
        if payloads.len() == 0 {
            let none: Vec<u8> = Vec::new();
            assert(none@ =~= seq![]);
            return Ok(none);
        }
        encode_batch(next, &payloads)
    }

    /// Takes in events that were written.
    pub fn commit_batch(&mut self, events: &[Event]) -> (result: Result<Vec<Sequence>, StoreError>)
        requires
            old(self).store().valid(),
        ensures
            final(self).store().valid(),
            final(self).known() == old(self).known(),
            final(self).version() == old(self).version(),
            match batch_duplicate(old(self).store().history(), event_views(events@)) {
                Some(id) => {
                    &&& result is Err
                    &&& result->Err_0@ == StoreErrorView::DuplicateEvent(id)
                    &&& final(self).store().history() == old(self).store().history()
                },
                None => {
                    &&& result is Ok
                    &&& final(self).store().history() == old(self).store().history()
                        + crate::event_store::stamped(result->Ok_0@, event_views(events@))
                    &&& result->Ok_0@ == crate::memory_store::sequences_from(
                        old(self).store().upcoming(),
                        events@.len(),
                    )
                },
            },
    {
        self.memory.append_batch(events)
    }

    /// A branch of the log, with the metadata that holds it.
    pub fn prepare_branch(
        &self,
        ids: &mut IdSource,
        parent_run_id: RunId,
        fork_sequence: Sequence,
        replay_mode: ReplayMode,
        created_at_ms: u64,
    ) -> (result: Result<(BranchMetadata, Metadata), StoreError>)
        requires
            self.store().valid(),
            old(ids).can_issue(1),
        ensures
            match fork_check(self.store().history(), parent_run_id, fork_sequence) {
                Ok(_) => {
                    let branch = BranchMetadata {
                        branch_id: BranchId(old(ids).upcoming(0)),
                        parent_run_id,
                        fork_sequence,
                        replay_mode,
                        created_at_ms,
                    };
                    &&& result is Ok
                    &&& result->Ok_0.0 == branch
                    &&& result->Ok_0.1@ == (MetadataView {
                        branches: self.known()@.branches.insert(branch.branch_id, branch),
                        ..self.known()@
                    })
                    &&& final(ids).issued_from(old(ids), 1)
                },
                Err(error) => {
                    &&& result is Err
                    &&& result->Err_0@ == error
                    &&& final(ids).issued_from(old(ids), 0)
                },
            },
    {
        validate_fork_sequence(self.memory.stored(), parent_run_id, fork_sequence)?;
        let branch = BranchMetadata {
            branch_id: BranchId::new(ids),
            parent_run_id,
            fork_sequence,
            replay_mode,
            created_at_ms,
        };
        let mut metadata = Metadata {
            branches: self.metadata.branches.duplicate(),
            snapshots: self.metadata.snapshots.duplicate(),
        };
        metadata.branches.insert(branch.branch_id, branch);
        Ok((branch, metadata))
    }

    /// The metadata with one more snapshot. A snapshot that is there already
    /// cannot be changed.
    pub fn prepare_snapshot(&self, snapshot: &RuntimeSnapshot) -> (result: Result<
        Metadata,
        StoreError,
    >)
        requires
            self.store().valid(),
        ensures
            match snapshot_prepared(self.store().history(), self.known()@, snapshot@) {
                Ok(metadata) => result is Ok && result->Ok_0@ == metadata,
                Err(error) => result is Err && result->Err_0@ == error,
            },
    {
        validate_snapshot(self.memory.stored(), snapshot)?;
        let key = SnapshotKey { run_id: snapshot.run_id, at_sequence: snapshot.at_sequence };
        match self.metadata.snapshots.get(&key) {
            Some(existing) => {
                if !existing.same(snapshot) {
                    let mut message = "snapshot ".to_owned();
                    message.append(snapshot.run_id.to_text().as_str());
                    message.append(" at sequence ");
                    push_decimal(&mut message, snapshot.at_sequence as u128);
                    message.append(" is immutable");
                    return Err(StoreError::InvalidTransition(message));
                }
            },
            None => {},
        }
        let mut metadata = Metadata {
            branches: self.metadata.branches.duplicate(),
            snapshots: self.metadata.snapshots.duplicate(),
        };
        metadata.snapshots.insert(key, snapshot.duplicate());
        Ok(metadata)
    }
}

pub open spec fn snapshot_prepared(
    history: Seq<StoredEventView>,
    metadata: MetadataView,
    snapshot: RuntimeSnapshotView,
) -> Result<MetadataView, StoreErrorView> {
    let key = crate::metadata::snapshot_key(snapshot);
    match snapshot_check(history, snapshot) {
        Err(error) => Err(error),
        Ok(_) => if metadata.snapshots.contains_key(key) && metadata.snapshots[key] != snapshot {
            Err(
                StoreErrorView::InvalidTransition(
                    "snapshot "@ + id_text("run"@, snapshot.run_id.0) + " at sequence "@ + decimal(
                        snapshot.at_sequence as nat,
                    ) + " is immutable"@,
                ),
            )
        } else {
            Ok(MetadataView { snapshots: metadata.snapshots.insert(key, snapshot), ..metadata })
        },
    }
}

/// The encodings of events that get the sequences from `next` on.
pub open spec fn encodings(next: Sequence, events: Seq<EventView>) -> Result<
    Seq<Seq<u8>>,
    StoreErrorView,
>
    decreases events.len(),
{
    if events.len() == 0 {
        Ok(seq![])
    } else {
        match encodings(next, events.drop_last()) {
            Err(error) => Err(error),
            Ok(before) => if !kind_within(events.last().kind, u32::MAX as int) {
                corrupt("value exceeds u32::MAX"@)
            } else if next + events.len() > Sequence::MAX {
                Err(StoreErrorView::Storage("event sequence overflow"@))
            } else {
                Ok(before.push(event_bytes(events.last())))
            },
        }
    }
}

proof fn failed_encodings_stay(next: Sequence, events: Seq<EventView>, count: int)
    requires
        0 <= count <= events.len(),
        encodings(next, events.take(count)) is Err,
    ensures
        encodings(next, events) == encodings(next, events.take(count)),
    decreases events.len() - count,
{
    if count == events.len() {
        assert(events.take(count) =~= events);
    } else {
        assert(events.take(count + 1).drop_last() =~= events.take(count));
        failed_encodings_stay(next, events, count + 1);
    }
}

/// What appending a batch writes, or why it is refused.
pub open spec fn batch_prepared(
    version: u8,
    history: Seq<StoredEventView>,
    next: Sequence,
    events: Seq<EventView>,
) -> Result<Seq<u8>, StoreErrorView> {
    if version == 1 {
        Err(
            StoreErrorView::Storage(
                "legacy v1 event stores are read-only; migrate before appending"@,
            ),
        )
    } else if events.len() > MAX_BATCH_EVENTS {
        Err(StoreErrorView::Storage("event batch is too large"@))
    } else {
        match batch_duplicate(history, events) {
            Some(id) => Err(StoreErrorView::DuplicateEvent(id)),
            None => match encodings(next, events) {
                Err(error) => Err(error),
                Ok(payloads) => if payloads.len() == 0 {
                    Ok(seq![])
                } else {
                    match oversized(payloads) {
                        Some(length) => Err(
                            StoreErrorView::Storage(
                                "event payload exceeds maximum frame size: "@ + decimal(length)
                                    + " bytes"@,
                            ),
                        ),
                        None => Ok(batch_bytes(next, payloads)),
                    }
                },
            },
        }
    }
}

// ---------------------------------------------------------------------------
// Laws of the log.

proof fn encodings_are_bytes(next: Sequence, events: Seq<EventView>)
    requires
        encodings(next, events) is Ok,
    ensures
        encodings(next, events)->Ok_0 == events.map_values(|event: EventView| event_bytes(event)),
        forall|i: int|
            0 <= i < events.len() ==> kind_within((#[trigger] events[i]).kind, u32::MAX as int),
        next + events.len() <= Sequence::MAX,
    decreases events.len(),
{
    let bytes = events.map_values(|event: EventView| event_bytes(event));
    if events.len() > 0 {
        let front = events.drop_last();
        encodings_are_bytes(next, front);
        assert(bytes =~= front.map_values(|event: EventView| event_bytes(event)).push(
            event_bytes(events.last()),
        ));
        assert forall|i: int| 0 <= i < events.len() implies kind_within(
            (#[trigger] events[i]).kind,
            u32::MAX as int,
        ) by {
            if i < front.len() {
                assert(events[i] == front[i]);
            }
        }
    } else {
        assert(bytes =~= seq![]);
    }
}

proof fn not_oversized_means_fit(payloads: Seq<Seq<u8>>)
    requires
        oversized(payloads) is None,
    ensures
        payloads_fit(payloads),
    decreases payloads.len(),
{
    if payloads.len() > 0 {
        let front = payloads.drop_last();
        not_oversized_means_fit(front);
        assert forall|i: int| 0 <= i < payloads.len() implies (#[trigger] payloads[i]).len()
            < MAX_FRAME_BYTES by {
            if i < front.len() {
                assert(payloads[i] == front[i]);
            }
        }
    }
}

/// No text or payload of an event is longer than its encoding.
proof fn encodings_bound_their_parts(event: EventView)
    requires
        event_bytes(event).len() < MAX_FRAME_BYTES,
    ensures
        kind_within(event.kind, MAX_FRAME_BYTES as int),
{
    reveal(text_bytes);
    reveal(crate::codec::blob32_bytes);
}

proof fn prepared_batches_are_committable(
    events: Seq<EventView>,
    new: Seq<EventView>,
    next: Sequence,
)
    requires
        next == sequence_ahead(1, events.len()),
        events.len() + new.len() + 1 < Sequence::MAX,
        new.len() > 0,
        forall|i: int| 0 <= i < new.len() ==> kind_well_formed((#[trigger] new[i]).kind),
        batch_prepared(2, history_of(events), next, new) is Ok,
    ensures
        ({
            let payloads = new.map_values(|event: EventView| event_bytes(event));
            &&& batch_prepared(2, history_of(events), next, new)->Ok_0 == batch_bytes(
                next,
                payloads,
            )
            &&& committable(events, payloads, new)
        }),
{
    let payloads = new.map_values(|event: EventView| event_bytes(event));
    encodings_are_bytes(next, new);
    not_oversized_means_fit(payloads);
    assert forall|i: int| 0 <= i < new.len() implies event_bytes(#[trigger] new[i]).len()
        < MAX_FRAME_BYTES && kind_within(new[i].kind, MAX_FRAME_BYTES as int) by {
        assert(payloads[i] == event_bytes(new[i]));
        encodings_bound_their_parts(new[i]);
    }
    encoded_events_are_committable(events, new);
}

/// Events whose batch was written behind a whole log are there when the log
/// is opened again, behind those it held.
pub proof fn appended_events_survive_reopening(
    base: Seq<u8>,
    events: Seq<EventView>,
    new: Seq<EventView>,
)
    requires
        log_version(base) == Some(2u8),
        log_recovered(base) == Ok::<(Seq<EventView>, Option<int>), StoreErrorView>((events, None)),
        events.len() + new.len() + 1 < Sequence::MAX,
        new.len() > 0,
        forall|i: int| 0 <= i < new.len() ==> kind_well_formed((#[trigger] new[i]).kind),
        batch_prepared(2, history_of(events), sequence_ahead(1, events.len()), new) is Ok,
    ensures
        log_recovered(
            base + batch_prepared(
                2,
                history_of(events),
                sequence_ahead(1, events.len()),
                new,
            )->Ok_0,
        ) == Ok::<(Seq<EventView>, Option<int>), StoreErrorView>((events + new, None)),
{
    let next = sequence_ahead(1, events.len());
    let payloads = new.map_values(|event: EventView| event_bytes(event));
    prepared_batches_are_committable(events, new, next);
    let bytes = base + batch_bytes(next, payloads);
    assert(bytes.take(log_magic().len() as int) =~= base.take(log_magic().len() as int));
    committed_batches_are_recovered(base, log_magic().len() as int, events, payloads, new);
}

/// A crash while a batch is written loses nothing that was there before: with
/// only the first `cut` bytes of the batch on disk, opening the log gives the
/// events it held, and the torn batch is cut off.
pub proof fn torn_appends_keep_the_old_events(
    base: Seq<u8>,
    events: Seq<EventView>,
    new: Seq<EventView>,
    cut: int,
)
    requires
        log_version(base) == Some(2u8),
        log_recovered(base) == Ok::<(Seq<EventView>, Option<int>), StoreErrorView>((events, None)),
        events.len() + new.len() + 1 < Sequence::MAX,
        new.len() > 0,
        forall|i: int| 0 <= i < new.len() ==> kind_well_formed((#[trigger] new[i]).kind),
        batch_prepared(2, history_of(events), sequence_ahead(1, events.len()), new) is Ok,
        0 < cut < batch_prepared(
            2,
            history_of(events),
            sequence_ahead(1, events.len()),
            new,
        )->Ok_0.len(),
    ensures
        log_recovered(
            base + batch_prepared(
                2,
                history_of(events),
                sequence_ahead(1, events.len()),
                new,
            )->Ok_0.take(cut),
        ) == Ok::<(Seq<EventView>, Option<int>), StoreErrorView>(
            (events, Some(base.len() as int)),
        ),
{
    let next = sequence_ahead(1, events.len());
    let payloads = new.map_values(|event: EventView| event_bytes(event));
    prepared_batches_are_committable(events, new, next);
    let bytes = base + batch_bytes(next, payloads).take(cut);
    assert(bytes.take(log_magic().len() as int) =~= base.take(log_magic().len() as int));
    torn_batches_are_dropped(base, log_magic().len() as int, events, payloads, new, cut);
}

/// A new log is whole and holds nothing.
pub proof fn new_logs_are_empty()
    ensures
        log_version(log_magic()) == Some(2u8),
        log_recovered(log_magic()) == Ok::<(Seq<EventView>, Option<int>), StoreErrorView>(
            (seq![], None),
        ),
{
    assert(log_magic().take(log_magic().len() as int) =~= log_magic());
}

} // verus!
