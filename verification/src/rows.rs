//! What the relational store writes in its rows and accepts from them.

use vstd::prelude::*;
use vstd::string::StringExecFns;

use crate::artifact::{
    content_digest, content_hash, described, ArtifactError, ArtifactErrorView, ArtifactRef,
    ArtifactRefView, ContentHash, StoredArtifact, StoredArtifactView,
};
use crate::codec::outcome;
use crate::event_codec::{
    decode_event, decode_trust_tag, decoding_inverts_encoding, encode_event, event_bytes, event_of,
    kind_well_formed, kind_within, trust_byte, trust_from_byte, trust_tag, MAX_FRAME_BYTES,
};
use crate::event_store::{
    replay_mode_names_read_back, BranchMetadata, ReplayMode, RuntimeSnapshot, RuntimeSnapshotView,
    StoredEvent, StoredEventView,
};
use crate::ids::{id_text, BranchId, EventId, RunId};
use crate::kernel::{event_views, Event, EventKind, EventKindView, EventView, TrustOrigin};
use crate::keys::same_bytes;
use crate::memory_store::id_among;
use crate::numerals::{
    decimal_reads_back, hex_digits_read_back, number_reads_back, sixteen_digits_hold_a_word,
};
use crate::scan::{after_prefix, is_text, number_in, parse_number, strip_prefix};
use crate::snapshot_codec::{
    self, decode_snapshot_state, encode_snapshot_state, listing_of, snapshots_preserve_states,
    MAX_SNAPSHOT_ITEMS,
};
use crate::state::{Sequence, StoreError, StoreErrorView};
use crate::table::Table;
use crate::text::{clone_bytes, decimal, decimal_text, hex_digits, joined, push_decimal};

verus! {

pub const SCHEMA_VERSION: i64 = 2;

pub const SCHEMA_V1: &'static str = "\nCREATE TABLE IF NOT EXISTS events (\n    sequence INTEGER PRIMARY KEY,\n    event_id TEXT NOT NULL UNIQUE,\n    run_id TEXT NOT NULL,\n    occurred_at_ms TEXT NOT NULL,\n    event_kind INTEGER NOT NULL,\n    payload BLOB NOT NULL,\n    checksum BLOB NOT NULL\n);\nCREATE INDEX IF NOT EXISTS events_run_sequence ON events(run_id, sequence);\n\nCREATE TABLE IF NOT EXISTS snapshots (\n    run_id TEXT NOT NULL,\n    at_sequence INTEGER NOT NULL,\n    state_blob BLOB NOT NULL,\n    checksum BLOB NOT NULL,\n    PRIMARY KEY (run_id, at_sequence)\n);\n\nCREATE TABLE IF NOT EXISTS artifacts (\n    content_hash BLOB PRIMARY KEY,\n    size_bytes INTEGER NOT NULL,\n    media_type TEXT NOT NULL,\n    payload BLOB NOT NULL,\n    checksum BLOB NOT NULL\n);\n\nCREATE TABLE IF NOT EXISTS branches (\n    branch_id TEXT PRIMARY KEY,\n    parent_run_id TEXT NOT NULL,\n    fork_sequence INTEGER NOT NULL,\n    replay_mode TEXT NOT NULL,\n    created_at_ms TEXT NOT NULL\n);\n";

pub const SCHEMA_V2: &'static str = "ALTER TABLE artifacts ADD COLUMN trust_tag INTEGER NOT NULL DEFAULT 3;";

pub open spec fn corrupt<V>(message: Seq<char>) -> Result<V, StoreErrorView> {
    Err(StoreErrorView::Corrupt(message))
}

fn corrupted<T>(message: &str) -> (result: Result<T, StoreError>)
    ensures
        result matches Err(error) && error@ == StoreErrorView::Corrupt(message@),
{
    Err(StoreError::Corrupt(message.to_owned()))
}

/// A signed number in decimal.
pub open spec fn signed(value: i64) -> Seq<char> {
    if value < 0 {
        "-"@ + decimal((-value) as nat)
    } else {
        decimal(value as nat)
    }
}

fn push_signed(out: &mut String, value: i64)
    ensures
        final(out)@ == old(out)@ + signed(value),
{
    if value < 0 {
        let mut shown = "-".to_owned();
        let size: u128 = (-(value as i128)) as u128;
        push_decimal(&mut shown, size);
        out.append(shown.as_str());
    } else {
        push_decimal(out, value as u128);
    }
}

/// The number as the database holds it.
fn to_signed(value: u64) -> (signed: Option<i64>)
    ensures
        signed == if value <= i64::MAX {
            Some(value as i64)
        } else {
            None
        },
{
    if value <= 9223372036854775807 {
        Some(value as i64)
    } else {
        None
    }
}

// ---------------------------------------------------------------------------
// Schema migration.

/// What to do with a database.
#[derive(Clone, Copy, Debug, PartialEq, Eq, Structural)]
pub enum MigrationPlan {
    /// Lay out both versions and note both.
    Create,
    /// Add the second version and note it.
    Upgrade,
    /// Make sure that the tables are there.
    Keep,
}

pub open spec fn schema_checksum(version: i64) -> Seq<u8> {
    if version == 1 {
        content_digest(vstd::utf8::encode_utf8(SCHEMA_V1@))
    } else {
        content_digest(vstd::utf8::encode_utf8(SCHEMA_V2@))
    }
}

/// The plan for a database whose latest noted version is `current`, with the
/// checksum that is noted for it.
pub open spec fn migration(current: Option<i64>, noted: Seq<u8>) -> Result<
    MigrationPlan,
    Seq<char>,
> {
    match current {
        None => Ok(MigrationPlan::Create),
        Some(version) => if version > SCHEMA_VERSION {
            Err("database schema is newer than this runtime"@)
        } else if version != 1 && version != 2 {
            Err("unsupported schema version "@ + signed(version))
        } else if noted != schema_checksum(version) {
            Err("schema migration checksum mismatch"@)
        } else if version == 1 {
            Ok(MigrationPlan::Upgrade)
        } else {
            Ok(MigrationPlan::Keep)
        },
    }
}

/// The checksum that is noted for a version of the schema.
pub fn checksum_of_schema(version: i64) -> (checksum: ContentHash)
    ensures
        checksum@ == schema_checksum(version),
{
    if version == 1 {
        content_hash(SCHEMA_V1.as_bytes())
    } else {
        content_hash(SCHEMA_V2.as_bytes())
    }
}

pub fn plan_migration(current: Option<i64>, noted: &[u8]) -> (result: Result<
    MigrationPlan,
    String,
>)
    ensures
        match migration(current, noted@) {
            Ok(plan) => result == Ok::<MigrationPlan, String>(plan),
            Err(refused) => result matches Err(message) && message@ == refused,
        },
{
    let version: i64 = match current {
        None => {
            return Ok(MigrationPlan::Create);
        },
        Some(version) => version,
    };
    if version > SCHEMA_VERSION {
        return Err("database schema is newer than this runtime".to_owned());
    }
    if version != 1 && version != 2 {
        let mut message = "unsupported schema version ".to_owned();
        push_signed(&mut message, version);
        return Err(message);
    }
    let expected = checksum_of_schema(version);
    if !same_bytes(noted, expected.0.as_slice()) {
        return Err("schema migration checksum mismatch".to_owned());
    }
    if version == 1 {
        Ok(MigrationPlan::Upgrade)
    } else {
        Ok(MigrationPlan::Keep)
    }
}

// ---------------------------------------------------------------------------
// Events.

/// The column that tells kinds of events apart.
pub open spec fn kind_number(kind: EventKindView) -> i64 {
    match kind {
        EventKindView::RunCreated { .. } => 0,
        EventKindView::TaskCreated { .. } => 1,
        EventKindView::AgentCreated { .. } => 2,
        EventKindView::ModelRequested { .. } => 3,
        EventKindView::ModelChunkReceived { .. } => 4,
        EventKindView::ModelCompleted { .. } => 5,
        EventKindView::ModelCancelled { .. } => 6,
        EventKindView::ModelFailed { .. } => 7,
        EventKindView::RunCompleted { .. } => 8,
        EventKindView::RunCancelled { .. } => 9,
        EventKindView::RunFailed { .. } => 10,
        EventKindView::ArtifactCreated { .. } => 11,
        EventKindView::ContextTransition { .. } => 12,
        EventKindView::CacheObserved { .. } => 13,
        EventKindView::AgentMessage { .. } => 14,
        EventKindView::AssumptionTransition { .. } => 15,
        EventKindView::SchedulerTransition { .. } => 16,
        EventKindView::AgentPaused { .. } => 17,
        EventKindView::AgentResumed { .. } => 18,
        EventKindView::CapabilityTransition { .. } => 19,
        EventKindView::ToolTransition { .. } => 20,
        EventKindView::FailureMemoryTransition { .. } => 21,
        EventKindView::SpecialistTransition { .. } => 22,
    }
}

pub fn event_kind_tag(kind: &EventKind) -> (tag: i64)
    ensures
        tag == kind_number(kind@),
{
    match kind {
        EventKind::RunCreated { .. } => 0,
        EventKind::TaskCreated { .. } => 1,
        EventKind::AgentCreated { .. } => 2,
        EventKind::ModelRequested { .. } => 3,
        EventKind::ModelChunkReceived { .. } => 4,
        EventKind::ModelCompleted { .. } => 5,
        EventKind::ModelCancelled { .. } => 6,
        EventKind::ModelFailed { .. } => 7,
        EventKind::RunCompleted { .. } => 8,
        EventKind::RunCancelled { .. } => 9,
        EventKind::RunFailed { .. } => 10,
        EventKind::ArtifactCreated { .. } => 11,
        EventKind::ContextTransition { .. } => 12,
        EventKind::CacheObserved { .. } => 13,
        EventKind::AgentMessage { .. } => 14,
        EventKind::AssumptionTransition { .. } => 15,
        EventKind::SchedulerTransition { .. } => 16,
        EventKind::AgentPaused { .. } => 17,
        EventKind::AgentResumed { .. } => 18,
        EventKind::CapabilityTransition { .. } => 19,
        EventKind::ToolTransition { .. } => 20,
        EventKind::FailureMemoryTransition { .. } => 21,
        EventKind::SpecialistTransition { .. } => 22,
    }
}

#[derive(Clone, Debug, PartialEq, Eq)]
pub struct EventRow {
    pub sequence: i64,
    pub event_id: String,
    pub run_id: String,
    pub occurred_at_ms: String,
    pub event_kind: i64,
    pub payload: Vec<u8>,
    pub checksum: Vec<u8>,
}

pub struct EventRowView {
    pub sequence: i64,
    pub event_id: Seq<char>,
    pub run_id: Seq<char>,
    pub occurred_at_ms: Seq<char>,
    pub event_kind: i64,
    pub payload: Seq<u8>,
    pub checksum: Seq<u8>,
}

impl View for EventRow {
    type V = EventRowView;

    open spec fn view(&self) -> EventRowView {
        EventRowView {
            sequence: self.sequence,
            event_id: self.event_id@,
            run_id: self.run_id@,
            occurred_at_ms: self.occurred_at_ms@,
            event_kind: self.event_kind,
            payload: self.payload@,
            checksum: self.checksum@,
        }
    }
}

/// The first thing wrong with a batch by itself: an identity that repeats, or
/// an event that cannot be encoded.
pub open spec fn batch_refusal(events: Seq<EventView>) -> Option<StoreErrorView>
    decreases events.len(),
{
    if events.len() == 0 {
        None
    } else {
        match batch_refusal(events.drop_last()) {
            Some(refused) => Some(refused),
            None => if id_among(events.drop_last(), events.last().id) {
                Some(StoreErrorView::DuplicateEvent(events.last().id))
            } else if !kind_within(events.last().kind, u32::MAX as int) {
                Some(StoreErrorView::Corrupt("value exceeds u32::MAX"@))
            } else {
                None
            },
        }
    }
}

/// The encodings of the events.
pub open spec fn payloads_of(events: Seq<EventView>) -> Seq<Seq<u8>> {
    events.map_values(|event: EventView| event_bytes(event))
}

pub open spec fn bytes_of(list: Seq<Vec<u8>>) -> Seq<Seq<u8>> {
    list.map_values(|bytes: Vec<u8>| bytes@)
}

proof fn refused_batch_stays(events: Seq<EventView>, count: int)
    requires
        0 <= count <= events.len(),
        batch_refusal(events.take(count)) is Some,
    ensures
        batch_refusal(events) == batch_refusal(events.take(count)),
    decreases events.len(),
{
    if count < events.len() {
        assert(events.drop_last().take(count) =~= events.take(count));
        refused_batch_stays(events.drop_last(), count);
    } else {
        assert(events.take(count) =~= events);
    }
}

/// Encodes a batch, before the database is asked anything.
pub fn stage_events(events: &[Event]) -> (result: Result<Vec<Vec<u8>>, StoreError>)
    ensures
        match batch_refusal(event_views(events@)) {
            Some(refused) => result matches Err(error) && error@ == refused,
            None => result matches Ok(payloads) && bytes_of(payloads@) == payloads_of(
                event_views(events@),
            ),
        },
{
    let ghost views = event_views(events@);
    let ghost expected = payloads_of(views);
    let mut seen: Table<EventId, bool> = Table::new();
    let mut payloads: Vec<Vec<u8>> = Vec::new();
    let mut index: usize = 0;
    proof {
        assert(views.take(0) =~= Seq::<EventView>::empty());
        assert(bytes_of(payloads@) =~= expected.take(0));
    }
    while index < events.len()
        invariant
            index <= events@.len(),
            views == event_views(events@),
            expected == payloads_of(views),
            batch_refusal(views.take(index as int)) is None,
            bytes_of(payloads@) == expected.take(index as int),
            forall|id: EventId|
                #![trigger seen@.contains_key(id)]
                #![trigger id_among(views.take(index as int), id)]
                seen@.contains_key(id) == id_among(views.take(index as int), id),
        decreases events.len() - index,
    {
        let event = &events[index];
        let ghost now = views.take(index + 1);
        let ghost before = views.take(index as int);
        proof {
            assert(now.drop_last() =~= before);
            assert(now.last() == event@);
            if batch_refusal(now) is Some {
                refused_batch_stays(views, index + 1);
            }
        }
        if seen.contains_key(&event.id) {
            return Err(StoreError::DuplicateEvent(event.id));
        }
        seen.insert(event.id, true);
        let payload = match encode_event(event) {
            Ok(payload) => payload,
            Err(message) => {
                return Err(StoreError::Corrupt(message));
            },
        };
        let ghost earlier = payloads@;
        payloads.push(payload);
        proof {
            assert(expected[index as int] == event_bytes(event@));
            assert(bytes_of(payloads@) =~= bytes_of(earlier).push(event_bytes(event@)));
            assert(bytes_of(payloads@) =~= expected.take(index + 1));
            assert forall|id: EventId| seen@.contains_key(id) == id_among(now, id) by {
                if id_among(before, id) {
                    let i = choose|i: int| 0 <= i < before.len() && before[i].id == id;
                    assert(now[i].id == id);
                }
                if id == event.id {
                    assert(now[index as int].id == id);
                }
                if id_among(now, id) && id != event.id {
                    let i = choose|i: int| 0 <= i < now.len() && now[i].id == id;
                    assert(before[i].id == id);
                }
            }
        }
        index += 1;
    }
    assert(views.take(views.len() as int) =~= views);
    assert(expected.take(expected.len() as int) =~= expected);
    Ok(payloads)
}

/// The row of an event at a position.
pub open spec fn event_row_of(event: EventView, payload: Seq<u8>, sequence: i64) -> EventRowView {
    EventRowView {
        sequence,
        event_id: id_text("event"@, event.id.0),
        run_id: id_text("run"@, event.run_id.0),
        occurred_at_ms: decimal(event.occurred_at_ms as nat),
        event_kind: kind_number(event.kind),
        payload,
        checksum: content_digest(payload),
    }
}

/// Makes the row of the event at `index` of a batch, whose first event comes
/// at `next`.
pub fn event_row(event: &Event, payload: Vec<u8>, next: i64, index: usize) -> (result: Result<
    EventRow,
    StoreError,
>)
    ensures
        if 0 <= next + index <= i64::MAX {
            result matches Ok(row) && row@ == event_row_of(event@, payload@, (next + index) as i64)
        } else {
            result matches Err(error) && error@ == StoreErrorView::Corrupt(
                "event sequence overflow"@,
            )
        },
{
    let place: i128 = next as i128 + index as i128;
    if place < 0 || place > 9223372036854775807 {
        return corrupted("event sequence overflow");
    }
    let hash = content_hash(payload.as_slice());
    let checksum = vstd::slice::slice_to_vec(hash.0.as_slice());
    Ok(
        EventRow {
            sequence: place as i64,
            event_id: event.id.to_text(),
            run_id: event.run_id.to_text(),
            occurred_at_ms: decimal_text(event.occurred_at_ms),
            event_kind: event_kind_tag(&event.kind),
            payload,
            checksum,
        },
    )
}

/// What a row holds, or what is wrong with it.
pub open spec fn event_in_row(
    sequence: i64,
    event_id: Seq<char>,
    run_id: Seq<char>,
    payload: Seq<u8>,
    checksum: Seq<u8>,
) -> Result<StoredEventView, StoreErrorView> {
    if checksum != content_digest(payload) {
        corrupt("SQLite event checksum mismatch at sequence "@ + signed(sequence))
    } else {
        match event_of(payload) {
            Err(message) => corrupt(message),
            Ok(event) => if id_text("event"@, event.id.0) != event_id || id_text(
                "run"@,
                event.run_id.0,
            ) != run_id {
                corrupt("SQLite event identity mismatch at sequence "@ + signed(sequence))
            } else if sequence < 0 {
                corrupt("negative event sequence"@)
            } else {
                Ok(StoredEventView { sequence: sequence as u64, event })
            },
        }
    }
}

/// Reads an event back from its row.
pub fn read_event_row(
    sequence: i64,
    event_id: &str,
    run_id: &str,
    payload: &[u8],
    checksum: &[u8],
) -> (result: Result<StoredEvent, StoreError>)
    ensures
        outcome(result) == event_in_row(sequence, event_id@, run_id@, payload@, checksum@),
{
    let hash = content_hash(payload);
    if !same_bytes(checksum, hash.0.as_slice()) {
        let mut message = "SQLite event checksum mismatch at sequence ".to_owned();
        push_signed(&mut message, sequence);
        return Err(StoreError::Corrupt(message));
    }
    let event = match decode_event(payload) {
        Ok(event) => event,
        Err(message) => {
            return Err(StoreError::Corrupt(message));
        },
    };
    if !is_text(event.id.to_text().as_str(), event_id) || !is_text(
        event.run_id.to_text().as_str(),
        run_id,
    ) {
        let mut message = "SQLite event identity mismatch at sequence ".to_owned();
        push_signed(&mut message, sequence);
        return Err(StoreError::Corrupt(message));
    }
    if sequence < 0 {
        return corrupted("negative event sequence");
    }
    Ok(StoredEvent { sequence: sequence as u64, event })
}

/// An event is read back from the row that was made for it.
pub proof fn event_rows_read_back(event: EventView, sequence: i64)
    requires
        sequence >= 0,
        kind_within(event.kind, MAX_FRAME_BYTES as int),
        kind_well_formed(event.kind),
    ensures
        ({
            let row = event_row_of(event, event_bytes(event), sequence);
            event_in_row(row.sequence, row.event_id, row.run_id, row.payload, row.checksum) == Ok::<
                StoredEventView,
                StoreErrorView,
            >(StoredEventView { sequence: sequence as u64, event })
        }),
{
    decoding_inverts_encoding(event);
}

/// A count of rows.
pub fn row_count(count: i64) -> (result: Result<u64, StoreError>)
    ensures
        match result {
            Ok(number) => count >= 0 && number == count,
            Err(error) => count < 0 && error@ == StoreErrorView::Corrupt("negative event count"@),
        },
{
    if count < 0 {
        return corrupted("negative event count");
    }
    Ok(count as u64)
}

/// The position to read on from.
pub fn position_column(sequence: Sequence) -> (result: Result<i64, StoreError>)
    ensures
        match result {
            Ok(column) => column == sequence,
            Err(error) => sequence > i64::MAX && error@ == StoreErrorView::Corrupt(
                "event sequence overflow"@,
            ),
        },
{
    match to_signed(sequence) {
        Some(column) => Ok(column),
        None => corrupted("event sequence overflow"),
    }
}

// ---------------------------------------------------------------------------
// Branches.

#[derive(Clone, Debug, PartialEq, Eq)]
pub struct BranchRow {
    pub branch_id: String,
    pub parent_run_id: String,
    pub fork_sequence: i64,
    pub replay_mode: String,
    pub created_at_ms: String,
}

pub struct BranchRowView {
    pub branch_id: Seq<char>,
    pub parent_run_id: Seq<char>,
    pub fork_sequence: i64,
    pub replay_mode: Seq<char>,
    pub created_at_ms: Seq<char>,
}

impl View for BranchRow {
    type V = BranchRowView;

    open spec fn view(&self) -> BranchRowView {
        BranchRowView {
            branch_id: self.branch_id@,
            parent_run_id: self.parent_run_id@,
            fork_sequence: self.fork_sequence,
            replay_mode: self.replay_mode@,
            created_at_ms: self.created_at_ms@,
        }
    }
}

/// The number of an identity in a column.
pub open spec fn id_in(value: Seq<char>, prefix: Seq<char>) -> Result<u64, StoreErrorView> {
    match after_prefix(value, prefix) {
        None => corrupt("invalid persisted ID "@ + value),
        Some(digits) => match number_in(digits, 16, u64::MAX as nat) {
            None => corrupt("invalid persisted ID "@ + value),
            Some(number) => Ok(number as u64),
        },
    }
}

fn parse_id_value(value: &str, prefix: &str) -> (result: Result<u64, StoreError>)
    ensures
        match id_in(value@, prefix@) {
            Ok(number) => result == Ok::<u64, StoreError>(number),
            Err(refused) => result matches Err(error) && error@ == refused,
        },
{
    match strip_prefix(value, prefix) {
        None => Err(StoreError::Corrupt(joined("invalid persisted ID ", value))),
        Some(digits) => match parse_number(digits.as_str(), 16, u64::MAX) {
            None => Err(StoreError::Corrupt(joined("invalid persisted ID ", value))),
            Some(number) => Ok(number),
        },
    }
}

pub open spec fn branch_in_row(row: BranchRowView) -> Result<BranchMetadata, StoreErrorView> {
    match id_in(row.branch_id, "branch-"@) {
        Err(error) => Err(error),
        Ok(branch_id) => match id_in(row.parent_run_id, "run-"@) {
            Err(error) => Err(error),
            Ok(parent) => if row.fork_sequence < 0 {
                corrupt("negative fork sequence"@)
            } else {
                match ReplayMode::named(row.replay_mode) {
                    Err(error) => Err(error),
                    Ok(replay_mode) => match number_in(
                        row.created_at_ms,
                        10,
                        u64::MAX as nat,
                    ) {
                        None => corrupt("invalid branch timestamp"@),
                        Some(created_at_ms) => Ok(
                            BranchMetadata {
                                branch_id: BranchId(branch_id),
                                parent_run_id: RunId(parent),
                                fork_sequence: row.fork_sequence as u64,
                                replay_mode,
                                created_at_ms: created_at_ms as u64,
                            },
                        ),
                    },
                }
            },
        },
    }
}

/// Reads a branch back from its row.
pub fn decode_branch(row: &BranchRow) -> (result: Result<BranchMetadata, StoreError>)
    ensures
        match branch_in_row(row@) {
            Ok(branch) => result == Ok::<BranchMetadata, StoreError>(branch),
            Err(refused) => result matches Err(error) && error@ == refused,
        },
{
    let branch_id = BranchId::from_u64(parse_id_value(row.branch_id.as_str(), "branch-")?);
    let parent_run_id = RunId::from_u64(parse_id_value(row.parent_run_id.as_str(), "run-")?);
    if row.fork_sequence < 0 {
        return corrupted("negative fork sequence");
    }
    let replay_mode = ReplayMode::parse(row.replay_mode.as_str())?;
    let created_at_ms: u64 = match parse_number(row.created_at_ms.as_str(), 10, u64::MAX) {
        Some(created_at_ms) => created_at_ms,
        None => {
            return corrupted("invalid branch timestamp");
        },
    };
    Ok(
        BranchMetadata {
            branch_id,
            parent_run_id,
            fork_sequence: row.fork_sequence as u64,
            replay_mode,
            created_at_ms,
        },
    )
}

pub open spec fn branch_row_of(branch: BranchMetadata) -> BranchRowView {
    BranchRowView {
        branch_id: id_text("branch"@, branch.branch_id.0),
        parent_run_id: id_text("run"@, branch.parent_run_id.0),
        fork_sequence: branch.fork_sequence as i64,
        replay_mode: branch.replay_mode.name(),
        created_at_ms: decimal(branch.created_at_ms as nat),
    }
}

/// What the numbers of a branch are refused for, if they are.
pub open spec fn branch_refusal(fork_sequence: Sequence, created_at_ms: u64) -> Option<
    StoreErrorView,
> {
    if fork_sequence > i64::MAX {
        Some(StoreErrorView::Corrupt("fork sequence overflow"@))
    } else if created_at_ms > i64::MAX {
        Some(StoreErrorView::Corrupt("branch timestamp overflow"@))
    } else {
        None
    }
}

/// Checks that the numbers of a branch fit their columns, before the database
/// is asked anything.
pub fn check_branch_columns(fork_sequence: Sequence, created_at_ms: u64) -> (result: Result<
    (),
    StoreError,
>)
    ensures
        match branch_refusal(fork_sequence, created_at_ms) {
            Some(refused) => result matches Err(error) && error@ == refused,
            None => result is Ok,
        },
{
    if to_signed(fork_sequence).is_none() {
        return corrupted("fork sequence overflow");
    }
    if to_signed(created_at_ms).is_none() {
        return corrupted("branch timestamp overflow");
    }
    Ok(())
}

/// Decides on a fork by what the database says of its parent.
pub fn check_fork_parent(
    parent_run_id: RunId,
    fork_sequence: Sequence,
    fork_exists: bool,
    parent_exists: bool,
) -> (result: Result<(), StoreError>)
    ensures
        match result {
            Ok(_) => fork_exists,
            Err(error) => !fork_exists && error@ == if !parent_exists {
                StoreErrorView::UnknownRun(parent_run_id)
            } else {
                StoreErrorView::InvalidTransition(
                    "fork sequence "@ + decimal(fork_sequence as nat) + " is not present in run "@
                        + id_text("run"@, parent_run_id.0),
                )
            },
        },
{
    if fork_exists {
        return Ok(());
    }
    if !parent_exists {
        return Err(StoreError::UnknownRun(parent_run_id));
    }
    let mut message = "fork sequence ".to_owned();
    push_decimal(&mut message, fork_sequence as u128);
    message.append(" is not present in run ");
    message.append(parent_run_id.to_text().as_str());
    Err(StoreError::InvalidTransition(message))
}

/// Makes the row of a branch whose numbers fit.
pub fn branch_row(branch: &BranchMetadata) -> (row: BranchRow)
    requires
        branch_refusal(branch.fork_sequence, branch.created_at_ms) is None,
    ensures
        row@ == branch_row_of(*branch),
{
    BranchRow {
        branch_id: branch.branch_id.to_text(),
        parent_run_id: branch.parent_run_id.to_text(),
        fork_sequence: branch.fork_sequence as i64,
        replay_mode: branch.replay_mode.as_str().to_owned(),
        created_at_ms: decimal_text(branch.created_at_ms as u128),
    }
}

/// An identity is read back from its column.
proof fn ids_read_back(prefix: Seq<char>, dashed: Seq<char>, value: u64)
    requires
        dashed == prefix + "-"@,
    ensures
        id_in(id_text(prefix, value), dashed) == Ok::<u64, StoreErrorView>(value),
{
    let digits = hex_digits(value as nat, 16);
    hex_digits_read_back(value as nat, 16);
    sixteen_digits_hold_a_word();
    number_reads_back(digits, 16, value as nat, u64::MAX as nat);
    let text = id_text(prefix, value);
    assert(text =~= dashed + digits);
    assert(text.take(dashed.len() as int) =~= dashed);
    assert(text.skip(dashed.len() as int) =~= digits);
}

/// A branch is read back from the row that was made for it.
pub proof fn branch_rows_read_back(branch: BranchMetadata)
    requires
        branch_refusal(branch.fork_sequence, branch.created_at_ms) is None,
    ensures
        branch_in_row(branch_row_of(branch)) == Ok::<BranchMetadata, StoreErrorView>(branch),
{
    reveal_strlit("branch");
    reveal_strlit("branch-");
    reveal_strlit("run");
    reveal_strlit("run-");
    reveal_strlit("-");
    assert("branch-"@ =~= "branch"@ + "-"@);
    assert("run-"@ =~= "run"@ + "-"@);
    ids_read_back("branch"@, "branch-"@, branch.branch_id.0);
    ids_read_back("run"@, "run-"@, branch.parent_run_id.0);
    replay_mode_names_read_back(branch.replay_mode);
    decimal_reads_back(branch.created_at_ms as nat);
    number_reads_back(
        decimal(branch.created_at_ms as nat),
        10,
        branch.created_at_ms as nat,
        u64::MAX as nat,
    );
}

// ---------------------------------------------------------------------------
// Snapshots.

#[derive(Clone, Debug, PartialEq, Eq)]
pub struct SnapshotRow {
    pub at_sequence: i64,
    pub state_blob: Vec<u8>,
    pub checksum: Vec<u8>,
}

/// Makes the row of a snapshot.
pub fn snapshot_row(snapshot: &RuntimeSnapshot) -> (result: Result<SnapshotRow, StoreError>)
    ensures
        match snapshot_codec::encoded(listing_of(snapshot.state)) {
            Err(message) => result matches Err(error) && error@ == StoreErrorView::Corrupt(
                message,
            ),
            Ok(blob) => if snapshot.at_sequence > i64::MAX {
                result matches Err(error) && error@ == StoreErrorView::Corrupt(
                    "snapshot sequence overflow"@,
                )
            } else {
                result matches Ok(row) && row.at_sequence == snapshot.at_sequence
                    && row.state_blob@ == blob && row.checksum@ == content_digest(blob)
            },
        },
{
    let state_blob = match encode_snapshot_state(&snapshot.state) {
        Ok(blob) => blob,
        Err(message) => {
            return Err(StoreError::Corrupt(message));
        },
    };
    let at_sequence: i64 = match to_signed(snapshot.at_sequence) {
        Some(at_sequence) => at_sequence,
        None => {
            return corrupted("snapshot sequence overflow");
        },
    };
    let hash = content_hash(state_blob.as_slice());
    let checksum = vstd::slice::slice_to_vec(hash.0.as_slice());
    Ok(SnapshotRow { at_sequence, state_blob, checksum })
}

/// The position up to which a snapshot is looked for.
pub fn snapshot_limit(at_or_before: Option<Sequence>) -> (result: Result<i64, StoreError>)
    ensures
        match result {
            Ok(limit) => limit == match at_or_before {
                Some(sequence) => sequence as int,
                None => i64::MAX as int,
            },
            Err(error) => {
                &&& at_or_before matches Some(sequence) && sequence > i64::MAX
                &&& error@ == StoreErrorView::Corrupt("snapshot sequence overflow"@)
            },
        },
{
    match at_or_before {
        None => Ok(i64::MAX),
        Some(sequence) => match to_signed(sequence) {
            Some(limit) => Ok(limit),
            None => corrupted("snapshot sequence overflow"),
        },
    }
}

/// What a snapshot's row is refused for, given the one that is there: it
/// must be intact, and it never changes.
pub open spec fn snapshot_clash(
    run_id: RunId,
    at_sequence: Sequence,
    existing_blob: Seq<u8>,
    existing_checksum: Seq<u8>,
    blob: Seq<u8>,
) -> Option<StoreErrorView> {
    if existing_checksum != content_digest(existing_blob) {
        Some(
            StoreErrorView::Corrupt(
                "snapshot checksum mismatch for run "@ + id_text("run"@, run_id.0)
                    + " at sequence "@ + decimal(at_sequence as nat),
            ),
        )
    } else if existing_blob != blob {
        Some(
            StoreErrorView::InvalidTransition(
                "snapshot "@ + id_text("run"@, run_id.0) + " at sequence "@ + decimal(
                    at_sequence as nat,
                ) + " is immutable"@,
            ),
        )
    } else {
        None
    }
}

/// Compares a snapshot's row with the one that is there.
pub fn check_existing_snapshot(
    snapshot: &RuntimeSnapshot,
    row: &SnapshotRow,
    existing_blob: &[u8],
    existing_checksum: &[u8],
) -> (result: Result<(), StoreError>)
    ensures
        match snapshot_clash(
            snapshot.run_id,
            snapshot.at_sequence,
            existing_blob@,
            existing_checksum@,
            row.state_blob@,
        ) {
            Some(refused) => result matches Err(error) && error@ == refused,
            None => result is Ok,
        },
{
    let hash = content_hash(existing_blob);
    if !same_bytes(existing_checksum, hash.0.as_slice()) {
        let mut message = "snapshot checksum mismatch for run ".to_owned();
        message.append(snapshot.run_id.to_text().as_str());
        message.append(" at sequence ");
        push_decimal(&mut message, snapshot.at_sequence as u128);
        return Err(StoreError::Corrupt(message));
    }
    if !same_bytes(existing_blob, row.state_blob.as_slice()) {
        let mut message = "snapshot ".to_owned();
        message.append(snapshot.run_id.to_text().as_str());
        message.append(" at sequence ");
        push_decimal(&mut message, snapshot.at_sequence as u128);
        message.append(" is immutable");
        return Err(StoreError::InvalidTransition(message));
    }
    Ok(())
}

/// What a snapshot's row holds, or what is wrong with it.
pub open spec fn snapshot_in_row(
    run_id: RunId,
    at_sequence: i64,
    state_blob: Seq<u8>,
    checksum: Seq<u8>,
) -> Result<RuntimeSnapshotView, StoreErrorView> {
    if checksum != content_digest(state_blob) {
        corrupt(
            "snapshot checksum mismatch for run "@ + id_text("run"@, run_id.0) + " at sequence "@
                + signed(at_sequence),
        )
    } else if at_sequence < 0 {
        corrupt("negative snapshot sequence"@)
    } else {
        match snapshot_codec::decoded(state_blob) {
            Err(message) => corrupt(message),
            Ok(state) => Ok(
                RuntimeSnapshotView { run_id, at_sequence: at_sequence as u64, state },
            ),
        }
    }
}

/// Reads a snapshot back from its row.
pub fn read_snapshot_row(run_id: RunId, row: &SnapshotRow) -> (result: Result<
    RuntimeSnapshot,
    StoreError,
>)
    ensures
        outcome(result) == snapshot_in_row(
            run_id,
            row.at_sequence,
            row.state_blob@,
            row.checksum@,
        ),
{
    let hash = content_hash(row.state_blob.as_slice());
    if !same_bytes(row.checksum.as_slice(), hash.0.as_slice()) {
        let mut message = "snapshot checksum mismatch for run ".to_owned();
        message.append(run_id.to_text().as_str());
        message.append(" at sequence ");
        push_signed(&mut message, row.at_sequence);
        return Err(StoreError::Corrupt(message));
    }
    if row.at_sequence < 0 {
        return corrupted("negative snapshot sequence");
    }
    match decode_snapshot_state(row.state_blob.as_slice()) {
        Ok(state) => Ok(RuntimeSnapshot { run_id, at_sequence: row.at_sequence as u64, state }),
        Err(message) => Err(StoreError::Corrupt(message)),
    }
}

/// A snapshot is read back from the row that was made for it.
pub proof fn snapshot_rows_read_back(snapshot: RuntimeSnapshot)
    requires
        snapshot.at_sequence <= i64::MAX,
        snapshot.state.tasks.well_formed(),
        snapshot.state.agents.well_formed(),
        snapshot.state.artifacts.well_formed(),
        snapshot_codec::keyed(snapshot.state@),
        snapshot_codec::encoded(listing_of(snapshot.state)) is Ok,
        snapshot.state.tasks.values().len() <= MAX_SNAPSHOT_ITEMS,
        snapshot.state.agents.values().len() <= MAX_SNAPSHOT_ITEMS,
        snapshot.state.artifacts.values().len() <= MAX_SNAPSHOT_ITEMS,
    ensures
        ({
            let blob = snapshot_codec::encoded(listing_of(snapshot.state))->Ok_0;
            snapshot_in_row(
                snapshot.run_id,
                snapshot.at_sequence as i64,
                blob,
                content_digest(blob),
            ) == Ok::<RuntimeSnapshotView, StoreErrorView>(snapshot@)
        }),
{
    snapshots_preserve_states(snapshot.state);
}

// ---------------------------------------------------------------------------
// Artifacts.

#[derive(Clone, Debug, PartialEq, Eq)]
pub struct ArtifactRow {
    pub size_bytes: i64,
    pub media_type: String,
    pub payload: Vec<u8>,
    pub checksum: Vec<u8>,
    pub trust_tag: i64,
}

pub struct ArtifactRowView {
    pub size_bytes: i64,
    pub media_type: Seq<char>,
    pub payload: Seq<u8>,
    pub checksum: Seq<u8>,
    pub trust_tag: i64,
}

impl View for ArtifactRow {
    type V = ArtifactRowView;

    open spec fn view(&self) -> ArtifactRowView {
        ArtifactRowView {
            size_bytes: self.size_bytes,
            media_type: self.media_type@,
            payload: self.payload@,
            checksum: self.checksum@,
            trust_tag: self.trust_tag,
        }
    }
}

pub open spec fn artifact_corrupt<V>(message: Seq<char>) -> Result<V, ArtifactErrorView> {
    Err(ArtifactErrorView::Corrupt(message))
}

fn artifact_corrupted<T>(message: &str) -> (result: Result<T, ArtifactError>)
    ensures
        result matches Err(error) && error@ == ArtifactErrorView::Corrupt(message@),
{
    Err(ArtifactError::Corrupt(message.to_owned()))
}

pub fn artifact_trust_tag(trust: TrustOrigin) -> (tag: i64)
    ensures
        tag == trust_byte(trust),
{
    trust_tag(trust) as i64
}

pub open spec fn trust_in(tag: i64) -> Result<TrustOrigin, ArtifactErrorView> {
    if 0 <= tag <= 255 && trust_from_byte(tag as u8) is Ok {
        Ok(trust_from_byte(tag as u8)->Ok_0)
    } else {
        artifact_corrupt("unknown artifact trust tag "@ + signed(tag))
    }
}

pub fn decode_artifact_trust(tag: i64) -> (result: Result<TrustOrigin, ArtifactError>)
    ensures
        match trust_in(tag) {
            Ok(trust) => result == Ok::<TrustOrigin, ArtifactError>(trust),
            Err(refused) => result matches Err(error) && error@ == refused,
        },
{
    if 0 <= tag && tag <= 255 {
        if let Ok(trust) = decode_trust_tag(tag as u8) {
            return Ok(trust);
        }
    }
    let mut message = "unknown artifact trust tag ".to_owned();
    push_signed(&mut message, tag);
    Err(ArtifactError::Corrupt(message))
}

pub open spec fn artifact_row_of(reference: ArtifactRefView, bytes: Seq<u8>) -> ArtifactRowView {
    ArtifactRowView {
        size_bytes: bytes.len() as i64,
        media_type: reference.media_type,
        payload: bytes,
        checksum: content_digest(bytes),
        trust_tag: trust_byte(reference.trust) as i64,
    }
}

/// Makes the row of an artifact.
pub fn artifact_row(reference: &ArtifactRef, bytes: Vec<u8>) -> (result: Result<
    ArtifactRow,
    ArtifactError,
>)
    ensures
        if bytes@.len() <= i64::MAX {
            result matches Ok(row) && row@ == artifact_row_of(reference@, bytes@)
        } else {
            result matches Err(error) && error@ == ArtifactErrorView::Storage(
                "artifact too large"@,
            )
        },
{
    let size_bytes: i64 = match to_signed(bytes.len() as u64) {
        Some(size_bytes) => size_bytes,
        None => {
            return Err(ArtifactError::Storage("artifact too large".to_owned()));
        },
    };
    let hash = content_hash(bytes.as_slice());
    let checksum = vstd::slice::slice_to_vec(hash.0.as_slice());
    Ok(
        ArtifactRow {
            size_bytes,
            media_type: reference.media_type.clone(),
            payload: bytes,
            checksum,
            trust_tag: artifact_trust_tag(reference.trust),
        },
    )
}

/// The trust of an artifact that is stored again, given the row that is
/// there: combined, and so never upgraded.
pub open spec fn trust_after(
    row: ArtifactRowView,
    reference: ArtifactRefView,
    bytes: Seq<u8>,
) -> Result<TrustOrigin, ArtifactErrorView> {
    if row.checksum != content_digest(row.payload) {
        artifact_corrupt("stored artifact checksum mismatch"@)
    } else if row.payload != bytes {
        Err(ArtifactErrorView::HashCollision(reference.content_hash))
    } else if row.media_type != reference.media_type || row.size_bytes != bytes.len() {
        Err(ArtifactErrorView::MetadataMismatch(reference.content_hash))
    } else {
        match trust_in(row.trust_tag) {
            Err(error) => Err(error),
            Ok(trust) => Ok(trust.combined(reference.trust)),
        }
    }
}

/// Stores an artifact again: its reference, and the tag to write where the
/// trust changed.
pub fn merge_artifact_row(row: &ArtifactRow, reference: &ArtifactRef, bytes: &[u8]) -> (result:
    Result<(ArtifactRef, Option<i64>), ArtifactError>)
    ensures
        match trust_after(row@, reference@, bytes@) {
            Err(refused) => result matches Err(error) && error@ == refused,
            Ok(trust) => result matches Ok(merged) && {
                &&& merged.0@ == (ArtifactRefView { trust, ..reference@ })
                &&& merged.1 == if trust_in(row@.trust_tag)->Ok_0 == trust {
                    None
                } else {
                    Some(trust_byte(trust) as i64)
                }
            },
        },
{
    let hash = content_hash(row.payload.as_slice());
    if !same_bytes(row.checksum.as_slice(), hash.0.as_slice()) {
        return artifact_corrupted("stored artifact checksum mismatch");
    }
    if !same_bytes(row.payload.as_slice(), bytes) {
        return Err(ArtifactError::HashCollision(reference.content_hash));
    }
    let same_size = row.size_bytes >= 0 && row.size_bytes as u64 == bytes.len() as u64;
    if !is_text(row.media_type.as_str(), reference.media_type.as_str()) || !same_size {
        return Err(ArtifactError::MetadataMismatch(reference.content_hash));
    }
    let existing = decode_artifact_trust(row.trust_tag)?;
    let trust = existing.combine(reference.trust);
    let update: Option<i64> = if existing == trust {
        None
    } else {
        Some(artifact_trust_tag(trust))
    };
    Ok(
        (
            ArtifactRef {
                content_hash: reference.content_hash,
                size_bytes: reference.size_bytes,
                media_type: reference.media_type.clone(),
                trust,
            },
            update,
        ),
    )
}

/// What an artifact's row holds, or what is wrong with it.
pub open spec fn artifact_in_row(content_hash: Seq<u8>, row: ArtifactRowView) -> Result<
    StoredArtifactView,
    ArtifactErrorView,
> {
    if row.checksum != content_digest(row.payload) {
        artifact_corrupt("stored artifact checksum mismatch"@)
    } else if row.size_bytes != row.payload.len() {
        artifact_corrupt("stored artifact size mismatch"@)
    } else if content_digest(row.payload) != content_hash {
        artifact_corrupt("stored artifact content hash mismatch"@)
    } else {
        match trust_in(row.trust_tag) {
            Err(error) => Err(error),
            Ok(trust) => Ok(
                StoredArtifactView {
                    reference: ArtifactRefView {
                        content_hash,
                        size_bytes: row.size_bytes as u64,
                        media_type: row.media_type,
                        trust,
                    },
                    bytes: row.payload,
                },
            ),
        }
    }
}

/// Reads an artifact back from its row.
pub fn read_artifact_row(hash: ContentHash, row: &ArtifactRow) -> (result: Result<
    StoredArtifact,
    ArtifactError,
>)
    ensures
        outcome(result) == artifact_in_row(hash@, row@),
{
    let actual = content_hash(row.payload.as_slice());
    if !same_bytes(row.checksum.as_slice(), actual.0.as_slice()) {
        return artifact_corrupted("stored artifact checksum mismatch");
    }
    if row.size_bytes < 0 || row.size_bytes as u64 != row.payload.len() as u64 {
        return artifact_corrupted("stored artifact size mismatch");
    }
    if !same_bytes(actual.0.as_slice(), hash.0.as_slice()) {
        return artifact_corrupted("stored artifact content hash mismatch");
    }
    let trust = decode_artifact_trust(row.trust_tag)?;
    let reference = ArtifactRef {
        content_hash: hash,
        size_bytes: row.size_bytes as u64,
        media_type: row.media_type.clone(),
        trust,
    };
    let stored = StoredArtifact { reference, bytes: clone_bytes(&row.payload) };
    assert(stored@.reference.content_hash == hash@);
    assert(stored@.reference.size_bytes == row.size_bytes as u64);
    assert(stored@.reference.media_type == row.media_type@);
    assert(stored@.bytes == row.payload@);
    Ok(stored)
}

/// An artifact is read back from the row that was made for it.
pub proof fn artifact_rows_read_back(
    media_type: Seq<char>,
    bytes: Seq<u8>,
    trust: TrustOrigin,
    reference: ArtifactRefView,
)
    requires
        described(media_type, bytes, trust, content_digest(bytes)) == Ok::<
            ArtifactRefView,
            ArtifactErrorView,
        >(reference),
    ensures
        artifact_in_row(reference.content_hash, artifact_row_of(reference, bytes)) == Ok::<
            StoredArtifactView,
            ArtifactErrorView,
        >(StoredArtifactView { reference, bytes }),
{
}

/// Storing an artifact again never raises its trust.
pub proof fn stored_trust_is_never_upgraded(
    row: ArtifactRowView,
    reference: ArtifactRefView,
    bytes: Seq<u8>,
)
    requires
        trust_after(row, reference, bytes) is Ok,
    ensures
        trust_after(row, reference, bytes)->Ok_0.rank() <= trust_in(row.trust_tag)->Ok_0.rank(),
        trust_after(row, reference, bytes)->Ok_0.rank() <= reference.trust.rank(),
{
}

} // verus!
