//! The metadata file beside an event log: branches and snapshots in
//! checksummed records.

use vstd::bytes::{
    lemma_auto_spec_u32_to_from_le_bytes, lemma_auto_spec_u64_to_from_le_bytes,
    spec_u32_from_le_bytes, spec_u64_from_le_bytes, u32_from_le_bytes, u64_from_le_bytes,
};
use vstd::prelude::*;
use vstd::slice::slice_subrange;
use vstd::string::StringExecFns;
use vstd::utf8::encode_utf8;

use crate::artifact::{content_digest, content_digest_length, content_hash};
use crate::codec::{
    concat_is_associative, outcome, put_array, put_bytes, put_u32, put_u64, put_u8, u32_bytes,
    u32_bytes_len, u64_bytes, u64_bytes_len, u8_bytes,
};
use crate::event_codec::MAX_FRAME_BYTES;
use crate::event_store::{
    branches_of, eligible_snapshot, fork_check, latest_snapshot, select_branches, select_snapshot,
    snapshot_check, stored_views, validate_fork_sequence, validate_snapshot, BranchMetadata,
    ReplayMode, RuntimeSnapshot, RuntimeSnapshotView, SnapshotKey, StoredEvent, StoredEventView,
};
use crate::frames::{corrupt, CHECKSUM_BYTES};
use crate::ids::{BranchId, RunId};
use crate::keys::same_bytes;
use crate::snapshot_codec::{
    self, decode_snapshot_state, encode_snapshot_state, keyed, listing_of, MAX_SNAPSHOT_ITEMS,
};
use crate::state::{Sequence, StoreError, StoreErrorView};
use crate::table::{Record, Table};
use crate::text::{decimal, numbered};

verus! {

pub const METADATA_FRAME_HEADER_BYTES: usize = 5;

pub const BRANCH_RECORD: u8 = 1;

pub const SNAPSHOT_RECORD: u8 = 2;

pub open spec fn metadata_magic() -> Seq<u8> {
    encode_utf8("ORYNTH-META-1\n"@)
}

// ---------------------------------------------------------------------------
// Branch records.

pub open spec fn mode_byte(mode: ReplayMode) -> u8 {
    match mode {
        ReplayMode::Recorded => 0,
        ReplayMode::ReexecuteLive => 1,
        ReplayMode::ForkLive => 2,
    }
}

pub open spec fn branch_bytes(branch: BranchMetadata) -> Seq<u8> {
    u64_bytes(branch.branch_id.0) + u64_bytes(branch.parent_run_id.0) + u64_bytes(
        branch.fork_sequence,
    ) + u8_bytes(mode_byte(branch.replay_mode)) + u64_bytes(branch.created_at_ms)
}

pub open spec fn mode_of(tag: u8) -> Result<ReplayMode, StoreErrorView> {
    if tag == 0 {
        Ok(ReplayMode::Recorded)
    } else if tag == 1 {
        Ok(ReplayMode::ReexecuteLive)
    } else if tag == 2 {
        Ok(ReplayMode::ForkLive)
    } else {
        corrupt("unknown replay mode tag "@ + decimal(tag as nat))
    }
}

pub open spec fn branch_of(bytes: Seq<u8>) -> Result<BranchMetadata, StoreErrorView> {
    if bytes.len() != 33 {
        corrupt("branch metadata payload has invalid length"@)
    } else {
        match mode_of(bytes[24]) {
            Err(error) => Err(error),
            Ok(replay_mode) => Ok(
                BranchMetadata {
                    branch_id: BranchId(spec_u64_from_le_bytes(bytes.subrange(0, 8))),
                    parent_run_id: RunId(spec_u64_from_le_bytes(bytes.subrange(8, 16))),
                    fork_sequence: spec_u64_from_le_bytes(bytes.subrange(16, 24)),
                    replay_mode,
                    created_at_ms: spec_u64_from_le_bytes(bytes.subrange(25, 33)),
                },
            ),
        }
    }
}

pub fn encode_branch_metadata(branch: &BranchMetadata) -> (bytes: Vec<u8>)
    ensures
        bytes@ == branch_bytes(*branch),
{
    broadcast use concat_is_associative;
    let mut bytes: Vec<u8> = Vec::new();
    put_u64(&mut bytes, branch.branch_id.value());
    put_u64(&mut bytes, branch.parent_run_id.value());
    put_u64(&mut bytes, branch.fork_sequence);
    let tag: u8 = match branch.replay_mode {
        ReplayMode::Recorded => 0,
        ReplayMode::ReexecuteLive => 1,
        ReplayMode::ForkLive => 2,
    };
    put_u8(&mut bytes, tag);
    put_u64(&mut bytes, branch.created_at_ms);
    assert(bytes@ =~= branch_bytes(*branch));
    bytes
}

pub fn decode_branch_metadata(bytes: &[u8]) -> (result: Result<BranchMetadata, StoreError>)
    ensures
        outcome(result) == branch_of(bytes@),
{
    if bytes.len() != 33 {
        return Err(
            StoreError::Corrupt("branch metadata payload has invalid length".to_owned()),
        );
    }
    let tag: u8 = bytes[24];
    let replay_mode = match tag {
        0 => ReplayMode::Recorded,
        1 => ReplayMode::ReexecuteLive,
        2 => ReplayMode::ForkLive,
        _ => {
            return Err(StoreError::Corrupt(numbered("unknown replay mode tag ", tag as u128)));
        },
    };
    Ok(
        BranchMetadata {
            branch_id: BranchId::from_u64(u64_from_le_bytes(slice_subrange(bytes, 0, 8))),
            parent_run_id: RunId::from_u64(u64_from_le_bytes(slice_subrange(bytes, 8, 16))),
            fork_sequence: u64_from_le_bytes(slice_subrange(bytes, 16, 24)),
            replay_mode,
            created_at_ms: u64_from_le_bytes(slice_subrange(bytes, 25, 33)),
        },
    )
}

/// Branch records read back.
pub proof fn branch_decoding_inverts_encoding(branch: BranchMetadata)
    ensures
        branch_of(branch_bytes(branch)) == Ok::<BranchMetadata, StoreErrorView>(branch),
        branch_bytes(branch).len() == 33,
{
    let bytes = branch_bytes(branch);
    lemma_auto_spec_u64_to_from_le_bytes();
    u64_bytes_len(branch.branch_id.0);
    u64_bytes_len(branch.parent_run_id.0);
    u64_bytes_len(branch.fork_sequence);
    u64_bytes_len(branch.created_at_ms);
    assert(bytes.subrange(0, 8) =~= u64_bytes(branch.branch_id.0));
    assert(bytes.subrange(8, 16) =~= u64_bytes(branch.parent_run_id.0));
    assert(bytes.subrange(16, 24) =~= u64_bytes(branch.fork_sequence));
    assert(bytes[24] == mode_byte(branch.replay_mode));
    assert(bytes.subrange(25, 33) =~= u64_bytes(branch.created_at_ms));
}

// ---------------------------------------------------------------------------
// Snapshot records.

pub open spec fn snapshot_bytes(run_id: RunId, at_sequence: Sequence, state: Seq<u8>) -> Seq<u8> {
    u64_bytes(run_id.0) + u64_bytes(at_sequence) + u32_bytes(state.len() as u32) + state
}

pub open spec fn snapshot_encoded(snapshot: RuntimeSnapshot) -> Result<Seq<u8>, StoreErrorView> {
    match snapshot_codec::encoded(listing_of(snapshot.state)) {
        Err(message) => corrupt(message),
        Ok(state) => if state.len() > u32::MAX {
            Err(StoreErrorView::Storage("snapshot state exceeds u32::MAX"@))
        } else {
            Ok(snapshot_bytes(snapshot.run_id, snapshot.at_sequence, state))
        },
    }
}

pub open spec fn snapshot_decoded(bytes: Seq<u8>) -> Result<RuntimeSnapshotView, StoreErrorView> {
    if bytes.len() < 20 {
        corrupt("snapshot metadata payload is truncated"@)
    } else if 20 + spec_u32_from_le_bytes(bytes.subrange(16, 20)) != bytes.len() {
        corrupt("snapshot metadata payload has invalid length"@)
    } else {
        match snapshot_codec::decoded(bytes.subrange(20, bytes.len() as int)) {
            Err(message) => corrupt(message),
            Ok(state) => Ok(
                RuntimeSnapshotView {
                    run_id: RunId(spec_u64_from_le_bytes(bytes.subrange(0, 8))),
                    at_sequence: spec_u64_from_le_bytes(bytes.subrange(8, 16)),
                    state,
                },
            ),
        }
    }
}

pub fn encode_snapshot_metadata(snapshot: &RuntimeSnapshot) -> (result: Result<
    Vec<u8>,
    StoreError,
>)
    ensures
        outcome(result) == snapshot_encoded(*snapshot),
{
    broadcast use concat_is_associative;
    let state = match encode_snapshot_state(&snapshot.state) {
        Ok(state) => state,
        Err(message) => {
            return Err(StoreError::Corrupt(message));
        },
    };
    if state.len() > 4294967295 {
        return Err(StoreError::Storage("snapshot state exceeds u32::MAX".to_owned()));
    }
    let mut bytes: Vec<u8> = Vec::new();
    put_u64(&mut bytes, snapshot.run_id.value());
    put_u64(&mut bytes, snapshot.at_sequence);
    put_u32(&mut bytes, state.len() as u32);
    put_bytes(&mut bytes, state.as_slice());
    assert(bytes@ =~= snapshot_bytes(snapshot.run_id, snapshot.at_sequence, state@));
    Ok(bytes)
}

pub fn decode_snapshot_metadata(bytes: &[u8]) -> (result: Result<RuntimeSnapshot, StoreError>)
    ensures
        outcome(result) == snapshot_decoded(bytes@),
{
    if bytes.len() < 20 {
        return Err(StoreError::Corrupt("snapshot metadata payload is truncated".to_owned()));
    }
    let length: usize = u32_from_le_bytes(slice_subrange(bytes, 16, 20)) as usize;
    if length != bytes.len() - 20 {
        return Err(
            StoreError::Corrupt("snapshot metadata payload has invalid length".to_owned()),
        );
    }
    let run_id = RunId::from_u64(u64_from_le_bytes(slice_subrange(bytes, 0, 8)));
    let at_sequence: Sequence = u64_from_le_bytes(slice_subrange(bytes, 8, 16));
    match decode_snapshot_state(slice_subrange(bytes, 20, bytes.len())) {
        Ok(state) => Ok(RuntimeSnapshot { run_id, at_sequence, state }),
        Err(message) => Err(StoreError::Corrupt(message)),
    }
}

/// Snapshot records read back.
pub proof fn snapshot_decoding_inverts_encoding(snapshot: RuntimeSnapshot)
    requires
        snapshot_encoded(snapshot) is Ok,
        snapshot.state.tasks.well_formed(),
        snapshot.state.agents.well_formed(),
        snapshot.state.artifacts.well_formed(),
        keyed(snapshot.state@),
        snapshot.state.tasks.values().len() <= MAX_SNAPSHOT_ITEMS,
        snapshot.state.agents.values().len() <= MAX_SNAPSHOT_ITEMS,
        snapshot.state.artifacts.values().len() <= MAX_SNAPSHOT_ITEMS,
    ensures
        snapshot_decoded(snapshot_encoded(snapshot)->Ok_0) == Ok::<
            RuntimeSnapshotView,
            StoreErrorView,
        >(snapshot@),
{
    let state = snapshot_codec::encoded(listing_of(snapshot.state))->Ok_0;
    let bytes = snapshot_bytes(snapshot.run_id, snapshot.at_sequence, state);
    snapshot_codec::snapshots_preserve_states(snapshot.state);
    lemma_auto_spec_u64_to_from_le_bytes();
    lemma_auto_spec_u32_to_from_le_bytes();
    u64_bytes_len(snapshot.run_id.0);
    u64_bytes_len(snapshot.at_sequence);
    u32_bytes_len(state.len() as u32);
    assert(bytes.subrange(0, 8) =~= u64_bytes(snapshot.run_id.0));
    assert(bytes.subrange(8, 16) =~= u64_bytes(snapshot.at_sequence));
    assert(bytes.subrange(16, 20) =~= u32_bytes(state.len() as u32));
    assert(bytes.subrange(20, bytes.len() as int) =~= state);
}

// ---------------------------------------------------------------------------
// Records in the file.

/// Kind, length, payload and the digest of the payload.
#[verifier::opaque]
pub open spec fn record_bytes(kind: u8, payload: Seq<u8>) -> Seq<u8> {
    u8_bytes(kind) + u32_bytes(payload.len() as u32) + payload + content_digest(payload)
}

/// Appends one record, unless its payload is too large.
pub fn append_metadata_frame(bytes: &mut Vec<u8>, kind: u8, payload: &[u8]) -> (result: Result<
    (),
    StoreError,
>)
    ensures
        match result {
            Ok(_) => payload@.len() <= MAX_FRAME_BYTES && final(bytes)@ == old(bytes)@
                + record_bytes(kind, payload@),
            Err(error) => {
                &&& payload@.len() > MAX_FRAME_BYTES
                &&& final(bytes)@ == old(bytes)@
                &&& error@ == oversized_record(payload@.len())
            },
        },
{
    broadcast use concat_is_associative;
    reveal(record_bytes);
    let length: usize = payload.len();
    if length > MAX_FRAME_BYTES {
        let mut message = numbered(
            "metadata payload exceeds maximum frame size: ",
            length as u128,
        );
        message.append(" bytes");
        return Err(StoreError::Storage(message));
    }
    put_u8(bytes, kind);
    put_u32(bytes, length as u32);
    put_bytes(bytes, payload);
    put_array(bytes, &content_hash(payload).0);
    Ok(())
}

pub open spec fn oversized_record(length: nat) -> StoreErrorView {
    StoreErrorView::Storage(
        "metadata payload exceeds maximum frame size: "@ + decimal(length) + " bytes"@,
    )
}

pub struct MetadataRecord {
    pub end: int,
    pub kind: u8,
    pub payload: Seq<u8>,
}

/// The record at `offset`; nothing where the bytes end before it does.
pub open spec fn record_at(bytes: Seq<u8>, offset: int) -> Result<
    Option<MetadataRecord>,
    StoreErrorView,
> {
    if bytes.len() - offset < METADATA_FRAME_HEADER_BYTES {
        Ok(None)
    } else {
        let length = spec_u32_from_le_bytes(bytes.subrange(offset + 1, offset + 5)) as int;
        let payload_end = offset + METADATA_FRAME_HEADER_BYTES + length;
        let end = payload_end + CHECKSUM_BYTES;
        if length > MAX_FRAME_BYTES {
            corrupt("metadata frame is too large: "@ + decimal(length as nat) + " bytes"@)
        } else if end > bytes.len() {
            Ok(None)
        } else {
            let payload = bytes.subrange(offset + METADATA_FRAME_HEADER_BYTES, payload_end);
            if bytes.subrange(payload_end, end) != content_digest(payload) {
                corrupt("metadata checksum mismatch at byte offset "@ + decimal(offset as nat))
            } else {
                Ok(Some(MetadataRecord { end, kind: bytes[offset], payload }))
            }
        }
    }
}

/// What a metadata file holds.
pub struct MetadataView {
    pub branches: Map<BranchId, BranchMetadata>,
    pub snapshots: Map<SnapshotKey, RuntimeSnapshotView>,
}

pub open spec fn no_metadata() -> MetadataView {
    MetadataView { branches: Map::empty(), snapshots: Map::empty() }
}

pub open spec fn snapshot_key(snapshot: RuntimeSnapshotView) -> SnapshotKey {
    SnapshotKey { run_id: snapshot.run_id, at_sequence: snapshot.at_sequence }
}

/// The metadata with one more record.
pub open spec fn record_taken(metadata: MetadataView, kind: u8, payload: Seq<u8>) -> Result<
    MetadataView,
    StoreErrorView,
> {
    if kind == BRANCH_RECORD {
        match branch_of(payload) {
            Err(error) => Err(error),
            Ok(branch) => if metadata.branches.contains_key(branch.branch_id) {
                corrupt("duplicate branch metadata record"@)
            } else {
                Ok(
                    MetadataView {
                        branches: metadata.branches.insert(branch.branch_id, branch),
                        ..metadata
                    },
                )
            },
        }
    } else if kind == SNAPSHOT_RECORD {
        match snapshot_decoded(payload) {
            Err(error) => Err(error),
            Ok(snapshot) => if metadata.snapshots.contains_key(snapshot_key(snapshot)) {
                corrupt("duplicate snapshot metadata record"@)
            } else {
                Ok(
                    MetadataView {
                        snapshots: metadata.snapshots.insert(snapshot_key(snapshot), snapshot),
                        ..metadata
                    },
                )
            },
        }
    } else {
        corrupt("unknown metadata record kind "@ + decimal(kind as nat))
    }
}

/// The metadata from `offset` on, and where a torn tail begins, if anywhere.
pub open spec fn records_from(bytes: Seq<u8>, offset: int, metadata: MetadataView) -> Result<
    (MetadataView, Option<int>),
    StoreErrorView,
>
    decreases bytes.len() - offset,
{
    if offset >= bytes.len() {
        Ok((metadata, None))
    } else {
        match record_at(bytes, offset) {
            Err(error) => Err(error),
            Ok(None) => Ok((metadata, Some(offset))),
            Ok(Some(record)) => match record_taken(metadata, record.kind, record.payload) {
                Err(error) => Err(error),
                Ok(metadata) => if record.end <= offset {
                    Ok((metadata, None))
                } else {
                    records_from(bytes, record.end, metadata)
                },
            },
        }
    }
}

/// The branches and snapshots of a metadata file, in key order.
pub struct Metadata {
    pub branches: Table<BranchId, BranchMetadata>,
    pub snapshots: Table<SnapshotKey, RuntimeSnapshot>,
}

impl View for Metadata {
    type V = MetadataView;

    open spec fn view(&self) -> MetadataView {
        MetadataView { branches: self.branches@, snapshots: self.snapshots@ }
    }
}

impl Metadata {
    pub fn new() -> (metadata: Metadata)
        ensures
            metadata@ == no_metadata(),
    {
        Metadata { branches: Table::new(), snapshots: Table::new() }
    }

    pub fn branch(&self, branch_id: BranchId) -> (branch: Option<BranchMetadata>)
        ensures
            branch == self@.branches.get(branch_id),
    {
        match self.branches.get(&branch_id) {
            Some(branch) => Some(*branch),
            None => None,
        }
    }

    /// The branches of a run, by ascending identity.
    pub fn branches_for_run(&self, parent_run_id: RunId) -> (branches: Vec<BranchMetadata>)
        ensures
            branches@ == branches_of(self@.branches, parent_run_id),
    {
        select_branches(&self.branches, parent_run_id)
    }

    /// The last snapshot of a run that is not later than asked for.
    pub fn load_snapshot(&self, run_id: RunId, at_or_before: Option<Sequence>) -> (found: Option<
        RuntimeSnapshot,
    >)
        ensures
            match found {
                Some(snapshot) => exists|key: SnapshotKey|
                    {
                        &&& #[trigger] latest_snapshot(self@.snapshots, run_id, at_or_before, key)
                        &&& snapshot@ == self@.snapshots[key]
                    },
                None => forall|key: SnapshotKey|
                    !(#[trigger] eligible_snapshot(
                        self@.snapshots.dom(),
                        run_id,
                        at_or_before,
                        key,
                    )),
            },
    {
        let found = select_snapshot(&self.snapshots, run_id, at_or_before);
        assert(self.snapshots@ == self@.snapshots);
        found
    }

    fn take_record(&mut self, kind: u8, payload: &[u8]) -> (result: Result<(), StoreError>)
        ensures
            match record_taken(old(self)@, kind, payload@) {
                Ok(metadata) => result is Ok && final(self)@ == metadata,
                Err(error) => result is Err && result->Err_0@ == error,
            },
    {
        match kind {
            1 => {
                let branch = decode_branch_metadata(payload)?;
                if self.branches.insert(branch.branch_id, branch) {
                    return Err(
                        StoreError::Corrupt("duplicate branch metadata record".to_owned()),
                    );
                }
                Ok(())
            },
            2 => {
                let snapshot = decode_snapshot_metadata(payload)?;
                let key = SnapshotKey {
                    run_id: snapshot.run_id,
                    at_sequence: snapshot.at_sequence,
                };
                if self.snapshots.insert(key, snapshot) {
                    return Err(
                        StoreError::Corrupt("duplicate snapshot metadata record".to_owned()),
                    );
                }
                Ok(())
            },
            _ => Err(
                StoreError::Corrupt(numbered("unknown metadata record kind ", kind as u128)),
            ),
        }
    }
}

fn read_record<'a>(bytes: &'a [u8], offset: usize) -> (result: Result<
    Option<(usize, u8, &'a [u8])>,
    StoreError,
>)
    requires
        offset <= bytes@.len(),
    ensures
        match record_at(bytes@, offset as int) {
            Ok(Some(record)) => match result {
                Ok(Some((end, kind, payload))) => end == record.end && kind == record.kind
                    && payload@ == record.payload && offset < end <= bytes@.len(),
                _ => false,
            },
            Ok(None) => result is Ok && result->Ok_0 is None,
            Err(error) => result is Err && result->Err_0@ == error,
        },
{
    if bytes.len() - offset < METADATA_FRAME_HEADER_BYTES {
        return Ok(None);
    }
    let kind: u8 = bytes[offset];
    let length: usize = u32_from_le_bytes(slice_subrange(bytes, offset + 1, offset + 5)) as usize;
    if length > MAX_FRAME_BYTES {
        let mut message = numbered("metadata frame is too large: ", length as u128);
        message.append(" bytes");
        return Err(StoreError::Corrupt(message));
    }
    if bytes.len() - offset < METADATA_FRAME_HEADER_BYTES + length + CHECKSUM_BYTES {
        return Ok(None);
    }
    let payload_end: usize = offset + METADATA_FRAME_HEADER_BYTES + length;
    let end: usize = payload_end + CHECKSUM_BYTES;
    let payload = slice_subrange(bytes, offset + METADATA_FRAME_HEADER_BYTES, payload_end);
    let checksum = slice_subrange(bytes, payload_end, end);
    if !same_bytes(checksum, content_hash(payload).0.as_slice()) {
        return Err(
            StoreError::Corrupt(
                numbered("metadata checksum mismatch at byte offset ", offset as u128),
            ),
        );
    }
    Ok(Some((end, kind, payload)))
}

pub open spec fn starts_with(bytes: Seq<u8>, prefix: Seq<u8>) -> bool {
    prefix.len() <= bytes.len() && bytes.take(prefix.len() as int) == prefix
}

pub(crate) fn has_prefix(bytes: &[u8], prefix: &[u8]) -> (result: bool)
    ensures
        result == starts_with(bytes@, prefix@),
{
    if bytes.len() < prefix.len() {
        return false;
    }
    same_bytes(slice_subrange(bytes, 0, prefix.len()), prefix)
}

/// The first branch of a list that does not fit the history decides.
pub open spec fn branches_check(
    history: Seq<StoredEventView>,
    branches: Seq<BranchMetadata>,
) -> Result<(), StoreErrorView>
    decreases branches.len(),
{
    if branches.len() == 0 {
        Ok(())
    } else {
        match branches_check(history, branches.drop_last()) {
            Err(error) => Err(error),
            Ok(_) => fork_check(
                history,
                branches.last().parent_run_id,
                branches.last().fork_sequence,
            ),
        }
    }
}

/// The first snapshot of a list that does not fit the history decides.
pub open spec fn snapshots_check(
    history: Seq<StoredEventView>,
    snapshots: Seq<RuntimeSnapshot>,
) -> Result<(), StoreErrorView>
    decreases snapshots.len(),
{
    if snapshots.len() == 0 {
        Ok(())
    } else {
        match snapshots_check(history, snapshots.drop_last()) {
            Err(error) => Err(error),
            Ok(_) => snapshot_check(history, snapshots.last()@),
        }
    }
}

proof fn failed_branches_stay(
    history: Seq<StoredEventView>,
    branches: Seq<BranchMetadata>,
    count: int,
)
    requires
        0 <= count <= branches.len(),
        branches_check(history, branches.take(count)) is Err,
    ensures
        branches_check(history, branches) == branches_check(history, branches.take(count)),
    decreases branches.len() - count,
{
    if count == branches.len() {
        assert(branches.take(count) =~= branches);
    } else {
        assert(branches.take(count + 1).drop_last() =~= branches.take(count));
        failed_branches_stay(history, branches, count + 1);
    }
}

proof fn failed_snapshots_stay(
    history: Seq<StoredEventView>,
    snapshots: Seq<RuntimeSnapshot>,
    count: int,
)
    requires
        0 <= count <= snapshots.len(),
        snapshots_check(history, snapshots.take(count)) is Err,
    ensures
        snapshots_check(history, snapshots) == snapshots_check(history, snapshots.take(count)),
    decreases snapshots.len() - count,
{
    if count == snapshots.len() {
        assert(snapshots.take(count) =~= snapshots);
    } else {
        assert(snapshots.take(count + 1).drop_last() =~= snapshots.take(count));
        failed_snapshots_stay(history, snapshots, count + 1);
    }
}

impl Metadata {
    /// Checks every branch and every snapshot against the events they are
    /// about.
    pub fn validate(&self, events: &Vec<StoredEvent>) -> (result: Result<(), StoreError>)
        ensures
            outcome(result) == (match branches_check(
                stored_views(events@),
                self.branches.values(),
            ) {
                Err(error) => Err(error),
                Ok(_) => snapshots_check(stored_views(events@), self.snapshots.values()),
            }),
    {
        let ghost history = stored_views(events@);
        let ghost branches = self.branches.values();
        let ghost snapshots = self.snapshots.values();
        let length: usize = self.branches.len();
        let mut index: usize = 0;
        assert(branches.take(0) =~= Seq::<BranchMetadata>::empty());
        while index < length
            invariant
                index <= length,
                length == self.branches.keys().len(),
                self.branches.well_formed(),
                history == stored_views(events@),
                branches == self.branches.values(),
                branches_check(history, branches.take(index as int)) is Ok,
            decreases length - index,
        {
            let branch = self.branches.value_at(index);
            proof {
                let next = branches.take(index + 1);
                assert(next.drop_last() =~= branches.take(index as int));
                assert(next.last() == *branch);
                if branches_check(history, next) is Err {
                    failed_branches_stay(history, branches, index + 1);
                }
            }
            validate_fork_sequence(events, branch.parent_run_id, branch.fork_sequence)?;
            index += 1;
        }
        assert(branches.take(branches.len() as int) =~= branches);
        let length: usize = self.snapshots.len();
        let mut index: usize = 0;
        assert(snapshots.take(0) =~= Seq::<RuntimeSnapshot>::empty());
        while index < length
            invariant
                index <= length,
                length == self.snapshots.keys().len(),
                self.snapshots.well_formed(),
                history == stored_views(events@),
                snapshots == self.snapshots.values(),
                branches_check(history, self.branches.values()) is Ok,
                snapshots_check(history, snapshots.take(index as int)) is Ok,
            decreases length - index,
        {
            let snapshot = self.snapshots.value_at(index);
            proof {
                let next = snapshots.take(index + 1);
                assert(next.drop_last() =~= snapshots.take(index as int));
                assert(next.last() == *snapshot);
                if snapshots_check(history, next) is Err {
                    failed_snapshots_stay(history, snapshots, index + 1);
                }
            }
            validate_snapshot(events, snapshot)?;
            index += 1;
        }
        assert(snapshots.take(snapshots.len() as int) =~= snapshots);
        Ok(())
    }
}

/// What the bytes of a metadata file mean.
pub open spec fn metadata_of(bytes: Seq<u8>) -> Result<
    (MetadataView, Option<int>),
    StoreErrorView,
> {
    if !starts_with(bytes, metadata_magic()) {
        corrupt("metadata store header is invalid"@)
    } else {
        records_from(bytes, metadata_magic().len() as int, no_metadata())
    }
}

/// Reads a metadata file: its branches and snapshots, and the offset at which
/// a torn tail begins.
pub fn read_metadata(bytes: &[u8]) -> (result: Result<(Metadata, Option<usize>), StoreError>)
    ensures
        match metadata_of(bytes@) {
            Ok((metadata, cut)) => {
                &&& result is Ok
                &&& result->Ok_0.0@ == metadata
                &&& crate::frames::optional_offset(result->Ok_0.1) == cut
            },
            Err(error) => result is Err && result->Err_0@ == error,
        },
{
    let magic = "ORYNTH-META-1\n".as_bytes();
    if !has_prefix(bytes, magic) {
        return Err(StoreError::Corrupt("metadata store header is invalid".to_owned()));
    }
    let mut metadata = Metadata::new();
    let mut offset: usize = magic.len();
    while offset < bytes.len()
        invariant
            offset <= bytes@.len(),
            metadata_of(bytes@) == records_from(bytes@, offset as int, metadata@),
        decreases bytes.len() - offset,
    {
        match read_record(bytes, offset)? {
            None => {
                return Ok((metadata, Some(offset)));
            },
            Some((end, kind, payload)) => {
                metadata.take_record(kind, payload)?;
                offset = end;
            },
        }
    }
    Ok((metadata, None))
}

// ---------------------------------------------------------------------------
// Writing the file.

/// The records of some branches.
pub open spec fn branch_records(branches: Seq<BranchMetadata>) -> Seq<u8>
    decreases branches.len(),
{
    if branches.len() == 0 {
        seq![]
    } else {
        branch_records(branches.drop_last()) + record_bytes(
            BRANCH_RECORD,
            branch_bytes(branches.last()),
        )
    }
}

/// The records of some snapshots, or why one cannot be written.
pub open spec fn snapshot_records(snapshots: Seq<RuntimeSnapshot>) -> Result<
    Seq<u8>,
    StoreErrorView,
>
    decreases snapshots.len(),
{
    if snapshots.len() == 0 {
        Ok(seq![])
    } else {
        match snapshot_records(snapshots.drop_last()) {
            Err(error) => Err(error),
            Ok(before) => match snapshot_encoded(snapshots.last()) {
                Err(error) => Err(error),
                Ok(payload) => if payload.len() > MAX_FRAME_BYTES {
                    Err(oversized_record(payload.len()))
                } else {
                    Ok(before + record_bytes(SNAPSHOT_RECORD, payload))
                },
            },
        }
    }
}

/// The bytes of a metadata file.
pub open spec fn metadata_bytes(
    branches: Seq<BranchMetadata>,
    snapshots: Seq<RuntimeSnapshot>,
) -> Result<Seq<u8>, StoreErrorView> {
    match snapshot_records(snapshots) {
        Err(error) => Err(error),
        Ok(records) => Ok(metadata_magic() + branch_records(branches) + records),
    }
}

proof fn failed_records_stay(snapshots: Seq<RuntimeSnapshot>, count: int)
    requires
        0 <= count <= snapshots.len(),
        snapshot_records(snapshots.take(count)) is Err,
    ensures
        snapshot_records(snapshots) == snapshot_records(snapshots.take(count)),
    decreases snapshots.len() - count,
{
    if count == snapshots.len() {
        assert(snapshots.take(count) =~= snapshots);
    } else {
        assert(snapshots.take(count + 1).drop_last() =~= snapshots.take(count));
        failed_records_stay(snapshots, count + 1);
    }
}

fn put_branches(bytes: &mut Vec<u8>, table: &Table<BranchId, BranchMetadata>) -> (result: Result<
    (),
    StoreError,
>)
    ensures
        result is Ok,
        final(bytes)@ == old(bytes)@ + branch_records(table.values()),
{
    let ghost base = bytes@;
    let ghost branches = table.values();
    let length: usize = table.len();
    let mut index: usize = 0;
    assert(base + branch_records(branches.take(0)) =~= base);
    while index < length
        invariant
            index <= length,
            length == table.keys().len(),
            table.well_formed(),
            branches == table.values(),
            bytes@ == base + branch_records(branches.take(index as int)),
        decreases length - index,
    {
        let branch = table.value_at(index);
        let payload = encode_branch_metadata(branch);
        proof {
            branch_decoding_inverts_encoding(*branch);
            let next = branches.take(index + 1);
            assert(next.drop_last() =~= branches.take(index as int));
            assert(next.last() == *branch);
            concat_is_associative(
                base,
                branch_records(branches.take(index as int)),
                record_bytes(BRANCH_RECORD, branch_bytes(*branch)),
            );
        }
        append_metadata_frame(bytes, BRANCH_RECORD, payload.as_slice())?;
        index += 1;
    }
    assert(branches.take(branches.len() as int) =~= branches);
    Ok(())
}

fn put_snapshots(bytes: &mut Vec<u8>, table: &Table<SnapshotKey, RuntimeSnapshot>) -> (result:
    Result<(), StoreError>)
    ensures
        match snapshot_records(table.values()) {
            Ok(records) => result is Ok && final(bytes)@ == old(bytes)@ + records,
            Err(error) => result is Err && result->Err_0@ == error,
        },
{
    let ghost base = bytes@;
    let ghost snapshots = table.values();
    let length: usize = table.len();
    let mut index: usize = 0;
    assert(snapshots.take(0) =~= Seq::<RuntimeSnapshot>::empty());
    assert(base + snapshot_records(snapshots.take(0))->Ok_0 =~= base);
    while index < length
        invariant
            index <= length,
            length == table.keys().len(),
            table.well_formed(),
            snapshots == table.values(),
            snapshot_records(snapshots.take(index as int)) is Ok,
            bytes@ == base + snapshot_records(snapshots.take(index as int))->Ok_0,
        decreases length - index,
    {
        let snapshot = table.value_at(index);
        proof {
            let next = snapshots.take(index + 1);
            assert(next.drop_last() =~= snapshots.take(index as int));
            assert(next.last() == *snapshot);
            if snapshot_records(next) is Err {
                failed_records_stay(snapshots, index + 1);
            }
        }
        let payload = encode_snapshot_metadata(snapshot)?;
        append_metadata_frame(bytes, SNAPSHOT_RECORD, payload.as_slice())?;
        proof {
            concat_is_associative(
                base,
                snapshot_records(snapshots.take(index as int))->Ok_0,
                record_bytes(SNAPSHOT_RECORD, payload@),
            );
        }
        index += 1;
    }
    assert(snapshots.take(snapshots.len() as int) =~= snapshots);
    Ok(())
}

impl Metadata {
    /// The bytes of the metadata file, in key order.
    pub fn encode(&self) -> (result: Result<Vec<u8>, StoreError>)
        ensures
            outcome(result) == metadata_bytes(self.branches.values(), self.snapshots.values()),
    {
        let mut bytes: Vec<u8> = Vec::new();
        put_bytes(&mut bytes, "ORYNTH-META-1\n".as_bytes());
        assert(bytes@ =~= metadata_magic());
        put_branches(&mut bytes, &self.branches)?;
        put_snapshots(&mut bytes, &self.snapshots)?;
        Ok(bytes)
    }
}

// ---------------------------------------------------------------------------
// Laws of the file.

proof fn written_record_reads_back(before: Seq<u8>, kind: u8, payload: Seq<u8>, rest: Seq<u8>)
    requires
        payload.len() <= MAX_FRAME_BYTES,
    ensures
        record_at(before + record_bytes(kind, payload) + rest, before.len() as int) == Ok::<
            Option<MetadataRecord>,
            StoreErrorView,
        >(
            Some(
                MetadataRecord {
                    end: (before.len() + record_bytes(kind, payload).len()) as int,
                    kind,
                    payload,
                },
            ),
        ),
        record_bytes(kind, payload).len() == payload.len() + 37,
{
    reveal(record_bytes);
    u32_bytes_len(payload.len() as u32);
    content_digest_length(payload);
    lemma_auto_spec_u32_to_from_le_bytes();
    let bytes = before + record_bytes(kind, payload) + rest;
    let at = before.len() as int;
    let end = at + 5 + payload.len();
    assert(bytes[at] == kind);
    assert(bytes.subrange(at + 1, at + 5) =~= u32_bytes(payload.len() as u32));
    assert(bytes.subrange(at + 5, end) =~= payload);
    assert(bytes.subrange(end, end + 32) =~= content_digest(payload));
}

/// Branches under their identities.
pub open spec fn branch_map(branches: Seq<BranchMetadata>) -> Map<BranchId, BranchMetadata>
    decreases branches.len(),
{
    if branches.len() == 0 {
        Map::empty()
    } else {
        branch_map(branches.drop_last()).insert(branches.last().branch_id, branches.last())
    }
}

/// Snapshots under their run and position.
pub open spec fn snapshot_map(snapshots: Seq<RuntimeSnapshot>) -> Map<
    SnapshotKey,
    RuntimeSnapshotView,
>
    decreases snapshots.len(),
{
    if snapshots.len() == 0 {
        Map::empty()
    } else {
        snapshot_map(snapshots.drop_last()).insert(
            snapshot_key(snapshots.last()@),
            snapshots.last()@,
        )
    }
}

pub open spec fn branches_distinct(branches: Seq<BranchMetadata>) -> bool {
    forall|i: int, j: int|
        #![trigger branches[i], branches[j]]
        0 <= i < j < branches.len() ==> branches[i].branch_id != branches[j].branch_id
}

pub open spec fn snapshots_distinct(snapshots: Seq<RuntimeSnapshot>) -> bool {
    forall|i: int, j: int|
        #![trigger snapshots[i], snapshots[j]]
        0 <= i < j < snapshots.len() ==> snapshot_key(snapshots[i]@) != snapshot_key(snapshots[j]@)
}

/// A snapshot whose record reads back.
pub open spec fn snapshot_readable(snapshot: RuntimeSnapshot) -> bool {
    snapshot_encoded(snapshot) is Ok ==> snapshot_decoded(snapshot_encoded(snapshot)->Ok_0) == Ok::<
        RuntimeSnapshotView,
        StoreErrorView,
    >(snapshot@)
}

proof fn branch_map_members(branches: Seq<BranchMetadata>, id: BranchId)
    ensures
        branch_map(branches).contains_key(id) ==> exists|i: int|
            0 <= i < branches.len() && (#[trigger] branches[i]).branch_id == id,
    decreases branches.len(),
{
    if branches.len() > 0 {
        let front = branches.drop_last();
        branch_map_members(front, id);
        if branches.last().branch_id == id {
            assert(branches[branches.len() - 1].branch_id == id);
        } else if branch_map(front).contains_key(id) {
            let i = choose|i: int| 0 <= i < front.len() && (#[trigger] front[i]).branch_id == id;
            assert(branches[i].branch_id == id);
        }
    }
}

proof fn snapshot_map_members(snapshots: Seq<RuntimeSnapshot>, key: SnapshotKey)
    ensures
        snapshot_map(snapshots).contains_key(key) ==> exists|i: int|
            0 <= i < snapshots.len() && snapshot_key((#[trigger] snapshots[i])@) == key,
    decreases snapshots.len(),
{
    if snapshots.len() > 0 {
        let front = snapshots.drop_last();
        snapshot_map_members(front, key);
        if snapshot_key(snapshots.last()@) == key {
            assert(snapshot_key(snapshots[snapshots.len() - 1]@) == key);
        } else if snapshot_map(front).contains_key(key) {
            let i = choose|i: int|
                0 <= i < front.len() && snapshot_key((#[trigger] front[i])@) == key;
            assert(snapshot_key(snapshots[i]@) == key);
        }
    }
}

proof fn branches_read_back(before: Seq<u8>, branches: Seq<BranchMetadata>, rest: Seq<u8>)
    requires
        branches_distinct(branches),
    ensures
        records_from(
            before + branch_records(branches) + rest,
            before.len() as int,
            no_metadata(),
        ) == records_from(
            before + branch_records(branches) + rest,
            (before.len() + branch_records(branches).len()) as int,
            MetadataView { branches: branch_map(branches), ..no_metadata() },
        ),
    decreases branches.len(),
{
    if branches.len() > 0 {
        let front = branches.drop_last();
        let last = branches.last();
        let payload = branch_bytes(last);
        let record = record_bytes(BRANCH_RECORD, payload);
        let bytes = before + branch_records(branches) + rest;
        assert forall|i: int, j: int|
            #![trigger front[i], front[j]]
            0 <= i < j < front.len() implies front[i].branch_id != front[j].branch_id by {
            assert(front[i] == branches[i] && front[j] == branches[j]);
        }
        branches_read_back(before, front, record + rest);
        assert(bytes =~= before + branch_records(front) + (record + rest));
        branch_decoding_inverts_encoding(last);
        let so_far = before + branch_records(front);
        assert(bytes =~= so_far + record + rest);
        written_record_reads_back(so_far, BRANCH_RECORD, payload, rest);
        branch_map_members(front, last.branch_id);
        if branch_map(front).contains_key(last.branch_id) {
            let i = choose|i: int|
                0 <= i < front.len() && (#[trigger] front[i]).branch_id == last.branch_id;
            assert(branches[i].branch_id != branches[branches.len() - 1].branch_id);
        }
    } else {
        assert(branch_records(branches).len() == 0);
    }
}

/// A record that the metadata takes leads on to what follows it.
proof fn taken_records_lead_on(
    before: Seq<u8>,
    kind: u8,
    payload: Seq<u8>,
    rest: Seq<u8>,
    metadata: MetadataView,
    taken: MetadataView,
)
    requires
        payload.len() <= MAX_FRAME_BYTES,
        record_taken(metadata, kind, payload) == Ok::<MetadataView, StoreErrorView>(taken),
    ensures
        records_from(
            before + record_bytes(kind, payload) + rest,
            before.len() as int,
            metadata,
        ) == records_from(
            before + record_bytes(kind, payload) + rest,
            (before.len() + record_bytes(kind, payload).len()) as int,
            taken,
        ),
{
    written_record_reads_back(before, kind, payload, rest);
}

/// The last of some distinct snapshots is taken after the others.
proof fn last_snapshots_are_taken(
    snapshots: Seq<RuntimeSnapshot>,
    branches: Map<BranchId, BranchMetadata>,
)
    requires
        snapshots.len() > 0,
        snapshots_distinct(snapshots),
        snapshot_encoded(snapshots.last()) is Ok,
        snapshot_readable(snapshots.last()),
    ensures
        record_taken(
            MetadataView { branches, snapshots: snapshot_map(snapshots.drop_last()) },
            SNAPSHOT_RECORD,
            snapshot_encoded(snapshots.last())->Ok_0,
        ) == Ok::<MetadataView, StoreErrorView>(
            MetadataView { branches, snapshots: snapshot_map(snapshots) },
        ),
{
    let front = snapshots.drop_last();
    let last = snapshots.last();
    snapshot_map_members(front, snapshot_key(last@));
    if snapshot_map(front).contains_key(snapshot_key(last@)) {
        let i = choose|i: int|
            0 <= i < front.len() && snapshot_key((#[trigger] front[i])@) == snapshot_key(last@);
        assert(snapshot_key(snapshots[i]@) != snapshot_key(snapshots[snapshots.len() - 1]@));
    }
}

#[verifier::spinoff_prover]
proof fn snapshots_read_back(
    before: Seq<u8>,
    snapshots: Seq<RuntimeSnapshot>,
    branches: Map<BranchId, BranchMetadata>,
    rest: Seq<u8>,
)
    requires
        snapshots_distinct(snapshots),
        snapshot_records(snapshots) is Ok,
        forall|i: int| 0 <= i < snapshots.len() ==> snapshot_readable(#[trigger] snapshots[i]),
    ensures
        records_from(
            before + snapshot_records(snapshots)->Ok_0 + rest,
            before.len() as int,
            MetadataView { branches, snapshots: Map::empty() },
        ) == records_from(
            before + snapshot_records(snapshots)->Ok_0 + rest,
            (before.len() + snapshot_records(snapshots)->Ok_0.len()) as int,
            MetadataView { branches, snapshots: snapshot_map(snapshots) },
        ),
    decreases snapshots.len(),
{
    if snapshots.len() > 0 {
        let front = snapshots.drop_last();
        let last = snapshots.last();
        let payload = snapshot_encoded(last)->Ok_0;
        let record = record_bytes(SNAPSHOT_RECORD, payload);
        let bytes = before + snapshot_records(snapshots)->Ok_0 + rest;
        assert forall|i: int, j: int|
            #![trigger front[i], front[j]]
            0 <= i < j < front.len() implies snapshot_key(front[i]@) != snapshot_key(front[j]@) by {
            assert(front[i] == snapshots[i] && front[j] == snapshots[j]);
        }
        assert forall|i: int| 0 <= i < front.len() implies snapshot_readable(
            #[trigger] front[i],
        ) by {
            assert(front[i] == snapshots[i]);
        }
        assert(snapshot_readable(snapshots[snapshots.len() - 1]));
        snapshots_read_back(before, front, branches, record + rest);
        let so_far = before + snapshot_records(front)->Ok_0;
        assert(bytes =~= so_far + (record + rest));
        assert(bytes =~= so_far + record + rest);
        last_snapshots_are_taken(snapshots, branches);
        taken_records_lead_on(
            so_far,
            SNAPSHOT_RECORD,
            payload,
            rest,
            MetadataView { branches, snapshots: snapshot_map(front) },
            MetadataView { branches, snapshots: snapshot_map(snapshots) },
        );
    } else {
        assert(snapshot_records(snapshots)->Ok_0.len() == 0);
    }
}

/// A metadata file that was written whole is read back whole.
pub proof fn metadata_decoding_inverts_encoding(
    branches: Seq<BranchMetadata>,
    snapshots: Seq<RuntimeSnapshot>,
)
    requires
        metadata_bytes(branches, snapshots) is Ok,
        branches_distinct(branches),
        snapshots_distinct(snapshots),
        forall|i: int| 0 <= i < snapshots.len() ==> snapshot_readable(#[trigger] snapshots[i]),
    ensures
        metadata_of(metadata_bytes(branches, snapshots)->Ok_0) == Ok::<
            (MetadataView, Option<int>),
            StoreErrorView,
        >(
            (
                MetadataView {
                    branches: branch_map(branches),
                    snapshots: snapshot_map(snapshots),
                },
                None,
            ),
        ),
{
    let magic = metadata_magic();
    let first = branch_records(branches);
    let second = snapshot_records(snapshots)->Ok_0;
    let bytes = metadata_bytes(branches, snapshots)->Ok_0;
    let empty = Seq::<u8>::empty();
    assert(bytes.take(magic.len() as int) =~= magic);
    branches_read_back(magic, branches, second);
    assert(bytes =~= (magic + first) + second + empty);
    snapshots_read_back(magic + first, snapshots, branch_map(branches), empty);
}

} // verus!
