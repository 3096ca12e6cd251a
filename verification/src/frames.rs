//! The event log: checksummed frames, committed batches and recovery.
//!
//! A batch is a begin marker, its events and a commit marker. Recovery keeps
//! every committed batch and drops a tail that was cut short.

use vstd::prelude::*;
use vstd::slice::slice_subrange;
use vstd::string::StringExecFns;

use crate::artifact::{content_digest, content_digest_length, content_hash};
use crate::codec::{
    concat_is_associative, put_array, put_bytes, put_u32, put_u64, put_u8, u32_bytes, u32_bytes_len,
    u64_bytes, u8_bytes,
};
use crate::event_codec::{decode_event, event_of, MAX_FRAME_BYTES};
use crate::event_store::{id_stored, stamped, EventStore, StoredEventView};
use crate::ids::EventId;
use crate::kernel::{event_views, Event, EventView};
use crate::keys::same_bytes;
use crate::memory_store::{
    batch_duplicate, id_among, sequence_ahead, sequences_from, InMemoryEventStore,
};
use crate::state::{Sequence, StoreError, StoreErrorView};
use crate::text::{decimal, numbered, push_decimal};

verus! {

pub const CHECKSUM_BYTES: usize = 32;

pub const FRAME_HEADER_BYTES: usize = 12;

pub const MAX_BATCH_EVENTS: usize = 4096;

pub const BATCH_BEGIN: u8 = 1;

pub const BATCH_EVENT: u8 = 2;

pub const BATCH_COMMIT: u8 = 3;

// ---------------------------------------------------------------------------
// Frames.

/// Sequence, length, payload and the digest of the payload.
#[verifier::opaque]
pub open spec fn frame_bytes(sequence: Sequence, payload: Seq<u8>) -> Seq<u8> {
    u64_bytes(sequence) + u32_bytes(payload.len() as u32) + payload + content_digest(payload)
}

pub struct Frame {
    pub end: int,
    pub sequence: Sequence,
    pub payload: Seq<u8>,
}

pub open spec fn corrupt<V>(message: Seq<char>) -> Result<V, StoreErrorView> {
    Err(StoreErrorView::Corrupt(message))
}

/// The payload length that a frame at `offset` announces.
pub open spec fn announced(bytes: Seq<u8>, offset: int) -> u32 {
    vstd::bytes::spec_u32_from_le_bytes(bytes.subrange(offset + 8, offset + 12))
}

/// The frame at `offset`; nothing where the bytes end before it does.
pub open spec fn frame_at(bytes: Seq<u8>, offset: int) -> Result<Option<Frame>, StoreErrorView> {
    if bytes.len() - offset < FRAME_HEADER_BYTES {
        Ok(None)
    } else {
        let length = announced(bytes, offset) as int;
        let payload_end = offset + FRAME_HEADER_BYTES + length;
        let end = payload_end + CHECKSUM_BYTES;
        if length > MAX_FRAME_BYTES {
            corrupt("event frame is too large: "@ + decimal(length as nat) + " bytes"@)
        } else if end > bytes.len() {
            Ok(None)
        } else {
            let payload = bytes.subrange(offset + FRAME_HEADER_BYTES, payload_end);
            if bytes.subrange(payload_end, end) != content_digest(payload) {
                corrupt("checksum mismatch at byte offset "@ + decimal(offset as nat))
            } else {
                Ok(
                    Some(
                        Frame {
                            end,
                            sequence: vstd::bytes::spec_u64_from_le_bytes(
                                bytes.subrange(offset, offset + 8),
                            ),
                            payload,
                        },
                    ),
                )
            }
        }
    }
}

/// A frame at `offset` would be the last thing in the file.
pub open spec fn final_at(bytes: Seq<u8>, offset: int) -> bool {
    if bytes.len() - offset < FRAME_HEADER_BYTES {
        true
    } else {
        let length = announced(bytes, offset) as int;
        length <= MAX_FRAME_BYTES && offset + FRAME_HEADER_BYTES + length + CHECKSUM_BYTES
            == bytes.len()
    }
}

/// Appends one frame, unless its payload is too large.
pub fn append_frame(bytes: &mut Vec<u8>, sequence: Sequence, payload: &[u8]) -> (result: Result<
    (),
    StoreError,
>)
    ensures
        match result {
            Ok(_) => payload@.len() <= MAX_FRAME_BYTES && final(bytes)@ == old(bytes)@
                + frame_bytes(sequence, payload@),
            Err(error) => {
                &&& payload@.len() > MAX_FRAME_BYTES
                &&& final(bytes)@ == old(bytes)@
                &&& error@ == StoreErrorView::Storage(
                    "event payload exceeds maximum frame size: "@ + decimal(payload@.len())
                        + " bytes"@,
                )
            },
        },
{
    broadcast use concat_is_associative;
    reveal(frame_bytes);
    let length: usize = payload.len();
    if length > MAX_FRAME_BYTES {
        let mut message = numbered(
            "event payload exceeds maximum frame size: ",
            length as u128,
        );
        message.append(" bytes");
        return Err(StoreError::Storage(message));
    }
    put_u64(bytes, sequence);
    put_u32(bytes, length as u32);
    put_bytes(bytes, payload);
    put_array(bytes, &content_hash(payload).0);
    Ok(())
}

fn announced_length(bytes: &[u8], offset: usize) -> (length: u32)
    requires
        offset + FRAME_HEADER_BYTES <= bytes@.len(),
    ensures
        length == announced(bytes@, offset as int),
{
    let total: usize = bytes.len();
    assert(offset + FRAME_HEADER_BYTES <= total);
    vstd::bytes::u32_from_le_bytes(slice_subrange(bytes, offset + 8, offset + 12))
}

/// Reads the frame at `offset`: where it ends, its sequence and its payload.
pub fn read_frame<'a>(bytes: &'a [u8], offset: usize) -> (result: Result<
    Option<(usize, Sequence, &'a [u8])>,
    StoreError,
>)
    requires
        offset <= bytes@.len(),
    ensures
        match frame_at(bytes@, offset as int) {
            Ok(Some(frame)) => match result {
                Ok(Some((end, sequence, payload))) => end == frame.end && sequence
                    == frame.sequence && payload@ == frame.payload,
                _ => false,
            },
            Ok(None) => result is Ok && result->Ok_0 is None,
            Err(error) => result is Err && result->Err_0@ == error,
        },
{
    if bytes.len() - offset < FRAME_HEADER_BYTES {
        return Ok(None);
    }
    let sequence: Sequence = vstd::bytes::u64_from_le_bytes(
        slice_subrange(bytes, offset, offset + 8),
    );
    let length: usize = announced_length(bytes, offset) as usize;
    if length > MAX_FRAME_BYTES {
        let mut message = numbered("event frame is too large: ", length as u128);
        message.append(" bytes");
        return Err(StoreError::Corrupt(message));
    }
    if bytes.len() - offset < FRAME_HEADER_BYTES + length + CHECKSUM_BYTES {
        return Ok(None);
    }
    let payload_end: usize = offset + FRAME_HEADER_BYTES + length;
    let end: usize = payload_end + CHECKSUM_BYTES;
    let payload = slice_subrange(bytes, offset + FRAME_HEADER_BYTES, payload_end);
    let checksum = slice_subrange(bytes, payload_end, end);
    if !same_bytes(checksum, content_hash(payload).0.as_slice()) {
        return Err(
            StoreError::Corrupt(numbered("checksum mismatch at byte offset ", offset as u128)),
        );
    }
    Ok(Some((end, sequence, payload)))
}

/// Whether a frame at `offset` would be the last thing in the file.
pub fn is_final_frame(bytes: &[u8], offset: usize) -> (last: bool)
    requires
        offset <= bytes@.len(),
    ensures
        last == final_at(bytes@, offset as int),
{
    if bytes.len() - offset < FRAME_HEADER_BYTES {
        return true;
    }
    let length: usize = announced_length(bytes, offset) as usize;
    length <= MAX_FRAME_BYTES && FRAME_HEADER_BYTES + length + CHECKSUM_BYTES == bytes.len()
        - offset
}

// ---------------------------------------------------------------------------
// Batches.

/// The payload of a begin or commit marker.
pub open spec fn marker_bytes(kind: u8, count: u32, digest: Seq<u8>) -> Seq<u8> {
    if kind == BATCH_COMMIT {
        u8_bytes(kind) + u32_bytes(count) + digest
    } else {
        u8_bytes(kind) + u32_bytes(count)
    }
}

/// Payloads behind their lengths, one behind the other.
pub open spec fn digested(payloads: Seq<Seq<u8>>) -> Seq<u8>
    decreases payloads.len(),
{
    if payloads.len() == 0 {
        seq![]
    } else {
        digested(payloads.drop_last()) + u64_bytes(payloads.last().len() as u64) + payloads.last()
    }
}

/// The event frames of a batch that begins at `next`.
pub open spec fn event_frames(next: Sequence, payloads: Seq<Seq<u8>>) -> Seq<u8>
    decreases payloads.len(),
{
    if payloads.len() == 0 {
        seq![]
    } else {
        event_frames(next, payloads.drop_last()) + frame_bytes(
            (next + payloads.len() - 1) as Sequence,
            u8_bytes(BATCH_EVENT) + payloads.last(),
        )
    }
}

pub open spec fn begin_frame(next: Sequence, count: nat) -> Seq<u8> {
    frame_bytes(next, marker_bytes(BATCH_BEGIN, count as u32, seq![]))
}

pub open spec fn commit_frame(next: Sequence, payloads: Seq<Seq<u8>>) -> Seq<u8> {
    frame_bytes(
        (next + payloads.len()) as Sequence,
        marker_bytes(BATCH_COMMIT, payloads.len() as u32, content_digest(digested(payloads))),
    )
}

/// A whole batch.
pub open spec fn batch_bytes(next: Sequence, payloads: Seq<Seq<u8>>) -> Seq<u8> {
    begin_frame(next, payloads.len()) + event_frames(next, payloads) + commit_frame(next, payloads)
}

/// The views of a list of byte strings.
pub open spec fn blobs(list: Seq<Vec<u8>>) -> Seq<Seq<u8>> {
    list.map_values(|bytes: Vec<u8>| bytes@)
}

/// The payload of a marker that opens or closes a batch.
pub fn encode_control_payload(kind: u8, count: u32, digest: &[u8; 32]) -> (payload: Vec<u8>)
    ensures
        payload@ == marker_bytes(kind, count, digest@),
{
    broadcast use concat_is_associative;
    let mut payload: Vec<u8> = Vec::new();
    put_u8(&mut payload, kind);
    put_u32(&mut payload, count);
    if kind == BATCH_COMMIT {
        put_array(&mut payload, digest);
    }
    assert(payload@ =~= marker_bytes(kind, count, digest@));
    payload
}

/// The digest over all payloads of a batch.
pub fn batch_digest(payloads: &Vec<Vec<u8>>) -> (digest: [u8; 32])
    ensures
        digest@ == content_digest(digested(blobs(payloads@))),
{
    broadcast use concat_is_associative;
    let ghost list = blobs(payloads@);
    let mut bytes: Vec<u8> = Vec::new();
    let mut index: usize = 0;
    assert(bytes@ =~= digested(list.take(0)));
    while index < payloads.len()
        invariant
            index <= payloads@.len(),
            list == blobs(payloads@),
            bytes@ == digested(list.take(index as int)),
        decreases payloads.len() - index,
    {
        put_u64(&mut bytes, payloads[index].len() as u64);
        put_bytes(&mut bytes, payloads[index].as_slice());
        index += 1;
        proof {
            let now = list.take(index as int);
            assert(now.drop_last() =~= list.take(index - 1));
            assert(now.last() == payloads@[index - 1]@);
            assert(bytes@ =~= digested(now));
        }
    }
    assert(list.take(list.len() as int) =~= list);
    content_hash(bytes.as_slice()).as_bytes()
}

/// Every payload of a batch leaves room for its kind byte in a frame.
pub open spec fn payloads_fit(payloads: Seq<Seq<u8>>) -> bool {
    forall|i: int| 0 <= i < payloads.len() ==> (#[trigger] payloads[i]).len() < MAX_FRAME_BYTES
}

/// The first payload too large for a frame, with its kind byte.
pub open spec fn oversized(payloads: Seq<Seq<u8>>) -> Option<nat>
    decreases payloads.len(),
{
    if payloads.len() == 0 {
        None
    } else {
        match oversized(payloads.drop_last()) {
            Some(length) => Some(length),
            None => if payloads.last().len() >= MAX_FRAME_BYTES {
                Some(payloads.last().len() + 1)
            } else {
                None
            },
        }
    }
}

proof fn oversized_stays(payloads: Seq<Seq<u8>>, count: int)
    requires
        0 <= count <= payloads.len(),
        oversized(payloads.take(count)) is Some,
    ensures
        oversized(payloads) == oversized(payloads.take(count)),
    decreases payloads.len() - count,
{
    if count == payloads.len() {
        assert(payloads.take(count) =~= payloads);
    } else {
        assert(payloads.take(count + 1).drop_last() =~= payloads.take(count));
        oversized_stays(payloads, count + 1);
    }
}

/// The bytes that append a batch of encoded events to the log.
pub fn encode_batch(next: Sequence, payloads: &Vec<Vec<u8>>) -> (result: Result<
    Vec<u8>,
    StoreError,
>)
    requires
        0 < payloads@.len() <= MAX_BATCH_EVENTS,
        next + payloads@.len() <= Sequence::MAX,
    ensures
        match oversized(blobs(payloads@)) {
            None => result is Ok && result->Ok_0@ == batch_bytes(next, blobs(payloads@)),
            Some(length) => result is Err && result->Err_0@ == StoreErrorView::Storage(
                "event payload exceeds maximum frame size: "@ + decimal(length) + " bytes"@,
            ),
        },
{
    broadcast use concat_is_associative;
    let ghost list = blobs(payloads@);
    let count: u32 = payloads.len() as u32;
    let mut bytes: Vec<u8> = Vec::new();
    let begin = encode_control_payload(BATCH_BEGIN, count, &[0u8; 32]);
    proof {
        u32_bytes_len(count);
        content_digest_length(digested(list));
    }
    append_frame(&mut bytes, next, begin.as_slice())?;
    assert(bytes@ =~= begin_frame(next, list.len()));
    let ghost base = bytes@;
    let mut index: usize = 0;
    assert(base + event_frames(next, list.take(0)) =~= base);
    assert(list.take(0) =~= Seq::<Seq<u8>>::empty());
    while index < payloads.len()
        invariant
            index <= payloads@.len(),
            payloads@.len() <= MAX_BATCH_EVENTS,
            next + payloads@.len() <= Sequence::MAX,
            list == blobs(payloads@),
            oversized(list.take(index as int)) is None,
            bytes@ == base + event_frames(next, list.take(index as int)),
        decreases payloads.len() - index,
    {
        let mut payload: Vec<u8> = Vec::new();
        put_u8(&mut payload, BATCH_EVENT);
        put_bytes(&mut payload, payloads[index].as_slice());
        proof {
            let now = list.take(index + 1);
            assert(now.drop_last() =~= list.take(index as int));
            assert(now.last() == payloads@[index as int]@);
            assert(payload@ =~= u8_bytes(BATCH_EVENT) + now.last());
            if oversized(now) is Some {
                oversized_stays(list, index + 1);
            }
        }
        append_frame(&mut bytes, next + index as u64, payload.as_slice())?;
        index += 1;
        assert(bytes@ =~= base + event_frames(next, list.take(index as int)));
    }
    assert(list.take(list.len() as int) =~= list);
    let digest = batch_digest(payloads);
    let commit = encode_control_payload(BATCH_COMMIT, count, &digest);
    append_frame(&mut bytes, next + count as u64, commit.as_slice())?;
    assert(bytes@ =~= batch_bytes(next, list));
    Ok(bytes)
}

// ---------------------------------------------------------------------------
// Recovery.

/// The history of a store that took these events, in this order.
pub open spec fn history_of(events: Seq<EventView>) -> Seq<StoredEventView> {
    stamped(sequences_from(1, events.len()), events)
}

/// What a log holds: its events, and where it must be cut off, if anywhere.
pub type Recovered = Result<(Seq<EventView>, Option<int>), StoreErrorView>;

/// Recovers a log of single frames from `offset` on.
pub open spec fn legacy_recovered(bytes: Seq<u8>, offset: int, events: Seq<EventView>) -> Result<
    (Seq<EventView>, Option<int>),
    StoreErrorView,
>
    decreases bytes.len() - offset,
{
    if offset >= bytes.len() {
        Ok((events, None))
    } else {
        match frame_at(bytes, offset) {
            Err(error) => Err(error),
            Ok(None) => Ok((events, Some(offset))),
            Ok(Some(frame)) => match event_of(frame.payload) {
                Err(message) => corrupt(message),
                Ok(event) => if id_among(events, event.id) {
                    Err(StoreErrorView::DuplicateEvent(event.id))
                } else if sequence_ahead(1, events.len()) != frame.sequence {
                    corrupt(
                        "expected sequence "@ + decimal(sequence_ahead(1, events.len()) as nat)
                            + ", found "@ + decimal(frame.sequence as nat),
                    )
                } else if frame.end <= offset {
                    Ok((events, None))
                } else {
                    legacy_recovered(bytes, frame.end, events.push(event))
                },
            },
        }
    }
}

/// A batch that has begun and is not committed yet.
pub struct Pending {
    pub start: int,
    pub expected: nat,
    pub payloads: Seq<Seq<u8>>,
}

/// What one frame means to recovery.
pub enum Step {
    /// Go on with these events and this batch.
    Next(Seq<EventView>, Option<Pending>),
    /// The batch is damaged; it is dropped if nothing follows it.
    Damaged(Option<Pending>, Seq<char>),
    /// The log is refused.
    Refused(StoreErrorView),
}

/// All payloads decoded as events, if all can be.
pub open spec fn events_of(payloads: Seq<Seq<u8>>) -> Option<Seq<EventView>>
    decreases payloads.len(),
{
    if payloads.len() == 0 {
        Some(seq![])
    } else {
        match events_of(payloads.drop_last()) {
            None => None,
            Some(events) => match event_of(payloads.last()) {
                Ok(event) => Some(events.push(event)),
                Err(_) => None,
            },
        }
    }
}

pub open spec fn next_sequence(events: Seq<EventView>) -> int {
    sequence_ahead(1, events.len()) as int
}

pub open spec fn begin_step(
    offset: int,
    frame: Frame,
    events: Seq<EventView>,
) -> Step {
    let payload = frame.payload;
    let count = vstd::bytes::spec_u32_from_le_bytes(payload.subrange(1, 5));
    if payload.len() != 5 {
        Step::Damaged(None, "invalid batch begin marker"@)
    } else if count == 0 || count > MAX_BATCH_EVENTS {
        Step::Damaged(None, "invalid event batch size"@)
    } else {
        let pending = Pending { start: offset, expected: count as nat, payloads: seq![] };
        if frame.sequence != next_sequence(events) {
            Step::Damaged(Some(pending), "batch begin sequence is invalid"@)
        } else {
            Step::Next(events, Some(pending))
        }
    }
}

pub open spec fn event_step(frame: Frame, events: Seq<EventView>, pending: Pending) -> Step {
    let payload = frame.payload;
    if frame.sequence != next_sequence(events) + pending.payloads.len() || payload.len() < 2
        || pending.payloads.len() >= pending.expected {
        Step::Damaged(Some(pending), "event batch sequence or count is invalid"@)
    } else {
        Step::Next(
            events,
            Some(Pending { payloads: pending.payloads.push(payload.skip(1)), ..pending }),
        )
    }
}

pub open spec fn commit_is_valid(frame: Frame, events: Seq<EventView>, pending: Pending) -> bool {
    let payload = frame.payload;
    &&& payload.len() == 37
    &&& pending.payloads.len() == pending.expected
    &&& frame.sequence == next_sequence(events) + pending.payloads.len()
    &&& vstd::bytes::spec_u32_from_le_bytes(payload.subrange(1, 5)) == pending.expected
    &&& payload.subrange(5, 37) == content_digest(digested(pending.payloads))
}

pub open spec fn commit_step(frame: Frame, events: Seq<EventView>, pending: Pending) -> Step {
    if !commit_is_valid(frame, events, pending) {
        Step::Damaged(Some(pending), "invalid event batch commit marker"@)
    } else {
        match events_of(pending.payloads) {
            None => Step::Damaged(Some(pending), "invalid event in committed batch"@),
            Some(new) => match batch_duplicate(history_of(events), new) {
                Some(id) => Step::Refused(StoreErrorView::DuplicateEvent(id)),
                None => Step::Next(events + new, None),
            },
        }
    }
}

pub open spec fn frame_step(
    offset: int,
    frame: Frame,
    events: Seq<EventView>,
    pending: Option<Pending>,
) -> Step {
    let kind = if frame.payload.len() > 0 { Some(frame.payload[0]) } else { None };
    match (pending, kind) {
        (None, Some(1)) => begin_step(offset, frame, events),
        (Some(batch), Some(2)) => event_step(frame, events, batch),
        (Some(batch), Some(3)) => commit_step(frame, events, batch),
        _ => Step::Damaged(pending, "invalid event batch marker ordering"@),
    }
}

pub open spec fn cut_at(offset: int, pending: Option<Pending>) -> int {
    match pending {
        Some(batch) => batch.start,
        None => offset,
    }
}

/// Recovers a log of batches from `offset` on.
pub open spec fn batched_recovered(
    bytes: Seq<u8>,
    offset: int,
    events: Seq<EventView>,
    pending: Option<Pending>,
) -> Result<(Seq<EventView>, Option<int>), StoreErrorView>
    decreases bytes.len() - offset,
{
    if offset >= bytes.len() {
        match pending {
            Some(batch) => Ok((events, Some(batch.start))),
            None => Ok((events, None)),
        }
    } else {
        match frame_at(bytes, offset) {
            Err(error) => if final_at(bytes, offset) {
                Ok((events, Some(cut_at(offset, pending))))
            } else {
                Err(error)
            },
            Ok(None) => Ok((events, Some(cut_at(offset, pending)))),
            Ok(Some(frame)) => match frame_step(offset, frame, events, pending) {
                Step::Refused(error) => Err(error),
                Step::Damaged(batch, message) => if frame.end == bytes.len() && batch is Some {
                    Ok((events, Some(cut_at(offset, batch))))
                } else {
                    corrupt(message)
                },
                Step::Next(events, pending) => if frame.end <= offset {
                    Ok((events, None))
                } else {
                    batched_recovered(bytes, frame.end, events, pending)
                },
            },
        }
    }
}

proof fn frames_end_later(bytes: Seq<u8>, offset: int)
    requires
        0 <= offset <= bytes.len(),
    ensures
        match frame_at(bytes, offset) {
            Ok(Some(frame)) => frame.end == offset + 44 + frame.payload.len() && frame.end
                <= bytes.len() && frame.payload.len() <= MAX_FRAME_BYTES,
            _ => true,
        },
{
}

/// An identity is stored in a history exactly where it is among its events.
proof fn stored_means_among(events: Seq<EventView>, id: EventId)
    ensures
        id_stored(history_of(events), id) == id_among(events, id),
{
    let history = history_of(events);
    if id_stored(history, id) {
        let i = choose|i: int| 0 <= i < history.len() && (#[trigger] history[i]).event.id == id;
        assert(events[i].id == id);
    }
    if id_among(events, id) {
        let i = choose|i: int| 0 <= i < events.len() && (#[trigger] events[i]).id == id;
        assert(history[i].event.id == id);
    }
}

/// `store` holds exactly these events.
pub open spec fn holds(store: InMemoryEventStore, events: Seq<EventView>) -> bool {
    store.valid() && store.history() == history_of(events) && store.upcoming() == sequence_ahead(
        1,
        events.len(),
    )
}

pub open spec fn optional_offset(offset: Option<usize>) -> Option<int> {
    match offset {
        Some(offset) => Some(offset as int),
        None => None,
    }
}

/// Recovers a log of the first format, in which each frame is one event.
/// The store is returned with the offset at which a torn tail begins.
pub fn recover_legacy_events(bytes: &[u8], magic: &[u8]) -> (result: Result<
    (InMemoryEventStore, Option<usize>),
    StoreError,
>)
    requires
        magic@.len() <= bytes@.len(),
    ensures
        match legacy_recovered(bytes@, magic@.len() as int, seq![]) {
            Ok((events, cut)) => {
                &&& result is Ok
                &&& holds(result->Ok_0.0, events)
                &&& optional_offset(result->Ok_0.1) == cut
            },
            Err(error) => result is Err && result->Err_0@ == error,
        },
{
    let mut memory = InMemoryEventStore::new();
    let ghost mut events: Seq<EventView> = seq![];
    let mut offset: usize = magic.len();
    assert(memory.history() =~= history_of(events));
    while offset < bytes.len()
        invariant
            offset <= bytes@.len(),
            holds(memory, events),
            legacy_recovered(bytes@, magic@.len() as int, seq![]) == legacy_recovered(
                bytes@,
                offset as int,
                events,
            ),
        decreases bytes.len() - offset,
    {
        proof {
            frames_end_later(bytes@, offset as int);
        }
        match read_frame(bytes, offset)? {
            None => {
                return Ok((memory, Some(offset)));
            },
            Some((end, sequence, payload)) => {
                let event = match decode_event(payload) {
                    Ok(event) => event,
                    Err(message) => {
                        return Err(StoreError::Corrupt(message));
                    },
                };
                proof {
                    stored_means_among(events, event@.id);
                }
                let ghost before = events;
                let assigned: Sequence = memory.append(event)?;
                if assigned != sequence {
                    let mut message = numbered("expected sequence ", assigned as u128);
                    message.append(", found ");
                    push_decimal(&mut message, sequence as u128);
                    return Err(StoreError::Corrupt(message));
                }
                proof {
                    events = events.push(event@);
                    assert(memory.history() =~= history_of(events));
                }
                offset = end;
            },
        }
    }
    Ok((memory, None))
}

/// A batch that has begun and is not committed yet.
struct OpenBatch {
    start: usize,
    expected: usize,
    payloads: Vec<Vec<u8>>,
}

spec fn batch_view(batch: Option<OpenBatch>) -> Option<Pending> {
    match batch {
        Some(batch) => Some(
            Pending {
                start: batch.start as int,
                expected: batch.expected as nat,
                payloads: blobs(batch.payloads@),
            },
        ),
        None => None,
    }
}

fn decode_payloads(payloads: &Vec<Vec<u8>>) -> (events: Option<Vec<Event>>)
    ensures
        match events_of(blobs(payloads@)) {
            Some(views) => events is Some && event_views(events->0@) == views,
            None => events is None,
        },
{
    let ghost list = blobs(payloads@);
    let mut events: Vec<Event> = Vec::new();
    let mut index: usize = 0;
    assert(list.take(0) =~= Seq::<Seq<u8>>::empty());
    assert(event_views(events@) =~= Seq::<EventView>::empty());
    while index < payloads.len()
        invariant
            index <= payloads@.len(),
            list == blobs(payloads@),
            events_of(list.take(index as int)) == Some(event_views(events@)),
        decreases payloads.len() - index,
    {
        proof {
            let now = list.take(index + 1);
            assert(now.drop_last() =~= list.take(index as int));
            assert(now.last() == payloads@[index as int]@);
            if events_of(now) is None {
                undecodable_stays(list, index + 1);
            }
        }
        match decode_event(payloads[index].as_slice()) {
            Ok(event) => {
                let ghost before = event_views(events@);
                events.push(event);
                assert(event_views(events@) =~= before.push(event@));
            },
            Err(_) => {
                return None;
            },
        }
        index += 1;
    }
    assert(list.take(list.len() as int) =~= list);
    Some(events)
}

proof fn undecodable_stays(payloads: Seq<Seq<u8>>, count: int)
    requires
        0 <= count <= payloads.len(),
        events_of(payloads.take(count)) is None,
    ensures
        events_of(payloads) is None,
    decreases payloads.len() - count,
{
    if count == payloads.len() {
        assert(payloads.take(count) =~= payloads);
    } else {
        assert(payloads.take(count + 1).drop_last() =~= payloads.take(count));
        undecodable_stays(payloads, count + 1);
    }
}

proof fn decoded_count(payloads: Seq<Seq<u8>>)
    ensures
        events_of(payloads) is Some ==> events_of(payloads)->0.len() == payloads.len(),
    decreases payloads.len(),
{
    if payloads.len() > 0 {
        decoded_count(payloads.drop_last());
    }
}

/// Recovers a log of batches. Every committed batch is kept; a tail that was
/// cut short, or damaged at the very end, begins at the returned offset and
/// is to be dropped.
#[verifier::rlimit(60)]
pub fn recover_batched_events(bytes: &[u8], magic: &[u8]) -> (result: Result<
    (InMemoryEventStore, Option<usize>),
    StoreError,
>)
    requires
        magic@.len() <= bytes@.len(),
    ensures
        match batched_recovered(bytes@, magic@.len() as int, seq![], None) {
            Ok((events, cut)) => {
                &&& result is Ok
                &&& holds(result->Ok_0.0, events)
                &&& optional_offset(result->Ok_0.1) == cut
            },
            Err(error) => result is Err && result->Err_0@ == error,
        },
{
    let mut memory = InMemoryEventStore::new();
    let ghost mut events: Seq<EventView> = seq![];
    let mut batch: Option<OpenBatch> = None;
    let mut offset: usize = magic.len();
    assert(memory.history() =~= history_of(events));
    while offset < bytes.len()
        invariant
            offset <= bytes@.len(),
            holds(memory, events),
            batch is Some ==> batch->0.payloads@.len() <= batch->0.expected <= MAX_BATCH_EVENTS,
            (events.len() + (if batch is Some { batch->0.payloads@.len() } else { 0 })) * 44
                <= offset,
            batched_recovered(bytes@, magic@.len() as int, seq![], None) == batched_recovered(
                bytes@,
                offset as int,
                events,
                batch_view(batch),
            ),
        decreases bytes.len() - offset,
    {
        let cut: usize = match &batch {
            Some(open) => open.start,
            None => offset,
        };
        proof {
            frames_end_later(bytes@, offset as int);
        }
        let frame = match read_frame(bytes, offset) {
            Ok(frame) => frame,
            Err(error) => {
                if is_final_frame(bytes, offset) {
                    return Ok((memory, Some(cut)));
                }
                return Err(error);
            },
        };
        let (end, sequence, payload) = match frame {
            Some(frame) => frame,
            None => {
                return Ok((memory, Some(cut)));
            },
        };
        let next: Sequence = memory.next_sequence();
        let kind: u8 = if payload.len() > 0 {
            payload[0]
        } else {
            0
        };
        match batch {
            None => {
                if payload.len() == 0 || kind != BATCH_BEGIN {
                    return Err(
                        StoreError::Corrupt("invalid event batch marker ordering".to_owned()),
                    );
                }
                if payload.len() != 5 {
                    return Err(StoreError::Corrupt("invalid batch begin marker".to_owned()));
                }
                let count: usize = vstd::bytes::u32_from_le_bytes(
                    slice_subrange(payload, 1, 5),
                ) as usize;
                if count == 0 || count > MAX_BATCH_EVENTS {
                    return Err(StoreError::Corrupt("invalid event batch size".to_owned()));
                }
                if sequence != next {
                    if end == bytes.len() {
                        return Ok((memory, Some(offset)));
                    }
                    return Err(StoreError::Corrupt("batch begin sequence is invalid".to_owned()));
                }
                batch = Some(OpenBatch { start: offset, expected: count, payloads: Vec::new() });
                assert(blobs(batch->0.payloads@) =~= Seq::<Seq<u8>>::empty());
            },
            Some(open) => {
                let mut open = open;
                let expected_sequence: u64 = next + open.payloads.len() as u64;
                if payload.len() > 0 && kind == BATCH_EVENT {
                    if sequence != expected_sequence || payload.len() < 2 || open.payloads.len()
                        >= open.expected {
                        if end == bytes.len() {
                            return Ok((memory, Some(open.start)));
                        }
                        return Err(
                            StoreError::Corrupt(
                                "event batch sequence or count is invalid".to_owned(),
                            ),
                        );
                    }
                    let event_payload = vstd::slice::slice_to_vec(
                        slice_subrange(payload, 1, payload.len()),
                    );
                    let ghost before = blobs(open.payloads@);
                    open.payloads.push(event_payload);
                    proof {
                        assert(event_payload@ =~= payload@.skip(1));
                        assert(blobs(open.payloads@) =~= before.push(payload@.skip(1)));
                    }
                    batch = Some(open);
                } else if payload.len() > 0 && kind == BATCH_COMMIT {
                    let valid = payload.len() == 37 && open.payloads.len() == open.expected
                        && sequence == expected_sequence && vstd::bytes::u32_from_le_bytes(
                        slice_subrange(payload, 1, 5),
                    ) as usize == open.expected && same_bytes(
                        slice_subrange(payload, 5, 37),
                        batch_digest(&open.payloads).as_slice(),
                    );
                    if !valid {
                        if end == bytes.len() {
                            return Ok((memory, Some(open.start)));
                        }
                        return Err(
                            StoreError::Corrupt("invalid event batch commit marker".to_owned()),
                        );
                    }
                    let new = match decode_payloads(&open.payloads) {
                        Some(new) => new,
                        None => {
                            if end == bytes.len() {
                                return Ok((memory, Some(open.start)));
                            }
                            return Err(
                                StoreError::Corrupt("invalid event in committed batch".to_owned()),
                            );
                        },
                    };
                    let ghost count = events.len();
                    memory.append_batch(new.as_slice())?;
                    proof {
                        decoded_count(blobs(open.payloads@));
                        let before = events;
                        events = events + event_views(new@);
                        assert(memory.history() =~= history_of(events));
                    }
                    batch = None;
                } else {
                    if end == bytes.len() {
                        return Ok((memory, Some(open.start)));
                    }
                    return Err(
                        StoreError::Corrupt("invalid event batch marker ordering".to_owned()),
                    );
                }
            },
        }
        offset = end;
    }
    let cut: Option<usize> = match &batch {
        Some(open) => Some(open.start),
        None => None,
    };
    Ok((memory, cut))
}

} // verus!
