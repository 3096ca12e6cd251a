//! Laws of the event log: frames read back, committed batches are recovered,
//! and a batch that was cut short anywhere is dropped whole.

use vstd::bytes::{lemma_auto_spec_u32_to_from_le_bytes, lemma_auto_spec_u64_to_from_le_bytes};
use vstd::prelude::*;

use crate::artifact::{content_digest, content_digest_length};
use crate::codec::{u32_bytes, u32_bytes_len, u64_bytes, u64_bytes_len, u8_bytes};
use crate::event_codec::{event_bytes, kind_well_formed, kind_within, MAX_FRAME_BYTES};
use crate::frames::{
    announced, batch_bytes, batched_recovered, begin_frame, digested, event_frames, events_of,
    frame_at, frame_bytes, frame_step, history_of, marker_bytes, Frame, Pending, Step, BATCH_BEGIN,
    BATCH_COMMIT, BATCH_EVENT, MAX_BATCH_EVENTS,
};
use crate::kernel::EventView;
use crate::memory_store::{batch_duplicate, sequence_ahead};
use crate::state::{Sequence, StoreErrorView};

verus! {

proof fn frame_length(sequence: Sequence, payload: Seq<u8>)
    ensures
        frame_bytes(sequence, payload).len() == payload.len() + 44,
{
    reveal(frame_bytes);
    u64_bytes_len(sequence);
    u32_bytes_len(payload.len() as u32);
    content_digest_length(payload);
}

/// A frame is read back wherever it stands.
pub proof fn written_frames_read_back(
    before: Seq<u8>,
    sequence: Sequence,
    payload: Seq<u8>,
    rest: Seq<u8>,
)
    requires
        payload.len() <= MAX_FRAME_BYTES,
    ensures
        frame_at(before + frame_bytes(sequence, payload) + rest, before.len() as int) == Ok::<
            Option<Frame>,
            StoreErrorView,
        >(
            Some(
                Frame {
                    end: (before.len() + frame_bytes(sequence, payload).len()) as int,
                    sequence,
                    payload,
                },
            ),
        ),
{
    reveal(frame_bytes);
    frame_length(sequence, payload);
    u64_bytes_len(sequence);
    u32_bytes_len(payload.len() as u32);
    content_digest_length(payload);
    lemma_auto_spec_u64_to_from_le_bytes();
    lemma_auto_spec_u32_to_from_le_bytes();
    let bytes = before + frame_bytes(sequence, payload) + rest;
    let at = before.len() as int;
    let end = at + 12 + payload.len();
    assert(bytes.subrange(at, at + 8) =~= u64_bytes(sequence));
    assert(bytes.subrange(at + 8, at + 12) =~= u32_bytes(payload.len() as u32));
    assert(bytes.subrange(at + 12, end) =~= payload);
    assert(bytes.subrange(end, end + 32) =~= content_digest(payload));
}

/// A frame that was cut short reads as the end of the log.
pub proof fn torn_frames_read_as_the_end(
    before: Seq<u8>,
    sequence: Sequence,
    payload: Seq<u8>,
    cut: int,
)
    requires
        payload.len() <= MAX_FRAME_BYTES,
        0 <= cut < frame_bytes(sequence, payload).len(),
    ensures
        frame_at(before + frame_bytes(sequence, payload).take(cut), before.len() as int) == Ok::<
            Option<Frame>,
            StoreErrorView,
        >(None),
{
    reveal(frame_bytes);
    frame_length(sequence, payload);
    u64_bytes_len(sequence);
    u32_bytes_len(payload.len() as u32);
    lemma_auto_spec_u32_to_from_le_bytes();
    let bytes = before + frame_bytes(sequence, payload).take(cut);
    let at = before.len() as int;
    if cut >= 12 {
        assert(bytes.subrange(at + 8, at + 12) =~= u32_bytes(payload.len() as u32));
    }
}

/// `bytes` goes on from `before` with a whole frame.
spec fn goes_on_with(bytes: Seq<u8>, before: Seq<u8>, frame: Seq<u8>) -> bool {
    bytes.len() >= before.len() + frame.len() && bytes.take((before.len() + frame.len()) as int)
        == before + frame
}

proof fn frame_found(bytes: Seq<u8>, before: Seq<u8>, sequence: Sequence, payload: Seq<u8>)
    requires
        payload.len() <= MAX_FRAME_BYTES,
        goes_on_with(bytes, before, frame_bytes(sequence, payload)),
    ensures
        frame_at(bytes, before.len() as int) == Ok::<Option<Frame>, StoreErrorView>(
            Some(
                Frame {
                    end: (before.len() + frame_bytes(sequence, payload).len()) as int,
                    sequence,
                    payload,
                },
            ),
        ),
{
    let end = (before.len() + frame_bytes(sequence, payload).len()) as int;
    assert(bytes =~= before + frame_bytes(sequence, payload) + bytes.skip(end));
    written_frames_read_back(before, sequence, payload, bytes.skip(end));
}

/// What is read of a log without a damaged end does not depend on what
/// follows it.
proof fn clean_logs_extend(
    base: Seq<u8>,
    tail: Seq<u8>,
    offset: int,
    events: Seq<EventView>,
    pending: Option<Pending>,
    recovered: Seq<EventView>,
)
    requires
        0 <= offset <= base.len(),
        batched_recovered(base, offset, events, pending) == Ok::<
            (Seq<EventView>, Option<int>),
            StoreErrorView,
        >((recovered, None)),
    ensures
        batched_recovered(base + tail, offset, events, pending) == batched_recovered(
            base + tail,
            base.len() as int,
            recovered,
            None,
        ),
    decreases base.len() - offset,
{
    if offset < base.len() {
        match frame_at(base, offset) {
            Ok(Some(frame)) => {
                let whole = base + tail;
                frame_survives(base, tail, offset);
                match frame_step(offset, frame, events, pending) {
                    Step::Next(next_events, next_pending) => {
                        clean_logs_extend(
                            base,
                            tail,
                            frame.end,
                            next_events,
                            next_pending,
                            recovered,
                        );
                    },
                    _ => {},
                }
            },
            _ => {},
        }
    }
}

proof fn frame_survives(base: Seq<u8>, tail: Seq<u8>, offset: int)
    requires
        0 <= offset < base.len(),
        frame_at(base, offset) is Ok,
        frame_at(base, offset)->Ok_0 is Some,
    ensures
        frame_at(base + tail, offset) == frame_at(base, offset),
        frame_at(base, offset)->Ok_0->0.end > offset,
        frame_at(base, offset)->Ok_0->0.end <= base.len(),
{
    let whole = base + tail;
    let length = announced(base, offset) as int;
    let end = offset + 12 + length;
    assert(whole.subrange(offset + 8, offset + 12) =~= base.subrange(offset + 8, offset + 12));
    assert(whole.subrange(offset, offset + 8) =~= base.subrange(offset, offset + 8));
    assert(whole.subrange(offset + 12, end) =~= base.subrange(offset + 12, end));
    assert(whole.subrange(end, end + 32) =~= base.subrange(end, end + 32));
}

/// A batch that can be committed after `events`: it is not empty or too long,
/// every payload fits its frame and decodes, and no identity repeats.
pub open spec fn committable(
    events: Seq<EventView>,
    payloads: Seq<Seq<u8>>,
    new: Seq<EventView>,
) -> bool {
    &&& 0 < payloads.len() <= MAX_BATCH_EVENTS
    &&& events.len() + payloads.len() + 1 < Sequence::MAX
    &&& forall|i: int|
        0 <= i < payloads.len() ==> 0 < (#[trigger] payloads[i]).len() < MAX_FRAME_BYTES
    &&& events_of(payloads) == Some(new)
    &&& batch_duplicate(history_of(events), new) is None
}

spec fn next_of(events: Seq<EventView>) -> Sequence {
    sequence_ahead(1, events.len())
}

/// The begin marker and the first `count` events of a batch.
spec fn batch_start(next: Sequence, payloads: Seq<Seq<u8>>, count: int) -> Seq<u8> {
    begin_frame(next, payloads.len()) + event_frames(next, payloads.take(count))
}

spec fn open_batch(start: int, payloads: Seq<Seq<u8>>, count: int) -> Option<Pending> {
    Some(Pending { start, expected: payloads.len(), payloads: payloads.take(count) })
}

/// Recovery takes in the begin marker and the first events of a batch.
proof fn batch_starts(
    bytes: Seq<u8>,
    base: Seq<u8>,
    events: Seq<EventView>,
    payloads: Seq<Seq<u8>>,
    new: Seq<EventView>,
    count: int,
)
    requires
        committable(events, payloads, new),
        0 <= count <= payloads.len(),
        goes_on_with(bytes, base, batch_start(next_of(events), payloads, count)),
    ensures
        batched_recovered(bytes, base.len() as int, events, None) == batched_recovered(
            bytes,
            (base.len() + batch_start(next_of(events), payloads, count).len()) as int,
            events,
            open_batch(base.len() as int, payloads, count),
        ),
    decreases count,
{
    let next = next_of(events);
    let start = base.len() as int;
    if count == 0 {
        let n = payloads.len() as u32;
        let marker = marker_bytes(BATCH_BEGIN, n, seq![]);
        u32_bytes_len(n);
        lemma_auto_spec_u32_to_from_le_bytes();
        assert(payloads.take(0) =~= Seq::<Seq<u8>>::empty());
        assert(batch_start(next, payloads, 0) =~= frame_bytes(next, marker));
        frame_length(next, marker);
        frame_found(bytes, base, next, marker);
        assert(marker.len() == 5);
        assert(marker[0] == BATCH_BEGIN);
        assert(marker.subrange(1, 5) =~= u32_bytes(n));
    } else {
        let last = count - 1;
        let seen = payloads.take(last);
        let payload = u8_bytes(BATCH_EVENT) + payloads[last];
        let sequence = (next + last) as Sequence;
        let frame = frame_bytes(sequence, payload);
        let before = batch_start(next, payloads, last);
        let whole = batch_start(next, payloads, count);
        assert(payloads.take(count).drop_last() =~= seen);
        assert(payloads.take(count).last() == payloads[last]);
        assert(whole =~= before + frame);
        frame_length(sequence, payload);
        assert(bytes.take((start + before.len()) as int) =~= base + before) by {
            assert(bytes.take((start + before.len()) as int) =~= bytes.take(
                (start + whole.len()) as int,
            ).take((start + before.len()) as int));
            assert((base + whole).take((start + before.len()) as int) =~= base + before);
        }
        batch_starts(bytes, base, events, payloads, new, last);
        assert(base + whole =~= (base + before) + frame);
        frame_found(bytes, base + before, sequence, payload);
        assert(payload[0] == BATCH_EVENT);
        assert(payload.skip(1) =~= payloads[last]);
        assert(seen.push(payloads[last]) =~= payloads.take(count));
    }
}

/// A committed batch behind a clean log is recovered: the log then holds what
/// it held and the new events, in order.
pub proof fn committed_batches_are_recovered(
    base: Seq<u8>,
    start: int,
    events: Seq<EventView>,
    payloads: Seq<Seq<u8>>,
    new: Seq<EventView>,
)
    requires
        0 <= start <= base.len(),
        batched_recovered(base, start, seq![], None) == Ok::<
            (Seq<EventView>, Option<int>),
            StoreErrorView,
        >((events, None)),
        committable(events, payloads, new),
    ensures
        batched_recovered(
            base + batch_bytes(sequence_ahead(1, events.len()), payloads),
            start,
            seq![],
            None,
        ) == Ok::<(Seq<EventView>, Option<int>), StoreErrorView>((events + new, None)),
{
    let next = next_of(events);
    let n = payloads.len() as int;
    let batch = batch_bytes(next, payloads);
    let bytes = base + batch;
    let before = batch_start(next, payloads, n);
    let digest = content_digest(digested(payloads));
    let marker = marker_bytes(BATCH_COMMIT, n as u32, digest);
    let sequence = (next + n) as Sequence;
    let frame = frame_bytes(sequence, marker);
    clean_logs_extend(base, batch, start, seq![], None, events);
    assert(payloads.take(n) =~= payloads);
    assert(batch =~= before + frame);
    assert(bytes.take((base.len() + before.len()) as int) =~= base + before);
    batch_starts(bytes, base, events, payloads, new, n);
    content_digest_length(digested(payloads));
    u32_bytes_len(n as u32);
    lemma_auto_spec_u32_to_from_le_bytes();
    frame_length(sequence, marker);
    assert(bytes =~= (base + before) + frame);
    assert(bytes.take(bytes.len() as int) =~= bytes);
    frame_found(bytes, base + before, sequence, marker);
    assert(marker[0] == BATCH_COMMIT);
    assert(marker.subrange(1, 5) =~= u32_bytes(n as u32));
    assert(marker.subrange(5, 37) =~= digest);
    let found = Frame { end: bytes.len() as int, sequence, payload: marker };
    let offset = (base.len() + before.len()) as int;
    assert(frame_step(offset, found, events, open_batch(base.len() as int, payloads, n))
        == Step::Next(events + new, None));
    assert(batched_recovered(bytes, bytes.len() as int, events + new, None) == Ok::<
        (Seq<EventView>, Option<int>),
        StoreErrorView,
    >((events + new, None)));
}

/// A batch behind a clean log that was cut short anywhere is dropped whole:
/// recovery gives what the log held before, and says to cut the log back to
/// its old end.
pub proof fn torn_batches_are_dropped(
    base: Seq<u8>,
    start: int,
    events: Seq<EventView>,
    payloads: Seq<Seq<u8>>,
    new: Seq<EventView>,
    cut: int,
)
    requires
        0 <= start <= base.len(),
        batched_recovered(base, start, seq![], None) == Ok::<
            (Seq<EventView>, Option<int>),
            StoreErrorView,
        >((events, None)),
        committable(events, payloads, new),
        0 <= cut < batch_bytes(sequence_ahead(1, events.len()), payloads).len(),
    ensures
        batched_recovered(
            base + batch_bytes(sequence_ahead(1, events.len()), payloads).take(cut),
            start,
            seq![],
            None,
        ) == Ok::<(Seq<EventView>, Option<int>), StoreErrorView>(
            (
                events,
                if cut == 0 {
                    None
                } else {
                    Some(base.len() as int)
                },
            ),
        ),
{
    let next = next_of(events);
    let batch = batch_bytes(next, payloads);
    let tail = batch.take(cut);
    clean_logs_extend(base, tail, start, seq![], None, events);
    if cut > 0 {
        let n = payloads.len() as u32;
        let marker = marker_bytes(BATCH_BEGIN, n, seq![]);
        let begin = begin_frame(next, payloads.len());
        u32_bytes_len(n);
        frame_length(next, marker);
        assert(payloads.take(0) =~= Seq::<Seq<u8>>::empty());
        assert(batch_start(next, payloads, 0) =~= begin);
        if cut < begin.len() {
            assert(tail =~= begin.take(cut));
            torn_frames_read_as_the_end(base, next, marker, cut);
        } else {
            torn_after(base, events, payloads, new, cut, 0);
        }
    }
}

/// The cut lies behind the first `count` events.
proof fn torn_after(
    base: Seq<u8>,
    events: Seq<EventView>,
    payloads: Seq<Seq<u8>>,
    new: Seq<EventView>,
    cut: int,
    count: int,
)
    requires
        committable(events, payloads, new),
        0 <= count <= payloads.len(),
        batch_start(next_of(events), payloads, count).len() <= cut < batch_bytes(
            next_of(events),
            payloads,
        ).len(),
    ensures
        batched_recovered(
            base + batch_bytes(next_of(events), payloads).take(cut),
            base.len() as int,
            events,
            None,
        ) == Ok::<(Seq<EventView>, Option<int>), StoreErrorView>(
            (events, Some(base.len() as int)),
        ),
    decreases payloads.len() - count,
{
    let next = next_of(events);
    let batch = batch_bytes(next, payloads);
    let tail = batch.take(cut);
    let bytes = base + tail;
    let before = batch_start(next, payloads, count);
    let n = payloads.len() as int;
    batch_splits(next, payloads, count);
    assert(batch.take(before.len() as int) =~= before);
    assert(bytes.take((base.len() + before.len()) as int) =~= base + before) by {
        assert(tail.take(before.len() as int) =~= batch.take(before.len() as int));
        assert(bytes.take((base.len() + before.len()) as int) =~= base + tail.take(
            before.len() as int,
        ));
    }
    batch_starts(bytes, base, events, payloads, new, count);
    let rest = cut - before.len();
    if rest == 0 {
        assert(bytes.len() == base.len() + before.len());
    } else if count == n {
        let digest = content_digest(digested(payloads));
        let marker = marker_bytes(BATCH_COMMIT, n as u32, digest);
        let sequence = (next + n) as Sequence;
        content_digest_length(digested(payloads));
        u32_bytes_len(n as u32);
        frame_length(sequence, marker);
        assert(payloads.take(n) =~= payloads);
        assert(batch =~= before + frame_bytes(sequence, marker));
        assert(bytes =~= (base + before) + frame_bytes(sequence, marker).take(rest));
        torn_frames_read_as_the_end(base + before, sequence, marker, rest);
    } else {
        let payload = u8_bytes(BATCH_EVENT) + payloads[count];
        let sequence = (next + count) as Sequence;
        let frame = frame_bytes(sequence, payload);
        let whole = batch_start(next, payloads, count + 1);
        frame_length(sequence, payload);
        assert(payloads.take(count + 1).drop_last() =~= payloads.take(count));
        assert(payloads.take(count + 1).last() == payloads[count]);
        assert(whole =~= before + frame);
        if rest < frame.len() {
            batch_splits(next, payloads, count + 1);
            assert(batch.take(whole.len() as int) =~= whole);
            assert(tail =~= before + frame.take(rest)) by {
                assert(tail =~= whole.take(cut));
            }
            assert(bytes =~= (base + before) + frame.take(rest));
            torn_frames_read_as_the_end(base + before, sequence, payload, rest);
        } else {
            torn_after(base, events, payloads, new, cut, count + 1);
        }
    }
}

/// A batch begins with its begin marker and its first events.
proof fn batch_splits(next: Sequence, payloads: Seq<Seq<u8>>, count: int)
    requires
        0 <= count <= payloads.len(),
    ensures
        batch_bytes(next, payloads).len() >= batch_start(next, payloads, count).len(),
        batch_bytes(next, payloads).take(batch_start(next, payloads, count).len() as int)
            == batch_start(next, payloads, count),
    decreases payloads.len() - count,
{
    let n = payloads.len() as int;
    let batch = batch_bytes(next, payloads);
    let part = batch_start(next, payloads, count);
    if count == n {
        assert(payloads.take(n) =~= payloads);
        assert(batch.take(part.len() as int) =~= part);
    } else {
        batch_splits(next, payloads, count + 1);
        let more = batch_start(next, payloads, count + 1);
        assert(payloads.take(count + 1).drop_last() =~= payloads.take(count));
        let frame = frame_bytes(
            (next + count) as Sequence,
            u8_bytes(BATCH_EVENT) + payloads[count],
        );
        assert(payloads.take(count + 1).last() == payloads[count]);
        assert(more =~= part + frame);
        assert(batch.take(part.len() as int) =~= batch.take(more.len() as int).take(
            part.len() as int,
        ));
        assert(more.take(part.len() as int) =~= part);
    }
}

/// The encodings of events that fit a frame decode to those events, so a
/// batch of them can be committed where no identity repeats.
pub proof fn encoded_events_are_committable(events: Seq<EventView>, new: Seq<EventView>)
    requires
        0 < new.len() <= MAX_BATCH_EVENTS,
        events.len() + new.len() + 1 < Sequence::MAX,
        forall|i: int|
            0 <= i < new.len() ==> event_bytes(#[trigger] new[i]).len() < MAX_FRAME_BYTES,
        forall|i: int|
            0 <= i < new.len() ==> kind_within((#[trigger] new[i]).kind, MAX_FRAME_BYTES as int)
                && kind_well_formed(new[i].kind),
        batch_duplicate(history_of(events), new) is None,
    ensures
        committable(events, new.map_values(|event: EventView| event_bytes(event)), new),
{
    let payloads = new.map_values(|event: EventView| event_bytes(event));
    assert forall|i: int| 0 <= i < payloads.len() implies 0 < (
    #[trigger] payloads[i]).len() < MAX_FRAME_BYTES by {
        assert(payloads[i] == event_bytes(new[i]));
        u64_bytes_len(new[i].id.0);
    }
    encoded_events_decode(new);
}

proof fn encoded_events_decode(new: Seq<EventView>)
    requires
        forall|i: int|
            0 <= i < new.len() ==> kind_within((#[trigger] new[i]).kind, MAX_FRAME_BYTES as int)
                && kind_well_formed(new[i].kind),
    ensures
        events_of(new.map_values(|event: EventView| event_bytes(event))) == Some(new),
    decreases new.len(),
{
    let payloads = new.map_values(|event: EventView| event_bytes(event));
    if new.len() == 0 {
        assert(new =~= Seq::<EventView>::empty());
    } else {
        let front = new.drop_last();
        assert forall|i: int| 0 <= i < front.len() implies kind_within(
            (#[trigger] front[i]).kind,
            MAX_FRAME_BYTES as int,
        ) && kind_well_formed(front[i].kind) by {
            assert(front[i] == new[i]);
        }
        encoded_events_decode(front);
        assert(payloads.drop_last() =~= front.map_values(|event: EventView| event_bytes(event)));
        assert(payloads.last() == event_bytes(new.last()));
        assert(kind_within(new[new.len() - 1].kind, MAX_FRAME_BYTES as int));
        crate::event_codec::decoding_inverts_encoding(new.last());
        assert(front.push(new.last()) =~= new);
    }
}

} // verus!
