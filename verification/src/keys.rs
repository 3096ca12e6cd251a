//! Key orders: numbers, identities, byte strings and text.

use vstd::prelude::*;
use vstd::utf8::{encode_utf8, encode_utf8_decode_utf8};

use crate::ids::{
    AgentId, AssumptionId, BranchId, ConflictId, EventId, FailureId, MessageId, PluginId, RunId,
    TaskId,
};
use crate::table::{Key, Rank};

verus! {

/// Dictionary order on byte strings.
pub open spec fn bytes_before(left: Seq<u8>, right: Seq<u8>) -> bool
    decreases left.len(),
{
    if right.len() == 0 {
        false
    } else if left.len() == 0 {
        true
    } else {
        left[0] < right[0] || (left[0] == right[0] && bytes_before(
            left.drop_first(),
            right.drop_first(),
        ))
    }
}

pub proof fn bytes_order_laws(a: Seq<u8>, b: Seq<u8>, c: Seq<u8>)
    ensures
        !bytes_before(a, a),
        bytes_before(a, b) && bytes_before(b, c) ==> bytes_before(a, c),
        a == b || bytes_before(a, b) || bytes_before(b, a),
    decreases a.len() + b.len() + c.len(),
{
    if a.len() > 0 && b.len() > 0 && c.len() > 0 {
        bytes_order_laws(a.drop_first(), b.drop_first(), c.drop_first());
    } else if a.len() > 0 && b.len() > 0 {
        bytes_order_laws(a.drop_first(), b.drop_first(), c);
    } else if a.len() > 0 {
        bytes_order_laws(a.drop_first(), b, c);
    }
    if a.len() > 0 && b.len() > 0 && a[0] == b[0] && a.drop_first() == b.drop_first() {
        assert(a =~= seq![a[0]] + a.drop_first());
        assert(b =~= seq![b[0]] + b.drop_first());
    }
    if a.len() == 0 && b.len() == 0 {
        assert(a =~= b);
    }
}

pub fn rank_bytes(left: &[u8], right: &[u8]) -> (rank: Rank)
    ensures
        match rank {
            Rank::Below => bytes_before(left@, right@),
            Rank::Same => left@ == right@,
            Rank::Above => bytes_before(right@, left@),
        },
{
    let mut index: usize = 0;
    assert(left@.skip(0) =~= left@);
    assert(right@.skip(0) =~= right@);
    while index < left.len() && index < right.len() && left[index] == right[index]
        invariant
            index <= left@.len(),
            index <= right@.len(),
            left@.take(index as int) == right@.take(index as int),
            bytes_before(left@, right@) == bytes_before(
                left@.skip(index as int),
                right@.skip(index as int),
            ),
            bytes_before(right@, left@) == bytes_before(
                right@.skip(index as int),
                left@.skip(index as int),
            ),
        decreases left.len() - index,
    {
        proof {
            assert(left@.skip(index as int).drop_first() =~= left@.skip(index + 1));
            assert(right@.skip(index as int).drop_first() =~= right@.skip(index + 1));
            assert(left@.take(index + 1) =~= left@.take(index as int).push(left@[index as int]));
            assert(right@.take(index + 1) =~= right@.take(index as int).push(right@[index as int]));
        }
        index += 1;
    }
    if index == left.len() && index == right.len() {
        assert(left@ =~= left@.take(index as int));
        assert(right@ =~= right@.take(index as int));
        Rank::Same
    } else if index == left.len() {
        Rank::Below
    } else if index == right.len() {
        Rank::Above
    } else if left[index] < right[index] {
        Rank::Below
    } else {
        Rank::Above
    }
}

pub(crate) fn rank_numbers(left: u64, right: u64) -> (rank: Rank)
    ensures
        match rank {
            Rank::Below => left < right,
            Rank::Same => left == right,
            Rank::Above => right < left,
        },
{
    if left < right {
        Rank::Below
    } else if left == right {
        Rank::Same
    } else {
        Rank::Above
    }
}

/// Byte strings are equal: exact comparison.
pub fn same_bytes(left: &[u8], right: &[u8]) -> (same: bool)
    ensures
        same == (left@ == right@),
{
    match rank_bytes(left, right) {
        Rank::Same => true,
        Rank::Below => {
            proof {
                bytes_order_laws(left@, left@, left@);
            }
            false
        },
        Rank::Above => {
            proof {
                bytes_order_laws(left@, left@, left@);
            }
            false
        },
    }
}

impl Key for String {
    type Model = Seq<char>;

    open spec fn model(&self) -> Seq<char> {
        self@
    }

    /// Text is ordered by its bytes.
    open spec fn before(left: Seq<char>, right: Seq<char>) -> bool {
        bytes_before(encode_utf8(left), encode_utf8(right))
    }

    proof fn order_laws(a: Seq<char>, b: Seq<char>, c: Seq<char>) {
        bytes_order_laws(encode_utf8(a), encode_utf8(b), encode_utf8(c));
        encode_utf8_decode_utf8(a);
        encode_utf8_decode_utf8(b);
    }

    fn rank(&self, other: &String) -> (rank: Rank) {
        proof {
            encode_utf8_decode_utf8(self@);
            encode_utf8_decode_utf8(other@);
        }
        rank_bytes(self.as_str().as_bytes(), other.as_str().as_bytes())
    }

    fn copied(&self) -> (copy: String) {
        self.clone()
    }
}

impl Key for u64 {
    type Model = u64;

    open spec fn model(&self) -> u64 {
        *self
    }

    open spec fn before(left: u64, right: u64) -> bool {
        left < right
    }

    proof fn order_laws(a: u64, b: u64, c: u64) {
    }

    fn rank(&self, other: &u64) -> (rank: Rank) {
        rank_numbers(*self, *other)
    }

    fn copied(&self) -> (copy: u64) {
        *self
    }
}

impl Key for RunId {
    type Model = RunId;

    open spec fn model(&self) -> RunId {
        *self
    }

    open spec fn before(left: RunId, right: RunId) -> bool {
        left.0 < right.0
    }

    proof fn order_laws(a: RunId, b: RunId, c: RunId) {
    }

    fn rank(&self, other: &RunId) -> (rank: Rank) {
        rank_numbers(self.0, other.0)
    }

    fn copied(&self) -> (copy: Self) {
        *self
    }
}

impl Key for TaskId {
    type Model = TaskId;

    open spec fn model(&self) -> TaskId {
        *self
    }

    open spec fn before(left: TaskId, right: TaskId) -> bool {
        left.0 < right.0
    }

    proof fn order_laws(a: TaskId, b: TaskId, c: TaskId) {
    }

    fn rank(&self, other: &TaskId) -> (rank: Rank) {
        rank_numbers(self.0, other.0)
    }

    fn copied(&self) -> (copy: Self) {
        *self
    }
}

impl Key for AgentId {
    type Model = AgentId;

    open spec fn model(&self) -> AgentId {
        *self
    }

    open spec fn before(left: AgentId, right: AgentId) -> bool {
        left.0 < right.0
    }

    proof fn order_laws(a: AgentId, b: AgentId, c: AgentId) {
    }

    fn rank(&self, other: &AgentId) -> (rank: Rank) {
        rank_numbers(self.0, other.0)
    }

    fn copied(&self) -> (copy: Self) {
        *self
    }
}

impl Key for EventId {
    type Model = EventId;

    open spec fn model(&self) -> EventId {
        *self
    }

    open spec fn before(left: EventId, right: EventId) -> bool {
        left.0 < right.0
    }

    proof fn order_laws(a: EventId, b: EventId, c: EventId) {
    }

    fn rank(&self, other: &EventId) -> (rank: Rank) {
        rank_numbers(self.0, other.0)
    }

    fn copied(&self) -> (copy: Self) {
        *self
    }
}

impl Key for BranchId {
    type Model = BranchId;

    open spec fn model(&self) -> BranchId {
        *self
    }

    open spec fn before(left: BranchId, right: BranchId) -> bool {
        left.0 < right.0
    }

    proof fn order_laws(a: BranchId, b: BranchId, c: BranchId) {
    }

    fn rank(&self, other: &BranchId) -> (rank: Rank) {
        rank_numbers(self.0, other.0)
    }

    fn copied(&self) -> (copy: Self) {
        *self
    }
}

impl Key for MessageId {
    type Model = MessageId;

    open spec fn model(&self) -> MessageId {
        *self
    }

    open spec fn before(left: MessageId, right: MessageId) -> bool {
        left.0 < right.0
    }

    proof fn order_laws(a: MessageId, b: MessageId, c: MessageId) {
    }

    fn rank(&self, other: &MessageId) -> (rank: Rank) {
        rank_numbers(self.0, other.0)
    }

    fn copied(&self) -> (copy: Self) {
        *self
    }
}

impl Key for AssumptionId {
    type Model = AssumptionId;

    open spec fn model(&self) -> AssumptionId {
        *self
    }

    open spec fn before(left: AssumptionId, right: AssumptionId) -> bool {
        left.0 < right.0
    }

    proof fn order_laws(a: AssumptionId, b: AssumptionId, c: AssumptionId) {
    }

    fn rank(&self, other: &AssumptionId) -> (rank: Rank) {
        rank_numbers(self.0, other.0)
    }

    fn copied(&self) -> (copy: Self) {
        *self
    }
}

impl Key for ConflictId {
    type Model = ConflictId;

    open spec fn model(&self) -> ConflictId {
        *self
    }

    open spec fn before(left: ConflictId, right: ConflictId) -> bool {
        left.0 < right.0
    }

    proof fn order_laws(a: ConflictId, b: ConflictId, c: ConflictId) {
    }

    fn rank(&self, other: &ConflictId) -> (rank: Rank) {
        rank_numbers(self.0, other.0)
    }

    fn copied(&self) -> (copy: Self) {
        *self
    }
}

impl Key for FailureId {
    type Model = FailureId;

    open spec fn model(&self) -> FailureId {
        *self
    }

    open spec fn before(left: FailureId, right: FailureId) -> bool {
        left.0 < right.0
    }

    proof fn order_laws(a: FailureId, b: FailureId, c: FailureId) {
    }

    fn rank(&self, other: &FailureId) -> (rank: Rank) {
        rank_numbers(self.0, other.0)
    }

    fn copied(&self) -> (copy: Self) {
        *self
    }
}

impl Key for PluginId {
    type Model = PluginId;

    open spec fn model(&self) -> PluginId {
        *self
    }

    open spec fn before(left: PluginId, right: PluginId) -> bool {
        left.0 < right.0
    }

    proof fn order_laws(a: PluginId, b: PluginId, c: PluginId) {
    }

    fn rank(&self, other: &PluginId) -> (rank: Rank) {
        rank_numbers(self.0, other.0)
    }

    fn copied(&self) -> (copy: Self) {
        *self
    }
}

} // verus!
