//! Durable identities.
//!
//! An identity is a `u64`: a process-unique prefix in the high half and a
//! counter in the low half. Stored identities are never rebuilt by advancing
//! the counter.

use vstd::prelude::*;
use vstd::string::StringExecFns;

use crate::text::{hex_digits, push_hex};

verus! {

/// Allocates the durable identities of one process.
pub struct IdSource {
    prefix: u32,
    next: u32,
}

/// The identity made of a prefix and a counter.
pub open spec fn durable_id(prefix: u32, counter: u32) -> u64 {
    ((prefix as u64) << 32) | (counter as u64)
}

/// `getrandom::getrandom`: four bytes from the operating system, or nothing
/// where it refuses. Nothing is claimed of the bytes.
#[verifier::external_body]
fn system_random() -> (bytes: Option<[u8; 4]>)
{
    let mut bytes = [0u8; 4];
    match getrandom::getrandom(&mut bytes) {
        Ok(()) => Some(bytes),
        Err(_) => None,
    }
}

/// The prefix for four random bytes, read little-endian, and for a fallback
/// seed where there are none. It is never zero.
pub open spec fn prefix_for(random: Option<Seq<u8>>, seed: u32) -> u32 {
    let chosen = match random {
        Some(bytes) => vstd::bytes::spec_u32_from_le_bytes(bytes),
        None => seed,
    };
    if chosen == 0 {
        1
    } else {
        chosen
    }
}

/// Chooses the prefix from what the operating system gave.
pub fn choose_prefix(random: Option<[u8; 4]>, seed: u32) -> (prefix: u32)
    ensures
        prefix == prefix_for(
            match random {
                Some(bytes) => Some(bytes@),
                None => None,
            },
            seed,
        ),
        prefix >= 1,
{
    let chosen: u32 = match random {
        Some(bytes) => vstd::bytes::u32_from_le_bytes(bytes.as_slice()),
        None => seed,
    };
    if chosen == 0 {
        1
    } else {
        chosen
    }
}

/// The seed used where the operating system gives no random bytes: clock and
/// process number folded together.
pub fn fallback_seed(nanoseconds: u128, seconds: u64, process: u32) -> (seed: u32)
    ensures
        seed == ((nanoseconds as u64) ^ (process as u64) ^ ((seconds << 17) | (seconds >> 47)))
            as u32,
{
    #[verifier::truncate]
    let folded: u64 = nanoseconds as u64;
    let rotated: u64 = (seconds << 17) | (seconds >> 47);
    #[verifier::truncate]
    let seed: u32 = (folded ^ (process as u64) ^ rotated) as u32;
    seed
}

impl IdSource {
    /// The prefix shared by every identity of this source.
    pub closed spec fn prefix(&self) -> u32 {
        self.prefix
    }

    /// The counter of the next identity.
    pub closed spec fn next(&self) -> u32 {
        self.next
    }

    /// `count` more identities can be issued.
    pub open spec fn can_issue(&self, count: nat) -> bool {
        self.prefix() >= 1 && self.next() >= 1 && self.next() + count <= u32::MAX
    }

    /// The identity issued after `ahead` others.
    pub open spec fn upcoming(&self, ahead: nat) -> u64 {
        durable_id(self.prefix(), (self.next() + ahead) as u32)
    }

    /// `self` is `before` with `count` identities issued.
    pub open spec fn issued_from(&self, before: &IdSource, count: nat) -> bool {
        self.prefix() == before.prefix() && self.next() == before.next() + count
    }

    /// A source with a given prefix; a zero prefix becomes one.
    pub fn with_prefix(prefix: u32) -> (source: IdSource)
        ensures
            source.prefix() == (if prefix == 0 { 1u32 } else { prefix }),
            source.next() == 1,
            source.can_issue((u32::MAX - 1) as nat),
    {
        IdSource { prefix: if prefix == 0 { 1 } else { prefix }, next: 1 }
    }

    /// A source whose prefix comes from the operating system's randomness, or
    /// from `seed` where there is none.
    pub fn from_system(seed: u32) -> (source: IdSource)
        ensures
            source.prefix() >= 1,
            source.next() == 1,
            source.can_issue((u32::MAX - 1) as nat),
    {
        IdSource::with_prefix(choose_prefix(system_random(), seed))
    }

    /// How many identities are left before the source is exhausted.
    pub fn remaining(&self) -> (count: u32)
        ensures
            count == u32::MAX - self.next(),
    {
        u32::MAX - self.next
    }
}

/// Issues the next identity. A source is never advanced past its last
/// counter: reusing an identity that may have been stored is worse than
/// stopping.
pub fn new_durable_id(source: &mut IdSource) -> (id: u64)
    requires
        old(source).can_issue(1),
    ensures
        id == old(source).upcoming(0),
        final(source).issued_from(old(source), 1),
        id != 0,
{
    let counter: u32 = source.next;
    source.next = counter + 1;
    let prefix: u32 = source.prefix;
    let id: u64 = ((prefix as u64) << 32) | (counter as u64);
    assert(((prefix as u64) << 32) | (counter as u64) != 0) by (bit_vector)
        requires
            prefix >= 1,
    ;
    id
}

/// Identities with different prefixes or counters differ, and none is zero
/// where the counter is not.
pub proof fn durable_ids_are_distinct(
    prefix1: u32,
    counter1: u32,
    prefix2: u32,
    counter2: u32,
)
    ensures
        durable_id(prefix1, counter1) == durable_id(prefix2, counter2) <==> prefix1 == prefix2
            && counter1 == counter2,
        counter1 != 0 ==> durable_id(prefix1, counter1) != 0,
{
    assert(((prefix1 as u64) << 32) | (counter1 as u64) == ((prefix2 as u64) << 32) | (
    counter2 as u64) <==> prefix1 == prefix2 && counter1 == counter2) by (bit_vector);
    assert(counter1 != 0 ==> ((prefix1 as u64) << 32) | (counter1 as u64) != 0) by (bit_vector);
}

/// One source never issues an identity twice: identities issued after a
/// different number of others differ.
pub proof fn a_source_never_repeats(source: IdSource, first: nat, second: nat)
    requires
        first != second,
        source.can_issue(first + 1),
        source.can_issue(second + 1),
    ensures
        source.upcoming(first) != source.upcoming(second),
        source.upcoming(first) != 0,
{
    durable_ids_are_distinct(
        source.prefix(),
        (source.next() + first) as u32,
        source.prefix(),
        (source.next() + second) as u32,
    );
}

/// The rendering of an identity: its family, a dash and sixteen digits.
pub open spec fn id_text(family: Seq<char>, value: u64) -> Seq<char> {
    family + "-"@ + hex_digits(value as nat, 16)
}

fn render_id(family: &str, value: u64) -> (text: String)
    ensures
        text@ == id_text(family@, value),
{
    let mut out = family.to_owned();
    out.append("-");
    push_hex(&mut out, value, 16);
    out
}

#[derive(Clone, Copy, Debug, PartialEq, Eq, PartialOrd, Ord, Hash, Structural)]
pub struct RunId(pub u64);

impl RunId {
    pub fn new(source: &mut IdSource) -> (id: RunId)
        requires
            old(source).can_issue(1),
        ensures
            id.0 == old(source).upcoming(0),
            final(source).issued_from(old(source), 1),
            id.0 != 0,
    {
        RunId(new_durable_id(source))
    }

    pub fn from_u64(value: u64) -> (id: RunId)
        ensures
            id.0 == value,
    {
        RunId(value)
    }

    pub fn value(self) -> (value: u64)
        ensures
            value == self.0,
    {
        self.0
    }

    /// The rendering `run-` and sixteen hexadecimal digits.
    pub fn to_text(self) -> (text: String)
        ensures
            text@ == id_text("run"@, self.0),
    {
        render_id("run", self.0)
    }
}

impl From<u64> for RunId {
    fn from(value: u64) -> (id: RunId) {
        RunId(value)
    }
}

impl vstd::std_specs::convert::FromSpecImpl<u64> for RunId {
    open spec fn obeys_from_spec() -> bool {
        true
    }

    open spec fn from_spec(value: u64) -> RunId {
        RunId(value)
    }
}

#[derive(Clone, Copy, Debug, PartialEq, Eq, PartialOrd, Ord, Hash, Structural)]
pub struct TaskId(pub u64);

impl TaskId {
    pub fn new(source: &mut IdSource) -> (id: TaskId)
        requires
            old(source).can_issue(1),
        ensures
            id.0 == old(source).upcoming(0),
            final(source).issued_from(old(source), 1),
            id.0 != 0,
    {
        TaskId(new_durable_id(source))
    }

    pub fn from_u64(value: u64) -> (id: TaskId)
        ensures
            id.0 == value,
    {
        TaskId(value)
    }

    pub fn value(self) -> (value: u64)
        ensures
            value == self.0,
    {
        self.0
    }

    /// The rendering `task-` and sixteen hexadecimal digits.
    pub fn to_text(self) -> (text: String)
        ensures
            text@ == id_text("task"@, self.0),
    {
        render_id("task", self.0)
    }
}

impl From<u64> for TaskId {
    fn from(value: u64) -> (id: TaskId) {
        TaskId(value)
    }
}

impl vstd::std_specs::convert::FromSpecImpl<u64> for TaskId {
    open spec fn obeys_from_spec() -> bool {
        true
    }

    open spec fn from_spec(value: u64) -> TaskId {
        TaskId(value)
    }
}

#[derive(Clone, Copy, Debug, PartialEq, Eq, PartialOrd, Ord, Hash, Structural)]
pub struct AgentId(pub u64);

impl AgentId {
    pub fn new(source: &mut IdSource) -> (id: AgentId)
        requires
            old(source).can_issue(1),
        ensures
            id.0 == old(source).upcoming(0),
            final(source).issued_from(old(source), 1),
            id.0 != 0,
    {
        AgentId(new_durable_id(source))
    }

    pub fn from_u64(value: u64) -> (id: AgentId)
        ensures
            id.0 == value,
    {
        AgentId(value)
    }

    pub fn value(self) -> (value: u64)
        ensures
            value == self.0,
    {
        self.0
    }

    /// The rendering `agent-` and sixteen hexadecimal digits.
    pub fn to_text(self) -> (text: String)
        ensures
            text@ == id_text("agent"@, self.0),
    {
        render_id("agent", self.0)
    }
}

impl From<u64> for AgentId {
    fn from(value: u64) -> (id: AgentId) {
        AgentId(value)
    }
}

impl vstd::std_specs::convert::FromSpecImpl<u64> for AgentId {
    open spec fn obeys_from_spec() -> bool {
        true
    }

    open spec fn from_spec(value: u64) -> AgentId {
        AgentId(value)
    }
}

#[derive(Clone, Copy, Debug, PartialEq, Eq, PartialOrd, Ord, Hash, Structural)]
pub struct EventId(pub u64);

impl EventId {
    pub fn new(source: &mut IdSource) -> (id: EventId)
        requires
            old(source).can_issue(1),
        ensures
            id.0 == old(source).upcoming(0),
            final(source).issued_from(old(source), 1),
            id.0 != 0,
    {
        EventId(new_durable_id(source))
    }

    pub fn from_u64(value: u64) -> (id: EventId)
        ensures
            id.0 == value,
    {
        EventId(value)
    }

    pub fn value(self) -> (value: u64)
        ensures
            value == self.0,
    {
        self.0
    }

    /// The rendering `event-` and sixteen hexadecimal digits.
    pub fn to_text(self) -> (text: String)
        ensures
            text@ == id_text("event"@, self.0),
    {
        render_id("event", self.0)
    }
}

impl From<u64> for EventId {
    fn from(value: u64) -> (id: EventId) {
        EventId(value)
    }
}

impl vstd::std_specs::convert::FromSpecImpl<u64> for EventId {
    open spec fn obeys_from_spec() -> bool {
        true
    }

    open spec fn from_spec(value: u64) -> EventId {
        EventId(value)
    }
}

#[derive(Clone, Copy, Debug, PartialEq, Eq, PartialOrd, Ord, Hash, Structural)]
pub struct BranchId(pub u64);

impl BranchId {
    pub fn new(source: &mut IdSource) -> (id: BranchId)
        requires
            old(source).can_issue(1),
        ensures
            id.0 == old(source).upcoming(0),
            final(source).issued_from(old(source), 1),
            id.0 != 0,
    {
        BranchId(new_durable_id(source))
    }

    pub fn from_u64(value: u64) -> (id: BranchId)
        ensures
            id.0 == value,
    {
        BranchId(value)
    }

    pub fn value(self) -> (value: u64)
        ensures
            value == self.0,
    {
        self.0
    }

    /// The rendering `branch-` and sixteen hexadecimal digits.
    pub fn to_text(self) -> (text: String)
        ensures
            text@ == id_text("branch"@, self.0),
    {
        render_id("branch", self.0)
    }
}

impl From<u64> for BranchId {
    fn from(value: u64) -> (id: BranchId) {
        BranchId(value)
    }
}

impl vstd::std_specs::convert::FromSpecImpl<u64> for BranchId {
    open spec fn obeys_from_spec() -> bool {
        true
    }

    open spec fn from_spec(value: u64) -> BranchId {
        BranchId(value)
    }
}

#[derive(Clone, Copy, Debug, PartialEq, Eq, PartialOrd, Ord, Hash, Structural)]
pub struct MessageId(pub u64);

impl MessageId {
    pub fn new(source: &mut IdSource) -> (id: MessageId)
        requires
            old(source).can_issue(1),
        ensures
            id.0 == old(source).upcoming(0),
            final(source).issued_from(old(source), 1),
            id.0 != 0,
    {
        MessageId(new_durable_id(source))
    }

    pub fn from_u64(value: u64) -> (id: MessageId)
        ensures
            id.0 == value,
    {
        MessageId(value)
    }

    pub fn value(self) -> (value: u64)
        ensures
            value == self.0,
    {
        self.0
    }

    /// The rendering `message-` and sixteen hexadecimal digits.
    pub fn to_text(self) -> (text: String)
        ensures
            text@ == id_text("message"@, self.0),
    {
        render_id("message", self.0)
    }
}

impl From<u64> for MessageId {
    fn from(value: u64) -> (id: MessageId) {
        MessageId(value)
    }
}

impl vstd::std_specs::convert::FromSpecImpl<u64> for MessageId {
    open spec fn obeys_from_spec() -> bool {
        true
    }

    open spec fn from_spec(value: u64) -> MessageId {
        MessageId(value)
    }
}

#[derive(Clone, Copy, Debug, PartialEq, Eq, PartialOrd, Ord, Hash, Structural)]
pub struct AssumptionId(pub u64);

impl AssumptionId {
    pub fn new(source: &mut IdSource) -> (id: AssumptionId)
        requires
            old(source).can_issue(1),
        ensures
            id.0 == old(source).upcoming(0),
            final(source).issued_from(old(source), 1),
            id.0 != 0,
    {
        AssumptionId(new_durable_id(source))
    }

    pub fn from_u64(value: u64) -> (id: AssumptionId)
        ensures
            id.0 == value,
    {
        AssumptionId(value)
    }

    pub fn value(self) -> (value: u64)
        ensures
            value == self.0,
    {
        self.0
    }

    /// The rendering `assumption-` and sixteen hexadecimal digits.
    pub fn to_text(self) -> (text: String)
        ensures
            text@ == id_text("assumption"@, self.0),
    {
        render_id("assumption", self.0)
    }
}

impl From<u64> for AssumptionId {
    fn from(value: u64) -> (id: AssumptionId) {
        AssumptionId(value)
    }
}

impl vstd::std_specs::convert::FromSpecImpl<u64> for AssumptionId {
    open spec fn obeys_from_spec() -> bool {
        true
    }

    open spec fn from_spec(value: u64) -> AssumptionId {
        AssumptionId(value)
    }
}

#[derive(Clone, Copy, Debug, PartialEq, Eq, PartialOrd, Ord, Hash, Structural)]
pub struct ConflictId(pub u64);

impl ConflictId {
    pub fn new(source: &mut IdSource) -> (id: ConflictId)
        requires
            old(source).can_issue(1),
        ensures
            id.0 == old(source).upcoming(0),
            final(source).issued_from(old(source), 1),
            id.0 != 0,
    {
        ConflictId(new_durable_id(source))
    }

    pub fn from_u64(value: u64) -> (id: ConflictId)
        ensures
            id.0 == value,
    {
        ConflictId(value)
    }

    pub fn value(self) -> (value: u64)
        ensures
            value == self.0,
    {
        self.0
    }

    /// The rendering `conflict-` and sixteen hexadecimal digits.
    pub fn to_text(self) -> (text: String)
        ensures
            text@ == id_text("conflict"@, self.0),
    {
        render_id("conflict", self.0)
    }
}

impl From<u64> for ConflictId {
    fn from(value: u64) -> (id: ConflictId) {
        ConflictId(value)
    }
}

impl vstd::std_specs::convert::FromSpecImpl<u64> for ConflictId {
    open spec fn obeys_from_spec() -> bool {
        true
    }

    open spec fn from_spec(value: u64) -> ConflictId {
        ConflictId(value)
    }
}

#[derive(Clone, Copy, Debug, PartialEq, Eq, PartialOrd, Ord, Hash, Structural)]
pub struct FailureId(pub u64);

impl FailureId {
    pub fn new(source: &mut IdSource) -> (id: FailureId)
        requires
            old(source).can_issue(1),
        ensures
            id.0 == old(source).upcoming(0),
            final(source).issued_from(old(source), 1),
            id.0 != 0,
    {
        FailureId(new_durable_id(source))
    }

    pub fn from_u64(value: u64) -> (id: FailureId)
        ensures
            id.0 == value,
    {
        FailureId(value)
    }

    pub fn value(self) -> (value: u64)
        ensures
            value == self.0,
    {
        self.0
    }

    /// The rendering `failure-` and sixteen hexadecimal digits.
    pub fn to_text(self) -> (text: String)
        ensures
            text@ == id_text("failure"@, self.0),
    {
        render_id("failure", self.0)
    }
}

impl From<u64> for FailureId {
    fn from(value: u64) -> (id: FailureId) {
        FailureId(value)
    }
}

impl vstd::std_specs::convert::FromSpecImpl<u64> for FailureId {
    open spec fn obeys_from_spec() -> bool {
        true
    }

    open spec fn from_spec(value: u64) -> FailureId {
        FailureId(value)
    }
}

#[derive(Clone, Copy, Debug, PartialEq, Eq, PartialOrd, Ord, Hash, Structural)]
pub struct ToolTransactionId(pub u64);

impl ToolTransactionId {
    pub fn new(source: &mut IdSource) -> (id: ToolTransactionId)
        requires
            old(source).can_issue(1),
        ensures
            id.0 == old(source).upcoming(0),
            final(source).issued_from(old(source), 1),
            id.0 != 0,
    {
        ToolTransactionId(new_durable_id(source))
    }

    pub fn from_u64(value: u64) -> (id: ToolTransactionId)
        ensures
            id.0 == value,
    {
        ToolTransactionId(value)
    }

    pub fn value(self) -> (value: u64)
        ensures
            value == self.0,
    {
        self.0
    }

    /// The rendering `tool-tx-` and sixteen hexadecimal digits.
    pub fn to_text(self) -> (text: String)
        ensures
            text@ == id_text("tool-tx"@, self.0),
    {
        render_id("tool-tx", self.0)
    }
}

impl From<u64> for ToolTransactionId {
    fn from(value: u64) -> (id: ToolTransactionId) {
        ToolTransactionId(value)
    }
}

impl vstd::std_specs::convert::FromSpecImpl<u64> for ToolTransactionId {
    open spec fn obeys_from_spec() -> bool {
        true
    }

    open spec fn from_spec(value: u64) -> ToolTransactionId {
        ToolTransactionId(value)
    }
}

#[derive(Clone, Copy, Debug, PartialEq, Eq, PartialOrd, Ord, Hash, Structural)]
pub struct PluginId(pub u64);

impl PluginId {
    pub fn new(source: &mut IdSource) -> (id: PluginId)
        requires
            old(source).can_issue(1),
        ensures
            id.0 == old(source).upcoming(0),
            final(source).issued_from(old(source), 1),
            id.0 != 0,
    {
        PluginId(new_durable_id(source))
    }

    pub fn from_u64(value: u64) -> (id: PluginId)
        ensures
            id.0 == value,
    {
        PluginId(value)
    }

    pub fn value(self) -> (value: u64)
        ensures
            value == self.0,
    {
        self.0
    }

    /// The rendering `plugin-` and sixteen hexadecimal digits.
    pub fn to_text(self) -> (text: String)
        ensures
            text@ == id_text("plugin"@, self.0),
    {
        render_id("plugin", self.0)
    }
}

impl From<u64> for PluginId {
    fn from(value: u64) -> (id: PluginId) {
        PluginId(value)
    }
}

impl vstd::std_specs::convert::FromSpecImpl<u64> for PluginId {
    open spec fn obeys_from_spec() -> bool {
        true
    }

    open spec fn from_spec(value: u64) -> PluginId {
        PluginId(value)
    }
}

} // verus!
