//! Bounded, event-sourced memory of failed approaches.
//!
//! Failure memory keeps compact structured facts rather than transcripts. It
//! lets an agent discover that an approach was attempted, why it failed and
//! what evidence was produced, without copying another agent's context.

use vstd::prelude::*;
use vstd::string::StringExecFns;
use vstd::utf8::encode_utf8;

use crate::codec::{
    blob32_bytes, concat_is_associative, get_bytes, get_u16, get_u32, get_u64, get_u64_of_bytes,
    get_u8, get_u8_of_bytes, group_codec, optional_u64_bytes, outcome, parsed, put_bytes,
    put_optional_u64, put_u16, put_u32, put_u64, put_u8, regroup1, text_from, text_of, u16_bytes,
    u32_bytes, u64_bytes, u8_bytes, Reader,
};
use crate::ids::{id_text, AgentId, FailureId, IdSource, TaskId};
use crate::kernel::{event_views, Event, EventKind, EventKindView, EventView};
use crate::state::phrase;
use crate::table::{Record, Table};
use crate::text::{blank, clone_texts, decimal, is_blank, numbered, push_decimal, same_texts, texts};

verus! {

pub const FAILURE_MEMORY_SCHEMA_VERSION: u16 = 1;

pub const MAX_TEXT_BYTES: usize = 65536;

pub const MAX_EVIDENCE_ITEMS: usize = 64;

pub const MAX_PAYLOAD_BYTES: usize = 1048576;

// ---------------------------------------------------------------------------
// Records and their views.

#[derive(Clone, Copy, Debug, PartialEq, Eq, Structural)]
pub enum FailureState {
    Active,
    Resolved,
}

#[derive(Clone, Debug, PartialEq, Eq)]
pub struct FailureRecord {
    pub id: FailureId,
    pub agent_id: AgentId,
    pub task_id: Option<TaskId>,
    pub fingerprint: String,
    pub approach: String,
    pub reason: String,
    pub evidence: Vec<String>,
    pub state: FailureState,
}

pub struct FailureRecordView {
    pub id: FailureId,
    pub agent_id: AgentId,
    pub task_id: Option<TaskId>,
    pub fingerprint: Seq<char>,
    pub approach: Seq<char>,
    pub reason: Seq<char>,
    pub evidence: Seq<Seq<char>>,
    pub state: FailureState,
}

impl View for FailureRecord {
    type V = FailureRecordView;

    open spec fn view(&self) -> FailureRecordView {
        FailureRecordView {
            id: self.id,
            agent_id: self.agent_id,
            task_id: self.task_id,
            fingerprint: self.fingerprint@,
            approach: self.approach@,
            reason: self.reason@,
            evidence: texts(self.evidence@),
            state: self.state,
        }
    }
}

impl Record for FailureRecord {
    fn duplicate(&self) -> (copy: FailureRecord) {
        FailureRecord {
            id: self.id,
            agent_id: self.agent_id,
            task_id: self.task_id,
            fingerprint: self.fingerprint.clone(),
            approach: self.approach.clone(),
            reason: self.reason.clone(),
            evidence: clone_texts(&self.evidence),
            state: self.state,
        }
    }

    fn same(&self, other: &FailureRecord) -> (same: bool) {
        let tasks = match (self.task_id, other.task_id) {
            (Some(left), Some(right)) => left == right,
            (None, None) => true,
            _ => false,
        };
        self.id == other.id && self.agent_id == other.agent_id && tasks && self.fingerprint
            == other.fingerprint && self.approach == other.approach && self.reason == other.reason
            && same_texts(&self.evidence, &other.evidence) && self.state == other.state
    }
}

#[derive(Clone, Debug, PartialEq, Eq)]
pub enum FailureTransition {
    Recorded { record: FailureRecord },
    Resolved { failure_id: FailureId },
}

pub enum FailureTransitionView {
    Recorded { record: FailureRecordView },
    Resolved { failure_id: FailureId },
}

impl View for FailureTransition {
    type V = FailureTransitionView;

    open spec fn view(&self) -> FailureTransitionView {
        match *self {
            FailureTransition::Recorded { record } => FailureTransitionView::Recorded {
                record: record@,
            },
            FailureTransition::Resolved { failure_id } => FailureTransitionView::Resolved {
                failure_id,
            },
        }
    }
}

#[derive(Clone, Debug, PartialEq, Eq)]
pub enum FailureMemoryError {
    Invalid(String),
    InvalidEncoding(String),
    UnsupportedVersion(u16),
    TooLarge { actual: usize, maximum: usize },
    Duplicate(FailureId),
    Unknown(FailureId),
    AlreadyResolved(FailureId),
}

pub enum FailureMemoryErrorView {
    Invalid(Seq<char>),
    InvalidEncoding(Seq<char>),
    UnsupportedVersion(u16),
    TooLarge { actual: usize, maximum: usize },
    Duplicate(FailureId),
    Unknown(FailureId),
    AlreadyResolved(FailureId),
}

impl View for FailureMemoryError {
    type V = FailureMemoryErrorView;

    open spec fn view(&self) -> FailureMemoryErrorView {
        match *self {
            FailureMemoryError::Invalid(message) => FailureMemoryErrorView::Invalid(message@),
            FailureMemoryError::InvalidEncoding(message) => FailureMemoryErrorView::InvalidEncoding(
                message@,
            ),
            FailureMemoryError::UnsupportedVersion(version) =>
                FailureMemoryErrorView::UnsupportedVersion(version),
            FailureMemoryError::TooLarge { actual, maximum } => FailureMemoryErrorView::TooLarge {
                actual,
                maximum,
            },
            FailureMemoryError::Duplicate(id) => FailureMemoryErrorView::Duplicate(id),
            FailureMemoryError::Unknown(id) => FailureMemoryErrorView::Unknown(id),
            FailureMemoryError::AlreadyResolved(id) => FailureMemoryErrorView::AlreadyResolved(id),
        }
    }
}

impl FailureMemoryErrorView {
    pub open spec fn text(self) -> Seq<char> {
        match self {
            FailureMemoryErrorView::Invalid(message) => "invalid failure memory: "@ + message,
            FailureMemoryErrorView::InvalidEncoding(message) =>
                "invalid failure-memory encoding: "@ + message,
            FailureMemoryErrorView::UnsupportedVersion(version) =>
                "unsupported failure-memory schema version "@ + decimal(version as nat),
            FailureMemoryErrorView::TooLarge { actual, maximum } => "failure-memory payload is "@
                + decimal(actual as nat) + " bytes, maximum is "@ + decimal(maximum as nat),
            FailureMemoryErrorView::Duplicate(id) => "failure record "@ + id_text(
                "failure"@,
                id.0,
            ) + " already exists"@,
            FailureMemoryErrorView::Unknown(id) => "failure record "@ + id_text("failure"@, id.0)
                + " is not present"@,
            FailureMemoryErrorView::AlreadyResolved(id) => "failure record "@ + id_text(
                "failure"@,
                id.0,
            ) + " is resolved"@,
        }
    }
}

impl FailureMemoryError {
    pub fn to_text(&self) -> (text: String)
        ensures
            text@ == self@.text(),
    {
        match self {
            FailureMemoryError::Invalid(message) => {
                let mut out = "invalid failure memory: ".to_owned();
                out.append(message.as_str());
                out
            },
            FailureMemoryError::InvalidEncoding(message) => {
                let mut out = "invalid failure-memory encoding: ".to_owned();
                out.append(message.as_str());
                out
            },
            FailureMemoryError::UnsupportedVersion(version) => numbered(
                "unsupported failure-memory schema version ",
                *version as u128,
            ),
            FailureMemoryError::TooLarge { actual, maximum } => {
                let mut out = numbered("failure-memory payload is ", *actual as u128);
                out.append(" bytes, maximum is ");
                push_decimal(&mut out, *maximum as u128);
                out
            },
            FailureMemoryError::Duplicate(id) => phrase(
                "failure record ",
                id.to_text().as_str(),
                " already exists",
            ),
            FailureMemoryError::Unknown(id) => phrase(
                "failure record ",
                id.to_text().as_str(),
                " is not present",
            ),
            FailureMemoryError::AlreadyResolved(id) => phrase(
                "failure record ",
                id.to_text().as_str(),
                " is resolved",
            ),
        }
    }
}

// ---------------------------------------------------------------------------
// Validity.

pub open spec fn text_check(
    field: Seq<char>,
    value: Seq<char>,
) -> Result<(), FailureMemoryErrorView> {
    if blank(value) {
        Err(FailureMemoryErrorView::Invalid(field + " must not be empty"@))
    } else if encode_utf8(value).len() > MAX_TEXT_BYTES {
        Err(
            FailureMemoryErrorView::TooLarge {
                actual: encode_utf8(value).len() as usize,
                maximum: MAX_TEXT_BYTES,
            },
        )
    } else {
        Ok(())
    }
}

/// The first text of a list that is not valid decides.
pub open spec fn texts_check(field: Seq<char>, list: Seq<Seq<char>>) -> Result<
    (),
    FailureMemoryErrorView,
>
    decreases list.len(),
{
    if list.len() == 0 {
        Ok(())
    } else {
        match texts_check(field, list.drop_last()) {
            Err(error) => Err(error),
            Ok(_) => text_check(field, list.last()),
        }
    }
}

pub open spec fn text_list_check(field: Seq<char>, list: Seq<Seq<char>>) -> Result<
    (),
    FailureMemoryErrorView,
> {
    if list.len() > MAX_EVIDENCE_ITEMS {
        Err(FailureMemoryErrorView::Invalid("failure evidence list is too large"@))
    } else {
        texts_check(field, list)
    }
}

/// The first error of two checks made in order.
pub open spec fn both(
    first: Result<(), FailureMemoryErrorView>,
    second: Result<(), FailureMemoryErrorView>,
) -> Result<(), FailureMemoryErrorView> {
    match first {
        Err(error) => Err(error),
        Ok(_) => second,
    }
}

fn validate_text(field: &str, value: &str) -> (result: Result<(), FailureMemoryError>)
    ensures
        outcome(result) == text_check(field@, value@),
{
    if is_blank(value) {
        let mut message = field.to_owned();
        message.append(" must not be empty");
        return Err(FailureMemoryError::Invalid(message));
    }
    let length: usize = value.as_bytes().len();
    if length > MAX_TEXT_BYTES {
        return Err(FailureMemoryError::TooLarge { actual: length, maximum: MAX_TEXT_BYTES });
    }
    Ok(())
}

/// Once one text of a list fails, later ones do not matter.
proof fn failed_check_stays(field: Seq<char>, list: Seq<Seq<char>>, count: int)
    requires
        0 <= count <= list.len(),
        texts_check(field, list.take(count)) is Err,
    ensures
        texts_check(field, list) == texts_check(field, list.take(count)),
    decreases list.len() - count,
{
    if count == list.len() {
        assert(list.take(count) =~= list);
    } else {
        assert(list.take(count + 1).drop_last() =~= list.take(count));
        failed_check_stays(field, list, count + 1);
    }
}

fn validate_text_list(field: &str, values: &Vec<String>) -> (result: Result<(), FailureMemoryError>)
    ensures
        outcome(result) == text_list_check(field@, texts(values@)),
{
    if values.len() > MAX_EVIDENCE_ITEMS {
        return Err(FailureMemoryError::Invalid("failure evidence list is too large".to_owned()));
    }
    let ghost list = texts(values@);
    let mut index: usize = 0;
    assert(list.take(0) =~= Seq::<Seq<char>>::empty());
    while index < values.len()
        invariant
            index <= values@.len(),
            list == texts(values@),
            texts_check(field@, list.take(index as int)) is Ok,
            values@.len() <= MAX_EVIDENCE_ITEMS,
        decreases values.len() - index,
    {
        let checked = validate_text(field, values[index].as_str());
        proof {
            let next = list.take(index + 1);
            assert(next.drop_last() =~= list.take(index as int));
            assert(next.last() == values@[index as int]@);
        }
        match checked {
            Ok(_) => {},
            Err(error) => {
                proof {
                    failed_check_stays(field@, list, index + 1);
                }
                return Err(error);
            },
        }
        index += 1;
    }
    assert(list.take(list.len() as int) =~= list);
    Ok(())
}

/// A list that passes its check fits its encoding.
proof fn checked_texts_fit(field: Seq<char>, list: Seq<Seq<char>>)
    requires
        texts_check(field, list) is Ok,
    ensures
        forall|i: int| 0 <= i < list.len() ==> text_fits(#[trigger] list[i]),
    decreases list.len(),
{
    if list.len() > 0 {
        checked_texts_fit(field, list.drop_last());
        assert forall|i: int| 0 <= i < list.len() implies text_fits(#[trigger] list[i]) by {
            if i < list.len() - 1 {
                assert(list.drop_last()[i] == list[i]);
            }
        }
    }
}

pub open spec fn record_check(record: FailureRecordView) -> Result<(), FailureMemoryErrorView> {
    both(
        text_check("failure fingerprint"@, record.fingerprint),
        both(
            text_check("failure approach"@, record.approach),
            both(
                text_check("failure reason"@, record.reason),
                text_list_check("failure evidence"@, record.evidence),
            ),
        ),
    )
}

/// A record can be stored: it is valid, and active.
pub open spec fn recordable(record: FailureRecordView) -> Result<(), FailureMemoryErrorView> {
    match record_check(record) {
        Err(error) => Err(error),
        Ok(_) => if record.state != FailureState::Active {
            Err(FailureMemoryErrorView::Invalid("recorded failure must be active"@))
        } else {
            Ok(())
        },
    }
}

impl FailureRecord {
    pub fn new(
        ids: &mut IdSource,
        agent_id: AgentId,
        fingerprint: &str,
        approach: &str,
        reason: &str,
    ) -> (record: FailureRecord)
        requires
            old(ids).can_issue(1),
        ensures
            record@ == (FailureRecordView {
                id: FailureId(old(ids).upcoming(0)),
                agent_id,
                task_id: None,
                fingerprint: fingerprint@,
                approach: approach@,
                reason: reason@,
                evidence: seq![],
                state: FailureState::Active,
            }),
            final(ids).issued_from(old(ids), 1),
    {
        let record = FailureRecord {
            id: FailureId::new(ids),
            agent_id,
            task_id: None,
            fingerprint: fingerprint.to_owned(),
            approach: approach.to_owned(),
            reason: reason.to_owned(),
            evidence: Vec::new(),
            state: FailureState::Active,
        };
        assert(record@.evidence =~= seq![]);
        record
    }

    pub fn with_task_id(self, task_id: TaskId) -> (record: FailureRecord)
        ensures
            record@ == (FailureRecordView { task_id: Some(task_id), ..self@ }),
    {
        FailureRecord { task_id: Some(task_id), ..self }
    }

    pub fn with_evidence(self, evidence: Vec<String>) -> (record: FailureRecord)
        ensures
            record@ == (FailureRecordView { evidence: texts(evidence@), ..self@ }),
    {
        FailureRecord { evidence, ..self }
    }

    pub fn validate(&self) -> (result: Result<(), FailureMemoryError>)
        ensures
            outcome(result) == record_check(self@),
    {
        validate_text("failure fingerprint", self.fingerprint.as_str())?;
        validate_text("failure approach", self.approach.as_str())?;
        validate_text("failure reason", self.reason.as_str())?;
        validate_text_list("failure evidence", &self.evidence)
    }

    fn check_recordable(&self) -> (result: Result<(), FailureMemoryError>)
        ensures
            outcome(result) == recordable(self@),
    {
        self.validate()?;
        if self.state != FailureState::Active {
            return Err(
                FailureMemoryError::Invalid("recorded failure must be active".to_owned()),
            );
        }
        Ok(())
    }
}

// ---------------------------------------------------------------------------
// Bounded text.

pub open spec fn at_end<V>() -> Result<(V, Seq<u8>), FailureMemoryErrorView> {
    Err(FailureMemoryErrorView::InvalidEncoding("unexpected end of payload"@))
}

#[verifier::opaque]
pub open spec fn text_bytes(text: Seq<char>) -> Seq<u8> {
    blob32_bytes(encode_utf8(text))
}

/// The encodings of some texts, one behind the other.
pub open spec fn texts_bytes(list: Seq<Seq<char>>) -> Seq<u8>
    decreases list.len(),
{
    if list.len() == 0 {
        seq![]
    } else {
        texts_bytes(list.drop_last()) + text_bytes(list.last())
    }
}

/// A list of texts behind its length.
pub open spec fn text_list_bytes(list: Seq<Seq<char>>) -> Seq<u8> {
    u16_bytes(list.len() as u16) + texts_bytes(list)
}

pub open spec fn text_fits(text: Seq<char>) -> bool {
    encode_utf8(text).len() <= MAX_TEXT_BYTES
}

pub open spec fn text_list_fits(list: Seq<Seq<char>>) -> bool {
    list.len() <= MAX_EVIDENCE_ITEMS && forall|i: int|
        0 <= i < list.len() ==> text_fits(#[trigger] list[i])
}

#[verifier::opaque]
pub open spec fn get_text(bytes: Seq<u8>) -> Result<(Seq<char>, Seq<u8>), FailureMemoryErrorView> {
    match get_u32(bytes) {
        None => at_end(),
        Some((length, rest)) => if length > MAX_TEXT_BYTES {
            Err(
                FailureMemoryErrorView::TooLarge {
                    actual: length as usize,
                    maximum: MAX_TEXT_BYTES,
                },
            )
        } else {
            match get_bytes(rest, length as nat) {
                None => at_end(),
                Some((front, rest)) => match text_of(front) {
                    Some(text) => Ok((text, rest)),
                    None => Err(
                        FailureMemoryErrorView::InvalidEncoding("failure text is not UTF-8"@),
                    ),
                },
            }
        },
    }
}

/// `count` more texts behind those of `list`.
pub open spec fn get_texts(list: Seq<Seq<char>>, count: nat, bytes: Seq<u8>) -> Result<
    (Seq<Seq<char>>, Seq<u8>),
    FailureMemoryErrorView,
>
    decreases count,
{
    if count == 0 {
        Ok((list, bytes))
    } else {
        match get_text(bytes) {
            Err(error) => Err(error),
            Ok((text, rest)) => get_texts(list.push(text), (count - 1) as nat, rest),
        }
    }
}

pub open spec fn get_text_list(bytes: Seq<u8>) -> Result<(Seq<Seq<char>>, Seq<u8>), FailureMemoryErrorView> {
    match get_u16(bytes) {
        None => at_end(),
        Some((count, rest)) => if count > MAX_EVIDENCE_ITEMS {
            Err(FailureMemoryErrorView::InvalidEncoding("failure evidence list is too large"@))
        } else {
            get_texts(seq![], count as nat, rest)
        },
    }
}

pub broadcast proof fn text_reads_back(text: Seq<char>, rest: Seq<u8>)
    requires
        text_fits(text),
    ensures
        #[trigger] get_text(text_bytes(text) + rest) == Ok::<_, FailureMemoryErrorView>((text, rest)),
{
    broadcast use group_codec;

    reveal(text_bytes);
    reveal(get_text);
    reveal(blob32_bytes);
    let bytes = encode_utf8(text);
    assert(blob32_bytes(bytes) + rest == u32_bytes(bytes.len() as u32) + (bytes + rest));
}

proof fn texts_read_back(before: Seq<Seq<char>>, list: Seq<Seq<char>>, more: nat, rest: Seq<u8>)
    requires
        forall|i: int| 0 <= i < list.len() ==> text_fits(#[trigger] list[i]),
    ensures
        get_texts(before, list.len() + more, texts_bytes(list) + rest) == get_texts(
            before + list,
            more,
            rest,
        ),
    decreases list.len(),
{
    if list.len() == 0 {
        assert(texts_bytes(list) + rest =~= rest);
        assert(before + list =~= before);
    } else {
        let front = list.drop_last();
        let tail = text_bytes(list.last()) + rest;
        assert(texts_bytes(list) + rest =~= texts_bytes(front) + tail);
        texts_read_back(before, front, more + 1, tail);
        text_reads_back(list.last(), rest);
        assert((before + front).push(list.last()) =~= before + list);
    }
}

pub broadcast proof fn text_list_reads_back(list: Seq<Seq<char>>, rest: Seq<u8>)
    requires
        text_list_fits(list),
    ensures
        #[trigger] get_text_list(text_list_bytes(list) + rest) == Ok::<_, FailureMemoryErrorView>(
            (list, rest),
        ),
{
    broadcast use group_codec;

    texts_read_back(seq![], list, 0, rest);
    assert(Seq::<Seq<char>>::empty() + list =~= list);
    assert(text_list_bytes(list) + rest == u16_bytes(list.len() as u16) + (texts_bytes(list)
        + rest));
}

fn unexpected_end() -> (error: FailureMemoryError)
    ensures
        error@ == (FailureMemoryErrorView::InvalidEncoding("unexpected end of payload"@)),
{
    FailureMemoryError::InvalidEncoding("unexpected end of payload".to_owned())
}

fn put_text(out: &mut Vec<u8>, value: &str)
    requires
        text_fits(value@),
    ensures
        final(out)@ == old(out)@ + text_bytes(value@),
{
    broadcast use concat_is_associative;
    reveal(text_bytes);
    reveal(blob32_bytes);
    let bytes = value.as_bytes();
    put_u32(out, bytes.len() as u32);
    put_bytes(out, bytes);
}

fn put_text_list(out: &mut Vec<u8>, list: &Vec<String>)
    requires
        text_list_fits(texts(list@)),
    ensures
        final(out)@ == old(out)@ + text_list_bytes(texts(list@)),
{
    broadcast use concat_is_associative;
    put_u16(out, list.len() as u16);
    let ghost base = out@;
    let mut index: usize = 0;
    assert(texts(list@.take(0)) =~= Seq::<Seq<char>>::empty());
    assert(base + texts_bytes(texts(list@.take(0))) =~= base);
    while index < list.len()
        invariant
            index <= list@.len(),
            text_list_fits(texts(list@)),
            out@ == base + texts_bytes(texts(list@.take(index as int))),
        decreases list.len() - index,
    {
        assert(texts(list@)[index as int] == list@[index as int]@);
        put_text(out, list[index].as_str());
        index += 1;
        proof {
            let now = texts(list@.take(index as int));
            assert(now.drop_last() =~= texts(list@.take(index - 1)));
            assert(now.last() == list@[index - 1]@);
            assert(out@ =~= base + texts_bytes(now));
        }
    }
    assert(list@.take(list@.len() as int) =~= list@);
}

fn read_text(reader: &mut Reader) -> (result: Result<String, FailureMemoryError>)
    ensures
        parsed(outcome(result), final(reader).left(), get_text(old(reader).left())),
{
    reveal(get_text);
    let Some(length) = reader.u32() else {
        return Err(unexpected_end());
    };
    if length > MAX_TEXT_BYTES as u32 {
        return Err(FailureMemoryError::TooLarge { actual: length as usize, maximum: MAX_TEXT_BYTES });
    }
    let Some(bytes) = reader.take(length as usize) else {
        return Err(unexpected_end());
    };
    match text_from(bytes) {
        Some(text) => Ok(text),
        None => Err(FailureMemoryError::InvalidEncoding("failure text is not UTF-8".to_owned())),
    }
}

fn read_text_list(reader: &mut Reader) -> (result: Result<Vec<String>, FailureMemoryError>)
    ensures
        match get_text_list(old(reader).left()) {
            Ok((list, left)) => result is Ok && texts(result->Ok_0@) == list
                && final(reader).left() == left,
            Err(error) => result is Err && result->Err_0@ == error,
        },
{
    let Some(count) = reader.u16() else {
        return Err(unexpected_end());
    };
    if count > MAX_EVIDENCE_ITEMS as u16 {
        return Err(FailureMemoryError::InvalidEncoding("failure evidence list is too large".to_owned()));
    }
    let ghost whole = get_texts(seq![], count as nat, reader.left());
    let mut list: Vec<String> = Vec::new();
    let mut index: u16 = 0;
    assert(texts(list@) =~= Seq::<Seq<char>>::empty());
    while index < count
        invariant
            index <= count,
            whole == get_text_list(old(reader).left()),
            whole == get_texts(texts(list@), (count - index) as nat, reader.left()),
        decreases count - index,
    {
        let text = read_text(reader)?;
        let ghost before = texts(list@);
        list.push(text);
        assert(texts(list@) =~= before.push(text@));
        index += 1;
    }
    Ok(list)
}

// ---------------------------------------------------------------------------
// The encoding of transitions.

pub open spec fn task_value(task_id: Option<TaskId>) -> Option<u64> {
    match task_id {
        Some(id) => Some(id.0),
        None => None,
    }
}

pub open spec fn record_bytes(record: FailureRecordView) -> Seq<u8> {
    u64_bytes(record.id.0) + u64_bytes(record.agent_id.0) + optional_u64_bytes(
        task_value(record.task_id),
    ) + text_bytes(record.fingerprint) + text_bytes(record.approach) + text_bytes(record.reason)
        + text_list_bytes(record.evidence)
}

pub open spec fn transition_bytes(transition: FailureTransitionView) -> Seq<u8> {
    match transition {
        FailureTransitionView::Recorded { record } => u8_bytes(0) + record_bytes(record),
        FailureTransitionView::Resolved { failure_id } => u8_bytes(1) + u64_bytes(failure_id.0),
    }
}

/// What encoding a transition yields.
pub open spec fn encoded(transition: FailureTransitionView) -> Result<
    Seq<u8>,
    FailureMemoryErrorView,
> {
    let checked = match transition {
        FailureTransitionView::Recorded { record } => recordable(record),
        FailureTransitionView::Resolved { .. } => Ok(()),
    };
    match checked {
        Err(error) => Err(error),
        Ok(_) => if transition_bytes(transition).len() > MAX_PAYLOAD_BYTES {
            Err(
                FailureMemoryErrorView::TooLarge {
                    actual: transition_bytes(transition).len() as usize,
                    maximum: MAX_PAYLOAD_BYTES,
                },
            )
        } else {
            Ok(transition_bytes(transition))
        },
    }
}

pub open spec fn get_task(bytes: Seq<u8>) -> Result<
    (Option<TaskId>, Seq<u8>),
    FailureMemoryErrorView,
> {
    match get_u8(bytes) {
        None => at_end(),
        Some((tag, rest)) => if tag == 0 {
            Ok((None, rest))
        } else if tag == 1 {
            match get_u64(rest) {
                None => at_end(),
                Some((id, rest)) => Ok((Some(TaskId(id)), rest)),
            }
        } else {
            Err(FailureMemoryErrorView::InvalidEncoding("unknown task-id tag"@))
        },
    }
}

/// The texts of a record, behind its identities.
pub open spec fn get_record_texts(head: FailureRecordView, bytes: Seq<u8>) -> Result<
    (FailureRecordView, Seq<u8>),
    FailureMemoryErrorView,
> {
    match get_text(bytes) {
        Err(error) => Err(error),
        Ok((fingerprint, rest)) => match get_text(rest) {
            Err(error) => Err(error),
            Ok((approach, rest)) => match get_text(rest) {
                Err(error) => Err(error),
                Ok((reason, rest)) => match get_text_list(rest) {
                    Err(error) => Err(error),
                    Ok((evidence, rest)) => Ok(
                        (
                            FailureRecordView { fingerprint, approach, reason, evidence, ..head },
                            rest,
                        ),
                    ),
                },
            },
        },
    }
}

pub open spec fn record_head(id: u64, agent_id: u64, task_id: Option<TaskId>) -> FailureRecordView {
    FailureRecordView {
        id: FailureId(id),
        agent_id: AgentId(agent_id),
        task_id,
        fingerprint: seq![],
        approach: seq![],
        reason: seq![],
        evidence: seq![],
        state: FailureState::Active,
    }
}

pub open spec fn get_record(bytes: Seq<u8>) -> Result<
    (FailureRecordView, Seq<u8>),
    FailureMemoryErrorView,
> {
    match get_u64(bytes) {
        None => at_end(),
        Some((id, rest)) => match get_u64(rest) {
            None => at_end(),
            Some((agent_id, rest)) => match get_task(rest) {
                Err(error) => Err(error),
                Ok((task_id, rest)) => get_record_texts(record_head(id, agent_id, task_id), rest),
            },
        },
    }
}

pub open spec fn get_transition(bytes: Seq<u8>) -> Result<
    (FailureTransitionView, Seq<u8>),
    FailureMemoryErrorView,
> {
    match get_u8(bytes) {
        None => at_end(),
        Some((tag, rest)) => if tag == 0 {
            match get_record(rest) {
                Err(error) => Err(error),
                Ok((record, rest)) => Ok((FailureTransitionView::Recorded { record }, rest)),
            }
        } else if tag == 1 {
            match get_u64(rest) {
                None => at_end(),
                Some((id, rest)) => Ok(
                    (FailureTransitionView::Resolved { failure_id: FailureId(id) }, rest),
                ),
            }
        } else {
            Err(
                FailureMemoryErrorView::InvalidEncoding(
                    "unknown transition tag "@ + decimal(tag as nat),
                ),
            )
        },
    }
}

/// What a whole encoded transition means, or why it means nothing.
pub open spec fn decoded(version: u16, bytes: Seq<u8>) -> Result<
    FailureTransitionView,
    FailureMemoryErrorView,
> {
    if version != FAILURE_MEMORY_SCHEMA_VERSION {
        Err(FailureMemoryErrorView::UnsupportedVersion(version))
    } else if bytes.len() > MAX_PAYLOAD_BYTES {
        Err(
            FailureMemoryErrorView::TooLarge {
                actual: bytes.len() as usize,
                maximum: MAX_PAYLOAD_BYTES,
            },
        )
    } else {
        match get_transition(bytes) {
            Err(error) => Err(error),
            Ok((transition, rest)) => if rest.len() != 0 {
                Err(FailureMemoryErrorView::InvalidEncoding("trailing bytes"@))
            } else {
                Ok(transition)
            },
        }
    }
}

/// Encodes a transition, once its record has been checked.
pub fn encode_transition(transition: &FailureTransition) -> (result: Result<
    Vec<u8>,
    FailureMemoryError,
>)
    ensures
        outcome(result) == encoded(transition@),
{
    broadcast use concat_is_associative;
    let mut out: Vec<u8> = Vec::new();
    match transition {
        FailureTransition::Recorded { record } => {
            record.check_recordable()?;
            proof {
                checked_texts_fit("failure evidence"@, record@.evidence);
            }
            put_u8(&mut out, 0);
            put_u64(&mut out, record.id.value());
            put_u64(&mut out, record.agent_id.value());
            let task: Option<u64> = match record.task_id {
                Some(id) => Some(id.value()),
                None => None,
            };
            put_optional_u64(&mut out, task);
            put_text(&mut out, record.fingerprint.as_str());
            put_text(&mut out, record.approach.as_str());
            put_text(&mut out, record.reason.as_str());
            put_text_list(&mut out, &record.evidence);
        },
        FailureTransition::Resolved { failure_id } => {
            put_u8(&mut out, 1);
            put_u64(&mut out, failure_id.value());
        },
    }
    assert(out@ =~= transition_bytes(transition@));
    let length: usize = out.len();
    if length > MAX_PAYLOAD_BYTES {
        return Err(FailureMemoryError::TooLarge { actual: length, maximum: MAX_PAYLOAD_BYTES });
    }
    Ok(out)
}

fn read_task(reader: &mut Reader) -> (result: Result<Option<TaskId>, FailureMemoryError>)
    ensures
        match get_task(old(reader).left()) {
            Ok((task, left)) => result is Ok && result->Ok_0 == task && final(reader).left()
                == left,
            Err(error) => result is Err && result->Err_0@ == error,
        },
{
    let Some(tag) = reader.u8() else {
        return Err(unexpected_end());
    };
    match tag {
        0 => Ok(None),
        1 => {
            let Some(id) = reader.u64() else {
                return Err(unexpected_end());
            };
            Ok(Some(TaskId::from_u64(id)))
        },
        _ => Err(FailureMemoryError::InvalidEncoding("unknown task-id tag".to_owned())),
    }
}

fn read_record(reader: &mut Reader) -> (result: Result<FailureRecord, FailureMemoryError>)
    ensures
        parsed(outcome(result), final(reader).left(), get_record(old(reader).left())),
{
    let Some(id) = reader.u64() else {
        return Err(unexpected_end());
    };
    let Some(agent_id) = reader.u64() else {
        return Err(unexpected_end());
    };
    let task_id = read_task(reader)?;
    let fingerprint = read_text(reader)?;
    let approach = read_text(reader)?;
    let reason = read_text(reader)?;
    let evidence = read_text_list(reader)?;
    Ok(
        FailureRecord {
            id: FailureId::from_u64(id),
            agent_id: AgentId::from_u64(agent_id),
            task_id,
            fingerprint,
            approach,
            reason,
            evidence,
            state: FailureState::Active,
        },
    )
}

/// Decodes a transition. The texts of a record are checked when the
/// transition is applied.
pub fn decode_transition(version: u16, bytes: &[u8]) -> (result: Result<
    FailureTransition,
    FailureMemoryError,
>)
    ensures
        outcome(result) == decoded(version, bytes@),
{
    if version != FAILURE_MEMORY_SCHEMA_VERSION {
        return Err(FailureMemoryError::UnsupportedVersion(version));
    }
    let length: usize = bytes.len();
    if length > MAX_PAYLOAD_BYTES {
        return Err(FailureMemoryError::TooLarge { actual: length, maximum: MAX_PAYLOAD_BYTES });
    }
    let mut reader = Reader::new(bytes);
    let Some(tag) = reader.u8() else {
        return Err(unexpected_end());
    };
    let transition = match tag {
        0 => FailureTransition::Recorded { record: read_record(&mut reader)? },
        1 => {
            let Some(id) = reader.u64() else {
                return Err(unexpected_end());
            };
            FailureTransition::Resolved { failure_id: FailureId::from_u64(id) }
        },
        _ => {
            return Err(
                FailureMemoryError::InvalidEncoding(
                    numbered("unknown transition tag ", tag as u128),
                ),
            );
        },
    };
    if !reader.is_done() {
        return Err(FailureMemoryError::InvalidEncoding("trailing bytes".to_owned()));
    }
    Ok(transition)
}

proof fn record_reads_back(record: FailureRecordView)
    requires
        recordable(record) is Ok,
    ensures
        get_record(record_bytes(record)) == Ok::<_, FailureMemoryErrorView>(
            (record, Seq::<u8>::empty()),
        ),
{
    let empty = Seq::<u8>::empty();
    let f = text_list_bytes(record.evidence) + empty;
    let e = text_bytes(record.reason) + f;
    let d = text_bytes(record.approach) + e;
    let c = text_bytes(record.fingerprint) + d;
    let task = optional_u64_bytes(task_value(record.task_id));
    let b = task + c;
    let a = u64_bytes(record.agent_id.0) + b;
    assert(record_bytes(record) == u64_bytes(record.id.0) + a) by {
        let bytes = record_bytes(record);
        assert(bytes =~= bytes + empty);
        regroup_record(
            u64_bytes(record.id.0),
            u64_bytes(record.agent_id.0),
            task,
            text_bytes(record.fingerprint),
            text_bytes(record.approach),
            text_bytes(record.reason),
            text_list_bytes(record.evidence),
            empty,
        );
    }
    get_u64_of_bytes(record.id.0, a);
    get_u64_of_bytes(record.agent_id.0, b);
    match record.task_id {
        Some(id) => {
            regroup1(u8_bytes(1), u64_bytes(id.0), c);
            get_u8_of_bytes(1, u64_bytes(id.0) + c);
            get_u64_of_bytes(id.0, c);
        },
        None => {
            get_u8_of_bytes(0, c);
        },
    }
    text_reads_back(record.fingerprint, d);
    text_reads_back(record.approach, e);
    text_reads_back(record.reason, f);
    checked_texts_fit("failure evidence"@, record.evidence);
    text_list_reads_back(record.evidence, empty);
}

proof fn regroup_record(
    a: Seq<u8>,
    b: Seq<u8>,
    c: Seq<u8>,
    d: Seq<u8>,
    e: Seq<u8>,
    f: Seq<u8>,
    g: Seq<u8>,
    rest: Seq<u8>,
)
    ensures
        a + b + c + d + e + f + g + rest == a + (b + (c + (d + (e + (f + (g + rest)))))),
{
    assert(a + b + c + d + e + f + g + rest =~= a + (b + (c + (d + (e + (f + (g + rest)))))));
}

/// Decoding gives back every transition that can be encoded.
pub proof fn decoding_inverts_encoding(transition: FailureTransitionView)
    requires
        encoded(transition) is Ok,
    ensures
        decoded(FAILURE_MEMORY_SCHEMA_VERSION, encoded(transition)->Ok_0) == Ok::<
            FailureTransitionView,
            FailureMemoryErrorView,
        >(transition),
{
    match transition {
        FailureTransitionView::Recorded { record } => {
            get_u8_of_bytes(0, record_bytes(record));
            record_reads_back(record);
        },
        FailureTransitionView::Resolved { failure_id } => {
            let empty = Seq::<u8>::empty();
            get_u8_of_bytes(1, u64_bytes(failure_id.0));
            assert(u64_bytes(failure_id.0) + empty =~= u64_bytes(failure_id.0));
            get_u64_of_bytes(failure_id.0, empty);
        },
    }
}

// ---------------------------------------------------------------------------
// The memory.

/// The failures that were recorded, by identity.
#[derive(Debug, PartialEq, Eq)]
pub struct FailureMemory {
    records: Table<FailureId, FailureRecord>,
}

impl View for FailureMemory {
    type V = Map<FailureId, FailureRecordView>;

    closed spec fn view(&self) -> Map<FailureId, FailureRecordView> {
        self.records@
    }
}

/// The memory after a transition, or why the transition is refused.
pub open spec fn applied(
    memory: Map<FailureId, FailureRecordView>,
    transition: FailureTransitionView,
) -> Result<Map<FailureId, FailureRecordView>, FailureMemoryErrorView> {
    match transition {
        FailureTransitionView::Recorded { record } => match recordable(record) {
            Err(error) => Err(error),
            Ok(_) => if memory.contains_key(record.id) {
                Err(FailureMemoryErrorView::Duplicate(record.id))
            } else {
                Ok(memory.insert(record.id, record))
            },
        },
        FailureTransitionView::Resolved { failure_id } => if !memory.contains_key(failure_id) {
            Err(FailureMemoryErrorView::Unknown(failure_id))
        } else if memory[failure_id].state == FailureState::Resolved {
            Err(FailureMemoryErrorView::AlreadyResolved(failure_id))
        } else {
            Ok(
                memory.insert(
                    failure_id,
                    FailureRecordView { state: FailureState::Resolved, ..memory[failure_id] },
                ),
            )
        },
    }
}

/// What one event does to the memory; events of other kinds do nothing.
pub open spec fn event_applied(
    memory: Map<FailureId, FailureRecordView>,
    event: EventView,
) -> Result<Map<FailureId, FailureRecordView>, FailureMemoryErrorView> {
    match event.kind {
        EventKindView::FailureMemoryTransition { version, payload } => match decoded(
            version,
            payload,
        ) {
            Err(error) => Err(error),
            Ok(transition) => applied(memory, transition),
        },
        _ => Ok(memory),
    }
}

/// The memory that a history adds up to, or the first refusal.
pub open spec fn replayed(events: Seq<EventView>) -> Result<
    Map<FailureId, FailureRecordView>,
    FailureMemoryErrorView,
>
    decreases events.len(),
{
    if events.len() == 0 {
        Ok(Map::empty())
    } else {
        match replayed(events.drop_last()) {
            Err(error) => Err(error),
            Ok(memory) => event_applied(memory, events.last()),
        }
    }
}

/// Once an event is refused, later events do not matter.
proof fn refused_replay_stays(events: Seq<EventView>, count: int)
    requires
        0 <= count <= events.len(),
        replayed(events.take(count)) is Err,
    ensures
        replayed(events) == replayed(events.take(count)),
    decreases events.len() - count,
{
    if count == events.len() {
        assert(events.take(count) =~= events);
    } else {
        assert(events.take(count + 1).drop_last() =~= events.take(count));
        refused_replay_stays(events, count + 1);
    }
}

/// The records of a list with a fingerprint, in order.
pub open spec fn with_fingerprint(
    records: Seq<FailureRecord>,
    fingerprint: Seq<char>,
) -> Seq<FailureRecord>
    decreases records.len(),
{
    if records.len() == 0 {
        seq![]
    } else if records.last().fingerprint@ == fingerprint {
        with_fingerprint(records.drop_last(), fingerprint).push(records.last())
    } else {
        with_fingerprint(records.drop_last(), fingerprint)
    }
}

/// The active records of a list, in order.
pub open spec fn active_among(records: Seq<FailureRecord>) -> Seq<FailureRecord>
    decreases records.len(),
{
    if records.len() == 0 {
        seq![]
    } else if records.last().state == FailureState::Active {
        active_among(records.drop_last()).push(records.last())
    } else {
        active_among(records.drop_last())
    }
}

/// What a list of references refers to.
pub open spec fn referred(list: Seq<&FailureRecord>) -> Seq<FailureRecord> {
    list.map_values(|record: &FailureRecord| *record)
}

impl Clone for FailureMemory {
    fn clone(&self) -> (copy: FailureMemory)
        ensures
            copy@ == self@,
    {
        FailureMemory { records: self.records.clone() }
    }
}

impl FailureMemory {
    /// The records in identity order.
    pub closed spec fn listed(&self) -> Seq<FailureRecord> {
        self.records.values()
    }

    pub fn new() -> (memory: FailureMemory)
        ensures
            memory@ == Map::<FailureId, FailureRecordView>::empty(),
    {
        FailureMemory { records: Table::new() }
    }

    pub fn records(&self) -> (records: &Table<FailureId, FailureRecord>)
        ensures
            records@ == self@,
            records.values() == self.listed(),
    {
        &self.records
    }

    pub fn active_records(&self) -> (records: Vec<&FailureRecord>)
        ensures
            referred(records@) == active_among(self.listed()),
    {
        let mut found: Vec<&FailureRecord> = Vec::new();
        let mut index: usize = 0;
        let length: usize = self.records.len();
        assert(referred(found@) =~= active_among(self.listed().take(0)));
        while index < length
            invariant
                length == self.records.keys().len(),
                self.records.well_formed(),
                index <= length,
                referred(found@) == active_among(self.listed().take(index as int)),
            decreases length - index,
        {
            let record = self.records.value_at(index);
            proof {
                let next = self.listed().take(index + 1);
                assert(next.drop_last() =~= self.listed().take(index as int));
                assert(next.last() == *record);
            }
            if record.state == FailureState::Active {
                let ghost before = found@;
                found.push(record);
                assert(referred(found@) =~= referred(before).push(*record));
            }
            index += 1;
        }
        assert(self.listed().take(length as int) =~= self.listed());
        found
    }

    pub fn matching_fingerprint(&self, fingerprint: &str) -> (records: Vec<&FailureRecord>)
        ensures
            referred(records@) == with_fingerprint(self.listed(), fingerprint@),
    {
        let wanted = fingerprint.to_owned();
        let mut found: Vec<&FailureRecord> = Vec::new();
        let mut index: usize = 0;
        let length: usize = self.records.len();
        assert(referred(found@) =~= with_fingerprint(self.listed().take(0), fingerprint@));
        while index < length
            invariant
                wanted@ == fingerprint@,
                length == self.records.keys().len(),
                self.records.well_formed(),
                index <= length,
                referred(found@) == with_fingerprint(
                    self.listed().take(index as int),
                    fingerprint@,
                ),
            decreases length - index,
        {
            let record = self.records.value_at(index);
            proof {
                let next = self.listed().take(index + 1);
                assert(next.drop_last() =~= self.listed().take(index as int));
                assert(next.last() == *record);
            }
            if record.fingerprint == wanted {
                let ghost before = found@;
                found.push(record);
                assert(referred(found@) =~= referred(before).push(*record));
            }
            index += 1;
        }
        assert(self.listed().take(length as int) =~= self.listed());
        found
    }

    /// An approach with this fingerprint was tried, whether resolved or not.
    pub fn has_attempted(&self, fingerprint: &str) -> (attempted: bool)
        ensures
            attempted == exists|id: FailureId|
                self@.contains_key(id) && (#[trigger] self@[id]).fingerprint == fingerprint@,
    {
        let wanted = fingerprint.to_owned();
        let mut index: usize = 0;
        let length: usize = self.records.len();
        while index < length
            invariant
                wanted@ == fingerprint@,
                length == self.records.keys().len(),
                self.records.well_formed(),
                index <= length,
                forall|i: int|
                    0 <= i < index ==> (#[trigger] self.records.values()[i]).fingerprint@
                        != fingerprint@,
            decreases length - index,
        {
            let record = self.records.value_at(index);
            if record.fingerprint == wanted {
                assert(self@[self.records.keys()[index as int]].fingerprint == fingerprint@);
                return true;
            }
            index += 1;
        }
        proof {
            assert forall|id: FailureId| self@.contains_key(id) implies (
            #[trigger] self@[id]).fingerprint != fingerprint@ by {
                let i = crate::table::map_entry_has_index(
                    self.records.keys(),
                    self.records.values(),
                    id,
                );
                assert(self.records.values()[i]@ == self@[id]);
            }
        }
        false
    }

    /// Applies a transition. A refused transition changes nothing.
    pub fn apply(&mut self, transition: &FailureTransition) -> (result: Result<
        (),
        FailureMemoryError,
    >)
        ensures
            match applied(old(self)@, transition@) {
                Ok(next) => result is Ok && final(self)@ == next,
                Err(error) => result is Err && result->Err_0@ == error && final(self)@
                    == old(self)@,
            },
    {
        match transition {
            FailureTransition::Recorded { record } => {
                record.check_recordable()?;
                if self.records.contains_key(&record.id) {
                    return Err(FailureMemoryError::Duplicate(record.id));
                }
                self.records.insert(record.id, record.duplicate());
            },
            FailureTransition::Resolved { failure_id } => {
                let ghost before = self.records@;
                let Some(record) = self.records.get_mut(failure_id) else {
                    return Err(FailureMemoryError::Unknown(*failure_id));
                };
                if record.state == FailureState::Resolved {
                    assert(before.insert(*failure_id, record@) =~= before);
                    return Err(FailureMemoryError::AlreadyResolved(*failure_id));
                }
                record.state = FailureState::Resolved;
            },
        }
        Ok(())
    }

    /// Rebuilds the memory from a history.
    pub fn from_events(events: &[Event]) -> (result: Result<FailureMemory, FailureMemoryError>)
        ensures
            outcome(result) == replayed(event_views(events@)),
    {
        let mut memory = FailureMemory::new();
        let ghost views = event_views(events@);
        let mut index: usize = 0;
        assert(views.take(0) =~= Seq::<EventView>::empty());
        while index < events.len()
            invariant
                index <= events@.len(),
                views == event_views(events@),
                replayed(views.take(index as int)) == Ok::<
                    Map<FailureId, FailureRecordView>,
                    FailureMemoryErrorView,
                >(memory@),
            decreases events.len() - index,
        {
            let event = &events[index];
            proof {
                let next = views.take(index + 1);
                assert(next.drop_last() =~= views.take(index as int));
                assert(next.last() == event@);
                if replayed(next) is Err {
                    refused_replay_stays(views, index + 1);
                }
            }
            if let EventKind::FailureMemoryTransition { version, payload } = &event.kind {
                let transition = decode_transition(*version, payload.as_slice())?;
                memory.apply(&transition)?;
            }
            index += 1;
        }
        assert(views.take(views.len() as int) =~= views);
        Ok(memory)
    }
}

impl Default for FailureMemory {
    fn default() -> (memory: FailureMemory)
        ensures
            memory@ == Map::<FailureId, FailureRecordView>::empty(),
    {
        FailureMemory::new()
    }
}

// ---------------------------------------------------------------------------
// Laws of the memory.

/// A failure that was recorded is never forgotten: later transitions keep
/// every record, and change at most its state, from active to resolved.
pub proof fn failures_are_remembered(
    memory: Map<FailureId, FailureRecordView>,
    transition: FailureTransitionView,
    id: FailureId,
)
    requires
        memory.contains_key(id),
        applied(memory, transition) is Ok,
    ensures
        applied(memory, transition)->Ok_0.contains_key(id),
        ({
            let after = applied(memory, transition)->Ok_0[id];
            after == memory[id] || (memory[id].state == FailureState::Active && after == (
            FailureRecordView { state: FailureState::Resolved, ..memory[id] }))
        }),
{
}

/// Once resolved, a failure cannot be resolved or recorded again.
pub proof fn failures_resolve_once(
    memory: Map<FailureId, FailureRecordView>,
    id: FailureId,
    record: FailureRecordView,
)
    requires
        memory.contains_key(id),
        memory[id].state == FailureState::Resolved,
        record.id == id,
    ensures
        applied(memory, FailureTransitionView::Resolved { failure_id: id }) is Err,
        applied(memory, FailureTransitionView::Recorded { record }) is Err,
{
}

} // verus!
