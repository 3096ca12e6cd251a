//! Typed, bounded communication between logical agents.
//!
//! A message carries references and structured claims rather than copies of
//! agent transcripts. The runtime persists envelopes as versioned opaque
//! events and owns authorization; this module owns message shape and bounded
//! in-process delivery.

use std::collections::VecDeque;

use vstd::prelude::*;
use vstd::string::StringExecFns;
use vstd::utf8::encode_utf8;

use crate::codec::{
    blob32_bytes, concat_is_associative, get_bytes, get_u16, get_u16_of_bytes, get_u32, get_u64,
    get_u64_of_bytes, get_u8, get_u8_of_bytes, group_codec, outcome, parsed, put_bytes,
    put_optional_u64, put_u16, put_u32, put_u64, put_u8, optional_u64_bytes, regroup1, regroup2,
    regroup3, regroup4, text_from, text_of, u16_bytes, u32_bytes, u64_bytes, u8_bytes, Reader,
};
use crate::ids::{id_text, AgentId, EventId, IdSource, MessageId, RunId, TaskId};
use crate::kernel::{
    combine_all, combined_all, origin_byte, origin_for_tag, origin_of_byte, origin_tag, TrustOrigin,
};
use crate::state::phrase;
use crate::text::{blank, decimal, is_blank, numbered, push_decimal, texts, clone_texts};

verus! {

pub const LEGACY_IPC_SCHEMA_VERSION: u16 = 1;

pub const IPC_SCHEMA_VERSION: u16 = 2;

pub const DEFAULT_MAILBOX_CAPACITY: usize = 64;

/// Reserved sender identity for messages that the runtime itself sends.
pub const RUNTIME_AGENT_ID: u64 = 0;

pub const MAX_ENVELOPE_BYTES: usize = 1048576;

pub const MAX_STRING_BYTES: usize = 65536;

pub const MAX_LIST_ITEMS: usize = 64;

pub const MAX_CAUSAL_EVENTS: usize = 32;

pub const MAX_INPUT_ORIGINS: usize = 32;

// ---------------------------------------------------------------------------
// Envelopes and their views.

#[derive(Debug, PartialEq, Eq)]
pub enum IpcProvenance {
    Runtime,
    Agent,
    User,
    External { source: String },
    RemoteAgent { source: String },
    WebUntrusted { source: String },
    McpMetadata { source: String },
    McpResult { source: String },
    TrustedProject,
}

pub enum IpcProvenanceView {
    Runtime,
    Agent,
    User,
    External { source: Seq<char> },
    RemoteAgent { source: Seq<char> },
    WebUntrusted { source: Seq<char> },
    McpMetadata { source: Seq<char> },
    McpResult { source: Seq<char> },
    TrustedProject,
}

impl View for IpcProvenance {
    type V = IpcProvenanceView;

    open spec fn view(&self) -> IpcProvenanceView {
        match *self {
            IpcProvenance::Runtime => IpcProvenanceView::Runtime,
            IpcProvenance::Agent => IpcProvenanceView::Agent,
            IpcProvenance::User => IpcProvenanceView::User,
            IpcProvenance::External { source } => IpcProvenanceView::External { source: source@ },
            IpcProvenance::RemoteAgent { source } => IpcProvenanceView::RemoteAgent {
                source: source@,
            },
            IpcProvenance::WebUntrusted { source } => IpcProvenanceView::WebUntrusted {
                source: source@,
            },
            IpcProvenance::McpMetadata { source } => IpcProvenanceView::McpMetadata {
                source: source@,
            },
            IpcProvenance::McpResult { source } => IpcProvenanceView::McpResult {
                source: source@,
            },
            IpcProvenance::TrustedProject => IpcProvenanceView::TrustedProject,
        }
    }
}

impl IpcProvenanceView {
    pub open spec fn origin(self) -> TrustOrigin {
        match self {
            IpcProvenanceView::Runtime => TrustOrigin::Runtime,
            IpcProvenanceView::Agent => TrustOrigin::Generated,
            IpcProvenanceView::User => TrustOrigin::UserProvided,
            IpcProvenanceView::External { .. } => TrustOrigin::External,
            IpcProvenanceView::RemoteAgent { .. } => TrustOrigin::RemoteAgent,
            IpcProvenanceView::WebUntrusted { .. } => TrustOrigin::WebUntrusted,
            IpcProvenanceView::McpMetadata { .. } => TrustOrigin::McpMetadata,
            IpcProvenanceView::McpResult { .. } => TrustOrigin::McpResult,
            IpcProvenanceView::TrustedProject => TrustOrigin::TrustedProject,
        }
    }

    /// The source that an outside provenance names.
    pub open spec fn source(self) -> Option<Seq<char>> {
        match self {
            IpcProvenanceView::External { source } => Some(source),
            IpcProvenanceView::RemoteAgent { source } => Some(source),
            IpcProvenanceView::WebUntrusted { source } => Some(source),
            IpcProvenanceView::McpMetadata { source } => Some(source),
            IpcProvenanceView::McpResult { source } => Some(source),
            _ => None,
        }
    }

    pub open spec fn tag(self) -> u8 {
        match self {
            IpcProvenanceView::Runtime => 0,
            IpcProvenanceView::Agent => 1,
            IpcProvenanceView::User => 2,
            IpcProvenanceView::External { .. } => 3,
            IpcProvenanceView::RemoteAgent { .. } => 4,
            IpcProvenanceView::WebUntrusted { .. } => 5,
            IpcProvenanceView::McpMetadata { .. } => 6,
            IpcProvenanceView::McpResult { .. } => 7,
            IpcProvenanceView::TrustedProject => 8,
        }
    }
}

impl IpcProvenance {
    pub fn trust_origin(&self) -> (origin: TrustOrigin)
        ensures
            origin == self@.origin(),
    {
        match self {
            IpcProvenance::Runtime => TrustOrigin::Runtime,
            IpcProvenance::Agent => TrustOrigin::Generated,
            IpcProvenance::User => TrustOrigin::UserProvided,
            IpcProvenance::External { .. } => TrustOrigin::External,
            IpcProvenance::RemoteAgent { .. } => TrustOrigin::RemoteAgent,
            IpcProvenance::WebUntrusted { .. } => TrustOrigin::WebUntrusted,
            IpcProvenance::McpMetadata { .. } => TrustOrigin::McpMetadata,
            IpcProvenance::McpResult { .. } => TrustOrigin::McpResult,
            IpcProvenance::TrustedProject => TrustOrigin::TrustedProject,
        }
    }

    fn source_text(&self) -> (source: Option<&String>)
        ensures
            match source {
                Some(source) => self@.source() == Some(source@),
                None => self@.source() is None,
            },
    {
        match self {
            IpcProvenance::External { source } => Some(source),
            IpcProvenance::RemoteAgent { source } => Some(source),
            IpcProvenance::WebUntrusted { source } => Some(source),
            IpcProvenance::McpMetadata { source } => Some(source),
            IpcProvenance::McpResult { source } => Some(source),
            _ => None,
        }
    }

    fn wire_tag(&self) -> (tag: u8)
        ensures
            tag == self@.tag(),
    {
        match self {
            IpcProvenance::Runtime => 0,
            IpcProvenance::Agent => 1,
            IpcProvenance::User => 2,
            IpcProvenance::External { .. } => 3,
            IpcProvenance::RemoteAgent { .. } => 4,
            IpcProvenance::WebUntrusted { .. } => 5,
            IpcProvenance::McpMetadata { .. } => 6,
            IpcProvenance::McpResult { .. } => 7,
            IpcProvenance::TrustedProject => 8,
        }
    }
}

#[allow(inconsistent_fields)]
#[derive(Debug, PartialEq, Eq)]
pub enum IpcMessage {
    Question { subject: String, why: String },
    Answer { subject: String, value: String, revision: Option<String>, evidence: Vec<String> },
    Assumption { subject: String, normalized_value: String, claim: String, evidence: Vec<String> },
    Decision { subject: String, value: String, rationale: String },
    Conflict { subject: String, left: String, right: String, affected: Vec<String> },
    Blocked { reason: String },
    Progress { summary: String, completed_millis: u16 },
    Artifact { reference: String, description: String },
    ReviewRequest { subject: String, instructions: String },
    Warning { subject: String, message: String },
    Handoff { summary: String },
    ContractUpdate { subject: String, revision: String, value: String },
    OwnershipRequest { resource: String, reason: String },
}

#[allow(inconsistent_fields)]
pub enum IpcMessageView {
    Question { subject: Seq<char>, why: Seq<char> },
    Answer {
        subject: Seq<char>,
        value: Seq<char>,
        revision: Option<Seq<char>>,
        evidence: Seq<Seq<char>>,
    },
    Assumption {
        subject: Seq<char>,
        normalized_value: Seq<char>,
        claim: Seq<char>,
        evidence: Seq<Seq<char>>,
    },
    Decision { subject: Seq<char>, value: Seq<char>, rationale: Seq<char> },
    Conflict { subject: Seq<char>, left: Seq<char>, right: Seq<char>, affected: Seq<Seq<char>> },
    Blocked { reason: Seq<char> },
    Progress { summary: Seq<char>, completed_millis: u16 },
    Artifact { reference: Seq<char>, description: Seq<char> },
    ReviewRequest { subject: Seq<char>, instructions: Seq<char> },
    Warning { subject: Seq<char>, message: Seq<char> },
    Handoff { summary: Seq<char> },
    ContractUpdate { subject: Seq<char>, revision: Seq<char>, value: Seq<char> },
    OwnershipRequest { resource: Seq<char>, reason: Seq<char> },
}

pub open spec fn optional_text(value: Option<String>) -> Option<Seq<char>> {
    match value {
        Some(text) => Some(text@),
        None => None,
    }
}

impl View for IpcMessage {
    type V = IpcMessageView;

    open spec fn view(&self) -> IpcMessageView {
        match *self {
            IpcMessage::Question { subject, why } => IpcMessageView::Question {
                subject: subject@,
                why: why@,
            },
            IpcMessage::Answer { subject, value, revision, evidence } => IpcMessageView::Answer {
                subject: subject@,
                value: value@,
                revision: optional_text(revision),
                evidence: texts(evidence@),
            },
            IpcMessage::Assumption { subject, normalized_value, claim, evidence } => IpcMessageView::Assumption {
                subject: subject@,
                normalized_value: normalized_value@,
                claim: claim@,
                evidence: texts(evidence@),
            },
            IpcMessage::Decision { subject, value, rationale } => IpcMessageView::Decision {
                subject: subject@,
                value: value@,
                rationale: rationale@,
            },
            IpcMessage::Conflict { subject, left, right, affected } => IpcMessageView::Conflict {
                subject: subject@,
                left: left@,
                right: right@,
                affected: texts(affected@),
            },
            IpcMessage::Blocked { reason } => IpcMessageView::Blocked {
                reason: reason@,
            },
            IpcMessage::Progress { summary, completed_millis } => IpcMessageView::Progress {
                summary: summary@,
                completed_millis,
            },
            IpcMessage::Artifact { reference, description } => IpcMessageView::Artifact {
                reference: reference@,
                description: description@,
            },
            IpcMessage::ReviewRequest { subject, instructions } => IpcMessageView::ReviewRequest {
                subject: subject@,
                instructions: instructions@,
            },
            IpcMessage::Warning { subject, message } => IpcMessageView::Warning {
                subject: subject@,
                message: message@,
            },
            IpcMessage::Handoff { summary } => IpcMessageView::Handoff {
                summary: summary@,
            },
            IpcMessage::ContractUpdate { subject, revision, value } => IpcMessageView::ContractUpdate {
                subject: subject@,
                revision: revision@,
                value: value@,
            },
            IpcMessage::OwnershipRequest { resource, reason } => IpcMessageView::OwnershipRequest {
                resource: resource@,
                reason: reason@,
            },
        }
    }
}

#[derive(Debug, PartialEq, Eq)]
pub struct IpcEnvelope {
    pub id: MessageId,
    pub run_id: RunId,
    pub task_id: Option<TaskId>,
    pub sender: AgentId,
    pub recipient: AgentId,
    pub causal_event_ids: Vec<EventId>,
    pub provenance: IpcProvenance,
    pub input_origins: Vec<TrustOrigin>,
    pub payload: IpcMessage,
}

pub struct IpcEnvelopeView {
    pub id: MessageId,
    pub run_id: RunId,
    pub task_id: Option<TaskId>,
    pub sender: AgentId,
    pub recipient: AgentId,
    pub causal_event_ids: Seq<EventId>,
    pub provenance: IpcProvenanceView,
    pub input_origins: Seq<TrustOrigin>,
    pub payload: IpcMessageView,
}

impl View for IpcEnvelope {
    type V = IpcEnvelopeView;

    open spec fn view(&self) -> IpcEnvelopeView {
        IpcEnvelopeView {
            id: self.id,
            run_id: self.run_id,
            task_id: self.task_id,
            sender: self.sender,
            recipient: self.recipient,
            causal_event_ids: self.causal_event_ids@,
            provenance: self.provenance@,
            input_origins: self.input_origins@,
            payload: self.payload@,
        }
    }
}

#[derive(Clone, Debug, PartialEq, Eq)]
pub enum IpcError {
    Invalid(String),
    InvalidEncoding(String),
    UnsupportedVersion(u16),
    TooLarge { actual: usize, maximum: usize },
    MailboxCapacityZero,
    MailboxFull { recipient: AgentId },
}

pub enum IpcErrorView {
    Invalid(Seq<char>),
    InvalidEncoding(Seq<char>),
    UnsupportedVersion(u16),
    TooLarge { actual: usize, maximum: usize },
    MailboxCapacityZero,
    MailboxFull { recipient: AgentId },
}

impl View for IpcError {
    type V = IpcErrorView;

    open spec fn view(&self) -> IpcErrorView {
        match *self {
            IpcError::Invalid(message) => IpcErrorView::Invalid(message@),
            IpcError::InvalidEncoding(message) => IpcErrorView::InvalidEncoding(message@),
            IpcError::UnsupportedVersion(version) => IpcErrorView::UnsupportedVersion(version),
            IpcError::TooLarge { actual, maximum } => IpcErrorView::TooLarge { actual, maximum },
            IpcError::MailboxCapacityZero => IpcErrorView::MailboxCapacityZero,
            IpcError::MailboxFull { recipient } => IpcErrorView::MailboxFull { recipient },
        }
    }
}

impl IpcErrorView {
    pub open spec fn text(self) -> Seq<char> {
        match self {
            IpcErrorView::Invalid(message) => "invalid IPC envelope: "@ + message,
            IpcErrorView::InvalidEncoding(message) => "invalid IPC encoding: "@ + message,
            IpcErrorView::UnsupportedVersion(version) => "unsupported IPC schema version "@
                + decimal(version as nat),
            IpcErrorView::TooLarge { actual, maximum } => "IPC payload is "@ + decimal(
                actual as nat,
            ) + " bytes, maximum is "@ + decimal(maximum as nat),
            IpcErrorView::MailboxCapacityZero => "mailbox capacity must be greater than zero"@,
            IpcErrorView::MailboxFull { recipient } => "mailbox for "@ + id_text(
                "agent"@,
                recipient.0,
            ) + " is full"@,
        }
    }
}

impl IpcError {
    pub fn to_text(&self) -> (text: String)
        ensures
            text@ == self@.text(),
    {
        match self {
            IpcError::Invalid(message) => {
                let mut out = "invalid IPC envelope: ".to_owned();
                out.append(message.as_str());
                out
            },
            IpcError::InvalidEncoding(message) => {
                let mut out = "invalid IPC encoding: ".to_owned();
                out.append(message.as_str());
                out
            },
            IpcError::UnsupportedVersion(version) => numbered(
                "unsupported IPC schema version ",
                *version as u128,
            ),
            IpcError::TooLarge { actual, maximum } => {
                let mut out = numbered("IPC payload is ", *actual as u128);
                out.append(" bytes, maximum is ");
                push_decimal(&mut out, *maximum as u128);
                out
            },
            IpcError::MailboxCapacityZero =>
                "mailbox capacity must be greater than zero".to_owned(),
            IpcError::MailboxFull { recipient } => phrase(
                "mailbox for ",
                recipient.to_text().as_str(),
                " is full",
            ),
        }
    }
}

// ---------------------------------------------------------------------------
// Validity.

pub open spec fn text_check(field: Seq<char>, value: Seq<char>) -> Result<(), IpcErrorView> {
    if blank(value) {
        Err(IpcErrorView::Invalid(field + " must not be empty"@))
    } else if encode_utf8(value).len() > MAX_STRING_BYTES {
        Err(
            IpcErrorView::TooLarge {
                actual: encode_utf8(value).len() as usize,
                maximum: MAX_STRING_BYTES,
            },
        )
    } else {
        Ok(())
    }
}

pub open spec fn optional_text_check(field: Seq<char>, value: Option<Seq<char>>) -> Result<
    (),
    IpcErrorView,
> {
    match value {
        Some(text) => text_check(field, text),
        None => Ok(()),
    }
}

/// The first text of a list that is not valid decides.
pub open spec fn texts_check(field: Seq<char>, list: Seq<Seq<char>>) -> Result<(), IpcErrorView>
    decreases list.len(),
{
    if list.len() == 0 {
        Ok(())
    } else {
        match texts_check(field, list.drop_last()) {
            Err(error) => Err(error),
            Ok(_) => text_check(field, list.last()),
        }
    }
}

pub open spec fn text_list_check(field: Seq<char>, list: Seq<Seq<char>>) -> Result<
    (),
    IpcErrorView,
> {
    if list.len() > MAX_LIST_ITEMS {
        Err(
            IpcErrorView::Invalid(
                field + " has "@ + decimal(list.len()) + " entries, maximum is "@ + decimal(
                    MAX_LIST_ITEMS as nat,
                ),
            ),
        )
    } else {
        texts_check(field, list)
    }
}

/// The first error of two checks made in order.
pub open spec fn both(first: Result<(), IpcErrorView>, second: Result<(), IpcErrorView>) -> Result<
    (),
    IpcErrorView,
> {
    match first {
        Err(error) => Err(error),
        Ok(_) => second,
    }
}

pub open spec fn message_check(message: IpcMessageView) -> Result<(), IpcErrorView> {
    match message {
        IpcMessageView::Question { subject, why } => both(
            text_check("question subject"@, subject),
            text_check("question why"@, why),
        ),
        IpcMessageView::Answer { subject, value, revision, evidence } => both(
            text_check("answer subject"@, subject),
            both(
            text_check("answer value"@, value),
            both(
            optional_text_check("answer revision"@, revision),
            text_list_check("answer evidence"@, evidence),
        ),
        ),
        ),
        IpcMessageView::Assumption { subject, normalized_value, claim, evidence } => both(
            text_check("assumption subject"@, subject),
            both(
            text_check("assumption normalized value"@, normalized_value),
            both(
            text_check("assumption claim"@, claim),
            text_list_check("assumption evidence"@, evidence),
        ),
        ),
        ),
        IpcMessageView::Decision { subject, value, rationale } => both(
            text_check("decision subject"@, subject),
            both(
            text_check("decision value"@, value),
            text_check("decision rationale"@, rationale),
        ),
        ),
        IpcMessageView::Conflict { subject, left, right, affected } => both(
            text_check("conflict subject"@, subject),
            both(
            text_check("conflict left"@, left),
            both(
            text_check("conflict right"@, right),
            text_list_check("conflict affected"@, affected),
        ),
        ),
        ),
        IpcMessageView::Blocked { reason } => text_check("blocked reason"@, reason),
        IpcMessageView::Progress { summary, completed_millis } => both(
            text_check("progress summary"@, summary),
            if completed_millis > 1000 {
                Err(IpcErrorView::Invalid("progress completed_millis must be at most 1000"@))
            } else {
                Ok(())
            },
        ),
        IpcMessageView::Artifact { reference, description } => both(
            text_check("artifact reference"@, reference),
            text_check("artifact description"@, description),
        ),
        IpcMessageView::ReviewRequest { subject, instructions } => both(
            text_check("review subject"@, subject),
            text_check("review instructions"@, instructions),
        ),
        IpcMessageView::Warning { subject, message } => both(
            text_check("warning subject"@, subject),
            text_check("warning message"@, message),
        ),
        IpcMessageView::Handoff { summary } => text_check("handoff summary"@, summary),
        IpcMessageView::ContractUpdate { subject, revision, value } => both(
            text_check("contract subject"@, subject),
            both(
            text_check("contract revision"@, revision),
            text_check("contract value"@, value),
        ),
        ),
        IpcMessageView::OwnershipRequest { resource, reason } => both(
            text_check("ownership resource"@, resource),
            text_check("ownership reason"@, reason),
        ),
    }
}

pub open spec fn envelope_check(envelope: IpcEnvelopeView) -> Result<(), IpcErrorView> {
    if envelope.causal_event_ids.len() > MAX_CAUSAL_EVENTS {
        Err(IpcErrorView::Invalid("at most 32 causal events are supported"@))
    } else if envelope.input_origins.len() > MAX_INPUT_ORIGINS {
        Err(IpcErrorView::Invalid("at most 32 input origins are supported"@))
    } else {
        both(
            optional_text_check("provenance source"@, envelope.provenance.source()),
            message_check(envelope.payload),
        )
    }
}

fn validate_text(field: &str, value: &str) -> (result: Result<(), IpcError>)
    ensures
        outcome(result) == text_check(field@, value@),
{
    if is_blank(value) {
        let mut message = field.to_owned();
        message.append(" must not be empty");
        return Err(IpcError::Invalid(message));
    }
    let length: usize = value.as_bytes().len();
    if length > MAX_STRING_BYTES {
        return Err(IpcError::TooLarge { actual: length, maximum: MAX_STRING_BYTES });
    }
    Ok(())
}

fn validate_optional_text(field: &str, value: &Option<String>) -> (result: Result<(), IpcError>)
    ensures
        outcome(result) == optional_text_check(field@, optional_text(*value)),
{
    match value {
        Some(text) => validate_text(field, text.as_str()),
        None => Ok(()),
    }
}

/// Once one text of a list fails, later ones do not matter.
proof fn failed_check_stays(field: Seq<char>, list: Seq<Seq<char>>, count: int)
    requires
        0 <= count <= list.len(),
        texts_check(field, list.take(count)) is Err,
    ensures
        texts_check(field, list) == texts_check(field, list.take(count)),
    decreases list.len() - count,
{
    if count == list.len() {
        assert(list.take(count) =~= list);
    } else {
        assert(list.take(count + 1).drop_last() =~= list.take(count));
        failed_check_stays(field, list, count + 1);
    }
}

fn validate_text_list(field: &str, values: &Vec<String>) -> (result: Result<(), IpcError>)
    ensures
        outcome(result) == text_list_check(field@, texts(values@)),
{
    let count: usize = values.len();
    if count > MAX_LIST_ITEMS {
        let mut message = field.to_owned();
        message.append(" has ");
        push_decimal(&mut message, count as u128);
        message.append(" entries, maximum is ");
        push_decimal(&mut message, MAX_LIST_ITEMS as u128);
        return Err(IpcError::Invalid(message));
    }
    let ghost list = texts(values@);
    let mut index: usize = 0;
    assert(list.take(0) =~= Seq::<Seq<char>>::empty());
    while index < values.len()
        invariant
            index <= values@.len(),
            list == texts(values@),
            texts_check(field@, list.take(index as int)) is Ok,
            values@.len() <= MAX_LIST_ITEMS,
        decreases values.len() - index,
    {
        let checked = validate_text(field, values[index].as_str());
        proof {
            let next = list.take(index + 1);
            assert(next.drop_last() =~= list.take(index as int));
            assert(next.last() == values@[index as int]@);
        }
        match checked {
            Ok(_) => {},
            Err(error) => {
                proof {
                    failed_check_stays(field@, list, index + 1);
                }
                return Err(error);
            },
        }
        index += 1;
    }
    assert(list.take(list.len() as int) =~= list);
    Ok(())
}

// ---------------------------------------------------------------------------
// Bounded text.

pub open spec fn at_end<V>() -> Result<(V, Seq<u8>), IpcErrorView> {
    Err(IpcErrorView::InvalidEncoding("unexpected end of IPC payload"@))
}

#[verifier::opaque]
pub open spec fn text_bytes(text: Seq<char>) -> Seq<u8> {
    blob32_bytes(encode_utf8(text))
}

/// The encodings of some texts, one behind the other.
pub open spec fn texts_bytes(list: Seq<Seq<char>>) -> Seq<u8>
    decreases list.len(),
{
    if list.len() == 0 {
        seq![]
    } else {
        texts_bytes(list.drop_last()) + text_bytes(list.last())
    }
}

/// A list of texts behind its length.
pub open spec fn text_list_bytes(list: Seq<Seq<char>>) -> Seq<u8> {
    u16_bytes(list.len() as u16) + texts_bytes(list)
}

pub open spec fn text_fits(text: Seq<char>) -> bool {
    encode_utf8(text).len() <= MAX_STRING_BYTES
}

pub open spec fn text_list_fits(list: Seq<Seq<char>>) -> bool {
    list.len() <= MAX_LIST_ITEMS && forall|i: int|
        0 <= i < list.len() ==> text_fits(#[trigger] list[i])
}

#[verifier::opaque]
pub open spec fn get_text(bytes: Seq<u8>) -> Result<(Seq<char>, Seq<u8>), IpcErrorView> {
    match get_u32(bytes) {
        None => at_end(),
        Some((length, rest)) => if length > MAX_STRING_BYTES {
            Err(IpcErrorView::TooLarge { actual: length as usize, maximum: MAX_STRING_BYTES })
        } else {
            match get_bytes(rest, length as nat) {
                None => at_end(),
                Some((front, rest)) => match text_of(front) {
                    Some(text) => Ok((text, rest)),
                    None => Err(IpcErrorView::InvalidEncoding("string is not UTF-8"@)),
                },
            }
        },
    }
}

/// `count` more texts behind those of `list`.
pub open spec fn get_texts(list: Seq<Seq<char>>, count: nat, bytes: Seq<u8>) -> Result<
    (Seq<Seq<char>>, Seq<u8>),
    IpcErrorView,
>
    decreases count,
{
    if count == 0 {
        Ok((list, bytes))
    } else {
        match get_text(bytes) {
            Err(error) => Err(error),
            Ok((text, rest)) => get_texts(list.push(text), (count - 1) as nat, rest),
        }
    }
}

pub open spec fn get_text_list(bytes: Seq<u8>) -> Result<(Seq<Seq<char>>, Seq<u8>), IpcErrorView> {
    match get_u16(bytes) {
        None => at_end(),
        Some((count, rest)) => if count > MAX_LIST_ITEMS {
            Err(
                IpcErrorView::InvalidEncoding("list count "@ + decimal(count as nat) + " exceeds 64"@),
            )
        } else {
            get_texts(seq![], count as nat, rest)
        },
    }
}

pub broadcast proof fn text_reads_back(text: Seq<char>, rest: Seq<u8>)
    requires
        text_fits(text),
    ensures
        #[trigger] get_text(text_bytes(text) + rest) == Ok::<_, IpcErrorView>((text, rest)),
{
    broadcast use group_codec;

    reveal(text_bytes);
    reveal(get_text);
    reveal(blob32_bytes);
    let bytes = encode_utf8(text);
    assert(blob32_bytes(bytes) + rest == u32_bytes(bytes.len() as u32) + (bytes + rest));
}

proof fn texts_read_back(before: Seq<Seq<char>>, list: Seq<Seq<char>>, more: nat, rest: Seq<u8>)
    requires
        forall|i: int| 0 <= i < list.len() ==> text_fits(#[trigger] list[i]),
    ensures
        get_texts(before, list.len() + more, texts_bytes(list) + rest) == get_texts(
            before + list,
            more,
            rest,
        ),
    decreases list.len(),
{
    if list.len() == 0 {
        assert(texts_bytes(list) + rest =~= rest);
        assert(before + list =~= before);
    } else {
        let front = list.drop_last();
        let tail = text_bytes(list.last()) + rest;
        assert(texts_bytes(list) + rest =~= texts_bytes(front) + tail);
        texts_read_back(before, front, more + 1, tail);
        text_reads_back(list.last(), rest);
        assert((before + front).push(list.last()) =~= before + list);
    }
}

pub broadcast proof fn text_list_reads_back(list: Seq<Seq<char>>, rest: Seq<u8>)
    requires
        text_list_fits(list),
    ensures
        #[trigger] get_text_list(text_list_bytes(list) + rest) == Ok::<_, IpcErrorView>(
            (list, rest),
        ),
{
    broadcast use group_codec;

    texts_read_back(seq![], list, 0, rest);
    assert(Seq::<Seq<char>>::empty() + list =~= list);
    assert(text_list_bytes(list) + rest == u16_bytes(list.len() as u16) + (texts_bytes(list)
        + rest));
}

fn unexpected_end() -> (error: IpcError)
    ensures
        error@ == (IpcErrorView::InvalidEncoding("unexpected end of IPC payload"@)),
{
    IpcError::InvalidEncoding("unexpected end of IPC payload".to_owned())
}

fn put_text(out: &mut Vec<u8>, value: &str)
    requires
        text_fits(value@),
    ensures
        final(out)@ == old(out)@ + text_bytes(value@),
{
    broadcast use concat_is_associative;
    reveal(text_bytes);
    reveal(blob32_bytes);
    let bytes = value.as_bytes();
    put_u32(out, bytes.len() as u32);
    put_bytes(out, bytes);
}

fn put_text_list(out: &mut Vec<u8>, list: &Vec<String>)
    requires
        text_list_fits(texts(list@)),
    ensures
        final(out)@ == old(out)@ + text_list_bytes(texts(list@)),
{
    broadcast use concat_is_associative;
    put_u16(out, list.len() as u16);
    let ghost base = out@;
    let mut index: usize = 0;
    assert(texts(list@.take(0)) =~= Seq::<Seq<char>>::empty());
    assert(base + texts_bytes(texts(list@.take(0))) =~= base);
    while index < list.len()
        invariant
            index <= list@.len(),
            text_list_fits(texts(list@)),
            out@ == base + texts_bytes(texts(list@.take(index as int))),
        decreases list.len() - index,
    {
        assert(texts(list@)[index as int] == list@[index as int]@);
        put_text(out, list[index].as_str());
        index += 1;
        proof {
            let now = texts(list@.take(index as int));
            assert(now.drop_last() =~= texts(list@.take(index - 1)));
            assert(now.last() == list@[index - 1]@);
            assert(out@ =~= base + texts_bytes(now));
        }
    }
    assert(list@.take(list@.len() as int) =~= list@);
}

fn read_text(reader: &mut Reader) -> (result: Result<String, IpcError>)
    ensures
        parsed(outcome(result), final(reader).left(), get_text(old(reader).left())),
{
    reveal(get_text);
    let Some(length) = reader.u32() else {
        return Err(unexpected_end());
    };
    if length > MAX_STRING_BYTES as u32 {
        return Err(IpcError::TooLarge { actual: length as usize, maximum: MAX_STRING_BYTES });
    }
    let Some(bytes) = reader.take(length as usize) else {
        return Err(unexpected_end());
    };
    match text_from(bytes) {
        Some(text) => Ok(text),
        None => Err(IpcError::InvalidEncoding("string is not UTF-8".to_owned())),
    }
}

fn read_text_list(reader: &mut Reader) -> (result: Result<Vec<String>, IpcError>)
    ensures
        match get_text_list(old(reader).left()) {
            Ok((list, left)) => result is Ok && texts(result->Ok_0@) == list
                && final(reader).left() == left,
            Err(error) => result is Err && result->Err_0@ == error,
        },
{
    let Some(count) = reader.u16() else {
        return Err(unexpected_end());
    };
    if count > MAX_LIST_ITEMS as u16 {
        return Err(IpcError::InvalidEncoding(count_message("list count ", count, " exceeds 64")));
    }
    let ghost whole = get_texts(seq![], count as nat, reader.left());
    let mut list: Vec<String> = Vec::new();
    let mut index: u16 = 0;
    assert(texts(list@) =~= Seq::<Seq<char>>::empty());
    while index < count
        invariant
            index <= count,
            whole == get_text_list(old(reader).left()),
            whole == get_texts(texts(list@), (count - index) as nat, reader.left()),
        decreases count - index,
    {
        let text = read_text(reader)?;
        let ghost before = texts(list@);
        list.push(text);
        assert(texts(list@) =~= before.push(text@));
        index += 1;
    }
    Ok(list)
}

/// A count between two pieces of text.
fn count_message(before: &str, count: u16, after: &str) -> (message: String)
    ensures
        message@ == before@ + decimal(count as nat) + after@,
{
    let mut out = numbered(before, count as u128);
    out.append(after);
    out
}

// ---------------------------------------------------------------------------
// The encoding.

pub open spec fn optional_text_bytes(value: Option<Seq<char>>) -> Seq<u8> {
    match value {
        Some(text) => u8_bytes(1) + text_bytes(text),
        None => u8_bytes(0),
    }
}

pub open spec fn get_optional_text(bytes: Seq<u8>) -> Result<
    (Option<Seq<char>>, Seq<u8>),
    IpcErrorView,
> {
    match get_u8(bytes) {
        None => at_end(),
        Some((tag, rest)) => if tag == 0 {
            Ok((None, rest))
        } else if tag == 1 {
            match get_text(rest) {
                Err(error) => Err(error),
                Ok((text, rest)) => Ok((Some(text), rest)),
            }
        } else {
            Err(
                IpcErrorView::InvalidEncoding(
                    "unknown optional string tag "@ + decimal(tag as nat),
                ),
            )
        },
    }
}

pub open spec fn message_bytes(message: IpcMessageView) -> Seq<u8> {
    match message {
        IpcMessageView::Question { subject, why } => u8_bytes(0) + text_bytes(subject)
            + text_bytes(why),
        IpcMessageView::Answer { subject, value, revision, evidence } => u8_bytes(1)
            + text_bytes(subject) + text_bytes(value) + optional_text_bytes(revision)
            + text_list_bytes(evidence),
        IpcMessageView::Assumption { subject, normalized_value, claim, evidence } => u8_bytes(2)
            + text_bytes(subject) + text_bytes(normalized_value) + text_bytes(claim)
            + text_list_bytes(evidence),
        IpcMessageView::Decision { subject, value, rationale } => u8_bytes(3) + text_bytes(subject)
            + text_bytes(value) + text_bytes(rationale),
        IpcMessageView::Conflict { subject, left, right, affected } => u8_bytes(4)
            + text_bytes(subject) + text_bytes(left) + text_bytes(right)
            + text_list_bytes(affected),
        IpcMessageView::Blocked { reason } => u8_bytes(5) + text_bytes(reason),
        IpcMessageView::Progress { summary, completed_millis } => u8_bytes(6) + text_bytes(summary)
            + u16_bytes(completed_millis),
        IpcMessageView::Artifact { reference, description } => u8_bytes(7) + text_bytes(reference)
            + text_bytes(description),
        IpcMessageView::ReviewRequest { subject, instructions } => u8_bytes(8) + text_bytes(subject)
            + text_bytes(instructions),
        IpcMessageView::Warning { subject, message } => u8_bytes(9) + text_bytes(subject)
            + text_bytes(message),
        IpcMessageView::Handoff { summary } => u8_bytes(10) + text_bytes(summary),
        IpcMessageView::ContractUpdate { subject, revision, value } => u8_bytes(11)
            + text_bytes(subject) + text_bytes(revision) + text_bytes(value),
        IpcMessageView::OwnershipRequest { resource, reason } => u8_bytes(12) + text_bytes(resource)
            + text_bytes(reason),
    }
}

/// The fields of a message behind its tag.
pub open spec fn get_message_fields(tag: u8, bytes: Seq<u8>) -> Result<
    (IpcMessageView, Seq<u8>),
    IpcErrorView,
> {
    if tag == 0 {
        match get_text(bytes) {
            Err(error) => Err(error),
            Ok((subject, rest)) => {
            match get_text(rest) {
                Err(error) => Err(error),
                Ok((why, rest)) => Ok((IpcMessageView::Question { subject, why }, rest)),
            }},
        }
    } else if tag == 1 {
        match get_text(bytes) {
            Err(error) => Err(error),
            Ok((subject, rest)) => {
            match get_text(rest) {
                Err(error) => Err(error),
                Ok((value, rest)) => {
                match get_optional_text(rest) {
                    Err(error) => Err(error),
                    Ok((revision, rest)) => {
                    match get_text_list(rest) {
                        Err(error) => Err(error),
                        Ok((evidence, rest)) => Ok(
                            (IpcMessageView::Answer { subject, value, revision, evidence }, rest),
                        ),
                    }},
                }},
            }},
        }
    } else if tag == 2 {
        match get_text(bytes) {
            Err(error) => Err(error),
            Ok((subject, rest)) => {
            match get_text(rest) {
                Err(error) => Err(error),
                Ok((normalized_value, rest)) => {
                match get_text(rest) {
                    Err(error) => Err(error),
                    Ok((claim, rest)) => {
                    match get_text_list(rest) {
                        Err(error) => Err(error),
                        Ok((evidence, rest)) => Ok(
                            (
                                IpcMessageView::Assumption {
                                    subject,
                                    normalized_value,
                                    claim,
                                    evidence,
                                },
                                rest,
                            ),
                        ),
                    }},
                }},
            }},
        }
    } else if tag == 3 {
        match get_text(bytes) {
            Err(error) => Err(error),
            Ok((subject, rest)) => {
            match get_text(rest) {
                Err(error) => Err(error),
                Ok((value, rest)) => {
                match get_text(rest) {
                    Err(error) => Err(error),
                    Ok((rationale, rest)) => Ok(
                        (IpcMessageView::Decision { subject, value, rationale }, rest),
                    ),
                }},
            }},
        }
    } else if tag == 4 {
        match get_text(bytes) {
            Err(error) => Err(error),
            Ok((subject, rest)) => {
            match get_text(rest) {
                Err(error) => Err(error),
                Ok((left, rest)) => {
                match get_text(rest) {
                    Err(error) => Err(error),
                    Ok((right, rest)) => {
                    match get_text_list(rest) {
                        Err(error) => Err(error),
                        Ok((affected, rest)) => Ok(
                            (IpcMessageView::Conflict { subject, left, right, affected }, rest),
                        ),
                    }},
                }},
            }},
        }
    } else if tag == 5 {
        match get_text(bytes) {
            Err(error) => Err(error),
            Ok((reason, rest)) => Ok((IpcMessageView::Blocked { reason }, rest)),
        }
    } else if tag == 6 {
        match get_text(bytes) {
            Err(error) => Err(error),
            Ok((summary, rest)) => {
            match get_u16(rest) {
                None => at_end(),
                Some((completed_millis, rest)) => Ok(
                    (IpcMessageView::Progress { summary, completed_millis }, rest),
                ),
            }},
        }
    } else if tag == 7 {
        match get_text(bytes) {
            Err(error) => Err(error),
            Ok((reference, rest)) => {
            match get_text(rest) {
                Err(error) => Err(error),
                Ok((description, rest)) => Ok(
                    (IpcMessageView::Artifact { reference, description }, rest),
                ),
            }},
        }
    } else if tag == 8 {
        match get_text(bytes) {
            Err(error) => Err(error),
            Ok((subject, rest)) => {
            match get_text(rest) {
                Err(error) => Err(error),
                Ok((instructions, rest)) => Ok(
                    (IpcMessageView::ReviewRequest { subject, instructions }, rest),
                ),
            }},
        }
    } else if tag == 9 {
        match get_text(bytes) {
            Err(error) => Err(error),
            Ok((subject, rest)) => {
            match get_text(rest) {
                Err(error) => Err(error),
                Ok((message, rest)) => Ok((IpcMessageView::Warning { subject, message }, rest)),
            }},
        }
    } else if tag == 10 {
        match get_text(bytes) {
            Err(error) => Err(error),
            Ok((summary, rest)) => Ok((IpcMessageView::Handoff { summary }, rest)),
        }
    } else if tag == 11 {
        match get_text(bytes) {
            Err(error) => Err(error),
            Ok((subject, rest)) => {
            match get_text(rest) {
                Err(error) => Err(error),
                Ok((revision, rest)) => {
                match get_text(rest) {
                    Err(error) => Err(error),
                    Ok((value, rest)) => Ok(
                        (IpcMessageView::ContractUpdate { subject, revision, value }, rest),
                    ),
                }},
            }},
        }
    } else if tag == 12 {
        match get_text(bytes) {
            Err(error) => Err(error),
            Ok((resource, rest)) => {
            match get_text(rest) {
                Err(error) => Err(error),
                Ok((reason, rest)) => Ok(
                    (IpcMessageView::OwnershipRequest { resource, reason }, rest),
                ),
            }},
        }
    } else {
        Err(IpcErrorView::InvalidEncoding("unknown message tag "@ + decimal(tag as nat)))
    }
}

pub open spec fn get_message(bytes: Seq<u8>) -> Result<(IpcMessageView, Seq<u8>), IpcErrorView> {
    match get_u8(bytes) {
        None => at_end(),
        Some((tag, rest)) => match get_message_fields(tag, rest) {
            Err(error) => Err(error),
            Ok((message, rest)) => match message_check(message) {
                Err(error) => Err(error),
                Ok(_) => Ok((message, rest)),
            },
        },
    }
}

pub open spec fn provenance_bytes(provenance: IpcProvenanceView) -> Seq<u8> {
    match provenance.source() {
        Some(source) => u8_bytes(provenance.tag()) + text_bytes(source),
        None => u8_bytes(provenance.tag()),
    }
}

pub open spec fn provenance_from(tag: u8, source: Seq<char>) -> IpcProvenanceView {
    if tag == 0 {
        IpcProvenanceView::Runtime
    } else if tag == 1 {
        IpcProvenanceView::Agent
    } else if tag == 2 {
        IpcProvenanceView::User
    } else if tag == 3 {
        IpcProvenanceView::External { source }
    } else if tag == 4 {
        IpcProvenanceView::RemoteAgent { source }
    } else if tag == 5 {
        IpcProvenanceView::WebUntrusted { source }
    } else if tag == 6 {
        IpcProvenanceView::McpMetadata { source }
    } else if tag == 7 {
        IpcProvenanceView::McpResult { source }
    } else {
        IpcProvenanceView::TrustedProject
    }
}

pub open spec fn get_provenance(bytes: Seq<u8>) -> Result<
    (IpcProvenanceView, Seq<u8>),
    IpcErrorView,
> {
    match get_u8(bytes) {
        None => at_end(),
        Some((tag, rest)) => if tag > 8 {
            Err(IpcErrorView::InvalidEncoding("unknown provenance tag "@ + decimal(tag as nat)))
        } else if 3 <= tag <= 7 {
            match get_text(rest) {
                Err(error) => Err(error),
                Ok((source, rest)) => Ok((provenance_from(tag, source), rest)),
            }
        } else {
            Ok((provenance_from(tag, seq![]), rest))
        },
    }
}

/// Event identities, one behind the other.
pub open spec fn event_ids_bytes(list: Seq<EventId>) -> Seq<u8>
    decreases list.len(),
{
    if list.len() == 0 {
        seq![]
    } else {
        event_ids_bytes(list.drop_last()) + u64_bytes(list.last().0)
    }
}

pub open spec fn get_event_ids(list: Seq<EventId>, count: nat, bytes: Seq<u8>) -> Result<
    (Seq<EventId>, Seq<u8>),
    IpcErrorView,
>
    decreases count,
{
    if count == 0 {
        Ok((list, bytes))
    } else {
        match get_u64(bytes) {
            None => at_end(),
            Some((id, rest)) => get_event_ids(list.push(EventId(id)), (count - 1) as nat, rest),
        }
    }
}

/// Origins, one byte each.
pub open spec fn origins_bytes(list: Seq<TrustOrigin>) -> Seq<u8>
    decreases list.len(),
{
    if list.len() == 0 {
        seq![]
    } else {
        origins_bytes(list.drop_last()) + u8_bytes(origin_byte(list.last()))
    }
}

pub open spec fn get_origins(list: Seq<TrustOrigin>, count: nat, bytes: Seq<u8>) -> Result<
    (Seq<TrustOrigin>, Seq<u8>),
    IpcErrorView,
>
    decreases count,
{
    if count == 0 {
        Ok((list, bytes))
    } else {
        match get_u8(bytes) {
            None => at_end(),
            Some((tag, rest)) => match origin_of_byte(tag) {
                None => Err(
                    IpcErrorView::InvalidEncoding(
                        "unknown trust origin tag "@ + decimal(tag as nat),
                    ),
                ),
                Some(origin) => get_origins(list.push(origin), (count - 1) as nat, rest),
            },
        }
    }
}

pub open spec fn get_causal_events(bytes: Seq<u8>) -> Result<
    (Seq<EventId>, Seq<u8>),
    IpcErrorView,
> {
    match get_u16(bytes) {
        None => at_end(),
        Some((count, rest)) => if count > MAX_CAUSAL_EVENTS {
            Err(
                IpcErrorView::InvalidEncoding(
                    "causal event count "@ + decimal(count as nat) + " exceeds 32"@,
                ),
            )
        } else {
            get_event_ids(seq![], count as nat, rest)
        },
    }
}

/// Input origins, which the legacy schema lacks.
pub open spec fn get_input_origins(version: u16, bytes: Seq<u8>) -> Result<
    (Seq<TrustOrigin>, Seq<u8>),
    IpcErrorView,
> {
    if version == IPC_SCHEMA_VERSION {
        match get_u16(bytes) {
            None => at_end(),
            Some((count, rest)) => if count > MAX_INPUT_ORIGINS {
                Err(
                    IpcErrorView::InvalidEncoding(
                        "input origin count "@ + decimal(count as nat) + " exceeds 32"@,
                    ),
                )
            } else {
                get_origins(seq![], count as nat, rest)
            },
        }
    } else {
        Ok((seq![], bytes))
    }
}

pub open spec fn get_task(bytes: Seq<u8>) -> Result<(Option<TaskId>, Seq<u8>), IpcErrorView> {
    match get_u8(bytes) {
        None => at_end(),
        Some((tag, rest)) => if tag == 0 {
            Ok((None, rest))
        } else if tag == 1 {
            match get_u64(rest) {
                None => at_end(),
                Some((id, rest)) => Ok((Some(TaskId(id)), rest)),
            }
        } else {
            Err(IpcErrorView::InvalidEncoding("unknown task tag "@ + decimal(tag as nat)))
        },
    }
}

pub open spec fn task_value(task_id: Option<TaskId>) -> Option<u64> {
    match task_id {
        Some(id) => Some(id.0),
        None => None,
    }
}

/// The fields of an envelope before its provenance.
pub open spec fn header_bytes(envelope: IpcEnvelopeView) -> Seq<u8> {
    u64_bytes(envelope.id.0) + u64_bytes(envelope.run_id.0) + optional_u64_bytes(
        task_value(envelope.task_id),
    ) + u64_bytes(envelope.sender.0) + u64_bytes(envelope.recipient.0)
}

pub open spec fn causal_bytes(list: Seq<EventId>) -> Seq<u8> {
    u16_bytes(list.len() as u16) + event_ids_bytes(list)
}

pub open spec fn input_origin_bytes(list: Seq<TrustOrigin>) -> Seq<u8> {
    u16_bytes(list.len() as u16) + origins_bytes(list)
}

/// The encoding under the current schema.
pub open spec fn envelope_bytes(envelope: IpcEnvelopeView) -> Seq<u8> {
    header_bytes(envelope) + causal_bytes(envelope.causal_event_ids) + provenance_bytes(
        envelope.provenance,
    ) + input_origin_bytes(envelope.input_origins) + message_bytes(envelope.payload)
}

/// The encoding under the legacy schema, which has no input origins.
pub open spec fn legacy_envelope_bytes(envelope: IpcEnvelopeView) -> Seq<u8> {
    header_bytes(envelope) + causal_bytes(envelope.causal_event_ids) + provenance_bytes(
        envelope.provenance,
    ) + message_bytes(envelope.payload)
}

/// The fields of an envelope from its causal events on.
pub open spec fn get_body(version: u16, head: IpcEnvelopeView, bytes: Seq<u8>) -> Result<
    (IpcEnvelopeView, Seq<u8>),
    IpcErrorView,
> {
    match get_causal_events(bytes) {
        Err(error) => Err(error),
        Ok((causal_event_ids, rest)) => match get_provenance(rest) {
            Err(error) => Err(error),
            Ok((provenance, rest)) => match get_input_origins(version, rest) {
                Err(error) => Err(error),
                Ok((input_origins, rest)) => match get_message(rest) {
                    Err(error) => Err(error),
                    Ok((payload, rest)) => Ok(
                        (
                            IpcEnvelopeView {
                                causal_event_ids,
                                provenance,
                                input_origins,
                                payload,
                                ..head
                            },
                            rest,
                        ),
                    ),
                },
            },
        },
    }
}

pub open spec fn get_envelope(version: u16, bytes: Seq<u8>) -> Result<
    (IpcEnvelopeView, Seq<u8>),
    IpcErrorView,
> {
    match get_u64(bytes) {
        None => at_end(),
        Some((id, rest)) => match get_u64(rest) {
            None => at_end(),
            Some((run_id, rest)) => match get_task(rest) {
                Err(error) => Err(error),
                Ok((task_id, rest)) => match get_u64(rest) {
                    None => at_end(),
                    Some((sender, rest)) => match get_u64(rest) {
                        None => at_end(),
                        Some((recipient, rest)) => get_body(
                            version,
                            IpcEnvelopeView {
                                id: MessageId(id),
                                run_id: RunId(run_id),
                                task_id,
                                sender: AgentId(sender),
                                recipient: AgentId(recipient),
                                causal_event_ids: seq![],
                                provenance: IpcProvenanceView::Agent,
                                input_origins: seq![],
                                payload: IpcMessageView::Handoff { summary: seq![] },
                            },
                            rest,
                        ),
                    },
                },
            },
        },
    }
}

/// What encoding an envelope yields.
pub open spec fn encoded(envelope: IpcEnvelopeView) -> Result<Seq<u8>, IpcErrorView> {
    match envelope_check(envelope) {
        Err(error) => Err(error),
        Ok(_) => if envelope_bytes(envelope).len() > MAX_ENVELOPE_BYTES {
            Err(
                IpcErrorView::TooLarge {
                    actual: envelope_bytes(envelope).len() as usize,
                    maximum: MAX_ENVELOPE_BYTES,
                },
            )
        } else {
            Ok(envelope_bytes(envelope))
        },
    }
}

/// What a whole encoded envelope means, or why it means nothing.
pub open spec fn decoded(version: u16, bytes: Seq<u8>) -> Result<IpcEnvelopeView, IpcErrorView> {
    if version != LEGACY_IPC_SCHEMA_VERSION && version != IPC_SCHEMA_VERSION {
        Err(IpcErrorView::UnsupportedVersion(version))
    } else if bytes.len() > MAX_ENVELOPE_BYTES {
        Err(
            IpcErrorView::TooLarge { actual: bytes.len() as usize, maximum: MAX_ENVELOPE_BYTES },
        )
    } else {
        match get_envelope(version, bytes) {
            Err(error) => Err(error),
            Ok((envelope, rest)) => if rest.len() != 0 {
                Err(IpcErrorView::InvalidEncoding("trailing bytes in IPC payload"@))
            } else {
                match envelope_check(envelope) {
                    Err(error) => Err(error),
                    Ok(_) => Ok(envelope),
                }
            },
        }
    }
}

fn read_optional_text(reader: &mut Reader) -> (result: Result<Option<String>, IpcError>)
    ensures
        match get_optional_text(old(reader).left()) {
            Ok((text, left)) => result is Ok && optional_text(result->Ok_0) == text
                && final(reader).left() == left,
            Err(error) => result is Err && result->Err_0@ == error,
        },
{
    let Some(tag) = reader.u8() else {
        return Err(unexpected_end());
    };
    match tag {
        0 => Ok(None),
        1 => Ok(Some(read_text(reader)?)),
        _ => Err(
            IpcError::InvalidEncoding(numbered("unknown optional string tag ", tag as u128)),
        ),
    }
}

fn put_optional_text(out: &mut Vec<u8>, value: &Option<String>)
    requires
        value is Some ==> text_fits(value->0@),
    ensures
        final(out)@ == old(out)@ + optional_text_bytes(optional_text(*value)),
{
    broadcast use concat_is_associative;
    match value {
        Some(text) => {
            put_u8(out, 1);
            put_text(out, text.as_str());
        },
        None => put_u8(out, 0),
    }
}

/// A list that passes its check fits its encoding.
proof fn checked_texts_fit(field: Seq<char>, list: Seq<Seq<char>>)
    requires
        texts_check(field, list) is Ok,
    ensures
        forall|i: int| 0 <= i < list.len() ==> text_fits(#[trigger] list[i]),
    decreases list.len(),
{
    if list.len() > 0 {
        checked_texts_fit(field, list.drop_last());
        assert forall|i: int| 0 <= i < list.len() implies text_fits(#[trigger] list[i]) by {
            if i < list.len() - 1 {
                assert(list.drop_last()[i] == list[i]);
            }
        }
    }
}

impl IpcMessage {
    fn validate(&self) -> (result: Result<(), IpcError>)
        ensures
            outcome(result) == message_check(self@),
    {
        match self {
            IpcMessage::Question { subject, why } => {
                validate_text("question subject", subject.as_str())?;
                validate_text("question why", why.as_str())
            },
            IpcMessage::Answer { subject, value, revision, evidence } => {
                validate_text("answer subject", subject.as_str())?;
                validate_text("answer value", value.as_str())?;
                validate_optional_text("answer revision", revision)?;
                validate_text_list("answer evidence", evidence)
            },
            IpcMessage::Assumption { subject, normalized_value, claim, evidence } => {
                validate_text("assumption subject", subject.as_str())?;
                validate_text("assumption normalized value", normalized_value.as_str())?;
                validate_text("assumption claim", claim.as_str())?;
                validate_text_list("assumption evidence", evidence)
            },
            IpcMessage::Decision { subject, value, rationale } => {
                validate_text("decision subject", subject.as_str())?;
                validate_text("decision value", value.as_str())?;
                validate_text("decision rationale", rationale.as_str())
            },
            IpcMessage::Conflict { subject, left, right, affected } => {
                validate_text("conflict subject", subject.as_str())?;
                validate_text("conflict left", left.as_str())?;
                validate_text("conflict right", right.as_str())?;
                validate_text_list("conflict affected", affected)
            },
            IpcMessage::Blocked { reason } => {
                validate_text("blocked reason", reason.as_str())
            },
            IpcMessage::Progress { summary, completed_millis } => {
                validate_text("progress summary", summary.as_str())?;
                if *completed_millis > 1000 {
                    return Err(
                        IpcError::Invalid(
                            "progress completed_millis must be at most 1000".to_owned(),
                        ),
                    );
                }
                Ok(())
            },
            IpcMessage::Artifact { reference, description } => {
                validate_text("artifact reference", reference.as_str())?;
                validate_text("artifact description", description.as_str())
            },
            IpcMessage::ReviewRequest { subject, instructions } => {
                validate_text("review subject", subject.as_str())?;
                validate_text("review instructions", instructions.as_str())
            },
            IpcMessage::Warning { subject, message } => {
                validate_text("warning subject", subject.as_str())?;
                validate_text("warning message", message.as_str())
            },
            IpcMessage::Handoff { summary } => {
                validate_text("handoff summary", summary.as_str())
            },
            IpcMessage::ContractUpdate { subject, revision, value } => {
                validate_text("contract subject", subject.as_str())?;
                validate_text("contract revision", revision.as_str())?;
                validate_text("contract value", value.as_str())
            },
            IpcMessage::OwnershipRequest { resource, reason } => {
                validate_text("ownership resource", resource.as_str())?;
                validate_text("ownership reason", reason.as_str())
            },
        }
    }

    fn encode(&self, out: &mut Vec<u8>)
        requires
            message_check(self@) is Ok,
        ensures
            final(out)@ == old(out)@ + message_bytes(self@),
    {
        broadcast use concat_is_associative;
        match self {
            IpcMessage::Question { subject, why } => {
                put_u8(out, 0);
                put_text(out, subject.as_str());
                put_text(out, why.as_str());
            },
            IpcMessage::Answer { subject, value, revision, evidence } => {
                proof {
                    checked_texts_fit("answer evidence"@, texts(evidence@));
                }
                put_u8(out, 1);
                put_text(out, subject.as_str());
                put_text(out, value.as_str());
                put_optional_text(out, revision);
                put_text_list(out, evidence);
            },
            IpcMessage::Assumption { subject, normalized_value, claim, evidence } => {
                proof {
                    checked_texts_fit("assumption evidence"@, texts(evidence@));
                }
                put_u8(out, 2);
                put_text(out, subject.as_str());
                put_text(out, normalized_value.as_str());
                put_text(out, claim.as_str());
                put_text_list(out, evidence);
            },
            IpcMessage::Decision { subject, value, rationale } => {
                put_u8(out, 3);
                put_text(out, subject.as_str());
                put_text(out, value.as_str());
                put_text(out, rationale.as_str());
            },
            IpcMessage::Conflict { subject, left, right, affected } => {
                proof {
                    checked_texts_fit("conflict affected"@, texts(affected@));
                }
                put_u8(out, 4);
                put_text(out, subject.as_str());
                put_text(out, left.as_str());
                put_text(out, right.as_str());
                put_text_list(out, affected);
            },
            IpcMessage::Blocked { reason } => {
                put_u8(out, 5);
                put_text(out, reason.as_str());
            },
            IpcMessage::Progress { summary, completed_millis } => {
                put_u8(out, 6);
                put_text(out, summary.as_str());
                put_u16(out, *completed_millis);
            },
            IpcMessage::Artifact { reference, description } => {
                put_u8(out, 7);
                put_text(out, reference.as_str());
                put_text(out, description.as_str());
            },
            IpcMessage::ReviewRequest { subject, instructions } => {
                put_u8(out, 8);
                put_text(out, subject.as_str());
                put_text(out, instructions.as_str());
            },
            IpcMessage::Warning { subject, message } => {
                put_u8(out, 9);
                put_text(out, subject.as_str());
                put_text(out, message.as_str());
            },
            IpcMessage::Handoff { summary } => {
                put_u8(out, 10);
                put_text(out, summary.as_str());
            },
            IpcMessage::ContractUpdate { subject, revision, value } => {
                put_u8(out, 11);
                put_text(out, subject.as_str());
                put_text(out, revision.as_str());
                put_text(out, value.as_str());
            },
            IpcMessage::OwnershipRequest { resource, reason } => {
                put_u8(out, 12);
                put_text(out, resource.as_str());
                put_text(out, reason.as_str());
            },
        }
    }

    fn decode_fields(tag: u8, reader: &mut Reader) -> (result: Result<IpcMessage, IpcError>)
        ensures
            parsed(
                outcome(result),
                final(reader).left(),
                get_message_fields(tag, old(reader).left()),
            ),
    {
        match tag {
            0 => {
                let subject = read_text(reader)?;
                let why = read_text(reader)?;
                Ok(IpcMessage::Question { subject, why })
            },
            1 => {
                let subject = read_text(reader)?;
                let value = read_text(reader)?;
                let revision = read_optional_text(reader)?;
                let evidence = read_text_list(reader)?;
                Ok(IpcMessage::Answer { subject, value, revision, evidence })
            },
            2 => {
                let subject = read_text(reader)?;
                let normalized_value = read_text(reader)?;
                let claim = read_text(reader)?;
                let evidence = read_text_list(reader)?;
                Ok(IpcMessage::Assumption { subject, normalized_value, claim, evidence })
            },
            3 => {
                let subject = read_text(reader)?;
                let value = read_text(reader)?;
                let rationale = read_text(reader)?;
                Ok(IpcMessage::Decision { subject, value, rationale })
            },
            4 => {
                let subject = read_text(reader)?;
                let left = read_text(reader)?;
                let right = read_text(reader)?;
                let affected = read_text_list(reader)?;
                Ok(IpcMessage::Conflict { subject, left, right, affected })
            },
            5 => {
                let reason = read_text(reader)?;
                Ok(IpcMessage::Blocked { reason })
            },
            6 => {
                let summary = read_text(reader)?;
                let Some(completed_millis) = reader.u16() else {
                    return Err(unexpected_end());
                };
                Ok(IpcMessage::Progress { summary, completed_millis })
            },
            7 => {
                let reference = read_text(reader)?;
                let description = read_text(reader)?;
                Ok(IpcMessage::Artifact { reference, description })
            },
            8 => {
                let subject = read_text(reader)?;
                let instructions = read_text(reader)?;
                Ok(IpcMessage::ReviewRequest { subject, instructions })
            },
            9 => {
                let subject = read_text(reader)?;
                let message = read_text(reader)?;
                Ok(IpcMessage::Warning { subject, message })
            },
            10 => {
                let summary = read_text(reader)?;
                Ok(IpcMessage::Handoff { summary })
            },
            11 => {
                let subject = read_text(reader)?;
                let revision = read_text(reader)?;
                let value = read_text(reader)?;
                Ok(IpcMessage::ContractUpdate { subject, revision, value })
            },
            12 => {
                let resource = read_text(reader)?;
                let reason = read_text(reader)?;
                Ok(IpcMessage::OwnershipRequest { resource, reason })
            },
            _ => Err(IpcError::InvalidEncoding(numbered("unknown message tag ", tag as u128))),
        }
    }

    fn decode(reader: &mut Reader) -> (result: Result<IpcMessage, IpcError>)
        ensures
            parsed(outcome(result), final(reader).left(), get_message(old(reader).left())),
    {
        let Some(tag) = reader.u8() else {
            return Err(unexpected_end());
        };
        let message = IpcMessage::decode_fields(tag, reader)?;
        message.validate()?;
        Ok(message)
    }
}

fn put_provenance(out: &mut Vec<u8>, provenance: &IpcProvenance)
    requires
        provenance@.source() is Some ==> text_fits(provenance@.source()->0),
    ensures
        final(out)@ == old(out)@ + provenance_bytes(provenance@),
{
    broadcast use concat_is_associative;
    put_u8(out, provenance.wire_tag());
    match provenance.source_text() {
        Some(source) => put_text(out, source.as_str()),
        None => {},
    }
}

fn read_provenance(reader: &mut Reader) -> (result: Result<IpcProvenance, IpcError>)
    ensures
        parsed(outcome(result), final(reader).left(), get_provenance(old(reader).left())),
{
    let Some(tag) = reader.u8() else {
        return Err(unexpected_end());
    };
    match tag {
        0 => Ok(IpcProvenance::Runtime),
        1 => Ok(IpcProvenance::Agent),
        2 => Ok(IpcProvenance::User),
        3 => Ok(IpcProvenance::External { source: read_text(reader)? }),
        4 => Ok(IpcProvenance::RemoteAgent { source: read_text(reader)? }),
        5 => Ok(IpcProvenance::WebUntrusted { source: read_text(reader)? }),
        6 => Ok(IpcProvenance::McpMetadata { source: read_text(reader)? }),
        7 => Ok(IpcProvenance::McpResult { source: read_text(reader)? }),
        8 => Ok(IpcProvenance::TrustedProject),
        _ => Err(IpcError::InvalidEncoding(numbered("unknown provenance tag ", tag as u128))),
    }
}

fn put_causal_events(out: &mut Vec<u8>, list: &Vec<EventId>)
    requires
        list@.len() <= MAX_CAUSAL_EVENTS,
    ensures
        final(out)@ == old(out)@ + causal_bytes(list@),
{
    broadcast use concat_is_associative;
    put_u16(out, list.len() as u16);
    let ghost base = out@;
    let mut index: usize = 0;
    assert(list@.take(0) =~= Seq::<EventId>::empty());
    assert(base + event_ids_bytes(list@.take(0)) =~= base);
    while index < list.len()
        invariant
            index <= list@.len(),
            out@ == base + event_ids_bytes(list@.take(index as int)),
        decreases list.len() - index,
    {
        put_u64(out, list[index].value());
        index += 1;
        proof {
            assert(list@.take(index as int).drop_last() =~= list@.take(index - 1));
            assert(out@ =~= base + event_ids_bytes(list@.take(index as int)));
        }
    }
    assert(list@.take(list@.len() as int) =~= list@);
}

fn read_causal_events(reader: &mut Reader) -> (result: Result<Vec<EventId>, IpcError>)
    ensures
        parsed(outcome(result), final(reader).left(), get_causal_events(old(reader).left())),
{
    let Some(count) = reader.u16() else {
        return Err(unexpected_end());
    };
    if count > MAX_CAUSAL_EVENTS as u16 {
        return Err(
            IpcError::InvalidEncoding(count_message("causal event count ", count, " exceeds 32")),
        );
    }
    let ghost whole = get_event_ids(seq![], count as nat, reader.left());
    let mut list: Vec<EventId> = Vec::new();
    let mut index: u16 = 0;
    assert(list@ =~= Seq::<EventId>::empty());
    while index < count
        invariant
            index <= count,
            whole == get_causal_events(old(reader).left()),
            whole == get_event_ids(list@, (count - index) as nat, reader.left()),
        decreases count - index,
    {
        let Some(id) = reader.u64() else {
            return Err(unexpected_end());
        };
        list.push(EventId::from_u64(id));
        index += 1;
    }
    Ok(list)
}

fn put_input_origins(out: &mut Vec<u8>, list: &Vec<TrustOrigin>)
    requires
        list@.len() <= MAX_INPUT_ORIGINS,
    ensures
        final(out)@ == old(out)@ + input_origin_bytes(list@),
{
    broadcast use concat_is_associative;
    put_u16(out, list.len() as u16);
    let ghost base = out@;
    let mut index: usize = 0;
    assert(list@.take(0) =~= Seq::<TrustOrigin>::empty());
    assert(base + origins_bytes(list@.take(0)) =~= base);
    while index < list.len()
        invariant
            index <= list@.len(),
            out@ == base + origins_bytes(list@.take(index as int)),
        decreases list.len() - index,
    {
        put_u8(out, origin_tag(list[index]));
        index += 1;
        proof {
            assert(list@.take(index as int).drop_last() =~= list@.take(index - 1));
            assert(out@ =~= base + origins_bytes(list@.take(index as int)));
        }
    }
    assert(list@.take(list@.len() as int) =~= list@);
}

fn read_input_origins(version: u16, reader: &mut Reader) -> (result: Result<
    Vec<TrustOrigin>,
    IpcError,
>)
    ensures
        parsed(
            outcome(result),
            final(reader).left(),
            get_input_origins(version, old(reader).left()),
        ),
{
    let mut list: Vec<TrustOrigin> = Vec::new();
    assert(list@ =~= Seq::<TrustOrigin>::empty());
    if version != IPC_SCHEMA_VERSION {
        return Ok(list);
    }
    let Some(count) = reader.u16() else {
        return Err(unexpected_end());
    };
    if count > MAX_INPUT_ORIGINS as u16 {
        return Err(
            IpcError::InvalidEncoding(count_message("input origin count ", count, " exceeds 32")),
        );
    }
    let ghost whole = get_origins(seq![], count as nat, reader.left());
    let mut index: u16 = 0;
    while index < count
        invariant
            index <= count,
            whole == get_input_origins(version, old(reader).left()),
            whole == get_origins(list@, (count - index) as nat, reader.left()),
        decreases count - index,
    {
        let Some(tag) = reader.u8() else {
            return Err(unexpected_end());
        };
        match origin_for_tag(tag) {
            Some(origin) => list.push(origin),
            None => {
                return Err(
                    IpcError::InvalidEncoding(numbered("unknown trust origin tag ", tag as u128)),
                );
            },
        }
        index += 1;
    }
    Ok(list)
}

fn read_task(reader: &mut Reader) -> (result: Result<Option<TaskId>, IpcError>)
    ensures
        match get_task(old(reader).left()) {
            Ok((task, left)) => result is Ok && result->Ok_0 == task && final(reader).left()
                == left,
            Err(error) => result is Err && result->Err_0@ == error,
        },
{
    let Some(tag) = reader.u8() else {
        return Err(unexpected_end());
    };
    match tag {
        0 => Ok(None),
        1 => {
            let Some(id) = reader.u64() else {
                return Err(unexpected_end());
            };
            Ok(Some(TaskId::from_u64(id)))
        },
        _ => Err(IpcError::InvalidEncoding(numbered("unknown task tag ", tag as u128))),
    }
}

impl IpcEnvelope {
    pub fn new(
        ids: &mut IdSource,
        run_id: RunId,
        task_id: Option<TaskId>,
        sender: AgentId,
        recipient: AgentId,
        payload: IpcMessage,
    ) -> (envelope: IpcEnvelope)
        requires
            old(ids).can_issue(1),
        ensures
            envelope@ == (IpcEnvelopeView {
                id: MessageId(old(ids).upcoming(0)),
                run_id,
                task_id,
                sender,
                recipient,
                causal_event_ids: seq![],
                provenance: IpcProvenanceView::Agent,
                input_origins: seq![],
                payload: payload@,
            }),
            final(ids).issued_from(old(ids), 1),
    {
        let envelope = IpcEnvelope {
            id: MessageId::new(ids),
            run_id,
            task_id,
            sender,
            recipient,
            causal_event_ids: Vec::new(),
            provenance: IpcProvenance::Agent,
            input_origins: Vec::new(),
            payload,
        };
        assert(envelope@.causal_event_ids =~= seq![]);
        assert(envelope@.input_origins =~= seq![]);
        envelope
    }

    pub fn with_causal_events(self, causal_event_ids: Vec<EventId>) -> (envelope: IpcEnvelope)
        ensures
            envelope@ == (IpcEnvelopeView { causal_event_ids: causal_event_ids@, ..self@ }),
    {
        IpcEnvelope { causal_event_ids, ..self }
    }

    pub fn with_provenance(self, provenance: IpcProvenance) -> (envelope: IpcEnvelope)
        ensures
            envelope@ == (IpcEnvelopeView { provenance: provenance@, ..self@ }),
    {
        IpcEnvelope { provenance, ..self }
    }

    pub fn with_input_origin(self, origin: TrustOrigin) -> (envelope: IpcEnvelope)
        ensures
            envelope@ == (IpcEnvelopeView {
                input_origins: self@.input_origins.push(origin),
                ..self@
            }),
    {
        let mut envelope = self;
        envelope.input_origins.push(origin);
        envelope
    }

    pub fn with_run_id(self, run_id: RunId) -> (envelope: IpcEnvelope)
        ensures
            envelope@ == (IpcEnvelopeView { run_id, ..self@ }),
    {
        IpcEnvelope { run_id, ..self }
    }

    /// The trust of the message: its provenance combined with every input.
    pub fn effective_trust_origin(&self) -> (origin: TrustOrigin)
        ensures
            origin == combined_all(self@.provenance.origin(), self@.input_origins),
    {
        combine_all(self.provenance.trust_origin(), &self.input_origins)
    }

    pub fn validate(&self) -> (result: Result<(), IpcError>)
        ensures
            outcome(result) == envelope_check(self@),
    {
        if self.causal_event_ids.len() > MAX_CAUSAL_EVENTS {
            return Err(IpcError::Invalid("at most 32 causal events are supported".to_owned()));
        }
        if self.input_origins.len() > MAX_INPUT_ORIGINS {
            return Err(IpcError::Invalid("at most 32 input origins are supported".to_owned()));
        }
        match self.provenance.source_text() {
            Some(source) => validate_text("provenance source", source.as_str())?,
            None => {},
        }
        self.payload.validate()
    }

    /// Encodes a valid envelope under the current schema.
    pub fn encode(&self) -> (result: Result<Vec<u8>, IpcError>)
        ensures
            outcome(result) == encoded(self@),
    {
        broadcast use concat_is_associative;
        self.validate()?;
        let mut out: Vec<u8> = Vec::new();
        put_u64(&mut out, self.id.value());
        put_u64(&mut out, self.run_id.value());
        let task: Option<u64> = match self.task_id {
            Some(id) => Some(id.value()),
            None => None,
        };
        put_optional_u64(&mut out, task);
        put_u64(&mut out, self.sender.value());
        put_u64(&mut out, self.recipient.value());
        assert(out@ =~= header_bytes(self@));
        put_causal_events(&mut out, &self.causal_event_ids);
        put_provenance(&mut out, &self.provenance);
        put_input_origins(&mut out, &self.input_origins);
        self.payload.encode(&mut out);
        let length: usize = out.len();
        if length > MAX_ENVELOPE_BYTES {
            return Err(IpcError::TooLarge { actual: length, maximum: MAX_ENVELOPE_BYTES });
        }
        Ok(out)
    }

    /// Decodes an envelope of either schema and validates it.
    pub fn decode(version: u16, bytes: &[u8]) -> (result: Result<IpcEnvelope, IpcError>)
        ensures
            outcome(result) == decoded(version, bytes@),
    {
        if version != LEGACY_IPC_SCHEMA_VERSION && version != IPC_SCHEMA_VERSION {
            return Err(IpcError::UnsupportedVersion(version));
        }
        let length: usize = bytes.len();
        if length > MAX_ENVELOPE_BYTES {
            return Err(IpcError::TooLarge { actual: length, maximum: MAX_ENVELOPE_BYTES });
        }
        let mut reader = Reader::new(bytes);
        let Some(id) = reader.u64() else {
            return Err(unexpected_end());
        };
        let Some(run_id) = reader.u64() else {
            return Err(unexpected_end());
        };
        let task_id = read_task(&mut reader)?;
        let Some(sender) = reader.u64() else {
            return Err(unexpected_end());
        };
        let Some(recipient) = reader.u64() else {
            return Err(unexpected_end());
        };
        let causal_event_ids = read_causal_events(&mut reader)?;
        let provenance = read_provenance(&mut reader)?;
        let input_origins = read_input_origins(version, &mut reader)?;
        let payload = IpcMessage::decode(&mut reader)?;
        if !reader.is_done() {
            return Err(IpcError::InvalidEncoding("trailing bytes in IPC payload".to_owned()));
        }
        let envelope = IpcEnvelope {
            id: MessageId::from_u64(id),
            run_id: RunId::from_u64(run_id),
            task_id,
            sender: AgentId::from_u64(sender),
            recipient: AgentId::from_u64(recipient),
            causal_event_ids,
            provenance,
            input_origins,
            payload,
        };
        envelope.validate()?;
        Ok(envelope)
    }
}

// ---------------------------------------------------------------------------
// Reading back what was written.

pub broadcast proof fn optional_text_reads_back(value: Option<Seq<char>>, rest: Seq<u8>)
    requires
        value is Some ==> text_fits(value->0),
    ensures
        #[trigger] get_optional_text(optional_text_bytes(value) + rest) == Ok::<_, IpcErrorView>(
            (value, rest),
        ),
{
    broadcast use {group_codec, text_reads_back};

}

proof fn provenance_reads_back(provenance: IpcProvenanceView, rest: Seq<u8>)
    requires
        provenance.source() is Some ==> text_fits(provenance.source()->0),
    ensures
        get_provenance(provenance_bytes(provenance) + rest) == Ok::<_, IpcErrorView>(
            (provenance, rest),
        ),
{
    match provenance.source() {
        Some(source) => {
            regroup1(u8_bytes(provenance.tag()), text_bytes(source), rest);
            get_u8_of_bytes(provenance.tag(), text_bytes(source) + rest);
            text_reads_back(source, rest);
        },
        None => {
            get_u8_of_bytes(provenance.tag(), rest);
        },
    }
}

proof fn event_ids_read_back(
    before: Seq<EventId>,
    list: Seq<EventId>,
    more: nat,
    rest: Seq<u8>,
)
    ensures
        get_event_ids(before, list.len() + more, event_ids_bytes(list) + rest) == get_event_ids(
            before + list,
            more,
            rest,
        ),
    decreases list.len(),
{
    if list.len() == 0 {
        assert(event_ids_bytes(list) + rest =~= rest);
        assert(before + list =~= before);
    } else {
        let front = list.drop_last();
        let tail = u64_bytes(list.last().0) + rest;
        assert(event_ids_bytes(list) + rest =~= event_ids_bytes(front) + tail);
        event_ids_read_back(before, front, more + 1, tail);
        get_u64_of_bytes(list.last().0, rest);
        assert((before + front).push(list.last()) =~= before + list);
    }
}

proof fn origins_read_back(
    before: Seq<TrustOrigin>,
    list: Seq<TrustOrigin>,
    more: nat,
    rest: Seq<u8>,
)
    ensures
        get_origins(before, list.len() + more, origins_bytes(list) + rest) == get_origins(
            before + list,
            more,
            rest,
        ),
    decreases list.len(),
{
    if list.len() == 0 {
        assert(origins_bytes(list) + rest =~= rest);
        assert(before + list =~= before);
    } else {
        let front = list.drop_last();
        let tail = u8_bytes(origin_byte(list.last())) + rest;
        assert(origins_bytes(list) + rest =~= origins_bytes(front) + tail);
        origins_read_back(before, front, more + 1, tail);
        get_u8_of_bytes(origin_byte(list.last()), rest);
        assert((before + front).push(list.last()) =~= before + list);
    }
}

proof fn causal_events_read_back(list: Seq<EventId>, rest: Seq<u8>)
    requires
        list.len() <= MAX_CAUSAL_EVENTS,
    ensures
        get_causal_events(causal_bytes(list) + rest) == Ok::<_, IpcErrorView>((list, rest)),
{
    regroup1(u16_bytes(list.len() as u16), event_ids_bytes(list), rest);
    get_u16_of_bytes(list.len() as u16, event_ids_bytes(list) + rest);
    event_ids_read_back(seq![], list, 0, rest);
    assert(Seq::<EventId>::empty() + list =~= list);
}

proof fn input_origins_read_back(list: Seq<TrustOrigin>, rest: Seq<u8>)
    requires
        list.len() <= MAX_INPUT_ORIGINS,
    ensures
        get_input_origins(IPC_SCHEMA_VERSION, input_origin_bytes(list) + rest) == Ok::<
            _,
            IpcErrorView,
        >((list, rest)),
{
    regroup1(u16_bytes(list.len() as u16), origins_bytes(list), rest);
    get_u16_of_bytes(list.len() as u16, origins_bytes(list) + rest);
    origins_read_back(seq![], list, 0, rest);
    assert(Seq::<TrustOrigin>::empty() + list =~= list);
}

proof fn question_reads_back(message: IpcMessageView, rest: Seq<u8>)
    requires
        message is Question,
        message_check(message) is Ok,
    ensures
        get_message(message_bytes(message) + rest) == Ok::<_, IpcErrorView>((message, rest)),
{
    if let IpcMessageView::Question { subject, why } = message {
        regroup2(u8_bytes(0), text_bytes(subject), text_bytes(why), rest);
        text_reads_back(why, rest);
        text_reads_back(subject, text_bytes(why) + rest);
        get_u8_of_bytes(0, text_bytes(subject) + (text_bytes(why) + rest));
    }
}

proof fn answer_reads_back(message: IpcMessageView, rest: Seq<u8>)
    requires
        message is Answer,
        message_check(message) is Ok,
    ensures
        get_message(message_bytes(message) + rest) == Ok::<_, IpcErrorView>((message, rest)),
{
    if let IpcMessageView::Answer { subject, value, revision, evidence } = message {
        regroup4(
            u8_bytes(1),
            text_bytes(subject),
            text_bytes(value),
            optional_text_bytes(revision),
            text_list_bytes(evidence),
            rest,
        );
        checked_texts_fit("answer evidence"@, evidence);
        text_list_reads_back(evidence, rest);
        optional_text_reads_back(revision, text_list_bytes(evidence) + rest);
        text_reads_back(value, optional_text_bytes(revision) + (text_list_bytes(evidence) + rest));
        text_reads_back(
            subject,
            text_bytes(value)
                + (optional_text_bytes(revision) + (text_list_bytes(evidence) + rest)),
        );
        get_u8_of_bytes(
            1,
            text_bytes(subject)
                + (text_bytes(value) + (optional_text_bytes(revision) + (text_list_bytes(evidence) + rest))),
        );
    }
}

proof fn assumption_reads_back(message: IpcMessageView, rest: Seq<u8>)
    requires
        message is Assumption,
        message_check(message) is Ok,
    ensures
        get_message(message_bytes(message) + rest) == Ok::<_, IpcErrorView>((message, rest)),
{
    if let IpcMessageView::Assumption { subject, normalized_value, claim, evidence } = message {
        regroup4(
            u8_bytes(2),
            text_bytes(subject),
            text_bytes(normalized_value),
            text_bytes(claim),
            text_list_bytes(evidence),
            rest,
        );
        checked_texts_fit("assumption evidence"@, evidence);
        text_list_reads_back(evidence, rest);
        text_reads_back(claim, text_list_bytes(evidence) + rest);
        text_reads_back(normalized_value, text_bytes(claim) + (text_list_bytes(evidence) + rest));
        text_reads_back(
            subject,
            text_bytes(normalized_value) + (text_bytes(claim) + (text_list_bytes(evidence) + rest)),
        );
        get_u8_of_bytes(
            2,
            text_bytes(subject)
                + (text_bytes(normalized_value) + (text_bytes(claim) + (text_list_bytes(evidence) + rest))),
        );
    }
}

proof fn decision_reads_back(message: IpcMessageView, rest: Seq<u8>)
    requires
        message is Decision,
        message_check(message) is Ok,
    ensures
        get_message(message_bytes(message) + rest) == Ok::<_, IpcErrorView>((message, rest)),
{
    if let IpcMessageView::Decision { subject, value, rationale } = message {
        regroup3(u8_bytes(3), text_bytes(subject), text_bytes(value), text_bytes(rationale), rest);
        text_reads_back(rationale, rest);
        text_reads_back(value, text_bytes(rationale) + rest);
        text_reads_back(subject, text_bytes(value) + (text_bytes(rationale) + rest));
        get_u8_of_bytes(
            3,
            text_bytes(subject) + (text_bytes(value) + (text_bytes(rationale) + rest)),
        );
    }
}

proof fn conflict_reads_back(message: IpcMessageView, rest: Seq<u8>)
    requires
        message is Conflict,
        message_check(message) is Ok,
    ensures
        get_message(message_bytes(message) + rest) == Ok::<_, IpcErrorView>((message, rest)),
{
    if let IpcMessageView::Conflict { subject, left, right, affected } = message {
        regroup4(
            u8_bytes(4),
            text_bytes(subject),
            text_bytes(left),
            text_bytes(right),
            text_list_bytes(affected),
            rest,
        );
        checked_texts_fit("conflict affected"@, affected);
        text_list_reads_back(affected, rest);
        text_reads_back(right, text_list_bytes(affected) + rest);
        text_reads_back(left, text_bytes(right) + (text_list_bytes(affected) + rest));
        text_reads_back(
            subject,
            text_bytes(left) + (text_bytes(right) + (text_list_bytes(affected) + rest)),
        );
        get_u8_of_bytes(
            4,
            text_bytes(subject)
                + (text_bytes(left) + (text_bytes(right) + (text_list_bytes(affected) + rest))),
        );
    }
}

proof fn blocked_reads_back(message: IpcMessageView, rest: Seq<u8>)
    requires
        message is Blocked,
        message_check(message) is Ok,
    ensures
        get_message(message_bytes(message) + rest) == Ok::<_, IpcErrorView>((message, rest)),
{
    if let IpcMessageView::Blocked { reason } = message {
        regroup1(u8_bytes(5), text_bytes(reason), rest);
        text_reads_back(reason, rest);
        get_u8_of_bytes(5, text_bytes(reason) + rest);
    }
}

proof fn progress_reads_back(message: IpcMessageView, rest: Seq<u8>)
    requires
        message is Progress,
        message_check(message) is Ok,
    ensures
        get_message(message_bytes(message) + rest) == Ok::<_, IpcErrorView>((message, rest)),
{
    if let IpcMessageView::Progress { summary, completed_millis } = message {
        regroup2(u8_bytes(6), text_bytes(summary), u16_bytes(completed_millis), rest);
        get_u16_of_bytes(completed_millis, rest);
        text_reads_back(summary, u16_bytes(completed_millis) + rest);
        get_u8_of_bytes(6, text_bytes(summary) + (u16_bytes(completed_millis) + rest));
    }
}

proof fn artifact_reads_back(message: IpcMessageView, rest: Seq<u8>)
    requires
        message is Artifact,
        message_check(message) is Ok,
    ensures
        get_message(message_bytes(message) + rest) == Ok::<_, IpcErrorView>((message, rest)),
{
    if let IpcMessageView::Artifact { reference, description } = message {
        regroup2(u8_bytes(7), text_bytes(reference), text_bytes(description), rest);
        text_reads_back(description, rest);
        text_reads_back(reference, text_bytes(description) + rest);
        get_u8_of_bytes(7, text_bytes(reference) + (text_bytes(description) + rest));
    }
}

proof fn review_request_reads_back(message: IpcMessageView, rest: Seq<u8>)
    requires
        message is ReviewRequest,
        message_check(message) is Ok,
    ensures
        get_message(message_bytes(message) + rest) == Ok::<_, IpcErrorView>((message, rest)),
{
    if let IpcMessageView::ReviewRequest { subject, instructions } = message {
        regroup2(u8_bytes(8), text_bytes(subject), text_bytes(instructions), rest);
        text_reads_back(instructions, rest);
        text_reads_back(subject, text_bytes(instructions) + rest);
        get_u8_of_bytes(8, text_bytes(subject) + (text_bytes(instructions) + rest));
    }
}

proof fn warning_reads_back(message: IpcMessageView, rest: Seq<u8>)
    requires
        message is Warning,
        message_check(message) is Ok,
    ensures
        get_message(message_bytes(message) + rest) == Ok::<_, IpcErrorView>((message, rest)),
{
    if let IpcMessageView::Warning { subject, message } = message {
        regroup2(u8_bytes(9), text_bytes(subject), text_bytes(message), rest);
        text_reads_back(message, rest);
        text_reads_back(subject, text_bytes(message) + rest);
        get_u8_of_bytes(9, text_bytes(subject) + (text_bytes(message) + rest));
    }
}

proof fn handoff_reads_back(message: IpcMessageView, rest: Seq<u8>)
    requires
        message is Handoff,
        message_check(message) is Ok,
    ensures
        get_message(message_bytes(message) + rest) == Ok::<_, IpcErrorView>((message, rest)),
{
    if let IpcMessageView::Handoff { summary } = message {
        regroup1(u8_bytes(10), text_bytes(summary), rest);
        text_reads_back(summary, rest);
        get_u8_of_bytes(10, text_bytes(summary) + rest);
    }
}

proof fn contract_update_reads_back(message: IpcMessageView, rest: Seq<u8>)
    requires
        message is ContractUpdate,
        message_check(message) is Ok,
    ensures
        get_message(message_bytes(message) + rest) == Ok::<_, IpcErrorView>((message, rest)),
{
    if let IpcMessageView::ContractUpdate { subject, revision, value } = message {
        regroup3(u8_bytes(11), text_bytes(subject), text_bytes(revision), text_bytes(value), rest);
        text_reads_back(value, rest);
        text_reads_back(revision, text_bytes(value) + rest);
        text_reads_back(subject, text_bytes(revision) + (text_bytes(value) + rest));
        get_u8_of_bytes(
            11,
            text_bytes(subject) + (text_bytes(revision) + (text_bytes(value) + rest)),
        );
    }
}

proof fn ownership_request_reads_back(message: IpcMessageView, rest: Seq<u8>)
    requires
        message is OwnershipRequest,
        message_check(message) is Ok,
    ensures
        get_message(message_bytes(message) + rest) == Ok::<_, IpcErrorView>((message, rest)),
{
    if let IpcMessageView::OwnershipRequest { resource, reason } = message {
        regroup2(u8_bytes(12), text_bytes(resource), text_bytes(reason), rest);
        text_reads_back(reason, rest);
        text_reads_back(resource, text_bytes(reason) + rest);
        get_u8_of_bytes(12, text_bytes(resource) + (text_bytes(reason) + rest));
    }
}

proof fn message_reads_back(message: IpcMessageView, rest: Seq<u8>)
    requires
        message_check(message) is Ok,
    ensures
        get_message(message_bytes(message) + rest) == Ok::<_, IpcErrorView>((message, rest)),
{
    match message {
        IpcMessageView::Question { .. } => question_reads_back(message, rest),
        IpcMessageView::Answer { .. } => answer_reads_back(message, rest),
        IpcMessageView::Assumption { .. } => assumption_reads_back(message, rest),
        IpcMessageView::Decision { .. } => decision_reads_back(message, rest),
        IpcMessageView::Conflict { .. } => conflict_reads_back(message, rest),
        IpcMessageView::Blocked { .. } => blocked_reads_back(message, rest),
        IpcMessageView::Progress { .. } => progress_reads_back(message, rest),
        IpcMessageView::Artifact { .. } => artifact_reads_back(message, rest),
        IpcMessageView::ReviewRequest { .. } => review_request_reads_back(message, rest),
        IpcMessageView::Warning { .. } => warning_reads_back(message, rest),
        IpcMessageView::Handoff { .. } => handoff_reads_back(message, rest),
        IpcMessageView::ContractUpdate { .. } => contract_update_reads_back(message, rest),
        IpcMessageView::OwnershipRequest { .. } => ownership_request_reads_back(message, rest),
    }
}

proof fn body_reads_back(
    version: u16,
    head: IpcEnvelopeView,
    envelope: IpcEnvelopeView,
    rest: Seq<u8>,
)
    requires
        version == LEGACY_IPC_SCHEMA_VERSION || version == IPC_SCHEMA_VERSION,
        envelope_check(envelope) is Ok,
        version == LEGACY_IPC_SCHEMA_VERSION ==> envelope.input_origins.len() == 0,
        head.id == envelope.id,
        head.run_id == envelope.run_id,
        head.task_id == envelope.task_id,
        head.sender == envelope.sender,
        head.recipient == envelope.recipient,
    ensures
        ({
            let message = message_bytes(envelope.payload) + rest;
            let origins = if version == IPC_SCHEMA_VERSION {
                input_origin_bytes(envelope.input_origins) + message
            } else {
                message
            };
            let body = causal_bytes(envelope.causal_event_ids) + (provenance_bytes(
                envelope.provenance,
            ) + origins);
            get_body(version, head, body) == Ok::<_, IpcErrorView>((envelope, rest))
        }),
{
    let message = message_bytes(envelope.payload) + rest;
    message_reads_back(envelope.payload, rest);
    let origins = if version == IPC_SCHEMA_VERSION {
        input_origin_bytes(envelope.input_origins) + message
    } else {
        message
    };
    input_origins_read_back(envelope.input_origins, message);
    provenance_reads_back(envelope.provenance, origins);
    causal_events_read_back(
        envelope.causal_event_ids,
        provenance_bytes(envelope.provenance) + origins,
    );
    if version == LEGACY_IPC_SCHEMA_VERSION {
        assert(envelope.input_origins =~= seq![]);
    }
}

proof fn task_reads_back(task_id: Option<TaskId>, rest: Seq<u8>)
    ensures
        get_task(optional_u64_bytes(task_value(task_id)) + rest) == Ok::<_, IpcErrorView>(
            (task_id, rest),
        ),
{
    match task_id {
        Some(id) => {
            regroup1(u8_bytes(1), u64_bytes(id.0), rest);
            get_u8_of_bytes(1, u64_bytes(id.0) + rest);
            get_u64_of_bytes(id.0, rest);
        },
        None => {
            get_u8_of_bytes(0, rest);
        },
    }
}

proof fn header_reads_back(version: u16, envelope: IpcEnvelopeView, body: Seq<u8>)
    ensures
        get_envelope(version, header_bytes(envelope) + body) == get_body(
            version,
            IpcEnvelopeView {
                causal_event_ids: seq![],
                provenance: IpcProvenanceView::Agent,
                input_origins: seq![],
                payload: IpcMessageView::Handoff { summary: seq![] },
                ..envelope
            },
            body,
        ),
{
    let d = u64_bytes(envelope.recipient.0) + body;
    let c = u64_bytes(envelope.sender.0) + d;
    let b = optional_u64_bytes(task_value(envelope.task_id)) + c;
    let a = u64_bytes(envelope.run_id.0) + b;
    regroup4(
        u64_bytes(envelope.id.0),
        u64_bytes(envelope.run_id.0),
        optional_u64_bytes(task_value(envelope.task_id)),
        u64_bytes(envelope.sender.0),
        u64_bytes(envelope.recipient.0),
        body,
    );
    get_u64_of_bytes(envelope.id.0, a);
    get_u64_of_bytes(envelope.run_id.0, b);
    task_reads_back(envelope.task_id, c);
    get_u64_of_bytes(envelope.sender.0, d);
    get_u64_of_bytes(envelope.recipient.0, body);
}

/// What an envelope is read with before its body is.
spec fn bodiless(envelope: IpcEnvelopeView) -> IpcEnvelopeView {
    IpcEnvelopeView {
        causal_event_ids: seq![],
        provenance: IpcProvenanceView::Agent,
        input_origins: seq![],
        payload: IpcMessageView::Handoff { summary: seq![] },
        ..envelope
    }
}

proof fn envelope_reads_back(envelope: IpcEnvelopeView, rest: Seq<u8>)
    requires
        envelope_check(envelope) is Ok,
    ensures
        get_envelope(IPC_SCHEMA_VERSION, envelope_bytes(envelope) + rest) == Ok::<_, IpcErrorView>(
            (envelope, rest),
        ),
{
    let message = message_bytes(envelope.payload) + rest;
    let body = causal_bytes(envelope.causal_event_ids) + (provenance_bytes(envelope.provenance) + (
    input_origin_bytes(envelope.input_origins) + message));
    regroup4(
        header_bytes(envelope),
        causal_bytes(envelope.causal_event_ids),
        provenance_bytes(envelope.provenance),
        input_origin_bytes(envelope.input_origins),
        message_bytes(envelope.payload),
        rest,
    );
    assert(envelope_bytes(envelope) + rest == header_bytes(envelope) + body);
    header_reads_back(IPC_SCHEMA_VERSION, envelope, body);
    body_reads_back(IPC_SCHEMA_VERSION, bodiless(envelope), envelope, rest);
}

/// Decoding gives back every envelope that can be encoded.
pub proof fn decoding_inverts_encoding(envelope: IpcEnvelopeView)
    requires
        encoded(envelope) is Ok,
    ensures
        decoded(IPC_SCHEMA_VERSION, encoded(envelope)->Ok_0) == Ok::<
            IpcEnvelopeView,
            IpcErrorView,
        >(envelope),
        encoded(envelope)->Ok_0.len() <= MAX_ENVELOPE_BYTES,
{
    let empty = Seq::<u8>::empty();
    assert(envelope_bytes(envelope) + empty =~= envelope_bytes(envelope));
    envelope_reads_back(envelope, empty);
}

/// Whatever follows an encoded envelope, it is refused.
pub proof fn trailing_bytes_are_refused(envelope: IpcEnvelopeView, more: Seq<u8>)
    requires
        encoded(envelope) is Ok,
        more.len() > 0,
    ensures
        decoded(IPC_SCHEMA_VERSION, encoded(envelope)->Ok_0 + more) is Err,
{
    envelope_reads_back(envelope, more);
}

/// A version that is neither the current nor the legacy one is refused,
/// whatever the bytes.
pub proof fn other_versions_are_refused(version: u16, bytes: Seq<u8>)
    requires
        version != IPC_SCHEMA_VERSION,
        version != LEGACY_IPC_SCHEMA_VERSION,
    ensures
        decoded(version, bytes) == Err::<IpcEnvelopeView, IpcErrorView>(
            IpcErrorView::UnsupportedVersion(version),
        ),
{
}

/// Envelopes of the legacy schema decode as envelopes without input origins.
pub proof fn legacy_envelopes_still_decode(envelope: IpcEnvelopeView)
    requires
        envelope_check(envelope) is Ok,
        envelope.input_origins.len() == 0,
        legacy_envelope_bytes(envelope).len() <= MAX_ENVELOPE_BYTES,
    ensures
        decoded(LEGACY_IPC_SCHEMA_VERSION, legacy_envelope_bytes(envelope)) == Ok::<
            IpcEnvelopeView,
            IpcErrorView,
        >(envelope),
{
    let empty = Seq::<u8>::empty();
    let message = message_bytes(envelope.payload);
    assert(message + empty =~= message);
    let body = causal_bytes(envelope.causal_event_ids) + (provenance_bytes(envelope.provenance)
        + message);
    regroup2(
        header_bytes(envelope),
        causal_bytes(envelope.causal_event_ids),
        provenance_bytes(envelope.provenance),
        message,
    );
    assert(legacy_envelope_bytes(envelope) == header_bytes(envelope) + body);
    header_reads_back(LEGACY_IPC_SCHEMA_VERSION, envelope, body);
    body_reads_back(LEGACY_IPC_SCHEMA_VERSION, bodiless(envelope), envelope, empty);
}

/// What is decoded from the legacy schema has no input origins.
pub proof fn legacy_envelopes_name_no_origins(bytes: Seq<u8>)
    ensures
        decoded(LEGACY_IPC_SCHEMA_VERSION, bytes) matches Ok(envelope)
            ==> envelope.input_origins.len() == 0,
{
}

/// Whatever is decoded is valid.
pub proof fn decoded_envelopes_are_valid(version: u16, bytes: Seq<u8>)
    ensures
        decoded(version, bytes) is Ok ==> envelope_check(decoded(version, bytes)->Ok_0) is Ok,
{
}

// ---------------------------------------------------------------------------
// Bounded delivery.

impl Clone for IpcProvenance {
    fn clone(&self) -> (copy: IpcProvenance)
        ensures
            copy@ == self@,
    {
        match self {
            IpcProvenance::Runtime => IpcProvenance::Runtime,
            IpcProvenance::Agent => IpcProvenance::Agent,
            IpcProvenance::User => IpcProvenance::User,
            IpcProvenance::TrustedProject => IpcProvenance::TrustedProject,
            IpcProvenance::External { source } => IpcProvenance::External {
                source: source.clone(),
            },
            IpcProvenance::RemoteAgent { source } => IpcProvenance::RemoteAgent {
                source: source.clone(),
            },
            IpcProvenance::WebUntrusted { source } => IpcProvenance::WebUntrusted {
                source: source.clone(),
            },
            IpcProvenance::McpMetadata { source } => IpcProvenance::McpMetadata {
                source: source.clone(),
            },
            IpcProvenance::McpResult { source } => IpcProvenance::McpResult {
                source: source.clone(),
            },
        }
    }
}

fn clone_optional_text(text: &Option<String>) -> (copy: Option<String>)
    ensures
        optional_text(copy) == optional_text(*text),
{
    match text {
        Some(text) => Some(text.clone()),
        None => None,
    }
}

impl Clone for IpcMessage {
    fn clone(&self) -> (copy: IpcMessage)
        ensures
            copy@ == self@,
    {
        match self {
            IpcMessage::Question { subject, why } => IpcMessage::Question {
                subject: subject.clone(),
                why: why.clone(),
            },
            IpcMessage::Answer { subject, value, revision, evidence } => IpcMessage::Answer {
                subject: subject.clone(),
                value: value.clone(),
                revision: clone_optional_text(revision),
                evidence: clone_texts(evidence),
            },
            IpcMessage::Assumption {
                subject,
                normalized_value,
                claim,
                evidence,
            } => IpcMessage::Assumption {
                subject: subject.clone(),
                normalized_value: normalized_value.clone(),
                claim: claim.clone(),
                evidence: clone_texts(evidence),
            },
            IpcMessage::Decision { subject, value, rationale } => IpcMessage::Decision {
                subject: subject.clone(),
                value: value.clone(),
                rationale: rationale.clone(),
            },
            IpcMessage::Conflict { subject, left, right, affected } => IpcMessage::Conflict {
                subject: subject.clone(),
                left: left.clone(),
                right: right.clone(),
                affected: clone_texts(affected),
            },
            IpcMessage::Blocked { reason } => IpcMessage::Blocked { reason: reason.clone() },
            IpcMessage::Progress { summary, completed_millis } => IpcMessage::Progress {
                summary: summary.clone(),
                completed_millis: *completed_millis,
            },
            IpcMessage::Artifact { reference, description } => IpcMessage::Artifact {
                reference: reference.clone(),
                description: description.clone(),
            },
            IpcMessage::ReviewRequest { subject, instructions } => IpcMessage::ReviewRequest {
                subject: subject.clone(),
                instructions: instructions.clone(),
            },
            IpcMessage::Warning { subject, message } => IpcMessage::Warning {
                subject: subject.clone(),
                message: message.clone(),
            },
            IpcMessage::Handoff { summary } => IpcMessage::Handoff { summary: summary.clone() },
            IpcMessage::ContractUpdate { subject, revision, value } => IpcMessage::ContractUpdate {
                subject: subject.clone(),
                revision: revision.clone(),
                value: value.clone(),
            },
            IpcMessage::OwnershipRequest { resource, reason } => IpcMessage::OwnershipRequest {
                resource: resource.clone(),
                reason: reason.clone(),
            },
        }
    }
}

impl Clone for IpcEnvelope {
    fn clone(&self) -> (copy: IpcEnvelope)
        ensures
            copy@ == self@,
    {
        IpcEnvelope {
            id: self.id,
            run_id: self.run_id,
            task_id: self.task_id,
            sender: self.sender,
            recipient: self.recipient,
            causal_event_ids: vstd::slice::slice_to_vec(self.causal_event_ids.as_slice()),
            provenance: self.provenance.clone(),
            input_origins: vstd::slice::slice_to_vec(self.input_origins.as_slice()),
            payload: self.payload.clone(),
        }
    }
}

/// A bounded first-in, first-out queue of valid envelopes.
#[derive(Debug, PartialEq, Eq)]
pub struct BoundedMailbox {
    capacity: usize,
    queue: VecDeque<IpcEnvelope>,
}

impl View for BoundedMailbox {
    type V = Seq<IpcEnvelope>;

    closed spec fn view(&self) -> Seq<IpcEnvelope> {
        self.queue@
    }
}

impl Clone for BoundedMailbox {
    fn clone(&self) -> (copy: BoundedMailbox)
        ensures
            copy.limit() == self.limit(),
            copy@.len() == self@.len(),
            forall|i: int| 0 <= i < self@.len() ==> (#[trigger] copy@[i])@ == self@[i]@,
    {
        proof {
            use_type_invariant(self);
        }
        let mut queue: VecDeque<IpcEnvelope> = VecDeque::new();
        let mut index: usize = 0;
        while index < self.queue.len()
            invariant
                index <= self.queue@.len(),
                queue@.len() == index,
                forall|i: int| 0 <= i < index ==> (#[trigger] queue@[i])@ == self.queue@[i]@,
            decreases self.queue.len() - index,
        {
            queue.push_back(self.queue[index].clone());
            index += 1;
        }
        BoundedMailbox { capacity: self.capacity, queue }
    }
}

impl BoundedMailbox {
    pub closed spec fn limit(&self) -> usize {
        self.capacity
    }

    #[verifier::type_invariant]
    closed spec fn within_capacity(self) -> bool {
        self.capacity > 0 && self.queue@.len() <= self.capacity
    }

    pub fn new(capacity: usize) -> (result: Result<BoundedMailbox, IpcError>)
        ensures
            match result {
                Ok(mailbox) => capacity > 0 && mailbox.limit() == capacity && mailbox@
                    == Seq::<IpcEnvelope>::empty(),
                Err(error) => capacity == 0 && error@ == IpcErrorView::MailboxCapacityZero,
            },
    {
        if capacity == 0 {
            return Err(IpcError::MailboxCapacityZero);
        }
        let reserved: usize = if capacity < 1024 {
            capacity
        } else {
            1024
        };
        Ok(BoundedMailbox { capacity, queue: VecDeque::with_capacity(reserved) })
    }

    pub fn capacity(&self) -> (capacity: usize)
        ensures
            capacity == self.limit(),
            capacity > 0,
    {
        proof {
            use_type_invariant(self);
        }
        self.capacity
    }

    pub fn len(&self) -> (length: usize)
        ensures
            length == self@.len(),
            length <= self.limit(),
    {
        proof {
            use_type_invariant(self);
        }
        self.queue.len()
    }

    pub fn is_empty(&self) -> (empty: bool)
        ensures
            empty == (self@.len() == 0),
    {
        self.queue.len() == 0
    }

    pub fn is_full(&self) -> (full: bool)
        ensures
            full == (self@.len() >= self.limit()),
    {
        self.queue.len() >= self.capacity
    }

    /// Puts a valid envelope at the end, unless the mailbox is full.
    pub fn try_send(&mut self, envelope: IpcEnvelope) -> (result: Result<(), IpcError>)
        ensures
            final(self).limit() == old(self).limit(),
            match envelope_check(envelope@) {
                Err(error) => result is Err && result->Err_0@ == error && final(self)@
                    == old(self)@,
                Ok(_) => if old(self)@.len() >= old(self).limit() {
                    result is Err && result->Err_0@ == (IpcErrorView::MailboxFull {
                        recipient: envelope.recipient,
                    }) && final(self)@ == old(self)@
                } else {
                    result is Ok && final(self)@ == old(self)@.push(envelope)
                },
            },
            final(self)@.len() <= final(self).limit(),
    {
        proof {
            use_type_invariant(&*self);
        }
        envelope.validate()?;
        if self.is_full() {
            return Err(IpcError::MailboxFull { recipient: envelope.recipient });
        }
        let mut taken = BoundedMailbox { capacity: self.capacity, queue: VecDeque::new() };
        std::mem::swap(self, &mut taken);
        let BoundedMailbox { capacity, queue: mut queue } = taken;
        queue.push_back(envelope);
        *self = BoundedMailbox { capacity, queue };
        Ok(())
    }

    /// Takes the oldest envelope.
    pub fn receive(&mut self) -> (envelope: Option<IpcEnvelope>)
        ensures
            final(self).limit() == old(self).limit(),
            if old(self)@.len() == 0 {
                envelope is None && final(self)@ == old(self)@
            } else {
                envelope == Some(old(self)@[0]) && final(self)@ == old(self)@.skip(1)
            },
    {
        proof {
            use_type_invariant(&*self);
        }
        let mut taken = BoundedMailbox { capacity: self.capacity, queue: VecDeque::new() };
        std::mem::swap(self, &mut taken);
        let BoundedMailbox { capacity, queue: mut queue } = taken;
        let envelope = queue.pop_front();
        *self = BoundedMailbox { capacity, queue };
        proof {
            if old(self)@.len() > 0 {
                assert(self.queue@ =~= old(self)@.skip(1));
            }
        }
        envelope
    }
}

/// Envelopes leave in the order in which they came: with `waiting` ahead,
/// the envelope put at the end is the one received after them.
pub proof fn mailbox_is_first_in_first_out(queue: Seq<IpcEnvelope>, sent: IpcEnvelope)
    ensures
        queue.push(sent).skip(queue.len() as int) == seq![sent],
        queue.len() > 0 ==> queue.push(sent)[0] == queue[0] && queue.push(sent).skip(1)
            == queue.skip(1).push(sent),
{
    assert(queue.push(sent).skip(queue.len() as int) =~= seq![sent]);
    if queue.len() > 0 {
        assert(queue.push(sent).skip(1) =~= queue.skip(1).push(sent));
    }
}

} // verus!
