//! Moving events from a parent run into a forked child run.

use vstd::prelude::*;

use crate::assumptions::{self, AssumptionTransitionView, ASSUMPTION_SCHEMA_VERSION};
use crate::ids::{EventId, IdSource, RunId};
use crate::ipc::{self, IpcEnvelope, IpcEnvelopeView, IPC_SCHEMA_VERSION};
use crate::kernel::{Event, EventKind, EventKindView, EventView};
use crate::text::clone_bytes;

verus! {

/// A payload with the schema version it is written in.
#[derive(Clone, Debug, PartialEq, Eq)]
pub struct VersionedPayload {
    pub version: u16,
    pub payload: Vec<u8>,
}

impl View for VersionedPayload {
    type V = (u16, Seq<u8>);

    open spec fn view(&self) -> (u16, Seq<u8>) {
        (self.version, self.payload@)
    }
}

/// A message re-encoded for another run under the current schema. What
/// cannot be decoded or encoded keeps its bytes and its version.
pub open spec fn message_in_run(version: u16, payload: Seq<u8>, run_id: RunId) -> (u16, Seq<u8>) {
    match ipc::decoded(version, payload) {
        Ok(envelope) => match ipc::encoded(IpcEnvelopeView { run_id, ..envelope }) {
            Ok(bytes) => (IPC_SCHEMA_VERSION, bytes),
            Err(_) => (version, payload),
        },
        Err(_) => (version, payload),
    }
}

/// An assumption transition re-encoded for another run under the current
/// schema. What cannot be decoded or encoded keeps its bytes and its version.
pub open spec fn assumption_in_run(version: u16, payload: Seq<u8>, run_id: RunId) -> (
    u16,
    Seq<u8>,
) {
    match assumptions::decoded(version, payload) {
        Ok(transition) => match assumptions::encoded(transition.in_run(run_id)) {
            Ok(bytes) => (ASSUMPTION_SCHEMA_VERSION, bytes),
            Err(_) => (version, payload),
        },
        Err(_) => (version, payload),
    }
}

/// A tool payload: the one that the tool runtime re-encoded, where there is
/// one.
pub open spec fn tool_in_run(
    version: u16,
    payload: Seq<u8>,
    reencoded: Option<(u16, Seq<u8>)>,
) -> (u16, Seq<u8>) {
    match reencoded {
        Some(payload) => payload,
        None => (version, payload),
    }
}

/// The kind of an event moved to another run.
pub open spec fn kind_in_run(
    kind: EventKindView,
    run_id: RunId,
    tool: Option<(u16, Seq<u8>)>,
) -> EventKindView {
    match kind {
        EventKindView::RunCreated { .. } => EventKindView::RunCreated { run_id },
        EventKindView::TaskCreated { task_id, title, .. } => EventKindView::TaskCreated {
            task_id,
            run_id,
            title,
        },
        EventKindView::RunCompleted { .. } => EventKindView::RunCompleted { run_id },
        EventKindView::RunCancelled { .. } => EventKindView::RunCancelled { run_id },
        EventKindView::RunFailed { message, .. } => EventKindView::RunFailed { run_id, message },
        EventKindView::AgentMessage { version, payload } => {
            let moved = message_in_run(version, payload, run_id);
            EventKindView::AgentMessage { version: moved.0, payload: moved.1 }
        },
        EventKindView::AssumptionTransition { version, payload } => {
            let moved = assumption_in_run(version, payload, run_id);
            EventKindView::AssumptionTransition { version: moved.0, payload: moved.1 }
        },
        EventKindView::ToolTransition { version, payload } => {
            let moved = tool_in_run(version, payload, tool);
            EventKindView::ToolTransition { version: moved.0, payload: moved.1 }
        },
        other => other,
    }
}

/// An event moved to another run under a new identity; its time is kept.
pub open spec fn event_in_run(
    event: EventView,
    run_id: RunId,
    id: EventId,
    tool: Option<(u16, Seq<u8>)>,
) -> EventView {
    EventView {
        id,
        run_id,
        occurred_at_ms: event.occurred_at_ms,
        kind: kind_in_run(event.kind, run_id, tool),
    }
}

fn move_message(version: u16, payload: &Vec<u8>, run_id: RunId) -> (moved: VersionedPayload)
    ensures
        moved@ == message_in_run(version, payload@, run_id),
{
    match IpcEnvelope::decode(version, payload.as_slice()) {
        Ok(envelope) => match envelope.with_run_id(run_id).encode() {
            Ok(bytes) => VersionedPayload { version: IPC_SCHEMA_VERSION, payload: bytes },
            Err(_) => VersionedPayload { version, payload: clone_bytes(payload) },
        },
        Err(_) => VersionedPayload { version, payload: clone_bytes(payload) },
    }
}

fn move_assumption(version: u16, payload: &Vec<u8>, run_id: RunId) -> (moved: VersionedPayload)
    ensures
        moved@ == assumption_in_run(version, payload@, run_id),
{
    match assumptions::decode_transition(version, payload.as_slice()) {
        Ok(transition) => match assumptions::encode_transition(&transition.with_run_id(run_id)) {
            Ok(bytes) => VersionedPayload { version: ASSUMPTION_SCHEMA_VERSION, payload: bytes },
            Err(_) => VersionedPayload { version, payload: clone_bytes(payload) },
        },
        Err(_) => VersionedPayload { version, payload: clone_bytes(payload) },
    }
}

/// The view of an optional payload.
pub open spec fn optional_payload(payload: Option<&VersionedPayload>) -> Option<(u16, Seq<u8>)> {
    match payload {
        Some(payload) => Some(payload@),
        None => None,
    }
}

/// Moves an event to a child run: references to the parent run are replaced,
/// messages and assumptions are re-encoded in the child's scope, and a tool
/// transition takes the payload that the tool runtime re-encoded for it.
pub fn remap_event_for_run(
    ids: &mut IdSource,
    event: &Event,
    child_run_id: RunId,
    tool: Option<&VersionedPayload>,
) -> (moved: Event)
    requires
        old(ids).can_issue(1),
    ensures
        moved@ == event_in_run(
            event@,
            child_run_id,
            EventId(old(ids).upcoming(0)),
            optional_payload(tool),
        ),
        final(ids).issued_from(old(ids), 1),
{
    let run_id = child_run_id;
    let kind = match &event.kind {
        EventKind::RunCreated { .. } => EventKind::RunCreated { run_id },
        EventKind::TaskCreated { task_id, title, .. } => EventKind::TaskCreated {
            task_id: *task_id,
            run_id,
            title: title.clone(),
        },
        EventKind::RunCompleted { .. } => EventKind::RunCompleted { run_id },
        EventKind::RunCancelled { .. } => EventKind::RunCancelled { run_id },
        EventKind::RunFailed { message, .. } => EventKind::RunFailed {
            run_id,
            message: message.clone(),
        },
        EventKind::AgentMessage { version, payload } => {
            let moved = move_message(*version, payload, run_id);
            EventKind::AgentMessage { version: moved.version, payload: moved.payload }
        },
        EventKind::AssumptionTransition { version, payload } => {
            let moved = move_assumption(*version, payload, run_id);
            EventKind::AssumptionTransition { version: moved.version, payload: moved.payload }
        },
        EventKind::ToolTransition { version, payload } => match tool {
            Some(moved) => EventKind::ToolTransition {
                version: moved.version,
                payload: clone_bytes(&moved.payload),
            },
            None => EventKind::ToolTransition {
                version: *version,
                payload: clone_bytes(payload),
            },
        },
        other => other.clone(),
    };
    Event { id: EventId::new(ids), run_id, occurred_at_ms: event.occurred_at_ms, kind }
}

// ---------------------------------------------------------------------------
// Laws of moving.

/// A moved message that decodes is the same message, in the child run.
pub proof fn moved_messages_keep_their_content(version: u16, payload: Seq<u8>, run_id: RunId)
    requires
        ipc::decoded(version, payload) is Ok,
        ipc::encoded(
            IpcEnvelopeView { run_id, ..ipc::decoded(version, payload)->Ok_0 },
        ) is Ok,
    ensures
        ({
            let moved = message_in_run(version, payload, run_id);
            moved.0 == IPC_SCHEMA_VERSION && ipc::decoded(moved.0, moved.1) == Ok::<
                IpcEnvelopeView,
                ipc::IpcErrorView,
            >(IpcEnvelopeView { run_id, ..ipc::decoded(version, payload)->Ok_0 })
        }),
{
    ipc::decoding_inverts_encoding(
        IpcEnvelopeView { run_id, ..ipc::decoded(version, payload)->Ok_0 },
    );
}

/// A moved assumption transition that decodes is the same transition, in the
/// child run.
pub proof fn moved_assumptions_keep_their_content(version: u16, payload: Seq<u8>, run_id: RunId)
    requires
        assumptions::decoded(version, payload) is Ok,
        assumptions::encoded(assumptions::decoded(version, payload)->Ok_0.in_run(run_id)) is Ok,
    ensures
        ({
            let moved = assumption_in_run(version, payload, run_id);
            moved.0 == ASSUMPTION_SCHEMA_VERSION && assumptions::decoded(moved.0, moved.1) == Ok::<
                AssumptionTransitionView,
                assumptions::AssumptionErrorView,
            >(assumptions::decoded(version, payload)->Ok_0.in_run(run_id))
        }),
{
    assumptions::decoding_inverts_encoding(
        assumptions::decoded(version, payload)->Ok_0.in_run(run_id),
    );
}

/// Opaque payloads that cannot be decoded keep their bytes and their schema
/// version.
pub proof fn undecodable_payloads_are_preserved(version: u16, payload: Seq<u8>, run_id: RunId)
    ensures
        ipc::decoded(version, payload) is Err ==> message_in_run(version, payload, run_id) == (
            version,
            payload,
        ),
        assumptions::decoded(version, payload) is Err ==> assumption_in_run(
            version,
            payload,
            run_id,
        ) == (version, payload),
        tool_in_run(version, payload, None) == (version, payload),
{
}

/// A moved event belongs to the child run, names no other run, and keeps its
/// time and what kind of event it is.
pub proof fn moved_events_belong_to_the_child(
    event: EventView,
    run_id: RunId,
    id: EventId,
    tool: Option<(u16, Seq<u8>)>,
)
    ensures
        ({
            let moved = event_in_run(event, run_id, id, tool);
            &&& moved.run_id == run_id
            &&& moved.occurred_at_ms == event.occurred_at_ms
            &&& moved.kind is RunCreated <==> event.kind is RunCreated
            &&& moved.kind matches EventKindView::RunCreated { run_id: named } ==> named == run_id
            &&& moved.kind matches EventKindView::TaskCreated { run_id: named, .. } ==> named
                == run_id
            &&& moved.kind matches EventKindView::RunCompleted { run_id: named } ==> named == run_id
            &&& moved.kind matches EventKindView::RunCancelled { run_id: named } ==> named == run_id
            &&& moved.kind matches EventKindView::RunFailed { run_id: named, .. } ==> named
                == run_id
        }),
{
}

} // verus!
