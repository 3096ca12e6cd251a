//! One agent's run against a model provider: what each item of the
//! provider's stream does to the run, and what the run records.

use vstd::prelude::*;
use vstd::string::StringExecFns;
use vstd::utf8::encode_utf8;

use crate::ids::{AgentId, EventId, IdSource, RunId, TaskId};
use crate::kernel::{
    event_views, AgentIdentity, AgentIdentityView, Event, EventKind, EventKindView, EventTrace,
    EventView, ModelRef, Run, Task, Usage,
};
use crate::table::Table;
use crate::text::{decimal, numbered, texts};

verus! {

pub const MAX_AGENT_OUTPUT_BYTES: usize = 4194304;

// ---------------------------------------------------------------------------
// What a provider says.

/// The bounds that a provider is held to.
#[derive(Clone, Copy, Debug, PartialEq, Eq)]
pub struct ProviderLimits {
    pub max_output_chunks: usize,
    pub max_payload_bytes: usize,
    pub max_tool_calls: usize,
}

/// A completed request of the model to run a tool. Running it is not the
/// provider's business.
#[derive(Clone, Debug, PartialEq, Eq)]
pub struct ToolCall {
    pub call_id: String,
    pub name: String,
    pub arguments: String,
}

pub struct ToolCallView {
    pub call_id: Seq<char>,
    pub name: Seq<char>,
    pub arguments: Seq<char>,
}

impl View for ToolCall {
    type V = ToolCallView;

    open spec fn view(&self) -> ToolCallView {
        ToolCallView {
            call_id: self.call_id@,
            name: self.name@,
            arguments: self.arguments@,
        }
    }
}

pub open spec fn call_views(calls: Seq<ToolCall>) -> Seq<ToolCallView> {
    calls.map_values(|call: ToolCall| call@)
}

#[derive(Clone, Copy, Debug, PartialEq, Eq, Structural)]
pub enum FinishReason {
    Completed,
    Cancelled,
}

#[derive(Clone, Debug, PartialEq, Eq)]
pub enum ProviderEvent {
    TextDelta { text: String },
    ReasoningDelta { text: String },
    ToolCallStarted { call_id: String, name: String },
    ToolCallArgumentsDelta { call_id: String, delta: String },
    ToolCallCompleted { call: ToolCall },
    Usage(Usage),
    Finish(FinishReason),
}

#[allow(inconsistent_fields)]
pub enum ProviderEventView {
    TextDelta { text: Seq<char> },
    ReasoningDelta { text: Seq<char> },
    ToolCallStarted { call_id: Seq<char>, name: Seq<char> },
    ToolCallArgumentsDelta { call_id: Seq<char>, delta: Seq<char> },
    ToolCallCompleted { call: ToolCallView },
    Usage(Usage),
    Finish(FinishReason),
}

impl View for ProviderEvent {
    type V = ProviderEventView;

    open spec fn view(&self) -> ProviderEventView {
        match *self {
            ProviderEvent::TextDelta { text } => ProviderEventView::TextDelta { text: text@ },
            ProviderEvent::ReasoningDelta { text } => ProviderEventView::ReasoningDelta {
                text: text@,
            },
            ProviderEvent::ToolCallStarted { call_id, name } => ProviderEventView::ToolCallStarted {
                call_id: call_id@,
                name: name@,
            },
            ProviderEvent::ToolCallArgumentsDelta { call_id, delta } =>
                ProviderEventView::ToolCallArgumentsDelta { call_id: call_id@, delta: delta@ },
            ProviderEvent::ToolCallCompleted { call } => ProviderEventView::ToolCallCompleted {
                call: call@,
            },
            ProviderEvent::Usage(usage) => ProviderEventView::Usage(usage),
            ProviderEvent::Finish(reason) => ProviderEventView::Finish(reason),
        }
    }
}

#[derive(Clone, Debug, PartialEq, Eq)]
pub enum ProviderError {
    Cancelled,
    Failed(String),
    MalformedStream(String),
}

pub enum ProviderErrorView {
    Cancelled,
    Failed(Seq<char>),
    MalformedStream(Seq<char>),
}

impl View for ProviderError {
    type V = ProviderErrorView;

    open spec fn view(&self) -> ProviderErrorView {
        match *self {
            ProviderError::Cancelled => ProviderErrorView::Cancelled,
            ProviderError::Failed(message) => ProviderErrorView::Failed(message@),
            ProviderError::MalformedStream(message) => ProviderErrorView::MalformedStream(
                message@,
            ),
        }
    }
}

impl ProviderErrorView {
    pub open spec fn text(self) -> Seq<char> {
        match self {
            ProviderErrorView::Cancelled => "provider request cancelled"@,
            ProviderErrorView::Failed(message) => "provider failed: "@ + message,
            ProviderErrorView::MalformedStream(message) => "malformed provider stream: "@
                + message,
        }
    }
}

impl ProviderError {
    pub fn to_text(&self) -> (text: String)
        ensures
            text@ == self@.text(),
    {
        match self {
            ProviderError::Cancelled => "provider request cancelled".to_owned(),
            ProviderError::Failed(message) => {
                let mut out = "provider failed: ".to_owned();
                out.append(message.as_str());
                out
            },
            ProviderError::MalformedStream(message) => {
                let mut out = "malformed provider stream: ".to_owned();
                out.append(message.as_str());
                out
            },
        }
    }
}

/// One item of a provider's stream: an event, an error in its place, or an
/// event that the provider's own rules refuse.
#[derive(Clone, Debug, PartialEq, Eq)]
pub enum StreamItem {
    Event(ProviderEvent),
    Failed(ProviderError),
    Refused(ProviderError),
}

pub enum StreamItemView {
    Event(ProviderEventView),
    Failed(ProviderErrorView),
    Refused(ProviderErrorView),
}

impl View for StreamItem {
    type V = StreamItemView;

    open spec fn view(&self) -> StreamItemView {
        match *self {
            StreamItem::Event(event) => StreamItemView::Event(event@),
            StreamItem::Failed(error) => StreamItemView::Failed(error@),
            StreamItem::Refused(error) => StreamItemView::Refused(error@),
        }
    }
}

/// An item as it arrives: when, and whether the run was cancelled by then.
#[derive(Clone, Debug, PartialEq, Eq)]
pub struct StreamStep {
    pub at_ms: u128,
    pub cancelled: bool,
    pub item: StreamItem,
}

pub struct StreamStepView {
    pub at_ms: u128,
    pub cancelled: bool,
    pub item: StreamItemView,
}

impl View for StreamStep {
    type V = StreamStepView;

    open spec fn view(&self) -> StreamStepView {
        StreamStepView { at_ms: self.at_ms, cancelled: self.cancelled, item: self.item@ }
    }
}

pub open spec fn step_views(steps: Seq<StreamStep>) -> Seq<StreamStepView> {
    steps.map_values(|step: StreamStep| step@)
}

/// What a provider answered to a request.
#[derive(Clone, Debug, PartialEq, Eq)]
pub enum ProviderStream {
    Refused(ProviderError),
    Items { steps: Vec<StreamStep>, cancelled: bool, ended_at_ms: u128 },
}

/// What a provider is asked.
#[derive(Clone, Debug, PartialEq, Eq)]
pub struct ModelRequest {
    pub run_id: RunId,
    pub task_id: TaskId,
    pub agent_id: AgentId,
    pub model: ModelRef,
    pub prompt: String,
}

// ---------------------------------------------------------------------------
// How far a run has come.

#[derive(Debug, PartialEq, Eq)]
pub struct Progress {
    pub output_chunks: Vec<String>,
    pub retained_output_bytes: usize,
    pub usage: Usage,
    pub received_finish: bool,
    pub active_tool_calls: Table<String, bool>,
    pub tool_calls: Vec<ToolCall>,
    pub next_chunk_index: u32,
}

pub struct ProgressView {
    pub output_chunks: Seq<Seq<char>>,
    pub retained_output_bytes: nat,
    pub usage: Usage,
    pub received_finish: bool,
    pub active_tool_calls: Set<Seq<char>>,
    pub tool_calls: Seq<ToolCallView>,
    pub next_chunk_index: u32,
}

impl View for Progress {
    type V = ProgressView;

    open spec fn view(&self) -> ProgressView {
        ProgressView {
            output_chunks: texts(self.output_chunks@),
            retained_output_bytes: self.retained_output_bytes as nat,
            usage: self.usage,
            received_finish: self.received_finish,
            active_tool_calls: self.active_tool_calls@.dom(),
            tool_calls: call_views(self.tool_calls@),
            next_chunk_index: self.next_chunk_index,
        }
    }
}

/// The bytes of all chunks together.
pub open spec fn total_bytes(chunks: Seq<Seq<char>>) -> nat
    decreases chunks.len(),
{
    if chunks.len() == 0 {
        0
    } else {
        total_bytes(chunks.drop_last()) + encode_utf8(chunks.last()).len()
    }
}

impl ProgressView {
    /// What is kept is within the bounds.
    pub open spec fn within(self, limits: ProviderLimits) -> bool {
        &&& self.retained_output_bytes == total_bytes(self.output_chunks)
        &&& self.retained_output_bytes <= MAX_AGENT_OUTPUT_BYTES
        &&& self.output_chunks.len() <= limits.max_output_chunks
        &&& self.active_tool_calls.finite()
        &&& self.active_tool_calls.len() <= limits.max_tool_calls
        &&& self.tool_calls.len() <= limits.max_tool_calls
    }
}

/// What becomes of a run at an item.
pub enum Decision {
    Go { progress: ProgressView, chunk: bool },
    Cancel,
    Fail(ProviderErrorView),
}

pub open spec fn malformed(message: Seq<char>) -> Decision {
    Decision::Fail(ProviderErrorView::MalformedStream(message))
}

/// What an event does to the progress of a run that has not finished.
pub open spec fn decide_event(
    limits: ProviderLimits,
    progress: ProgressView,
    event: ProviderEventView,
) -> Decision {
    match event {
        ProviderEventView::TextDelta { text } => if text.len() == 0 {
            Decision::Go { progress, chunk: false }
        } else if progress.output_chunks.len() >= limits.max_output_chunks {
            Decision::Fail(
                ProviderErrorView::Failed(
                    "provider emitted more than "@ + decimal(limits.max_output_chunks as nat)
                        + " output chunks"@,
                ),
            )
        } else if progress.retained_output_bytes + encode_utf8(text).len()
            > MAX_AGENT_OUTPUT_BYTES {
            Decision::Fail(ProviderErrorView::Failed("provider output exceeds 4194304 bytes"@))
        } else {
            Decision::Go {
                progress: ProgressView {
                    output_chunks: progress.output_chunks.push(text),
                    retained_output_bytes: progress.retained_output_bytes + encode_utf8(
                        text,
                    ).len(),
                    ..progress
                },
                chunk: true,
            }
        },
        ProviderEventView::ReasoningDelta { .. } => Decision::Go { progress, chunk: true },
        ProviderEventView::ToolCallStarted { call_id, .. } => if progress.active_tool_calls.len()
            >= limits.max_tool_calls {
            malformed(
                "provider emitted more than "@ + decimal(limits.max_tool_calls as nat)
                    + " active tool calls"@,
            )
        } else if progress.active_tool_calls.contains(call_id) {
            malformed("duplicate tool-call start"@)
        } else {
            Decision::Go {
                progress: ProgressView {
                    active_tool_calls: progress.active_tool_calls.insert(call_id),
                    ..progress
                },
                chunk: true,
            }
        },
        ProviderEventView::ToolCallArgumentsDelta { call_id, .. } =>
            if !progress.active_tool_calls.contains(call_id) {
                malformed("tool-call arguments arrived before start"@)
            } else {
                Decision::Go { progress, chunk: true }
            },
        ProviderEventView::ToolCallCompleted { call } => if encode_utf8(call.arguments).len()
            > limits.max_payload_bytes {
            malformed("tool-call arguments exceed the provider bound"@)
        } else if !progress.active_tool_calls.contains(call.call_id) {
            malformed("tool-call completed without start"@)
        } else if progress.tool_calls.len() >= limits.max_tool_calls {
            malformed(
                "provider completed more than "@ + decimal(limits.max_tool_calls as nat)
                    + " tool calls"@,
            )
        } else {
            Decision::Go {
                progress: ProgressView {
                    active_tool_calls: progress.active_tool_calls.remove(call.call_id),
                    tool_calls: progress.tool_calls.push(call),
                    ..progress
                },
                chunk: true,
            }
        },
        ProviderEventView::Usage(usage) => Decision::Go {
            progress: ProgressView { usage, ..progress },
            chunk: false,
        },
        ProviderEventView::Finish(reason) => if reason == FinishReason::Cancelled {
            Decision::Cancel
        } else if progress.active_tool_calls.len() != 0 {
            malformed("provider finished with incomplete tool call"@)
        } else {
            Decision::Go {
                progress: ProgressView { received_finish: true, ..progress },
                chunk: false,
            }
        },
    }
}

/// What an item does to a run.
pub open spec fn decide(
    limits: ProviderLimits,
    progress: ProgressView,
    cancelled: bool,
    item: StreamItemView,
) -> Decision {
    if cancelled {
        Decision::Cancel
    } else {
        match item {
            StreamItemView::Failed(ProviderErrorView::Cancelled) => Decision::Cancel,
            StreamItemView::Failed(error) => Decision::Fail(error),
            StreamItemView::Refused(error) => Decision::Fail(error),
            StreamItemView::Event(event) => if progress.received_finish {
                malformed("provider emitted an event after finish"@)
            } else {
                decide_event(limits, progress, event)
            },
        }
    }
}

/// What is decided of an item, in a form that code can act on.
enum Verdict {
    Go { chunk: bool },
    Cancel,
    Fail(ProviderError),
}

fn malformed_stream(message: &str) -> (verdict: Verdict)
    ensures
        verdict matches Verdict::Fail(error) && error@ == ProviderErrorView::MalformedStream(
            message@,
        ),
{
    Verdict::Fail(ProviderError::MalformedStream(message.to_owned()))
}

fn counted(first: &str, count: usize, last: &str) -> (text: String)
    ensures
        text@ == first@ + decimal(count as nat) + last@,
{
    let mut out = numbered(first, count as u128);
    out.append(last);
    out
}

impl Progress {
    /// The start of a run whose trace holds `next_chunk_index` chunks.
    fn new(next_chunk_index: u32) -> (progress: Progress)
        ensures
            progress@ == start(next_chunk_index),
    {
        let progress = Progress {
            output_chunks: Vec::new(),
            retained_output_bytes: 0,
            usage: Usage::default(),
            received_finish: false,
            active_tool_calls: Table::new(),
            tool_calls: Vec::new(),
            next_chunk_index,
        };
        proof {
            assert(texts(progress.output_chunks@) =~= Seq::<Seq<char>>::empty());
            assert(call_views(progress.tool_calls@) =~= Seq::<ToolCallView>::empty());
            assert(progress.active_tool_calls@.dom() =~= Set::<Seq<char>>::empty());
        }
        progress
    }

    fn take_event(&mut self, limits: ProviderLimits, event: ProviderEvent) -> (verdict: Verdict)
        requires
            old(self)@.within(limits),
        ensures
            match decide_event(limits, old(self)@, event@) {
                Decision::Go { progress, chunk } => verdict == (Verdict::Go { chunk })
                    && final(self)@ == progress && progress.within(limits),
                Decision::Cancel => verdict is Cancel,
                Decision::Fail(refused) => verdict matches Verdict::Fail(error) && error@
                    == refused,
            },
    {
        let ghost before = self@;
        match event {
            ProviderEvent::TextDelta { text } => {
                let length: usize = text.as_str().as_bytes().len();
                proof {
                    encoding_is_empty_only_for_no_text(text@);
                }
                if length == 0 {
                    return Verdict::Go { chunk: false };
                }
                if self.output_chunks.len() >= limits.max_output_chunks {
                    return Verdict::Fail(
                        ProviderError::Failed(
                            counted(
                                "provider emitted more than ",
                                limits.max_output_chunks,
                                " output chunks",
                            ),
                        ),
                    );
                }
                if length > MAX_AGENT_OUTPUT_BYTES - self.retained_output_bytes {
                    return Verdict::Fail(
                        ProviderError::Failed("provider output exceeds 4194304 bytes".to_owned()),
                    );
                }
                self.retained_output_bytes = self.retained_output_bytes + length;
                let ghost chunk = text@;
                self.output_chunks.push(text);
                proof {
                    let now = before.output_chunks.push(chunk);
                    assert(texts(self.output_chunks@) =~= now);
                    assert(now.drop_last() =~= before.output_chunks);
                }
                Verdict::Go { chunk: true }
            },
            ProviderEvent::ReasoningDelta { .. } => Verdict::Go { chunk: true },
            ProviderEvent::ToolCallStarted { call_id, .. } => {
                if self.active_tool_calls.len() >= limits.max_tool_calls {
                    return Verdict::Fail(
                        ProviderError::MalformedStream(
                            counted(
                                "provider emitted more than ",
                                limits.max_tool_calls,
                                " active tool calls",
                            ),
                        ),
                    );
                }
                if self.active_tool_calls.contains_key(&call_id) {
                    return malformed_stream("duplicate tool-call start");
                }
                let ghost started = call_id@;
                self.active_tool_calls.insert(call_id, true);
                assert(self.active_tool_calls@.dom() =~= before.active_tool_calls.insert(
                    started,
                ));
                Verdict::Go { chunk: true }
            },
            ProviderEvent::ToolCallArgumentsDelta { call_id, .. } => {
                if !self.active_tool_calls.contains_key(&call_id) {
                    return malformed_stream("tool-call arguments arrived before start");
                }
                Verdict::Go { chunk: true }
            },
            ProviderEvent::ToolCallCompleted { call } => {
                if call.arguments.as_str().as_bytes().len() > limits.max_payload_bytes {
                    return malformed_stream("tool-call arguments exceed the provider bound");
                }
                if !self.active_tool_calls.contains_key(&call.call_id) {
                    return malformed_stream("tool-call completed without start");
                }
                if self.tool_calls.len() >= limits.max_tool_calls {
                    return Verdict::Fail(
                        ProviderError::MalformedStream(
                            counted(
                                "provider completed more than ",
                                limits.max_tool_calls,
                                " tool calls",
                            ),
                        ),
                    );
                }
                self.active_tool_calls.remove(&call.call_id);
                let ghost done = call@;
                self.tool_calls.push(call);
                proof {
                    assert(self.active_tool_calls@.dom() =~= before.active_tool_calls.remove(
                        done.call_id,
                    ));
                    assert(call_views(self.tool_calls@) =~= before.tool_calls.push(done));
                }
                Verdict::Go { chunk: true }
            },
            ProviderEvent::Usage(usage) => {
                self.usage = usage;
                Verdict::Go { chunk: false }
            },
            ProviderEvent::Finish(reason) => {
                if reason == FinishReason::Cancelled {
                    return Verdict::Cancel;
                }
                if self.active_tool_calls.len() != 0 {
                    return malformed_stream("provider finished with incomplete tool call");
                }
                self.received_finish = true;
                Verdict::Go { chunk: false }
            },
        }
    }

    fn take(&mut self, limits: ProviderLimits, cancelled: bool, item: StreamItem) -> (verdict:
        Verdict)
        requires
            old(self)@.within(limits),
        ensures
            match decide(limits, old(self)@, cancelled, item@) {
                Decision::Go { progress, chunk } => verdict == (Verdict::Go { chunk })
                    && final(self)@ == progress && progress.within(limits),
                Decision::Cancel => verdict is Cancel,
                Decision::Fail(refused) => verdict matches Verdict::Fail(error) && error@
                    == refused,
            },
    {
        if cancelled {
            return Verdict::Cancel;
        }
        match item {
            StreamItem::Failed(ProviderError::Cancelled) => Verdict::Cancel,
            StreamItem::Failed(error) => Verdict::Fail(error),
            StreamItem::Refused(error) => Verdict::Fail(error),
            StreamItem::Event(event) => {
                if self.received_finish {
                    return malformed_stream("provider emitted an event after finish");
                }
                self.take_event(limits, event)
            },
        }
    }
}

/// Only the empty text has an empty encoding.
proof fn encoding_is_empty_only_for_no_text(text: Seq<char>)
    ensures
        (encode_utf8(text).len() == 0) == (text.len() == 0),
{
    broadcast use crate::codec::text_of_encoded;

    if encode_utf8(text).len() == 0 {
        assert(encode_utf8(text) =~= encode_utf8(Seq::<char>::empty()));
        assert(crate::codec::text_of(encode_utf8(text)) == Some(text));
        assert(crate::codec::text_of(encode_utf8(Seq::<char>::empty())) == Some(
            Seq::<char>::empty(),
        ));
    }
}

/// The progress of a run that has received nothing.
pub open spec fn start(next_chunk_index: u32) -> ProgressView {
    ProgressView {
        output_chunks: seq![],
        retained_output_bytes: 0,
        usage: Usage { input_tokens: 0, output_tokens: 0, cached_input_tokens: None },
        received_finish: false,
        active_tool_calls: Set::empty(),
        tool_calls: seq![],
        next_chunk_index,
    }
}

// ---------------------------------------------------------------------------
// What a run records.

/// Something to be recorded, and when.
pub struct Note {
    pub at_ms: u128,
    pub kind: EventKindView,
}

/// The trace with notes recorded under the identities that `ids` issues after
/// `from` others.
pub open spec fn noted(
    trace: Seq<EventView>,
    ids: IdSource,
    from: nat,
    run_id: RunId,
    notes: Seq<Note>,
) -> Seq<EventView> {
    trace + Seq::new(
        notes.len(),
        |i: int|
            EventView {
                id: EventId(ids.upcoming((from + i) as nat)),
                run_id,
                occurred_at_ms: notes[i].at_ms,
                kind: notes[i].kind,
            },
    )
}

/// Recording in two goes is recording all at once.
pub proof fn notes_join(
    trace: Seq<EventView>,
    ids: IdSource,
    from: nat,
    later: IdSource,
    run_id: RunId,
    first: Seq<Note>,
    second: Seq<Note>,
)
    requires
        later.issued_from(&ids, from + first.len()),
    ensures
        noted(noted(trace, ids, from, run_id, first), later, 0, run_id, second) == noted(
            trace,
            ids,
            from,
            run_id,
            first + second,
        ),
{
    assert(noted(noted(trace, ids, from, run_id, first), later, 0, run_id, second) =~= noted(
        trace,
        ids,
        from,
        run_id,
        first + second,
    ));
}

pub(crate) fn note(
    trace: &mut EventTrace,
    ids: &mut IdSource,
    at_ms: u128,
    run_id: RunId,
    kind: EventKind,
)
    requires
        old(ids).can_issue(1),
    ensures
        final(trace)@ == noted(
            old(trace)@,
            *old(ids),
            0,
            run_id,
            seq![Note { at_ms, kind: kind@ }],
        ),
        final(ids).issued_from(old(ids), 1),
{
    let event = Event::new(ids, at_ms, run_id, kind);
    let ghost recorded = event@;
    trace.record(event);
    assert(trace@ =~= noted(old(trace)@, *old(ids), 0, run_id, seq![Note { at_ms, kind: kind@ }]));
}

/// How a run ends.
pub enum Ending {
    Completed,
    Cancelled,
    Failed(ProviderErrorView),
}

/// What is recorded at the end.
pub open spec fn closing_notes(
    at_ms: u128,
    run_id: RunId,
    agent_id: AgentId,
    usage: Usage,
    ending: Ending,
) -> Seq<Note> {
    match ending {
        Ending::Completed => seq![
            Note { at_ms, kind: EventKindView::ModelCompleted { agent_id, usage } },
            Note { at_ms, kind: EventKindView::RunCompleted { run_id } },
        ],
        Ending::Cancelled => seq![
            Note { at_ms, kind: EventKindView::ModelCancelled { agent_id } },
            Note { at_ms, kind: EventKindView::RunCancelled { run_id } },
        ],
        Ending::Failed(error) => seq![
            Note { at_ms, kind: EventKindView::ModelFailed { agent_id, message: error.text() } },
            Note { at_ms, kind: EventKindView::RunFailed { run_id, message: error.text() } },
        ],
    }
}

/// How far a run has come, and what it has recorded on the way.
pub struct Course {
    pub progress: ProgressView,
    pub notes: Seq<Note>,
    pub ending: Option<Ending>,
}

/// One more item for a run.
pub open spec fn course_step(
    limits: ProviderLimits,
    run_id: RunId,
    agent_id: AgentId,
    before: Course,
    step: StreamStepView,
) -> Course {
    if before.ending is Some {
        before
    } else {
        match decide(limits, before.progress, step.cancelled, step.item) {
            Decision::Go { progress, chunk } => if chunk {
                Course {
                    progress: ProgressView {
                        next_chunk_index: if progress.next_chunk_index == u32::MAX {
                            u32::MAX
                        } else {
                            (progress.next_chunk_index + 1) as u32
                        },
                        ..progress
                    },
                    notes: before.notes.push(
                        Note {
                            at_ms: step.at_ms,
                            kind: EventKindView::ModelChunkReceived {
                                agent_id,
                                chunk_index: progress.next_chunk_index,
                            },
                        },
                    ),
                    ending: None,
                }
            } else {
                Course { progress, ..before }
            },
            Decision::Cancel => Course {
                notes: before.notes + closing_notes(
                    step.at_ms,
                    run_id,
                    agent_id,
                    before.progress.usage,
                    Ending::Cancelled,
                ),
                ending: Some(Ending::Cancelled),
                ..before
            },
            Decision::Fail(error) => Course {
                notes: before.notes + closing_notes(
                    step.at_ms,
                    run_id,
                    agent_id,
                    before.progress.usage,
                    Ending::Failed(error),
                ),
                ending: Some(Ending::Failed(error)),
                ..before
            },
        }
    }
}

/// The course of a run through the items of a stream.
pub open spec fn course(
    limits: ProviderLimits,
    run_id: RunId,
    agent_id: AgentId,
    next_chunk_index: u32,
    steps: Seq<StreamStepView>,
) -> Course
    decreases steps.len(),
{
    if steps.len() == 0 {
        Course { progress: start(next_chunk_index), notes: seq![], ending: None }
    } else {
        course_step(
            limits,
            run_id,
            agent_id,
            course(limits, run_id, agent_id, next_chunk_index, steps.drop_last()),
            steps.last(),
        )
    }
}

/// The end of a run whose stream is over.
pub open spec fn course_end(
    run_id: RunId,
    agent_id: AgentId,
    before: Course,
    cancelled: bool,
    at_ms: u128,
) -> Course {
    if before.ending is Some {
        before
    } else {
        let ending = if cancelled {
            Ending::Cancelled
        } else if !before.progress.received_finish {
            Ending::Failed(ProviderErrorView::Failed("stream ended before a final chunk"@))
        } else {
            Ending::Completed
        };
        Course {
            notes: before.notes + closing_notes(
                at_ms,
                run_id,
                agent_id,
                before.progress.usage,
                ending,
            ),
            ending: Some(ending),
            ..before
        }
    }
}

/// The chunks that a trace holds.
pub open spec fn chunks_in(trace: Seq<EventView>) -> nat
    decreases trace.len(),
{
    if trace.len() == 0 {
        0
    } else {
        chunks_in(trace.drop_last()) + if trace.last().kind is ModelChunkReceived {
            1nat
        } else {
            0nat
        }
    }
}

pub open spec fn first_chunk_index(trace: Seq<EventView>) -> u32 {
    (chunks_in(trace) % 4294967296) as u32
}

/// The whole course of a run after its request.
pub open spec fn whole_course(
    limits: ProviderLimits,
    run_id: RunId,
    agent_id: AgentId,
    next_chunk_index: u32,
    stream: ProviderStream,
    at_ms: u128,
) -> Course {
    match stream {
        ProviderStream::Refused(error) => Course {
            progress: start(next_chunk_index),
            notes: closing_notes(
                at_ms,
                run_id,
                agent_id,
                start(next_chunk_index).usage,
                Ending::Failed(error@),
            ),
            ending: Some(Ending::Failed(error@)),
        },
        ProviderStream::Items { steps, cancelled, ended_at_ms } => course_end(
            run_id,
            agent_id,
            course(limits, run_id, agent_id, next_chunk_index, step_views(steps@)),
            cancelled,
            ended_at_ms,
        ),
    }
}

/// The request as it is recorded.
pub open spec fn request_note(at_ms: u128, agent: AgentIdentityView) -> Note {
    Note {
        at_ms,
        kind: EventKindView::ModelRequested { agent_id: agent.id, model: agent.model },
    }
}

/// How many identities a stream may take.
pub open spec fn notes_needed(stream: ProviderStream) -> nat {
    match stream {
        ProviderStream::Refused(_) => 3,
        ProviderStream::Items { steps, .. } => steps@.len() + 3,
    }
}

/// A run that has been through its provider.
#[derive(Clone, Debug, PartialEq, Eq)]
pub struct AgentExecution {
    pub run: Run,
    pub task: Task,
    pub agent: AgentIdentity,
    /// Streamed text deltas stay apart.
    pub output_chunks: Vec<String>,
    /// Completed tool calls, to be run elsewhere.
    pub tool_calls: Vec<ToolCall>,
    pub usage: Usage,
    pub trace: EventTrace,
}

pub open spec fn concatenated(chunks: Seq<Seq<char>>) -> Seq<char>
    decreases chunks.len(),
{
    if chunks.len() == 0 {
        seq![]
    } else {
        concatenated(chunks.drop_last()) + chunks.last()
    }
}

impl AgentExecution {
    /// All the chunks as one text.
    pub fn output_text(&self) -> (text: String)
        ensures
            text@ == concatenated(texts(self.output_chunks@)),
    {
        let mut text = String::new();
        let ghost views = texts(self.output_chunks@);
        let mut index: usize = 0;
        assert(views.take(0) =~= Seq::<Seq<char>>::empty());
        assert(text@ =~= Seq::<char>::empty());
        while index < self.output_chunks.len()
            invariant
                index <= self.output_chunks@.len(),
                views == texts(self.output_chunks@),
                text@ == concatenated(views.take(index as int)),
            decreases self.output_chunks.len() - index,
        {
            proof {
                let now = views.take(index + 1);
                assert(now.drop_last() =~= views.take(index as int));
                assert(now.last() == self.output_chunks@[index as int]@);
            }
            text.append(self.output_chunks[index].as_str());
            index += 1;
        }
        assert(views.take(views.len() as int) =~= views);
        text
    }
}

#[derive(Clone, Debug, PartialEq, Eq)]
pub enum AgentError {
    InvalidFork { message: String, trace: EventTrace },
    Cancelled { trace: EventTrace },
    Provider { error: ProviderError, trace: EventTrace },
}

pub enum AgentErrorView {
    InvalidFork { message: Seq<char>, trace: Seq<EventView> },
    Cancelled { trace: Seq<EventView> },
    Provider { error: ProviderErrorView, trace: Seq<EventView> },
}

impl View for AgentError {
    type V = AgentErrorView;

    open spec fn view(&self) -> AgentErrorView {
        match *self {
            AgentError::InvalidFork { message, trace } => AgentErrorView::InvalidFork {
                message: message@,
                trace: trace@,
            },
            AgentError::Cancelled { trace } => AgentErrorView::Cancelled { trace: trace@ },
            AgentError::Provider { error, trace } => AgentErrorView::Provider {
                error: error@,
                trace: trace@,
            },
        }
    }
}

impl AgentErrorView {
    pub open spec fn trace(self) -> Seq<EventView> {
        match self {
            AgentErrorView::InvalidFork { trace, .. } => trace,
            AgentErrorView::Cancelled { trace } => trace,
            AgentErrorView::Provider { trace, .. } => trace,
        }
    }

    pub open spec fn text(self) -> Seq<char> {
        match self {
            AgentErrorView::InvalidFork { message, .. } => "invalid agent fork: "@ + message,
            AgentErrorView::Cancelled { .. } => "agent execution cancelled"@,
            AgentErrorView::Provider { error, .. } => "agent provider error: "@ + error.text(),
        }
    }
}

impl AgentError {
    /// What the run had recorded.
    pub fn trace(&self) -> (trace: &EventTrace)
        ensures
            trace@ == self@.trace(),
    {
        match self {
            AgentError::InvalidFork { trace, .. } => trace,
            AgentError::Cancelled { trace } => trace,
            AgentError::Provider { trace, .. } => trace,
        }
    }

    pub fn to_text(&self) -> (text: String)
        ensures
            text@ == self@.text(),
    {
        match self {
            AgentError::InvalidFork { message, .. } => {
                let mut out = "invalid agent fork: ".to_owned();
                out.append(message.as_str());
                out
            },
            AgentError::Cancelled { .. } => "agent execution cancelled".to_owned(),
            AgentError::Provider { error, .. } => {
                let mut out = "agent provider error: ".to_owned();
                out.append(error.to_text().as_str());
                out
            },
        }
    }
}

// ---------------------------------------------------------------------------
// Forks.

/// Some event of the trace is such.
pub open spec fn some_event(trace: Seq<EventView>, such: spec_fn(EventView) -> bool) -> bool {
    exists|i: int| 0 <= i < trace.len() && such(#[trigger] trace[i])
}

pub open spec fn creates_task(event: EventView, task_id: TaskId, run_id: RunId) -> bool {
    event.kind matches EventKindView::TaskCreated { task_id: id, run_id: run, .. } && id == task_id
        && run == run_id
}

pub open spec fn creates_agent(event: EventView, agent_id: AgentId) -> bool {
    event.kind matches EventKindView::AgentCreated { agent } && agent.id == agent_id
}

pub open spec fn ends_run(event: EventView) -> bool {
    event.kind is RunCompleted || event.kind is RunCancelled || event.kind is RunFailed
}

/// Why a run cannot go on from a trace, if it cannot.
pub open spec fn fork_refusal(
    prefix: Seq<EventView>,
    run_id: RunId,
    task_id: TaskId,
    agent_id: AgentId,
) -> Option<Seq<char>> {
    if prefix.len() == 0 {
        Some("fork prefix must contain at least run.created"@)
    } else if some_event(prefix, |event: EventView| event.run_id != run_id) {
        Some("fork prefix contains an event from another run"@)
    } else if prefix[0].kind != (EventKindView::RunCreated { run_id }) {
        Some("fork prefix must begin with run.created for the child run"@)
    } else if !some_event(prefix, |event: EventView| creates_task(event, task_id, run_id)) {
        Some("fork prefix does not contain the requested task"@)
    } else if !some_event(prefix, |event: EventView| creates_agent(event, agent_id)) {
        Some("fork prefix does not contain the session agent"@)
    } else if some_event(prefix, |event: EventView| ends_run(event)) {
        Some("live fork prefix cannot contain a terminal run event"@)
    } else {
        None
    }
}

/// What the checks of a fork look for in its prefix.
struct PrefixScan {
    foreign: bool,
    has_task: bool,
    has_agent: bool,
    ended: bool,
}

fn scan_prefix(
    prefix: &EventTrace,
    run_id: RunId,
    task_id: TaskId,
    agent_id: AgentId,
) -> (scan: PrefixScan)
    ensures
        scan.foreign == some_event(prefix@, |event: EventView| event.run_id != run_id),
        scan.has_task == some_event(
            prefix@,
            |event: EventView| creates_task(event, task_id, run_id),
        ),
        scan.has_agent == some_event(prefix@, |event: EventView| creates_agent(event, agent_id)),
        scan.ended == some_event(prefix@, |event: EventView| ends_run(event)),
{
    let mut scan = PrefixScan { foreign: false, has_task: false, has_agent: false, ended: false };
    let ghost views = prefix@;
    let ghost foreign = |event: EventView| event.run_id != run_id;
    let ghost task = |event: EventView| creates_task(event, task_id, run_id);
    let ghost agent = |event: EventView| creates_agent(event, agent_id);
    let ghost end = |event: EventView| ends_run(event);
    let mut index: usize = 0;
    while index < prefix.events.len()
        invariant
            index <= prefix.events@.len(),
            views == event_views(prefix.events@),
            foreign == (|event: EventView| event.run_id != run_id),
            task == (|event: EventView| creates_task(event, task_id, run_id)),
            agent == (|event: EventView| creates_agent(event, agent_id)),
            end == (|event: EventView| ends_run(event)),
            scan.foreign == exists|i: int| 0 <= i < index && foreign(#[trigger] views[i]),
            scan.has_task == exists|i: int| 0 <= i < index && task(#[trigger] views[i]),
            scan.has_agent == exists|i: int| 0 <= i < index && agent(#[trigger] views[i]),
            scan.ended == exists|i: int| 0 <= i < index && end(#[trigger] views[i]),
        decreases prefix.events.len() - index,
    {
        let event = &prefix.events[index];
        assert(views[index as int] == event@);
        if event.run_id != run_id {
            scan.foreign = true;
        }
        match &event.kind {
            EventKind::TaskCreated { task_id: id, run_id: run, .. } => {
                if *id == task_id && *run == run_id {
                    scan.has_task = true;
                }
            },
            EventKind::AgentCreated { agent } => {
                if agent.id == agent_id {
                    scan.has_agent = true;
                }
            },
            EventKind::RunCompleted { .. } => {
                scan.ended = true;
            },
            EventKind::RunCancelled { .. } => {
                scan.ended = true;
            },
            EventKind::RunFailed { .. } => {
                scan.ended = true;
            },
            _ => {},
        }
        index += 1;
    }
    scan
}

/// Checks that a run can go on from a trace.
pub fn validate_fork_prefix(
    prefix: &EventTrace,
    run_id: RunId,
    task: &Task,
    agent_id: AgentId,
) -> (result: Result<(), String>)
    ensures
        match fork_refusal(prefix@, run_id, task.id, agent_id) {
            Some(refused) => result matches Err(message) && message@ == refused,
            None => result is Ok,
        },
{
    if prefix.is_empty() {
        return Err("fork prefix must contain at least run.created".to_owned());
    }
    let scan = scan_prefix(prefix, run_id, task.id, agent_id);
    if scan.foreign {
        return Err("fork prefix contains an event from another run".to_owned());
    }
    let begins = match &prefix.events[0].kind {
        EventKind::RunCreated { run_id: created } => *created == run_id,
        _ => false,
    };
    assert(prefix@[0] == prefix.events@[0]@);
    if !begins {
        return Err("fork prefix must begin with run.created for the child run".to_owned());
    }
    if !scan.has_task {
        return Err("fork prefix does not contain the requested task".to_owned());
    }
    if !scan.has_agent {
        return Err("fork prefix does not contain the session agent".to_owned());
    }
    if scan.ended {
        return Err("live fork prefix cannot contain a terminal run event".to_owned());
    }
    Ok(())
}

fn count_chunks(trace: &EventTrace) -> (count: u32)
    ensures
        count == first_chunk_index(trace@),
{
    let mut count: usize = 0;
    let ghost views = trace@;
    let mut index: usize = 0;
    assert(views.take(0) =~= Seq::<EventView>::empty());
    while index < trace.events.len()
        invariant
            index <= trace.events@.len(),
            views == event_views(trace.events@),
            count == chunks_in(views.take(index as int)),
            count <= index,
        decreases trace.events.len() - index,
    {
        proof {
            let now = views.take(index + 1);
            assert(now.drop_last() =~= views.take(index as int));
            assert(now.last() == trace.events@[index as int]@);
        }
        if let EventKind::ModelChunkReceived { .. } = &trace.events[index].kind {
            count += 1;
        }
        index += 1;
    }
    assert(views.take(views.len() as int) =~= views);
    (count as u64 % 4294967296) as u32
}

// ---------------------------------------------------------------------------
// Sessions.

/// An agent and the provider that it talks to.
#[derive(Debug)]
pub struct AgentSession<P> {
    identity: AgentIdentity,
    provider: P,
}

/// A run on its way.
#[derive(Debug, PartialEq, Eq)]
pub struct AgentRun {
    run_id: RunId,
    agent_id: AgentId,
    limits: ProviderLimits,
    progress: Progress,
    trace: EventTrace,
}

impl AgentRun {
    pub closed spec fn run_id(&self) -> RunId {
        self.run_id
    }

    pub closed spec fn agent_id(&self) -> AgentId {
        self.agent_id
    }

    pub closed spec fn limits(&self) -> ProviderLimits {
        self.limits
    }

    pub closed spec fn progress(&self) -> ProgressView {
        self.progress@
    }

    pub closed spec fn recorded(&self) -> Seq<EventView> {
        self.trace@
    }

    #[verifier::type_invariant]
    closed spec fn bounded(self) -> bool {
        self.progress@.within(self.limits)
    }

    /// The run as a course that starts here.
    pub open spec fn here(&self) -> Course {
        Course { progress: self.progress(), notes: seq![], ending: None }
    }

    /// `self` goes on from `before` by what `course` says.
    pub open spec fn follows(&self, before: &AgentRun, course: Course, ids: IdSource) -> bool {
        &&& self.run_id() == before.run_id()
        &&& self.agent_id() == before.agent_id()
        &&& self.limits() == before.limits()
        &&& self.progress() == course.progress
        &&& self.recorded() == noted(before.recorded(), ids, 0, before.run_id(), course.notes)
    }
}

/// The error for an ending that is none of completion.
pub open spec fn error_of(ending: Ending, trace: Seq<EventView>) -> AgentErrorView {
    match ending {
        Ending::Cancelled => AgentErrorView::Cancelled { trace },
        Ending::Failed(error) => AgentErrorView::Provider { error, trace },
        Ending::Completed => AgentErrorView::Cancelled { trace },
    }
}

fn cancelled(
    trace: EventTrace,
    ids: &mut IdSource,
    at_ms: u128,
    run_id: RunId,
    agent_id: AgentId,
    usage: Ghost<Usage>,
) -> (error: AgentError)
    requires
        old(ids).can_issue(2),
    ensures
        error@ == error_of(
            Ending::Cancelled,
            noted(
                trace@,
                *old(ids),
                0,
                run_id,
                closing_notes(at_ms, run_id, agent_id, usage@, Ending::Cancelled),
            ),
        ),
        final(ids).issued_from(old(ids), 2),
{
    let mut trace = trace;
    let ghost before = trace@;
    let ghost first = Note { at_ms, kind: EventKindView::ModelCancelled { agent_id } };
    let ghost second = Note { at_ms, kind: EventKindView::RunCancelled { run_id } };
    note(&mut trace, ids, at_ms, run_id, EventKind::ModelCancelled { agent_id });
    let ghost middle = *ids;
    note(&mut trace, ids, at_ms, run_id, EventKind::RunCancelled { run_id });
    proof {
        notes_join(before, *old(ids), 0, middle, run_id, seq![first], seq![second]);
        assert(seq![first] + seq![second] =~= closing_notes(
            at_ms,
            run_id,
            agent_id,
            usage@,
            Ending::Cancelled,
        ));
    }
    AgentError::Cancelled { trace }
}

fn failed(
    trace: EventTrace,
    ids: &mut IdSource,
    at_ms: u128,
    run_id: RunId,
    agent_id: AgentId,
    usage: Ghost<Usage>,
    error: ProviderError,
) -> (result: AgentError)
    requires
        old(ids).can_issue(2),
    ensures
        result@ == error_of(
            Ending::Failed(error@),
            noted(
                trace@,
                *old(ids),
                0,
                run_id,
                closing_notes(at_ms, run_id, agent_id, usage@, Ending::Failed(error@)),
            ),
        ),
        final(ids).issued_from(old(ids), 2),
{
    let mut trace = trace;
    let ghost before = trace@;
    let ghost first = Note {
        at_ms,
        kind: EventKindView::ModelFailed { agent_id, message: error@.text() },
    };
    let ghost second = Note {
        at_ms,
        kind: EventKindView::RunFailed { run_id, message: error@.text() },
    };
    note(
        &mut trace,
        ids,
        at_ms,
        run_id,
        EventKind::ModelFailed { agent_id, message: error.to_text() },
    );
    let ghost middle = *ids;
    note(
        &mut trace,
        ids,
        at_ms,
        run_id,
        EventKind::RunFailed { run_id, message: error.to_text() },
    );
    proof {
        notes_join(before, *old(ids), 0, middle, run_id, seq![first], seq![second]);
        assert(seq![first] + seq![second] =~= closing_notes(
            at_ms,
            run_id,
            agent_id,
            usage@,
            Ending::Failed(error@),
        ));
    }
    AgentError::Provider { error, trace }
}

impl AgentRun {
    /// Takes one item of the provider's stream.
    pub fn receive(self, ids: &mut IdSource, step: StreamStep) -> (result: Result<
        AgentRun,
        AgentError,
    >)
        requires
            old(ids).can_issue(2),
        ensures
            ({
                let after = course_step(
                    self.limits(),
                    self.run_id(),
                    self.agent_id(),
                    self.here(),
                    step@,
                );
                &&& final(ids).issued_from(old(ids), after.notes.len())
                &&& match after.ending {
                    None => result matches Ok(run) && run.follows(&self, after, *old(ids)),
                    Some(ending) => result matches Err(error) && error@ == error_of(
                        ending,
                        noted(self.recorded(), *old(ids), 0, self.run_id(), after.notes),
                    ),
                }
            }),
    {
        proof {
            use_type_invariant(&self);
        }
        let ghost whole = self;
        let ghost view = step@;
        let AgentRun { run_id, agent_id, limits, progress: mut progress, trace: mut trace } = self;
        let ghost before = progress@;
        let at_ms: u128 = step.at_ms;
        let ghost after = course_step(
            whole.limits(),
            whole.run_id(),
            whole.agent_id(),
            whole.here(),
            view,
        );
        let ghost none = Seq::<Note>::empty();
        match progress.take(limits, step.cancelled, step.item) {
            Verdict::Go { chunk } => {
                if chunk {
                    let chunk_index: u32 = progress.next_chunk_index;
                    note(
                        &mut trace,
                        ids,
                        at_ms,
                        run_id,
                        EventKind::ModelChunkReceived { agent_id, chunk_index },
                    );
                    if chunk_index < u32::MAX {
                        progress.next_chunk_index = chunk_index + 1;
                    }
                    proof {
                        let made = Note {
                            at_ms,
                            kind: EventKindView::ModelChunkReceived { agent_id, chunk_index },
                        };
                        assert(none.push(made) =~= seq![made]);
                    }
                } else {
                    assert(noted(trace@, *old(ids), 0, run_id, none) =~= trace@);
                }
                Ok(AgentRun { run_id, agent_id, limits, progress, trace })
            },
            Verdict::Cancel => {
                proof {
                    let closing = closing_notes(
                        at_ms,
                        run_id,
                        agent_id,
                        before.usage,
                        Ending::Cancelled,
                    );
                    assert(none + closing =~= closing);
                }
                Err(cancelled(trace, ids, at_ms, run_id, agent_id, Ghost(before.usage)))
            },
            Verdict::Fail(error) => {
                proof {
                    let closing = closing_notes(
                        at_ms,
                        run_id,
                        agent_id,
                        before.usage,
                        Ending::Failed(error@),
                    );
                    assert(none + closing =~= closing);
                }
                Err(failed(trace, ids, at_ms, run_id, agent_id, Ghost(before.usage), error))
            },
        }
    }

    /// Ends a run whose provider gave no stream.
    pub fn refuse(self, ids: &mut IdSource, at_ms: u128, error: ProviderError) -> (result:
        AgentError)
        requires
            old(ids).can_issue(2),
        ensures
            result@ == error_of(
                Ending::Failed(error@),
                noted(
                    self.recorded(),
                    *old(ids),
                    0,
                    self.run_id(),
                    closing_notes(
                        at_ms,
                        self.run_id(),
                        self.agent_id(),
                        self.progress().usage,
                        Ending::Failed(error@),
                    ),
                ),
            ),
            final(ids).issued_from(old(ids), 2),
    {
        let ghost usage = self.progress@.usage;
        failed(self.trace, ids, at_ms, self.run_id, self.agent_id, Ghost(usage), error)
    }

    /// Ends a run whose stream is over.
    pub fn conclude(
        self,
        ids: &mut IdSource,
        at_ms: u128,
        was_cancelled: bool,
        task: Task,
        agent: AgentIdentity,
    ) -> (result: Result<AgentExecution, AgentError>)
        requires
            old(ids).can_issue(2),
        ensures
            ({
                let after = course_end(
                    self.run_id(),
                    self.agent_id(),
                    self.here(),
                    was_cancelled,
                    at_ms,
                );
                let trace = noted(self.recorded(), *old(ids), 0, self.run_id(), after.notes);
                &&& after.notes.len() == 2
                &&& final(ids).issued_from(old(ids), 2)
                &&& match after.ending {
                    Some(Ending::Completed) => result matches Ok(execution) && executed_as(
                        execution,
                        self.run_id(),
                        task,
                        agent,
                        after.progress,
                        trace,
                    ),
                    Some(ending) => result matches Err(error) && error@ == error_of(
                        ending,
                        trace,
                    ),
                    None => true,
                }
            }),
    {
        let ghost whole = self;
        let ghost none = Seq::<Note>::empty();
        let ghost usage = self.progress@.usage;
        let AgentRun { run_id, agent_id, limits: _, progress, trace: mut trace } = self;
        let ghost after = course_end(run_id, agent_id, whole.here(), was_cancelled, at_ms);
        proof {
            let closing = closing_notes(at_ms, run_id, agent_id, usage, after.ending->0);
            assert(none + closing =~= closing);
        }
        if was_cancelled {
            return Err(cancelled(trace, ids, at_ms, run_id, agent_id, Ghost(usage)));
        }
        if !progress.received_finish {
            return Err(
                failed(
                    trace,
                    ids,
                    at_ms,
                    run_id,
                    agent_id,
                    Ghost(usage),
                    ProviderError::Failed("stream ended before a final chunk".to_owned()),
                ),
            );
        }
        let usage: Usage = progress.usage;
        let ghost before = trace@;
        note(&mut trace, ids, at_ms, run_id, EventKind::ModelCompleted { agent_id, usage });
        let ghost middle = *ids;
        note(&mut trace, ids, at_ms, run_id, EventKind::RunCompleted { run_id });
        proof {
            let first = Note { at_ms, kind: EventKindView::ModelCompleted { agent_id, usage } };
            let second = Note { at_ms, kind: EventKindView::RunCompleted { run_id } };
            notes_join(before, *old(ids), 0, middle, run_id, seq![first], seq![second]);
            assert(seq![first] + seq![second] =~= closing_notes(
                at_ms,
                run_id,
                agent_id,
                usage,
                Ending::Completed,
            ));
        }
        Ok(
            AgentExecution {
                run: Run { id: run_id },
                task,
                agent,
                output_chunks: progress.output_chunks,
                tool_calls: progress.tool_calls,
                usage,
                trace,
            },
        )
    }
}

/// What a completed run hands over.
pub open spec fn executed_as(
    execution: AgentExecution,
    run_id: RunId,
    task: Task,
    agent: AgentIdentity,
    progress: ProgressView,
    trace: Seq<EventView>,
) -> bool {
    &&& execution.run.id == run_id
    &&& execution.task == task
    &&& execution.agent == agent
    &&& texts(execution.output_chunks@) == progress.output_chunks
    &&& call_views(execution.tool_calls@) == progress.tool_calls
    &&& execution.usage == progress.usage
    &&& execution.trace@ == trace
}

/// The result of a whole run.
pub open spec fn concluded(
    result: Result<AgentExecution, AgentError>,
    run_id: RunId,
    task: Task,
    agent: AgentIdentity,
    whole: Course,
    trace: Seq<EventView>,
) -> bool {
    match whole.ending {
        Some(Ending::Completed) => result matches Ok(execution) && executed_as(
            execution,
            run_id,
            task,
            agent,
            whole.progress,
            trace,
        ),
        Some(ending) => result matches Err(error) && error@ == error_of(ending, trace),
        None => false,
    }
}

/// Going on from the middle of a course is going on from its start.
proof fn course_continues(
    limits: ProviderLimits,
    run_id: RunId,
    agent_id: AgentId,
    before: Course,
    step: StreamStepView,
)
    requires
        before.ending is None,
    ensures
        ({
            let here = Course { progress: before.progress, notes: seq![], ending: None };
            let local = course_step(limits, run_id, agent_id, here, step);
            let whole = course_step(limits, run_id, agent_id, before, step);
            &&& whole.progress == local.progress
            &&& whole.ending == local.ending
            &&& whole.notes == before.notes + local.notes
        }),
{
    let here = Course { progress: before.progress, notes: seq![], ending: None };
    let local = course_step(limits, run_id, agent_id, here, step);
    let whole = course_step(limits, run_id, agent_id, before, step);
    match decide(limits, before.progress, step.cancelled, step.item) {
        Decision::Go { progress, chunk } => {
            assert(whole.notes =~= before.notes + local.notes);
        },
        Decision::Cancel => {
            let closing = closing_notes(
                step.at_ms,
                run_id,
                agent_id,
                before.progress.usage,
                Ending::Cancelled,
            );
            assert(Seq::<Note>::empty() + closing =~= closing);
        },
        Decision::Fail(error) => {
            let closing = closing_notes(
                step.at_ms,
                run_id,
                agent_id,
                before.progress.usage,
                Ending::Failed(error),
            );
            assert(Seq::<Note>::empty() + closing =~= closing);
        },
    }
}

/// A run that has ended takes no more items.
proof fn ended_course_stays(
    limits: ProviderLimits,
    run_id: RunId,
    agent_id: AgentId,
    next_chunk_index: u32,
    steps: Seq<StreamStepView>,
    count: int,
)
    requires
        0 <= count <= steps.len(),
        course(limits, run_id, agent_id, next_chunk_index, steps.take(count)).ending is Some,
    ensures
        course(limits, run_id, agent_id, next_chunk_index, steps) == course(
            limits,
            run_id,
            agent_id,
            next_chunk_index,
            steps.take(count),
        ),
    decreases steps.len(),
{
    if count < steps.len() {
        assert(steps.drop_last().take(count) =~= steps.take(count));
        ended_course_stays(limits, run_id, agent_id, next_chunk_index, steps.drop_last(), count);
    } else {
        assert(steps.take(count) =~= steps);
    }
}

/// A run on its way has recorded at most one note for each item.
proof fn notes_are_few(
    limits: ProviderLimits,
    run_id: RunId,
    agent_id: AgentId,
    next_chunk_index: u32,
    steps: Seq<StreamStepView>,
)
    ensures
        ({
            let whole = course(limits, run_id, agent_id, next_chunk_index, steps);
            whole.notes.len() <= steps.len() + if whole.ending is Some {
                1nat
            } else {
                0nat
            }
        }),
    decreases steps.len(),
{
    if steps.len() > 0 {
        notes_are_few(limits, run_id, agent_id, next_chunk_index, steps.drop_last());
    }
}

/// The steps with the first one last.
fn reversed(steps: Vec<StreamStep>) -> (result: Vec<StreamStep>)
    ensures
        result@.len() == steps@.len(),
        forall|i: int|
            0 <= i < result@.len() ==> #[trigger] result@[i] == steps@[steps@.len() - 1 - i],
{
    let ghost all = steps@;
    let mut left = steps;
    let mut result: Vec<StreamStep> = Vec::new();
    while left.len() > 0
        invariant
            all == steps@,
            left@.len() + result@.len() == all.len(),
            forall|i: int| 0 <= i < left@.len() ==> #[trigger] left@[i] == all[i],
            forall|i: int|
                0 <= i < result@.len() ==> #[trigger] result@[i] == all[all.len() - 1 - i],
        decreases left.len(),
    {
        let step = left.pop().unwrap();
        result.push(step);
    }
    result
}

impl<P> AgentSession<P> {
    pub closed spec fn agent(&self) -> AgentIdentity {
        self.identity
    }

    pub closed spec fn talks_to(&self) -> P {
        self.provider
    }

    pub fn new(identity: AgentIdentity, provider: P) -> (session: AgentSession<P>)
        ensures
            session.agent() == identity,
            session.talks_to() == provider,
    {
        AgentSession { identity, provider }
    }

    pub fn identity(&self) -> (identity: &AgentIdentity)
        ensures
            *identity == self.agent(),
    {
        &self.identity
    }

    pub fn provider(&self) -> (provider: &P)
        ensures
            *provider == self.talks_to(),
    {
        &self.provider
    }

    /// Records the request and says what to ask of the provider.
    pub fn request(
        &self,
        ids: &mut IdSource,
        at_ms: u128,
        limits: ProviderLimits,
        task: &Task,
        run_id: RunId,
        prompt: &str,
        trace: EventTrace,
    ) -> (started: (AgentRun, ModelRequest))
        requires
            old(ids).can_issue(1),
        ensures
            final(ids).issued_from(old(ids), 1),
            started.0.run_id() == run_id,
            started.0.agent_id() == self.agent().id,
            started.0.limits() == limits,
            started.0.progress() == start(first_chunk_index(trace@)),
            started.0.recorded() == noted(
                trace@,
                *old(ids),
                0,
                run_id,
                seq![request_note(at_ms, self.agent()@)],
            ),
            started.1.run_id == run_id,
            started.1.task_id == task.id,
            started.1.agent_id == self.agent().id,
            started.1.model@ == self.agent()@.model,
            started.1.prompt@ == prompt@,
    {
        let mut trace = trace;
        let ghost before = trace@;
        let request = ModelRequest {
            run_id,
            task_id: task.id,
            agent_id: self.identity.id,
            model: self.identity.model.clone(),
            prompt: prompt.to_owned(),
        };
        let kind = EventKind::ModelRequested {
            agent_id: self.identity.id,
            model: self.identity.model.clone(),
        };
        assert(kind@ == request_note(at_ms, self.identity@).kind);
        note(&mut trace, ids, at_ms, run_id, kind);
        proof {
            let made = request_note(at_ms, self.identity@);
            assert(chunks_in(before.push(trace@.last())) == chunks_in(before)) by {
                assert(before.push(trace@.last()).drop_last() =~= before);
            }
            assert(trace@ =~= before.push(trace@.last()));
        }
        let chunk_index: u32 = count_chunks(&trace);
        let progress = Progress::new(chunk_index);
        let run = AgentRun {
            run_id,
            agent_id: self.identity.id,
            limits,
            progress,
            trace,
        };
        (run, request)
    }

    /// Carries a run through what the provider answered.
    pub fn execute(
        &self,
        ids: &mut IdSource,
        at_ms: u128,
        limits: ProviderLimits,
        run: Run,
        task: Task,
        prompt: &str,
        trace: EventTrace,
        stream: ProviderStream,
    ) -> (result: Result<AgentExecution, AgentError>)
        requires
            old(ids).can_issue(notes_needed(stream)),
        ensures
            ({
                let whole = whole_course(
                    limits,
                    run.id,
                    self.agent().id,
                    first_chunk_index(trace@),
                    stream,
                    at_ms,
                );
                let notes = seq![request_note(at_ms, self.agent()@)] + whole.notes;
                &&& final(ids).issued_from(old(ids), notes.len())
                &&& notes.len() <= notes_needed(stream)
                &&& concluded(
                    result,
                    run.id,
                    task,
                    self.agent(),
                    whole,
                    noted(trace@, *old(ids), 0, run.id, notes),
                )
            }),
    {
        let ghost recorded = trace@;
        let ghost index0 = first_chunk_index(trace@);
        let ghost agent_id = self.identity.id;
        let ghost asked = seq![request_note(at_ms, self.identity@)];
        let run_id = run.id;
        let (mut current, _) = self.request(ids, at_ms, limits, &task, run_id, prompt, trace);
        let ghost after_request = *ids;
        match stream {
            ProviderStream::Refused(error) => {
                proof {
                    notes_join(
                        recorded,
                        *old(ids),
                        0,
                        after_request,
                        run_id,
                        asked,
                        closing_notes(
                            at_ms,
                            run_id,
                            agent_id,
                            start(index0).usage,
                            Ending::Failed(error@),
                        ),
                    );
                }
                Err(current.refuse(ids, at_ms, error))
            },
            ProviderStream::Items { steps, cancelled, ended_at_ms } => {
                let ghost views = step_views(steps@);
                let ghost total = steps@.len();
                let mut left = reversed(steps);
                let ghost mut done: int = 0;
                proof {
                    assert(views.take(0) =~= Seq::<StreamStepView>::empty());
                    assert(asked + Seq::<Note>::empty() =~= asked);
                }
                while left.len() > 0
                    invariant
                        0 <= done <= total,
                        total == steps@.len(),
                        views == step_views(steps@),
                        left@.len() == total - done,
                        forall|i: int|
                            0 <= i < left@.len() ==> #[trigger] left@[i] == steps@[total - 1 - i],
                        old(ids).can_issue((total + 3) as nat),
                        stream == (ProviderStream::Items { steps, cancelled, ended_at_ms }),
                        recorded == trace@,
                        index0 == first_chunk_index(trace@),
                        agent_id == self.agent().id,
                        run_id == run.id,
                        asked == seq![request_note(at_ms, self.agent()@)],
                        current.run_id() == run_id,
                        current.agent_id() == agent_id,
                        current.limits() == limits,
                        ({
                            let whole = course(
                                limits,
                                run_id,
                                agent_id,
                                index0,
                                views.take(done),
                            );
                            &&& whole.ending is None
                            &&& current.progress() == whole.progress
                            &&& current.recorded() == noted(
                                recorded,
                                *old(ids),
                                0,
                                run_id,
                                asked + whole.notes,
                            )
                            &&& ids.issued_from(old(ids), 1 + whole.notes.len())
                        }),
                    decreases left.len(),
                {
                    let ghost before = course(limits, run_id, agent_id, index0, views.take(done));
                    let ghost base = *ids;
                    let ghost step_view = views[done];
                    let ghost previous = current;
                    proof {
                        notes_are_few(limits, run_id, agent_id, index0, views.take(done));
                        assert(left@[left@.len() - 1] == steps@[done]);
                        let now = views.take(done + 1);
                        assert(now.drop_last() =~= views.take(done));
                        assert(now.last() == step_view);
                        course_continues(limits, run_id, agent_id, before, step_view);
                        notes_are_few(limits, run_id, agent_id, index0, now);
                        if course(limits, run_id, agent_id, index0, now).ending is Some {
                            ended_course_stays(
                                limits,
                                run_id,
                                agent_id,
                                index0,
                                views,
                                done + 1,
                            );
                        }
                        let here = Course {
                            progress: before.progress,
                            notes: seq![],
                            ending: None,
                        };
                        let local = course_step(limits, run_id, agent_id, here, step_view);
                        notes_join(
                            recorded,
                            *old(ids),
                            0,
                            base,
                            run_id,
                            asked + before.notes,
                            local.notes,
                        );
                        assert((asked + before.notes) + local.notes =~= asked + (before.notes
                            + local.notes));
                    }
                    let step = left.pop().unwrap();
                    assert(step@ == step_view);
                    match current.receive(ids, step) {
                        Ok(next) => {
                            current = next;
                        },
                        Err(error) => {
                            return Err(error);
                        },
                    }
                    proof {
                        done = done + 1;
                    }
                }
                proof {
                    assert(views.take(total as int) =~= views);
                    let before = course(limits, run_id, agent_id, index0, views);
                    notes_are_few(limits, run_id, agent_id, index0, views);
                    let here = Course { progress: before.progress, notes: seq![], ending: None };
                    let local = course_end(run_id, agent_id, here, cancelled, ended_at_ms);
                    let whole = course_end(run_id, agent_id, before, cancelled, ended_at_ms);
                    assert(whole.notes =~= before.notes + local.notes);
                    notes_join(
                        recorded,
                        *old(ids),
                        0,
                        *ids,
                        run_id,
                        asked + before.notes,
                        local.notes,
                    );
                    assert((asked + before.notes) + local.notes =~= asked + whole.notes);
                }
                current.conclude(ids, ended_at_ms, cancelled, task, self.identity.clone())
            },
        }
    }
}

/// What a fresh run records before its request.
pub open spec fn opening_notes(
    at_ms: u128,
    run_id: RunId,
    task_id: TaskId,
    title: Seq<char>,
    agent: AgentIdentityView,
) -> Seq<Note> {
    seq![
        Note { at_ms, kind: EventKindView::RunCreated { run_id } },
        Note { at_ms, kind: EventKindView::TaskCreated { task_id, run_id, title } },
        Note { at_ms, kind: EventKindView::AgentCreated { agent } },
    ]
}

impl<P> AgentSession<P> {
    /// A fresh run for a prompt, carried through what the provider answered.
    pub fn run(
        &self,
        ids: &mut IdSource,
        at_ms: u128,
        limits: ProviderLimits,
        prompt: &str,
        stream: ProviderStream,
    ) -> (result: Result<AgentExecution, AgentError>)
        requires
            old(ids).can_issue(5 + notes_needed(stream)),
        ensures
            ({
                let run_id = RunId(old(ids).upcoming(0));
                let task_id = TaskId(old(ids).upcoming(1));
                let whole = whole_course(limits, run_id, self.agent().id, 0, stream, at_ms);
                let notes = opening_notes(at_ms, run_id, task_id, prompt@, self.agent()@)
                    + seq![request_note(at_ms, self.agent()@)] + whole.notes;
                &&& final(ids).issued_from(old(ids), 2 + notes.len())
                &&& notes.len() <= 3 + notes_needed(stream)
                &&& exists|task: Task|
                    {
                        &&& task.id == task_id
                        &&& task.run_id == run_id
                        &&& task.title@ == prompt@
                        &&& #[trigger] concluded(
                            result,
                            run_id,
                            task,
                            self.agent(),
                            whole,
                            noted(Seq::empty(), *old(ids), 2, run_id, notes),
                        )
                    }
            }),
    {
        let run = Run::new(ids);
        let task = Task::new(ids, run.id, prompt);
        let run_id = run.id;
        let ghost base = *ids;
        let mut trace = EventTrace::new();
        let ghost agent = self.identity@;
        let ghost opening = opening_notes(at_ms, run_id, task.id, prompt@, agent);
        note(&mut trace, ids, at_ms, run_id, EventKind::RunCreated { run_id });
        note(
            &mut trace,
            ids,
            at_ms,
            run_id,
            EventKind::TaskCreated { task_id: task.id, run_id, title: prompt.to_owned() },
        );
        note(
            &mut trace,
            ids,
            at_ms,
            run_id,
            EventKind::AgentCreated { agent: self.identity.clone() },
        );
        let ghost later = *ids;
        proof {
            assert(trace@ =~= noted(Seq::empty(), *old(ids), 2, run_id, opening));
            no_chunks_in_an_opening(trace@);
            let whole = whole_course(limits, run_id, self.identity.id, 0, stream, at_ms);
            let rest = seq![request_note(at_ms, agent)] + whole.notes;
            notes_join(Seq::empty(), *old(ids), 2, later, run_id, opening, rest);
            assert(opening + rest =~= opening + seq![request_note(at_ms, agent)] + whole.notes);
        }
        let ghost made = task;
        let result = self.execute(ids, at_ms, limits, run, task, prompt, trace, stream);
        proof {
            let whole = whole_course(limits, run_id, self.identity.id, 0, stream, at_ms);
            let notes = opening + seq![request_note(at_ms, agent)] + whole.notes;
            assert(concluded(
                result,
                run_id,
                made,
                self.agent(),
                whole,
                noted(Seq::empty(), *old(ids), 2, run_id, notes),
            ));
        }
        result
    }

    /// A run that goes on from a trace, carried through what the provider
    /// answered. A trace that it cannot go on from is refused before that.
    pub fn run_fork(
        &self,
        ids: &mut IdSource,
        at_ms: u128,
        limits: ProviderLimits,
        run_id: RunId,
        task: Task,
        prompt: &str,
        prefix: EventTrace,
        stream: ProviderStream,
    ) -> (result: Result<AgentExecution, AgentError>)
        requires
            old(ids).can_issue(notes_needed(stream)),
        ensures
            match fork_refusal(prefix@, run_id, task.id, self.agent().id) {
                Some(message) => {
                    &&& result matches Err(error) && error@ == (AgentErrorView::InvalidFork {
                        message,
                        trace: prefix@,
                    })
                    &&& *final(ids) == *old(ids)
                },
                None => {
                    let whole = whole_course(
                        limits,
                        run_id,
                        self.agent().id,
                        first_chunk_index(prefix@),
                        stream,
                        at_ms,
                    );
                    let notes = seq![request_note(at_ms, self.agent()@)] + whole.notes;
                    &&& final(ids).issued_from(old(ids), notes.len())
                    &&& concluded(
                        result,
                        run_id,
                        task,
                        self.agent(),
                        whole,
                        noted(prefix@, *old(ids), 0, run_id, notes),
                    )
                },
            },
    {
        if let Err(message) = validate_fork_prefix(&prefix, run_id, &task, self.identity.id) {
            return Err(AgentError::InvalidFork { message, trace: prefix });
        }
        self.execute(ids, at_ms, limits, Run { id: run_id }, task, prompt, prefix, stream)
    }
}

proof fn no_chunks_in_an_opening(trace: Seq<EventView>)
    requires
        forall|i: int| 0 <= i < trace.len() ==> !((#[trigger] trace[i]).kind is ModelChunkReceived),
    ensures
        chunks_in(trace) == 0,
    decreases trace.len(),
{
    if trace.len() > 0 {
        assert forall|i: int| 0 <= i < trace.drop_last().len() implies !((
        #[trigger] trace.drop_last()[i]).kind is ModelChunkReceived) by {
            assert(trace.drop_last()[i] == trace[i]);
        }
        assert(!(trace[trace.len() - 1].kind is ModelChunkReceived));
        no_chunks_in_an_opening(trace.drop_last());
    }
}

} // verus!
