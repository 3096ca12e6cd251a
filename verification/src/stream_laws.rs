//! What a run has of its provider's stream.

use vstd::prelude::*;
use vstd::utf8::encode_utf8;

use crate::agent::{
    call_views, chunks_in, concatenated, concluded, course, decide, first_chunk_index, step_views,
    total_bytes, whole_course, AgentError, AgentErrorView, AgentExecution, Ending, FinishReason,
    Note, ProviderErrorView, ProviderEventView, ProviderLimits, ProviderStream, StreamItemView,
    StreamStepView, ToolCallView, MAX_AGENT_OUTPUT_BYTES,
};
use crate::ids::{AgentId, RunId};
use crate::kernel::{AgentIdentity, EventKindView, EventView, Task, Usage};
use crate::text::texts;

verus! {

// ---------------------------------------------------------------------------
// What a stream holds.

/// The calls that the stream completes, whole and in order.
pub open spec fn calls_in(steps: Seq<StreamStepView>) -> Seq<ToolCallView>
    decreases steps.len(),
{
    if steps.len() == 0 {
        seq![]
    } else {
        match steps.last().item {
            StreamItemView::Event(ProviderEventView::ToolCallCompleted { call }) => calls_in(
                steps.drop_last(),
            ).push(call),
            _ => calls_in(steps.drop_last()),
        }
    }
}

/// The pieces of text in the stream, in order, without empty ones.
pub open spec fn texts_in(steps: Seq<StreamStepView>) -> Seq<Seq<char>>
    decreases steps.len(),
{
    if steps.len() == 0 {
        seq![]
    } else {
        match steps.last().item {
            StreamItemView::Event(ProviderEventView::TextDelta { text }) if text.len()
                > 0 => texts_in(steps.drop_last()).push(text),
            _ => texts_in(steps.drop_last()),
        }
    }
}

/// All the text of the stream.
pub open spec fn text_in(steps: Seq<StreamStepView>) -> Seq<char>
    decreases steps.len(),
{
    if steps.len() == 0 {
        seq![]
    } else {
        match steps.last().item {
            StreamItemView::Event(ProviderEventView::TextDelta { text }) => text_in(
                steps.drop_last(),
            ) + text,
            _ => text_in(steps.drop_last()),
        }
    }
}

/// The usage that the stream reports last.
pub open spec fn usage_in(steps: Seq<StreamStepView>) -> Option<Usage>
    decreases steps.len(),
{
    if steps.len() == 0 {
        None
    } else {
        match steps.last().item {
            StreamItemView::Event(ProviderEventView::Usage(usage)) => Some(usage),
            _ => usage_in(steps.drop_last()),
        }
    }
}

/// The item is output: text that is not empty, reasoning, or a part of a tool
/// call.
pub open spec fn brings_a_chunk(step: StreamStepView) -> bool {
    match step.item {
        StreamItemView::Event(ProviderEventView::TextDelta { text }) => text.len() > 0,
        StreamItemView::Event(ProviderEventView::ReasoningDelta { .. }) => true,
        StreamItemView::Event(ProviderEventView::ToolCallStarted { .. }) => true,
        StreamItemView::Event(ProviderEventView::ToolCallArgumentsDelta { .. }) => true,
        StreamItemView::Event(ProviderEventView::ToolCallCompleted { .. }) => true,
        _ => false,
    }
}

/// When each chunk of the stream came.
pub open spec fn chunk_times(steps: Seq<StreamStepView>) -> Seq<u128>
    decreases steps.len(),
{
    if steps.len() == 0 {
        seq![]
    } else if brings_a_chunk(steps.last()) {
        chunk_times(steps.drop_last()).push(steps.last().at_ms)
    } else {
        chunk_times(steps.drop_last())
    }
}

/// The tool call is open: the last that the stream says of it is that it
/// started.
pub open spec fn open_call(steps: Seq<StreamStepView>, call_id: Seq<char>) -> bool
    decreases steps.len(),
{
    if steps.len() == 0 {
        false
    } else {
        match steps.last().item {
            StreamItemView::Event(
                ProviderEventView::ToolCallStarted { call_id: named, .. },
            ) if named == call_id => true,
            StreamItemView::Event(
                ProviderEventView::ToolCallCompleted { call },
            ) if call.call_id == call_id => false,
            _ => open_call(steps.drop_last(), call_id),
        }
    }
}

/// The provider has said that it is done.
pub open spec fn finishes(step: StreamStepView) -> bool {
    step.item == StreamItemView::Event(ProviderEventView::Finish(FinishReason::Completed))
}

/// The notes are the stream's chunks: one for each, at its time, numbered on
/// from the first.
pub open spec fn notes_are_chunks(
    notes: Seq<Note>,
    times: Seq<u128>,
    agent_id: AgentId,
    first: u32,
) -> bool {
    &&& notes.len() == times.len()
    &&& forall|i: int|
        0 <= i < notes.len() ==> (#[trigger] notes[i]).at_ms == times[i] && (
        notes[i].kind matches EventKindView::ModelChunkReceived { agent_id: named, chunk_index }
            && named == agent_id && chunk_index as nat == if first + i <= u32::MAX {
            (first + i) as nat
        } else {
            u32::MAX as nat
        })
}

/// While a run goes on, it has kept exactly what the stream brought: every
/// text, every completed call and the last usage, one note for each chunk.
pub proof fn running_courses_follow_the_stream(
    limits: ProviderLimits,
    run_id: RunId,
    agent_id: AgentId,
    first: u32,
    steps: Seq<StreamStepView>,
)
    requires
        course(limits, run_id, agent_id, first, steps).ending is None,
    ensures
        ({
            let now = course(limits, run_id, agent_id, first, steps);
            let none = Usage { input_tokens: 0, output_tokens: 0, cached_input_tokens: None };
            &&& now.progress.tool_calls == calls_in(steps)
            &&& now.progress.output_chunks == texts_in(steps)
            &&& now.progress.usage == match usage_in(steps) {
                Some(usage) => usage,
                None => none,
            }
            &&& now.progress.retained_output_bytes == total_bytes(texts_in(steps))
            &&& now.progress.received_finish <==> steps.len() > 0 && finishes(steps.last())
            &&& forall|call_id: Seq<char>| #[trigger]
                now.progress.active_tool_calls.contains(call_id) <==> open_call(steps, call_id)
            &&& now.progress.active_tool_calls.finite()
            &&& notes_are_chunks(now.notes, chunk_times(steps), agent_id, first)
            &&& now.progress.next_chunk_index as nat == if first + chunk_times(steps).len()
                <= u32::MAX {
                first as nat + chunk_times(steps).len()
            } else {
                u32::MAX as nat
            }
            &&& forall|i: int|
                0 <= i < steps.len() ==> !(#[trigger] steps[i]).cancelled
                    && steps[i].item is Event
            &&& forall|i: int| 0 <= i < steps.len() - 1 ==> !finishes(#[trigger] steps[i])
        }),
    decreases steps.len(),
{
    if steps.len() > 0 {
        let rest = steps.drop_last();
        let last = steps.len() - 1;
        let before = course(limits, run_id, agent_id, first, rest);
        let now = course(limits, run_id, agent_id, first, steps);
        running_courses_follow_the_stream(limits, run_id, agent_id, first, rest);
        assert(steps.last() == steps[last]);
        assert(texts_in(rest).push(texts_in(steps).last()).drop_last() =~= texts_in(rest));
        assert forall|i: int| 0 <= i < steps.len() implies !(#[trigger] steps[i]).cancelled
            && steps[i].item is Event by {
            if i < last {
                assert(rest[i] == steps[i]);
            }
        }
        assert(!before.progress.received_finish);
        assert forall|i: int| 0 <= i < steps.len() - 1 implies !finishes(#[trigger] steps[i]) by {
            assert(rest[i] == steps[i]);
            if i == last - 1 {
                assert(rest.last() == rest[i]);
            }
        }
        if let StreamItemView::Event(ProviderEventView::TextDelta { text }) = steps.last().item {
            if text.len() > 0 {
                assert(texts_in(steps).drop_last() =~= texts_in(rest));
            }
        }
        assert forall|call_id: Seq<char>| #[trigger]
            now.progress.active_tool_calls.contains(call_id) <==> open_call(steps, call_id) by {
            assert(before.progress.active_tool_calls.contains(call_id) <==> open_call(
                rest,
                call_id,
            ));
        }
        assert forall|i: int| 0 <= i < now.notes.len() implies (#[trigger] now.notes[i]).at_ms
            == chunk_times(steps)[i] && (now.notes[i].kind matches
            EventKindView::ModelChunkReceived { agent_id: named, chunk_index } && named == agent_id
            && chunk_index as nat == if first + i <= u32::MAX {
            (first + i) as nat
        } else {
            u32::MAX as nat
        }) by {
            if i < before.notes.len() {
                assert(now.notes[i] == before.notes[i]);
            }
        }
    }
}

/// A run that completes has collected its stream: its tool calls are those
/// that the stream completed, whole and in order; its output is the stream's
/// text, piece by piece; its usage is what the stream reported last.
pub proof fn completed_runs_hold_their_stream(
    limits: ProviderLimits,
    run_id: RunId,
    agent_id: AgentId,
    first: u32,
    stream: ProviderStream,
    at_ms: u128,
)
    requires
        whole_course(limits, run_id, agent_id, first, stream, at_ms).ending == Some(
            Ending::Completed,
        ),
    ensures
        stream is Items,
        ({
            let whole = whole_course(limits, run_id, agent_id, first, stream, at_ms);
            let steps = step_views(stream->steps@);
            let chunks = chunk_times(steps);
            &&& whole.progress.tool_calls == calls_in(steps)
            &&& whole.progress.output_chunks == texts_in(steps)
            &&& concatenated(whole.progress.output_chunks) == text_in(steps)
            &&& usage_in(steps) matches Some(usage) ==> whole.progress.usage == usage
            &&& usage_in(steps) is None ==> whole.progress.usage.input_tokens == 0
                && whole.progress.usage.output_tokens == 0
                && whole.progress.usage.cached_input_tokens is None
            &&& whole.notes.len() == chunks.len() + 2
            &&& notes_are_chunks(
                whole.notes.take(chunks.len() as int),
                chunks,
                agent_id,
                first,
            )
            &&& whole.notes[chunks.len() as int].kind == (EventKindView::ModelCompleted {
                agent_id,
                usage: whole.progress.usage,
            })
            &&& whole.notes[chunks.len() as int + 1].kind == (EventKindView::RunCompleted {
                run_id,
            })
        }),
{
    if let ProviderStream::Items { steps, .. } = stream {
        let views = step_views(steps@);
        let before = course(limits, run_id, agent_id, first, views);
        courses_end_otherwise(limits, run_id, agent_id, first, views);
        running_courses_follow_the_stream(limits, run_id, agent_id, first, views);
        pieces_make_the_text(views);
        let whole = whole_course(limits, run_id, agent_id, first, stream, at_ms);
        assert(whole.notes.take(chunk_times(views).len() as int) =~= before.notes);
    }
}

proof fn courses_end_otherwise(
    limits: ProviderLimits,
    run_id: RunId,
    agent_id: AgentId,
    first: u32,
    steps: Seq<StreamStepView>,
)
    ensures
        course(limits, run_id, agent_id, first, steps).ending != Some(Ending::Completed),
    decreases steps.len(),
{
    if steps.len() > 0 {
        courses_end_otherwise(limits, run_id, agent_id, first, steps.drop_last());
    }
}

proof fn pieces_make_the_text(steps: Seq<StreamStepView>)
    ensures
        concatenated(texts_in(steps)) == text_in(steps),
    decreases steps.len(),
{
    if steps.len() > 0 {
        let rest = steps.drop_last();
        pieces_make_the_text(rest);
        if let StreamItemView::Event(ProviderEventView::TextDelta { text }) = steps.last().item {
            if text.len() > 0 {
                assert(texts_in(steps).drop_last() =~= texts_in(rest));
            } else {
                assert(text_in(rest) + text =~= text_in(rest));
            }
        }
    }
}

// ---------------------------------------------------------------------------
// Which streams complete.

/// How many tool calls are open.
pub open spec fn open_calls(steps: Seq<StreamStepView>) -> Set<Seq<char>> {
    Set::new(|call_id: Seq<char>| open_call(steps, call_id))
}

/// The last item may follow the others.
pub open spec fn follows_on(limits: ProviderLimits, steps: Seq<StreamStepView>) -> bool {
    let before = steps.drop_last();
    &&& !steps.last().cancelled
    &&& before.len() > 0 ==> !finishes(before.last())
    &&& match steps.last().item {
        StreamItemView::Event(event) => match event {
            ProviderEventView::TextDelta { text } => text.len() > 0 ==> texts_in(steps).len()
                <= limits.max_output_chunks && total_bytes(texts_in(steps))
                <= MAX_AGENT_OUTPUT_BYTES,
            ProviderEventView::ReasoningDelta { .. } => true,
            ProviderEventView::ToolCallStarted { call_id, .. } => !open_call(before, call_id)
                && open_calls(before).len() < limits.max_tool_calls,
            ProviderEventView::ToolCallArgumentsDelta { call_id, .. } => open_call(
                before,
                call_id,
            ),
            ProviderEventView::ToolCallCompleted { call } => open_call(before, call.call_id)
                && encode_utf8(call.arguments).len() <= limits.max_payload_bytes && calls_in(
                steps,
            ).len() <= limits.max_tool_calls,
            ProviderEventView::Usage(_) => true,
            ProviderEventView::Finish(reason) => reason == FinishReason::Completed && forall|
                call_id: Seq<char>,
            |
                !(#[trigger] open_call(before, call_id)),
        },
        _ => false,
    }
}

proof fn one_more_item(
    limits: ProviderLimits,
    run_id: RunId,
    agent_id: AgentId,
    first: u32,
    steps: Seq<StreamStepView>,
)
    requires
        steps.len() > 0,
        course(limits, run_id, agent_id, first, steps.drop_last()).ending is None,
    ensures
        course(limits, run_id, agent_id, first, steps).ending is None <==> follows_on(
            limits,
            steps,
        ),
{
    let rest = steps.drop_last();
    let before = course(limits, run_id, agent_id, first, rest);
    running_courses_follow_the_stream(limits, run_id, agent_id, first, rest);
    let active = before.progress.active_tool_calls;
    assert(open_calls(rest) =~= active) by {
        assert forall|call_id: Seq<char>| open_calls(rest).contains(call_id) == active.contains(
            call_id,
        ) by {
            assert(active.contains(call_id) <==> open_call(rest, call_id));
        }
    }
    if let StreamItemView::Event(event) = steps.last().item {
        match event {
            ProviderEventView::TextDelta { text } => {
                if text.len() > 0 {
                    assert(texts_in(steps).drop_last() =~= texts_in(rest));
                }
            },
            ProviderEventView::ToolCallStarted { call_id, .. } => {
                assert(active.contains(call_id) <==> open_call(rest, call_id));
            },
            ProviderEventView::ToolCallArgumentsDelta { call_id, .. } => {
                assert(active.contains(call_id) <==> open_call(rest, call_id));
            },
            ProviderEventView::ToolCallCompleted { call } => {
                assert(active.contains(call.call_id) <==> open_call(rest, call.call_id));
            },
            ProviderEventView::Finish(_) => {
                if active.len() == 0 {
                    assert forall|call_id: Seq<char>| !(#[trigger] open_call(rest, call_id)) by {
                        if active.contains(call_id) {
                            assert(active.remove(call_id).len() < active.len());
                        }
                    }
                } else {
                    let call_id = active.choose();
                    assert(active.contains(call_id));
                    assert(open_call(rest, call_id));
                }
            },
            _ => {},
        }
    }
}

/// A run goes on exactly as long as every item follows on from those before
/// it, within the provider's limits.
pub proof fn streams_that_follow_on_are_taken(
    limits: ProviderLimits,
    run_id: RunId,
    agent_id: AgentId,
    first: u32,
    steps: Seq<StreamStepView>,
)
    ensures
        course(limits, run_id, agent_id, first, steps).ending is None <==> forall|i: int|
            0 < i <= steps.len() ==> follows_on(limits, #[trigger] steps.take(i)),
    decreases steps.len(),
{
    if steps.len() > 0 {
        let rest = steps.drop_last();
        streams_that_follow_on_are_taken(limits, run_id, agent_id, first, rest);
        let all = forall|i: int|
            0 < i <= steps.len() ==> follows_on(limits, #[trigger] steps.take(i));
        let early = forall|i: int|
            0 < i <= rest.len() ==> follows_on(limits, #[trigger] rest.take(i));
        assert(steps.take(steps.len() as int) =~= steps);
        assert forall|i: int| 0 < i <= rest.len() implies (#[trigger] rest.take(i)) == steps.take(
            i,
        ) by {
            assert(rest.take(i) =~= steps.take(i));
        }
        if all {
            assert forall|i: int| 0 < i <= rest.len() implies follows_on(
                limits,
                #[trigger] rest.take(i),
            ) by {
                assert(follows_on(limits, steps.take(i)));
            }
            one_more_item(limits, run_id, agent_id, first, steps);
            assert(follows_on(limits, steps.take(steps.len() as int)));
        }
        if course(limits, run_id, agent_id, first, steps).ending is None {
            one_more_item(limits, run_id, agent_id, first, steps);
            assert forall|i: int| 0 < i <= steps.len() implies follows_on(
                limits,
                #[trigger] steps.take(i),
            ) by {
                if i <= rest.len() {
                    assert(follows_on(limits, rest.take(i)));
                }
            }
        }
    }
}

/// A run completes exactly where its whole stream follows on, ends with the
/// provider's word that it is done, and is not cancelled by then.
pub proof fn finished_streams_complete(
    limits: ProviderLimits,
    run_id: RunId,
    agent_id: AgentId,
    first: u32,
    stream: ProviderStream,
    at_ms: u128,
)
    ensures
        whole_course(limits, run_id, agent_id, first, stream, at_ms).ending == Some(
            Ending::Completed,
        ) <==> (stream matches ProviderStream::Items { steps, cancelled, .. } && {
            let views = step_views(steps@);
            &&& !cancelled
            &&& views.len() > 0
            &&& finishes(views.last())
            &&& forall|i: int|
                0 < i <= views.len() ==> follows_on(limits, #[trigger] views.take(i))
        }),
        stream matches ProviderStream::Refused(error) ==> whole_course(
            limits,
            run_id,
            agent_id,
            first,
            stream,
            at_ms,
        ).ending == Some(Ending::Failed(error@)),
{
    if let ProviderStream::Items { steps, .. } = stream {
        let views = step_views(steps@);
        courses_end_otherwise(limits, run_id, agent_id, first, views);
        streams_that_follow_on_are_taken(limits, run_id, agent_id, first, views);
        if course(limits, run_id, agent_id, first, views).ending is None {
            running_courses_follow_the_stream(limits, run_id, agent_id, first, views);
        }
    }
}

/// A run that does not go on stops at the first item that does not follow on:
/// it keeps what came before, and is cancelled where the run or the provider
/// was cancelled, or fails with the provider's own error where there is one.
pub proof fn courses_stop_at_the_first_break(
    limits: ProviderLimits,
    run_id: RunId,
    agent_id: AgentId,
    first: u32,
    steps: Seq<StreamStepView>,
    at: int,
)
    requires
        0 <= at < steps.len(),
        course(limits, run_id, agent_id, first, steps.take(at)).ending is None,
        !follows_on(limits, steps.take(at + 1)),
    ensures
        ({
            let whole = course(limits, run_id, agent_id, first, steps);
            let before = course(limits, run_id, agent_id, first, steps.take(at));
            &&& whole.progress == before.progress
            &&& whole.notes.len() == before.notes.len() + 2
            &&& whole.notes.take(before.notes.len() as int) == before.notes
            &&& whole.notes.last().at_ms == steps[at].at_ms
            &&& whole.ending == Some(Ending::Cancelled) <==> {
                ||| steps[at].cancelled
                ||| steps[at].item == StreamItemView::Failed(ProviderErrorView::Cancelled)
                ||| steps[at].item == StreamItemView::Event(
                    ProviderEventView::Finish(FinishReason::Cancelled),
                ) && !before.progress.received_finish
            }
            &&& !steps[at].cancelled ==> (steps[at].item matches StreamItemView::Failed(error)
                ==> error != ProviderErrorView::Cancelled ==> whole.ending == Some(
                Ending::Failed(error),
            ))
            &&& !steps[at].cancelled ==> (steps[at].item matches StreamItemView::Refused(error)
                ==> whole.ending == Some(Ending::Failed(error)))
            &&& whole.ending is Some
        }),
    decreases steps.len(),
{
    let whole = course(limits, run_id, agent_id, first, steps);
    let before = course(limits, run_id, agent_id, first, steps.take(at));
    if at == steps.len() - 1 {
        assert(steps.take(at) =~= steps.drop_last());
        assert(steps.take(at + 1) =~= steps);
        one_more_item(limits, run_id, agent_id, first, steps);
        let decision = decide(limits, before.progress, steps[at].cancelled, steps[at].item);
        assert(!(decision is Go));
        assert(whole.notes.take(before.notes.len() as int) =~= before.notes);
    } else {
        let rest = steps.drop_last();
        assert(rest.take(at) =~= steps.take(at));
        assert(rest.take(at + 1) =~= steps.take(at + 1));
        courses_stop_at_the_first_break(limits, run_id, agent_id, first, rest, at);
    }
}

// ---------------------------------------------------------------------------
// What a caller gets.

/// The execution that a completed run returns holds the stream: its calls, its
/// text and its last usage, under the run, the task and the agent that it was
/// asked for, with the trace that was recorded. A run that does not complete
/// returns no execution but the error that fits, with its trace.
pub proof fn results_hold_the_stream(
    result: Result<AgentExecution, AgentError>,
    limits: ProviderLimits,
    run_id: RunId,
    task: Task,
    agent: AgentIdentity,
    first: u32,
    stream: ProviderStream,
    at_ms: u128,
    trace: Seq<EventView>,
)
    requires
        concluded(
            result,
            run_id,
            task,
            agent,
            whole_course(limits, run_id, agent.id, first, stream, at_ms),
            trace,
        ),
    ensures
        ({
            let ending = whole_course(limits, run_id, agent.id, first, stream, at_ms).ending;
            &&& result is Ok <==> ending == Some(Ending::Completed)
            &&& result matches Ok(execution) ==> {
                let steps = step_views(stream->steps@);
                &&& stream is Items
                &&& execution.run.id == run_id
                &&& execution.task == task
                &&& execution.agent == agent
                &&& execution.trace@ == trace
                &&& execution.tool_calls@.len() == calls_in(steps).len()
                &&& forall|i: int|
                    0 <= i < execution.tool_calls@.len() ==> {
                        let call = #[trigger] execution.tool_calls@[i];
                        &&& call.call_id@ == calls_in(steps)[i].call_id
                        &&& call.name@ == calls_in(steps)[i].name
                        &&& call.arguments@ == calls_in(steps)[i].arguments
                    }
                &&& execution.output_chunks@.len() == texts_in(steps).len()
                &&& forall|i: int|
                    0 <= i < execution.output_chunks@.len() ==> (
                    #[trigger] execution.output_chunks@[i])@ == texts_in(steps)[i]
                &&& usage_in(steps) matches Some(usage) ==> execution.usage == usage
            }
            &&& result matches Err(error) ==> match error@ {
                AgentErrorView::Cancelled { trace: recorded } => recorded == trace && ending
                    == Some(Ending::Cancelled),
                AgentErrorView::Provider { error, trace: recorded } => recorded == trace && ending
                    == Some(Ending::Failed(error)),
                AgentErrorView::InvalidFork { .. } => false,
            }
        }),
{
    let whole = whole_course(limits, run_id, agent.id, first, stream, at_ms);
    if whole.ending == Some(Ending::Completed) {
        completed_runs_hold_their_stream(limits, run_id, agent.id, first, stream, at_ms);
        let execution = result->Ok_0;
        let steps = step_views(stream->steps@);
        assert(call_views(execution.tool_calls@) == calls_in(steps));
        assert(texts(execution.output_chunks@) == texts_in(steps));
        assert forall|i: int| 0 <= i < execution.tool_calls@.len() implies {
            let call = #[trigger] execution.tool_calls@[i];
            &&& call.call_id@ == calls_in(steps)[i].call_id
            &&& call.name@ == calls_in(steps)[i].name
            &&& call.arguments@ == calls_in(steps)[i].arguments
        } by {
            assert(call_views(execution.tool_calls@)[i] == execution.tool_calls@[i]@);
        }
        assert forall|i: int| 0 <= i < execution.output_chunks@.len() implies (
        #[trigger] execution.output_chunks@[i])@ == texts_in(steps)[i] by {
            assert(texts(execution.output_chunks@)[i] == execution.output_chunks@[i]@);
        }
    }
}

/// The chunks that a run records are numbered on from those that its trace
/// holds already.
pub proof fn chunks_are_counted(trace: Seq<EventView>)
    ensures
        chunks_in(trace) == trace.filter(
            |event: EventView| event.kind is ModelChunkReceived,
        ).len(),
        chunks_in(trace) <= u32::MAX ==> first_chunk_index(trace) == chunks_in(trace),
    decreases trace.len(),
{
    reveal(Seq::filter);
    if trace.len() > 0 {
        chunks_are_counted(trace.drop_last());
    }
}

} // verus!
