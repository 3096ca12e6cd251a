//! What holds of every agent run.

use vstd::prelude::*;

use crate::agent::{
    closing_notes, course, course_end, decide, ends_run, first_chunk_index, noted, opening_notes,
    request_note, start, step_views, whole_course, Course, Decision, Ending, Note, ProgressView,
    ProviderEventView, ProviderLimits, ProviderStream, StreamItemView, StreamStepView,
};
use crate::ids::{AgentId, IdSource, RunId, TaskId};
use crate::kernel::{AgentIdentityView, EventKindView, EventView, Usage};
use crate::state::{
    applied, initial_state, replayed, AgentStatus, RunStatus, RuntimeStateView, StoreErrorView,
};
use crate::state_laws::{
    announced, creates_agent, last_announced, last_model, last_usage, replay_gathers_agents,
    replay_gathers_tasks,
};

verus! {

proof fn decisions_stay_within(
    limits: ProviderLimits,
    progress: ProgressView,
    cancelled: bool,
    item: StreamItemView,
)
    requires
        progress.within(limits),
    ensures
        decide(limits, progress, cancelled, item) matches Decision::Go { progress: next, .. }
            ==> next.within(limits),
{
    if let StreamItemView::Event(event) = item {
        if let ProviderEventView::TextDelta { text } = event {
            assert(progress.output_chunks.push(text).drop_last() =~= progress.output_chunks);
        }
    }
}

proof fn courses_stay_within(
    limits: ProviderLimits,
    run_id: RunId,
    agent_id: AgentId,
    next_chunk_index: u32,
    steps: Seq<StreamStepView>,
)
    ensures
        course(limits, run_id, agent_id, next_chunk_index, steps).progress.within(limits),
    decreases steps.len(),
{
    if steps.len() > 0 {
        courses_stay_within(limits, run_id, agent_id, next_chunk_index, steps.drop_last());
        let before = course(limits, run_id, agent_id, next_chunk_index, steps.drop_last());
        decisions_stay_within(
            limits,
            before.progress,
            steps.last().cancelled,
            steps.last().item,
        );
    }
}

/// Whatever a provider sends, a run keeps no more text, chunks and tool calls
/// than the limits allow.
pub proof fn retained_output_is_bounded(
    limits: ProviderLimits,
    run_id: RunId,
    agent_id: AgentId,
    next_chunk_index: u32,
    stream: ProviderStream,
    at_ms: u128,
)
    ensures
        whole_course(
            limits,
            run_id,
            agent_id,
            next_chunk_index,
            stream,
            at_ms,
        ).progress.within(limits),
{
    match stream {
        ProviderStream::Refused(_) => {},
        ProviderStream::Items { steps, .. } => {
            courses_stay_within(limits, run_id, agent_id, next_chunk_index, step_views(steps@));
        },
    }
}

/// The event that ends a run in a given way.
pub open spec fn ends_with(notes: Seq<Note>, run_id: RunId, ending: Ending) -> bool {
    notes.len() >= 2 && match ending {
        Ending::Completed => notes.last().kind == (EventKindView::RunCompleted { run_id }),
        Ending::Cancelled => notes.last().kind == (EventKindView::RunCancelled { run_id }),
        Ending::Failed(error) => notes.last().kind == (EventKindView::RunFailed {
            run_id,
            message: error.text(),
        }),
    }
}

proof fn ended_courses_say_so(
    limits: ProviderLimits,
    run_id: RunId,
    agent_id: AgentId,
    next_chunk_index: u32,
    steps: Seq<StreamStepView>,
)
    ensures
        course(limits, run_id, agent_id, next_chunk_index, steps).ending matches Some(ending)
            ==> ends_with(
            course(limits, run_id, agent_id, next_chunk_index, steps).notes,
            run_id,
            ending,
        ),
    decreases steps.len(),
{
    if steps.len() > 0 {
        ended_courses_say_so(limits, run_id, agent_id, next_chunk_index, steps.drop_last());
    }
}

/// Every run ends, and the last event it records says how.
pub proof fn every_run_ends(
    limits: ProviderLimits,
    run_id: RunId,
    agent_id: AgentId,
    next_chunk_index: u32,
    stream: ProviderStream,
    at_ms: u128,
)
    ensures
        ({
            let whole = whole_course(limits, run_id, agent_id, next_chunk_index, stream, at_ms);
            whole.ending matches Some(ending) && ends_with(whole.notes, run_id, ending)
        }),
{
    match stream {
        ProviderStream::Refused(_) => {},
        ProviderStream::Items { steps, .. } => {
            ended_courses_say_so(limits, run_id, agent_id, next_chunk_index, step_views(steps@));
        },
    }
}

/// Only chunks were recorded.
pub open spec fn only_chunks(notes: Seq<Note>, agent_id: AgentId) -> bool {
    forall|i: int|
        0 <= i < notes.len() ==> ((#[trigger] notes[i]).kind matches
            EventKindView::ModelChunkReceived { agent_id: id, .. } && id == agent_id)
}

/// The two kinds of events that an ending is recorded by.
pub open spec fn closing_kinds(
    run_id: RunId,
    agent_id: AgentId,
    usage: Usage,
    ending: Ending,
) -> (EventKindView, EventKindView) {
    match ending {
        Ending::Completed => (
            EventKindView::ModelCompleted { agent_id, usage },
            EventKindView::RunCompleted { run_id },
        ),
        Ending::Cancelled => (
            EventKindView::ModelCancelled { agent_id },
            EventKindView::RunCancelled { run_id },
        ),
        Ending::Failed(error) => (
            EventKindView::ModelFailed { agent_id, message: error.text() },
            EventKindView::RunFailed { run_id, message: error.text() },
        ),
    }
}

/// A course records chunks, and behind them its ending, if it has one.
pub open spec fn told_in_order(told: Course, run_id: RunId, agent_id: AgentId) -> bool {
    match told.ending {
        None => only_chunks(told.notes, agent_id),
        Some(ending) => {
            let chunks = told.notes.len() - 2;
            let kinds = closing_kinds(run_id, agent_id, told.progress.usage, ending);
            &&& chunks >= 0
            &&& only_chunks(told.notes.take(chunks), agent_id)
            &&& told.notes[chunks].kind == kinds.0
            &&& told.notes[chunks + 1].kind == kinds.1
        },
    }
}

proof fn closings_are_told(
    before: Course,
    at_ms: u128,
    run_id: RunId,
    agent_id: AgentId,
    ending: Ending,
)
    requires
        before.ending is None,
        told_in_order(before, run_id, agent_id),
    ensures
        told_in_order(
            Course {
                notes: before.notes + closing_notes(
                    at_ms,
                    run_id,
                    agent_id,
                    before.progress.usage,
                    ending,
                ),
                ending: Some(ending),
                ..before
            },
            run_id,
            agent_id,
        ),
{
    let closing = closing_notes(at_ms, run_id, agent_id, before.progress.usage, ending);
    let all = before.notes + closing;
    assert(all.take(all.len() - 2) =~= before.notes);
}

proof fn courses_are_told(
    limits: ProviderLimits,
    run_id: RunId,
    agent_id: AgentId,
    next_chunk_index: u32,
    steps: Seq<StreamStepView>,
)
    ensures
        told_in_order(
            course(limits, run_id, agent_id, next_chunk_index, steps),
            run_id,
            agent_id,
        ),
    decreases steps.len(),
{
    if steps.len() > 0 {
        courses_are_told(limits, run_id, agent_id, next_chunk_index, steps.drop_last());
        let before = course(limits, run_id, agent_id, next_chunk_index, steps.drop_last());
        let step = steps.last();
        if before.ending is None {
            match decide(limits, before.progress, step.cancelled, step.item) {
                Decision::Go { .. } => {},
                Decision::Cancel => {
                    closings_are_told(before, step.at_ms, run_id, agent_id, Ending::Cancelled);
                },
                Decision::Fail(error) => {
                    closings_are_told(before, step.at_ms, run_id, agent_id, Ending::Failed(error));
                },
            }
        }
    }
}

proof fn whole_courses_are_told(
    limits: ProviderLimits,
    run_id: RunId,
    agent_id: AgentId,
    next_chunk_index: u32,
    stream: ProviderStream,
    at_ms: u128,
)
    ensures
        ({
            let whole = whole_course(limits, run_id, agent_id, next_chunk_index, stream, at_ms);
            whole.ending is Some && told_in_order(whole, run_id, agent_id)
        }),
{
    match stream {
        ProviderStream::Refused(error) => {
            let nothing = Course {
                progress: start(next_chunk_index),
                notes: seq![],
                ending: None,
            };
            closings_are_told(nothing, at_ms, run_id, agent_id, Ending::Failed(error@));
            let closing = closing_notes(
                at_ms,
                run_id,
                agent_id,
                start(next_chunk_index).usage,
                Ending::Failed(error@),
            );
            assert(Seq::<Note>::empty() + closing =~= closing);
        },
        ProviderStream::Items { steps, cancelled, ended_at_ms } => {
            let views = step_views(steps@);
            courses_are_told(limits, run_id, agent_id, next_chunk_index, views);
            let before = course(limits, run_id, agent_id, next_chunk_index, views);
            if before.ending is None {
                let ending = course_end(run_id, agent_id, before, cancelled, ended_at_ms).ending;
                closings_are_told(before, ended_at_ms, run_id, agent_id, ending->0);
            }
        },
    }
}

/// What a run records: the trace that it started from, the request, chunks,
/// and two events that say how it ended. Every event that is added belongs to
/// the run, and where the trace held no terminal run event, the last event is
/// the only one.
pub proof fn traces_show_one_ending(
    trace: Seq<EventView>,
    ids: IdSource,
    limits: ProviderLimits,
    run_id: RunId,
    agent: AgentIdentityView,
    stream: ProviderStream,
    at_ms: u128,
)
    ensures
        ({
            let whole = whole_course(
                limits,
                run_id,
                agent.id,
                first_chunk_index(trace),
                stream,
                at_ms,
            );
            let all = noted(
                trace,
                ids,
                0,
                run_id,
                seq![request_note(at_ms, agent)] + whole.notes,
            );
            let last = all.len() - 1;
            &&& all.len() >= trace.len() + 3
            &&& all.take(trace.len() as int) == trace
            &&& all[trace.len() as int].kind == (EventKindView::ModelRequested {
                agent_id: agent.id,
                model: agent.model,
            })
            &&& forall|i: int|
                trace.len() <= i < all.len() ==> (#[trigger] all[i]).run_id == run_id
            &&& whole.ending matches Some(ending) && (all[last - 1].kind, all[last].kind)
                == closing_kinds(run_id, agent.id, whole.progress.usage, ending)
            &&& (forall|i: int| 0 <= i < trace.len() ==> !ends_run(#[trigger] trace[i]))
                ==> forall|i: int| 0 <= i < last ==> !ends_run(#[trigger] all[i])
            &&& ends_run(all[last])
        }),
{
    let index = first_chunk_index(trace);
    let whole = whole_course(limits, run_id, agent.id, index, stream, at_ms);
    whole_courses_are_told(limits, run_id, agent.id, index, stream, at_ms);
    let notes = seq![request_note(at_ms, agent)] + whole.notes;
    let all = noted(trace, ids, 0, run_id, notes);
    let last = all.len() - 1;
    assert(all.take(trace.len() as int) =~= trace);
    let chunks = whole.notes.len() - 2;
    assert(all[last].kind == whole.notes[chunks + 1].kind);
    assert(all[last - 1].kind == whole.notes[chunks].kind);
    if forall|i: int| 0 <= i < trace.len() ==> !ends_run(#[trigger] trace[i]) {
        assert forall|i: int| 0 <= i < last implies !ends_run(#[trigger] all[i]) by {
            if i < trace.len() {
                assert(all[i] == trace[i]);
            } else if i > trace.len() {
                let place = i - trace.len() - 1;
                assert(all[i].kind == whole.notes[place].kind);
                if place < chunks {
                    assert(whole.notes.take(chunks)[place] == whole.notes[place]);
                }
            }
        }
    }
}

proof fn cancelled_start(
    limits: ProviderLimits,
    run_id: RunId,
    agent_id: AgentId,
    next_chunk_index: u32,
    steps: Seq<StreamStepView>,
)
    requires
        steps.len() > 0,
        steps[0].cancelled,
    ensures
        course(limits, run_id, agent_id, next_chunk_index, steps) == (Course {
            progress: start(next_chunk_index),
            notes: closing_notes(
                steps[0].at_ms,
                run_id,
                agent_id,
                start(next_chunk_index).usage,
                Ending::Cancelled,
            ),
            ending: Some(Ending::Cancelled),
        }),
    decreases steps.len(),
{
    if steps.len() == 1 {
        let closing = closing_notes(
            steps[0].at_ms,
            run_id,
            agent_id,
            start(next_chunk_index).usage,
            Ending::Cancelled,
        );
        assert(steps.drop_last() =~= Seq::<StreamStepView>::empty());
        assert(Seq::<Note>::empty() + closing =~= closing);
    } else {
        cancelled_start(limits, run_id, agent_id, next_chunk_index, steps.drop_last());
    }
}

/// A run that is cancelled before its first item accepts nothing of the
/// stream: it keeps no output and records the cancellation alone.
pub proof fn cancelled_runs_accept_nothing(
    limits: ProviderLimits,
    run_id: RunId,
    agent_id: AgentId,
    next_chunk_index: u32,
    stream: ProviderStream,
    at_ms: u128,
)
    requires
        stream matches ProviderStream::Items { steps, cancelled, .. } && cancelled && (
        steps@.len() > 0 ==> steps@[0].cancelled),
    ensures
        ({
            let whole = whole_course(limits, run_id, agent_id, next_chunk_index, stream, at_ms);
            &&& whole.progress == start(next_chunk_index)
            &&& whole.ending == Some(Ending::Cancelled)
            &&& whole.notes.len() == 2
            &&& whole.notes[0].kind == (EventKindView::ModelCancelled { agent_id })
            &&& whole.notes[1].kind == (EventKindView::RunCancelled { run_id })
        }),
{
    if let ProviderStream::Items { steps, cancelled, ended_at_ms } = stream {
        let views = step_views(steps@);
        if steps@.len() > 0 {
            assert(views[0] == steps@[0]@);
            cancelled_start(limits, run_id, agent_id, next_chunk_index, views);
        } else {
            assert(views =~= Seq::<StreamStepView>::empty());
        }
    }
}

// ---------------------------------------------------------------------------
// Replay.

/// The agent is known and its run goes on.
spec fn running(state: RuntimeStateView, run_id: RunId, agent_id: AgentId) -> bool {
    &&& state.run_id == run_id
    &&& state.status == RunStatus::Active
    &&& state.events_applied > 0
    &&& state.agents.contains_key(agent_id)
}

proof fn one_more_note(
    state: RuntimeStateView,
    ids: IdSource,
    from: nat,
    run_id: RunId,
    notes: Seq<Note>,
    note: Note,
)
    ensures
        ({
            let base = noted(Seq::empty(), ids, from, run_id, notes);
            let all = noted(Seq::empty(), ids, from, run_id, notes.push(note));
            &&& all.drop_last() == base
            &&& all.last().run_id == run_id
            &&& all.last().kind == note.kind
            &&& replayed(state, all) == match replayed(state, base) {
                Ok(before) => applied(before, all.last()),
                Err(error) => Err(error),
            }
        }),
{
    let base = noted(Seq::empty(), ids, from, run_id, notes);
    let all = noted(Seq::empty(), ids, from, run_id, notes.push(note));
    assert(all.drop_last() =~= base);
}

/// The events of a course keep the run going until it ends, and then end it.
#[verifier::opaque]
spec fn replays_to(
    result: Result<RuntimeStateView, StoreErrorView>,
    run_id: RunId,
    agent_id: AgentId,
    ending: Option<Ending>,
) -> bool {
    match ending {
        None => result matches Ok(state) && running(state, run_id, agent_id),
        Some(ending) => result matches Ok(state) && state.status == status_of(ending),
    }
}

pub open spec fn status_of(ending: Ending) -> RunStatus {
    match ending {
        Ending::Completed => RunStatus::Completed,
        Ending::Cancelled => RunStatus::Cancelled,
        Ending::Failed(_) => RunStatus::Failed,
    }
}

proof fn closing_replays(
    state: RuntimeStateView,
    ids: IdSource,
    from: nat,
    run_id: RunId,
    agent_id: AgentId,
    notes: Seq<Note>,
    at_ms: u128,
    usage: crate::kernel::Usage,
    ending: Ending,
)
    requires
        replays_to(
            replayed(state, noted(Seq::empty(), ids, from, run_id, notes)),
            run_id,
            agent_id,
            None,
        ),
    ensures
        replays_to(
            replayed(
                state,
                noted(
                    Seq::empty(),
                    ids,
                    from,
                    run_id,
                    notes + closing_notes(at_ms, run_id, agent_id, usage, ending),
                ),
            ),
            run_id,
            agent_id,
            Some(ending),
        ),
{
    reveal(replays_to);
    let closing = closing_notes(at_ms, run_id, agent_id, usage, ending);
    one_more_note(state, ids, from, run_id, notes, closing[0]);
    one_more_note(state, ids, from, run_id, notes.push(closing[0]), closing[1]);
    assert(notes + closing =~= notes.push(closing[0]).push(closing[1]));
}

proof fn chunks_replay(
    state: RuntimeStateView,
    ids: IdSource,
    from: nat,
    run_id: RunId,
    agent_id: AgentId,
    notes: Seq<Note>,
    made: Note,
)
    requires
        replays_to(
            replayed(state, noted(Seq::empty(), ids, from, run_id, notes)),
            run_id,
            agent_id,
            None,
        ),
        made.kind matches EventKindView::ModelChunkReceived { agent_id: source, .. } && source
            == agent_id,
    ensures
        replays_to(
            replayed(state, noted(Seq::empty(), ids, from, run_id, notes.push(made))),
            run_id,
            agent_id,
            None,
        ),
{
    reveal(replays_to);
    one_more_note(state, ids, from, run_id, notes, made);
}

#[verifier::spinoff_prover]
proof fn courses_replay(
    state: RuntimeStateView,
    ids: IdSource,
    from: nat,
    limits: ProviderLimits,
    run_id: RunId,
    agent_id: AgentId,
    next_chunk_index: u32,
    opening: Seq<Note>,
    steps: Seq<StreamStepView>,
)
    requires
        replays_to(
            replayed(state, noted(Seq::empty(), ids, from, run_id, opening)),
            run_id,
            agent_id,
            None,
        ),
    ensures
        ({
            let whole = course(limits, run_id, agent_id, next_chunk_index, steps);
            replays_to(
                replayed(state, noted(Seq::empty(), ids, from, run_id, opening + whole.notes)),
                run_id,
                agent_id,
                whole.ending,
            )
        }),
    decreases steps.len(),
{
    let whole = course(limits, run_id, agent_id, next_chunk_index, steps);
    if steps.len() == 0 {
        assert(opening + whole.notes =~= opening);
    } else {
        courses_replay(
            state,
            ids,
            from,
            limits,
            run_id,
            agent_id,
            next_chunk_index,
            opening,
            steps.drop_last(),
        );
        let before = course(limits, run_id, agent_id, next_chunk_index, steps.drop_last());
        let step = steps.last();
        if before.ending is None {
            let so_far = opening + before.notes;
            match decide(limits, before.progress, step.cancelled, step.item) {
                Decision::Go { progress, chunk } => {
                    if chunk {
                        let made = whole.notes.last();
                        assert(opening + whole.notes =~= so_far.push(made));
                        chunks_replay(state, ids, from, run_id, agent_id, so_far, made);
                    }
                },
                Decision::Cancel => {
                    closing_replays(
                        state,
                        ids,
                        from,
                        run_id,
                        agent_id,
                        so_far,
                        step.at_ms,
                        before.progress.usage,
                        Ending::Cancelled,
                    );
                    assert(opening + whole.notes =~= so_far + closing_notes(
                        step.at_ms,
                        run_id,
                        agent_id,
                        before.progress.usage,
                        Ending::Cancelled,
                    ));
                },
                Decision::Fail(error) => {
                    closing_replays(
                        state,
                        ids,
                        from,
                        run_id,
                        agent_id,
                        so_far,
                        step.at_ms,
                        before.progress.usage,
                        Ending::Failed(error),
                    );
                    assert(opening + whole.notes =~= so_far + closing_notes(
                        step.at_ms,
                        run_id,
                        agent_id,
                        before.progress.usage,
                        Ending::Failed(error),
                    ));
                },
            }
        }
    }
}

proof fn openings_replay(
    ids: IdSource,
    from: nat,
    at_ms: u128,
    run_id: RunId,
    task_id: TaskId,
    title: Seq<char>,
    agent: AgentIdentityView,
)
    ensures
        replays_to(
            replayed(
                initial_state(run_id),
                noted(
                    Seq::empty(),
                    ids,
                    from,
                    run_id,
                    opening_notes(at_ms, run_id, task_id, title, agent) + seq![
                        request_note(at_ms, agent),
                    ],
                ),
            ),
            run_id,
            agent.id,
            None,
        ),
{
    reveal(replays_to);
    let state = initial_state(run_id);
    let opening = opening_notes(at_ms, run_id, task_id, title, agent);
    let request = request_note(at_ms, agent);
    let none = Seq::<Note>::empty();
    assert(noted(Seq::empty(), ids, from, run_id, none) =~= Seq::<EventView>::empty());
    one_more_note(state, ids, from, run_id, none, opening[0]);
    one_more_note(state, ids, from, run_id, none.push(opening[0]), opening[1]);
    one_more_note(
        state,
        ids,
        from,
        run_id,
        none.push(opening[0]).push(opening[1]),
        opening[2],
    );
    one_more_note(
        state,
        ids,
        from,
        run_id,
        none.push(opening[0]).push(opening[1]).push(opening[2]),
        request,
    );
    assert(opening + seq![request] =~= none.push(opening[0]).push(opening[1]).push(
        opening[2],
    ).push(request));
}

/// The trace of a fresh run replays: the projection of a run built from it
/// says how the run ended.
pub proof fn runs_replay(
    ids: IdSource,
    from: nat,
    limits: ProviderLimits,
    at_ms: u128,
    run_id: RunId,
    task_id: TaskId,
    title: Seq<char>,
    agent: AgentIdentityView,
    stream: ProviderStream,
)
    ensures
        ({
            let whole = whole_course(limits, run_id, agent.id, 0, stream, at_ms);
            let notes = opening_notes(at_ms, run_id, task_id, title, agent) + seq![
                request_note(at_ms, agent),
            ] + whole.notes;
            &&& whole.ending matches Some(ending) && (replayed(
                initial_state(run_id),
                noted(Seq::empty(), ids, from, run_id, notes),
            ) matches Ok(state) && state.status == status_of(ending))
        }),
{
    reveal(replays_to);
    let opening = opening_notes(at_ms, run_id, task_id, title, agent) + seq![
        request_note(at_ms, agent),
    ];
    let state = initial_state(run_id);
    openings_replay(ids, from, at_ms, run_id, task_id, title, agent);
    match stream {
        ProviderStream::Refused(error) => {
            closing_replays(
                state,
                ids,
                from,
                run_id,
                agent.id,
                opening,
                at_ms,
                start(0).usage,
                Ending::Failed(error@),
            );
        },
        ProviderStream::Items { steps, cancelled, ended_at_ms } => {
            let views = step_views(steps@);
            courses_replay(state, ids, from, limits, run_id, agent.id, 0, opening, views);
            let before = course(limits, run_id, agent.id, 0, views);
            let whole = course_end(run_id, agent.id, before, cancelled, ended_at_ms);
            if before.ending is None {
                let ending = whole.ending->0;
                closing_replays(
                    state,
                    ids,
                    from,
                    run_id,
                    agent.id,
                    opening + before.notes,
                    ended_at_ms,
                    before.progress.usage,
                    ending,
                );
                let closing = closing_notes(
                    ended_at_ms,
                    run_id,
                    agent.id,
                    before.progress.usage,
                    ending,
                );
                assert(opening + whole.notes =~= (opening + before.notes) + closing);
            }
        },
    }
}

proof fn models_stay_as_requested(events: Seq<EventView>, agent: AgentIdentityView, at: int)
    requires
        0 <= at < events.len(),
        events[at].kind == (EventKindView::ModelRequested {
            agent_id: agent.id,
            model: agent.model,
        }),
        forall|i: int|
            at < i < events.len() ==> !((#[trigger] events[i]).kind is ModelRequested)
                && !(events[i].kind is AgentCreated),
    ensures
        last_model(events, agent.id) == Some(agent.model),
    decreases events.len(),
{
    let last = events.len() - 1;
    if at < last {
        let rest = events.drop_last();
        assert(rest[at] == events[at]);
        assert forall|i: int| at < i < rest.len() implies !((
        #[trigger] rest[i]).kind is ModelRequested) && !(rest[i].kind is AgentCreated) by {
            assert(rest[i] == events[i]);
        }
        models_stay_as_requested(rest, agent, at);
        assert(events.last() == events[last]);
    }
}

/// Replaying the trace of a fresh run gives its agent the status that fits
/// the ending, and with it the usage that a completed run reported.
pub proof fn replayed_agents_show_the_ending(
    ids: IdSource,
    from: nat,
    limits: ProviderLimits,
    at_ms: u128,
    run_id: RunId,
    task_id: TaskId,
    title: Seq<char>,
    agent: AgentIdentityView,
    stream: ProviderStream,
)
    ensures
        ({
            let whole = whole_course(limits, run_id, agent.id, 0, stream, at_ms);
            let notes = opening_notes(at_ms, run_id, task_id, title, agent) + seq![
                request_note(at_ms, agent),
            ] + whole.notes;
            let events = noted(Seq::empty(), ids, from, run_id, notes);
            replayed(initial_state(run_id), events) matches Ok(state) && {
                let shown = state.agents[agent.id];
                &&& state.agents.contains_key(agent.id)
                &&& shown.identity == agent
                &&& shown.model == agent.model
                &&& whole.ending == Some(Ending::Completed) ==> {
                    &&& state.status == RunStatus::Completed
                    &&& shown.status == AgentStatus::Completed
                    &&& shown.usage == whole.progress.usage
                }
                &&& whole.ending == Some(Ending::Cancelled) ==> {
                    &&& state.status == RunStatus::Cancelled
                    &&& shown.status == AgentStatus::Cancelled
                }
                &&& whole.ending matches Some(Ending::Failed(_)) ==> {
                    &&& state.status == RunStatus::Failed
                    &&& shown.status == AgentStatus::Failed
                }
                &&& whole.ending is Some
                &&& state.tasks.contains_key(task_id)
                &&& state.tasks[task_id].title == title
            }
        }),
{
    let whole = whole_course(limits, run_id, agent.id, 0, stream, at_ms);
    let opening = opening_notes(at_ms, run_id, task_id, title, agent) + seq![
        request_note(at_ms, agent),
    ];
    let notes = opening + whole.notes;
    let events = noted(Seq::empty(), ids, from, run_id, notes);
    runs_replay(ids, from, limits, at_ms, run_id, task_id, title, agent, stream);
    whole_courses_are_told(limits, run_id, agent.id, 0, stream, at_ms);
    replay_gathers_agents(run_id, events, agent.id);
    replay_gathers_tasks(run_id, events);
    let count = whole.notes.len() as int;
    let last = events.len() - 1;
    assert(events[last].kind == whole.notes[count - 1].kind);
    assert(events[last - 1].kind == whole.notes[count - 2].kind);
    let but_one = events.drop_last();
    assert(but_one.last() == events[last - 1]);
    assert(last_announced(events, agent.id) == last_announced(but_one, agent.id));
    assert(last_announced(but_one, agent.id) == announced(events[last - 1].kind, agent.id));
    assert(last_usage(events, agent.id) == last_usage(but_one, agent.id));
    assert(events[1].kind == opening[1].kind);
    assert(events[2].kind == opening[2].kind);
    assert(creates_agent(events[2], agent.id));
    assert(events[3].kind == opening[3].kind);
    let chunks = whole.notes.take(count - 2);
    assert forall|i: int| 3 < i < events.len() implies !((
    #[trigger] events[i]).kind is ModelRequested) && !(events[i].kind is AgentCreated) by {
        assert(events[i].kind == whole.notes[i - 4].kind);
        if i - 4 < count - 2 {
            assert(chunks[i - 4] == whole.notes[i - 4]);
        }
    }
    models_stay_as_requested(events, agent, 3);
    let made = replayed(initial_state(run_id), events)->Ok_0.agents[agent.id].identity;
    let k = choose|k: int|
        0 <= k < events.len() && (#[trigger] events[k]).kind == (EventKindView::AgentCreated {
            agent: made,
        });
    assert(k == 2) by {
        if k < 4 {
            assert(events[k].kind == opening[k].kind);
        }
    }
}

} // verus!
