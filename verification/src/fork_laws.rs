//! What a forked run has of its parent.

use vstd::prelude::*;

use crate::assumptions::{self, AssumptionTransitionView, AssumptionView, ASSUMPTION_SCHEMA_VERSION};
use crate::event_store::{
    after, bare, has_position, has_run, of_run, up_to, BranchMetadata, ReplayMode, StoredEventView,
};
use crate::fork::fork_plan;
use crate::ids::{EventId, IdSource, RunId};
use crate::ipc::{self, IpcEnvelopeView, IpcErrorView, IPC_SCHEMA_VERSION};
use crate::kernel::{EventKindView, EventView};
use crate::remap::{
    event_in_run, moved_assumptions_keep_their_content, moved_messages_keep_their_content,
};
use crate::state::{
    applied, initial_state, replayed, RuntimeStateView, Sequence, StoreErrorView, TaskStateView,
};
use crate::state_laws::ends_a_run;

verus! {

// ---------------------------------------------------------------------------
// Single events.

/// The kind names a run, or carries a payload that may name one.
pub open spec fn bound_to_its_run(kind: EventKindView) -> bool {
    ||| kind is RunCreated
    ||| kind is TaskCreated
    ||| kind is RunCompleted
    ||| kind is RunCancelled
    ||| kind is RunFailed
    ||| kind is AgentMessage
    ||| kind is AssumptionTransition
    ||| kind is ToolTransition
}

/// Moving an event changes its identity and the run that it names, and
/// nothing else of what it says: a task keeps its identity and title, a
/// failure its message, and what names no run stays as it is.
pub proof fn moving_changes_only_the_run(
    event: EventView,
    run_id: RunId,
    id: EventId,
    tool: Option<(u16, Seq<u8>)>,
)
    ensures
        ({
            let moved = event_in_run(event, run_id, id, tool);
            &&& moved.id == id
            &&& moved.run_id == run_id
            &&& moved.occurred_at_ms == event.occurred_at_ms
            &&& !bound_to_its_run(event.kind) ==> moved.kind == event.kind
            &&& event.kind is RunCreated ==> moved.kind == (EventKindView::RunCreated { run_id })
            &&& event.kind matches EventKindView::TaskCreated { task_id, title, .. } ==> moved.kind
                == (EventKindView::TaskCreated { task_id, run_id, title })
            &&& event.kind is RunCompleted ==> moved.kind == (EventKindView::RunCompleted {
                run_id,
            })
            &&& event.kind is RunCancelled ==> moved.kind == (EventKindView::RunCancelled {
                run_id,
            })
            &&& event.kind matches EventKindView::RunFailed { message, .. } ==> moved.kind == (
            EventKindView::RunFailed { run_id, message })
            &&& event.kind matches EventKindView::ToolTransition { version, payload } ==> (
            match tool {
                Some(given) => moved.kind == (EventKindView::ToolTransition {
                    version: given.0,
                    payload: given.1,
                }),
                None => moved.kind == event.kind,
            })
        }),
{
}

/// A moved message is the same message in the other run, under the current
/// schema; one that cannot be read or written keeps its bytes and version.
pub proof fn moved_events_carry_their_message(
    event: EventView,
    run_id: RunId,
    id: EventId,
    tool: Option<(u16, Seq<u8>)>,
)
    ensures
        event.kind matches EventKindView::AgentMessage { version, payload } ==> (event_in_run(
            event,
            run_id,
            id,
            tool,
        ).kind matches EventKindView::AgentMessage { version: now, payload: bytes } && match (
            ipc::decoded(version, payload)
        ) {
            Err(_) => now == version && bytes == payload,
            Ok(envelope) => {
                let wanted = IpcEnvelopeView { run_id, ..envelope };
                if ipc::encoded(wanted) is Ok {
                    now == IPC_SCHEMA_VERSION && ipc::decoded(now, bytes) == Ok::<
                        IpcEnvelopeView,
                        IpcErrorView,
                    >(wanted)
                } else {
                    now == version && bytes == payload
                }
            },
        }),
{
    if let EventKindView::AgentMessage { version, payload } = event.kind {
        if let Ok(envelope) = ipc::decoded(version, payload) {
            if ipc::encoded(IpcEnvelopeView { run_id, ..envelope }) is Ok {
                moved_messages_keep_their_content(version, payload, run_id);
            }
        }
    }
}

/// A claim that was created in one run is the same claim in the other.
pub open spec fn transition_moved(
    transition: AssumptionTransitionView,
    moved: AssumptionTransitionView,
    run_id: RunId,
) -> bool {
    match transition {
        AssumptionTransitionView::Created { assumption } => moved
            == (AssumptionTransitionView::Created {
            assumption: AssumptionView { run_id, ..assumption },
        }),
        _ => moved == transition,
    }
}

/// A moved assumption transition is the same transition in the other run,
/// under the current schema; one that cannot be read or written keeps its
/// bytes and version.
pub proof fn moved_events_carry_their_assumption(
    event: EventView,
    run_id: RunId,
    id: EventId,
    tool: Option<(u16, Seq<u8>)>,
)
    ensures
        event.kind matches EventKindView::AssumptionTransition { version, payload } ==> (
        event_in_run(event, run_id, id, tool).kind matches EventKindView::AssumptionTransition {
            version: now,
            payload: bytes,
        } && match (assumptions::decoded(version, payload)) {
            Err(_) => now == version && bytes == payload,
            Ok(transition) => {
                ||| now == ASSUMPTION_SCHEMA_VERSION && (assumptions::decoded(now, bytes) matches Ok(
                    moved,
                ) && transition_moved(transition, moved, run_id))
                ||| now == version && bytes == payload && (forall|wanted: AssumptionTransitionView|
                 #[trigger]
                    transition_moved(transition, wanted, run_id) ==> assumptions::encoded(
                        wanted,
                    ) is Err)
            },
        }),
{
    if let EventKindView::AssumptionTransition { version, payload } = event.kind {
        if let Ok(transition) = assumptions::decoded(version, payload) {
            if assumptions::encoded(transition.in_run(run_id)) is Ok {
                moved_assumptions_keep_their_content(version, payload, run_id);
            } else {
                assert forall|wanted: AssumptionTransitionView| #[trigger]
                    transition_moved(transition, wanted, run_id) implies assumptions::encoded(
                    wanted,
                ) is Err by {
                    assert(wanted == transition.in_run(run_id));
                }
            }
        }
    }
}

// ---------------------------------------------------------------------------
// Whole prefixes.

/// A state with every mention of its run replaced.
pub open spec fn state_in_run(state: RuntimeStateView, run_id: RunId) -> RuntimeStateView {
    RuntimeStateView {
        run_id,
        tasks: state.tasks.map_values(
            |task: TaskStateView| TaskStateView { run_id, ..task },
        ),
        ..state
    }
}

/// The events are those of the parent, moved to another run.
pub open spec fn moved_to(events: Seq<EventView>, moved: Seq<EventView>, run_id: RunId) -> bool {
    &&& moved.len() == events.len()
    &&& forall|i: int|
        0 <= i < events.len() ==> exists|tool: Option<(u16, Seq<u8>)>|
            (#[trigger] moved[i]) == #[trigger] event_in_run(events[i], run_id, moved[i].id, tool)
}

/// Replaying moved events gives the state that the events led to, with only
/// the run replaced: the same tasks with their titles, the same agents,
/// artifacts and status.
pub proof fn moved_events_replay_alike(
    parent: RunId,
    child: RunId,
    events: Seq<EventView>,
    moved: Seq<EventView>,
)
    requires
        moved_to(events, moved, child),
        replayed(initial_state(parent), events) is Ok,
    ensures
        replayed(initial_state(child), moved) == Ok::<RuntimeStateView, StoreErrorView>(
            state_in_run(replayed(initial_state(parent), events)->Ok_0, child),
        ),
        replayed(initial_state(parent), events)->Ok_0.run_id == parent,
    decreases events.len(),
{
    if events.len() == 0 {
        assert(state_in_run(initial_state(parent), child).tasks =~= initial_state(child).tasks);
    } else {
        let rest = events.drop_last();
        let last = events.len() - 1;
        let early = moved.drop_last();
        assert forall|i: int| 0 <= i < rest.len() implies exists|tool: Option<(u16, Seq<u8>)>|
            (#[trigger] early[i]) == #[trigger] event_in_run(rest[i], child, early[i].id, tool) by {
            assert(moved[i] == early[i]);
            let tool = choose|tool: Option<(u16, Seq<u8>)>|
                moved[i] == #[trigger] event_in_run(events[i], child, moved[i].id, tool);
            assert(early[i] == event_in_run(rest[i], child, early[i].id, tool));
        }
        moved_events_replay_alike(parent, child, rest, early);
        let before = replayed(initial_state(parent), rest)->Ok_0;
        let tool = choose|tool: Option<(u16, Seq<u8>)>|
            moved[last] == #[trigger] event_in_run(events[last], child, moved[last].id, tool);
        one_moved_event_applies_alike(before, events[last], child, moved[last].id, tool);
    }
}

#[verifier::spinoff_prover]
proof fn one_moved_event_applies_alike(
    before: RuntimeStateView,
    event: EventView,
    child: RunId,
    id: EventId,
    tool: Option<(u16, Seq<u8>)>,
)
    requires
        applied(before, event) is Ok,
    ensures
        applied(state_in_run(before, child), event_in_run(event, child, id, tool)) == Ok::<
            RuntimeStateView,
            StoreErrorView,
        >(state_in_run(applied(before, event)->Ok_0, child)),
{
    let next = applied(before, event)->Ok_0;
    let moved = event_in_run(event, child, id, tool);
    let there = state_in_run(before, child);
    assert(there.tasks.dom() =~= before.tasks.dom());
    if let EventKindView::TaskCreated { task_id, title, .. } = event.kind {
        assert(applied(there, moved) is Ok);
        let ours = applied(there, moved)->Ok_0;
        assert(ours.tasks =~= state_in_run(next, child).tasks);
    }
}

/// The prefix that a fork gives to its child is the parent's, event by event
/// and in order, up to the position of the fork; so the child starts out in
/// the parent's state there, with only the run replaced.
pub proof fn forks_start_where_the_parent_was(
    parent_events: Seq<StoredEventView>,
    branch: BranchMetadata,
    child: RunId,
    ids: IdSource,
    tools: Map<EventId, (u16, Seq<u8>)>,
)
    requires
        fork_plan(parent_events, branch, child, ids, tools) is Ok,
    ensures
        ({
            let prefix = bare(
                parent_events.filter(
                    |stored: StoredEventView| stored.sequence <= branch.fork_sequence,
                ),
            );
            let moved = fork_plan(parent_events, branch, child, ids, tools)->Ok_0;
            &&& moved_to(prefix, moved, child)
            &&& forall|i: int|
                0 <= i < prefix.len() ==> (#[trigger] moved[i]) == event_in_run(
                    prefix[i],
                    child,
                    EventId(ids.upcoming(i as nat)),
                    tools.get(prefix[i].id),
                )
            &&& replayed(initial_state(branch.parent_run_id), prefix) matches Ok(state) ==> replayed(
                initial_state(child),
                moved,
            ) == Ok::<RuntimeStateView, StoreErrorView>(state_in_run(state, child))
        }),
{
    let sequence = branch.fork_sequence;
    prefixes_end_at_their_position(parent_events, sequence);
    let chosen = up_to(parent_events, sequence);
    let prefix = bare(chosen);
    let moved = fork_plan(parent_events, branch, child, ids, tools)->Ok_0;
    assert forall|i: int| 0 <= i < prefix.len() implies (#[trigger] moved[i]) == event_in_run(
        prefix[i],
        child,
        EventId(ids.upcoming(i as nat)),
        tools.get(prefix[i].id),
    ) by {
        assert(prefix[i] == chosen[i].event);
    }
    assert forall|i: int| 0 <= i < prefix.len() implies exists|tool: Option<(u16, Seq<u8>)>|
        (#[trigger] moved[i]) == #[trigger] event_in_run(prefix[i], child, moved[i].id, tool) by {
        assert(moved[i] == event_in_run(prefix[i], child, moved[i].id, tools.get(prefix[i].id)));
    }
    if replayed(initial_state(branch.parent_run_id), prefix) is Ok {
        moved_events_replay_alike(branch.parent_run_id, child, prefix, moved);
    }
}

/// A fork is planned exactly where the parent has the position; one that runs
/// on live may not start after the parent has ended.
pub proof fn forks_start_at_a_position_of_the_parent(
    parent_events: Seq<StoredEventView>,
    branch: BranchMetadata,
    child: RunId,
    ids: IdSource,
    tools: Map<EventId, (u16, Seq<u8>)>,
)
    ensures
        fork_plan(parent_events, branch, child, ids, tools) is Ok <==> {
            &&& exists|i: int|
                0 <= i < parent_events.len() && (#[trigger] parent_events[i]).sequence
                    == branch.fork_sequence && parent_events[i].event.run_id
                    == branch.parent_run_id
            &&& branch.replay_mode == ReplayMode::Recorded || forall|i: int|
                0 <= i < parent_events.len() && (#[trigger] parent_events[i]).sequence
                    <= branch.fork_sequence ==> !ends_a_run(parent_events[i].event.kind)
        },
        !(exists|i: int|
            0 <= i < parent_events.len() && (#[trigger] parent_events[i]).event.run_id
                == branch.parent_run_id) ==> fork_plan(parent_events, branch, child, ids, tools)
            == Err::<Seq<EventView>, StoreErrorView>(
            StoreErrorView::UnknownRun(branch.parent_run_id),
        ),
{
    let prefix = up_to(parent_events, branch.fork_sequence);
    prefix_members(parent_events, branch.fork_sequence);
    let at = exists|i: int|
        0 <= i < parent_events.len() && (#[trigger] parent_events[i]).sequence
            == branch.fork_sequence && parent_events[i].event.run_id == branch.parent_run_id;
    assert(at == has_position(parent_events, branch.parent_run_id, branch.fork_sequence));
    if at {
        let i = choose|i: int|
            0 <= i < parent_events.len() && (#[trigger] parent_events[i]).sequence
                == branch.fork_sequence && parent_events[i].event.run_id == branch.parent_run_id;
        assert(parent_events[i].event.run_id == branch.parent_run_id);
        assert(has_run(parent_events, branch.parent_run_id));
    }
    if crate::fork::has_terminal(prefix) {
        let k = choose|k: int|
            0 <= k < prefix.len() && crate::fork::ends_run((#[trigger] prefix[k]).event.kind);
        assert(prefix.contains(prefix[k]));
        let i = choose|i: int| 0 <= i < parent_events.len() && parent_events[i] == prefix[k];
        assert(ends_a_run(parent_events[i].event.kind));
    } else {
        assert forall|i: int|
            0 <= i < parent_events.len() && (#[trigger] parent_events[i]).sequence
                <= branch.fork_sequence implies !ends_a_run(parent_events[i].event.kind) by {
            assert(prefix.contains(parent_events[i]));
            let k = choose|k: int| 0 <= k < prefix.len() && prefix[k] == parent_events[i];
            assert(!crate::fork::ends_run(prefix[k].event.kind));
        }
    }
}

// ---------------------------------------------------------------------------
// Parts of a history.

/// Reading a run, a prefix or a tail of a history leaves nothing out and
/// changes no order.
pub proof fn parts_of_a_history_are_whole(
    history: Seq<StoredEventView>,
    run_id: RunId,
    sequence: Sequence,
)
    ensures
        of_run(history, run_id) == history.filter(
            |stored: StoredEventView| stored.event.run_id == run_id,
        ),
        up_to(history, sequence) == history.filter(
            |stored: StoredEventView| stored.sequence <= sequence,
        ),
        after(history, sequence) == history.filter(
            |stored: StoredEventView| stored.sequence > sequence,
        ),
    decreases history.len(),
{
    reveal(Seq::filter);
    if history.len() > 0 {
        parts_of_a_history_are_whole(history.drop_last(), run_id, sequence);
    }
}

proof fn prefixes_end_at_their_position(history: Seq<StoredEventView>, sequence: Sequence)
    ensures
        up_to(history, sequence) == history.filter(
            |stored: StoredEventView| stored.sequence <= sequence,
        ),
{
    parts_of_a_history_are_whole(history, RunId(0), sequence);
}

proof fn prefix_members(history: Seq<StoredEventView>, sequence: Sequence)
    ensures
        forall|stored: StoredEventView| #[trigger]
            up_to(history, sequence).contains(stored) <==> history.contains(stored)
                && stored.sequence <= sequence,
    decreases history.len(),
{
    let now = up_to(history, sequence);
    if history.len() > 0 {
        let rest = history.drop_last();
        let before = up_to(rest, sequence);
        prefix_members(rest, sequence);
        assert forall|stored: StoredEventView| #[trigger]
            now.contains(stored) <==> history.contains(stored) && stored.sequence <= sequence by {
            if now.contains(stored) {
                let i = choose|i: int| 0 <= i < now.len() && now[i] == stored;
                if i < before.len() {
                    assert(before[i] == stored);
                    assert(before.contains(stored));
                    let k = choose|k: int| 0 <= k < rest.len() && rest[k] == stored;
                    assert(history[k] == stored);
                } else {
                    assert(history[history.len() - 1] == stored);
                }
            }
            if history.contains(stored) && stored.sequence <= sequence {
                let k = choose|k: int| 0 <= k < history.len() && history[k] == stored;
                if k < rest.len() {
                    assert(rest[k] == stored);
                    assert(before.contains(stored));
                    let i = choose|i: int| 0 <= i < before.len() && before[i] == stored;
                    assert(now[i] == stored);
                } else {
                    assert(now[now.len() - 1] == stored);
                }
            }
        }
    }
}

} // verus!
