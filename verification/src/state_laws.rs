//! What a run's history says of its tasks, agents, artifacts and status.

use vstd::prelude::*;

use crate::artifact::ArtifactRefView;
use crate::ids::{AgentId, RunId, TaskId};
use crate::kernel::{EventKindView, EventView, ModelRefView, Usage};
use crate::state::{
    applied, initial_state, replayed, AgentStateView, AgentStatus, RunStatus, RuntimeStateView,
    TaskStateView, TaskStatus,
};

verus! {

/// An accepted event gives the agent that it names the status that it
/// announces, and changes nothing else of the agent but the model that it
/// asks for, the usage that it reports or the chunk that it brings.
pub proof fn agents_take_the_announced_status(state: RuntimeStateView, event: EventView)
    requires
        applied(state, event) is Ok,
    ensures
        ({
            let next = applied(state, event)->Ok_0.agents;
            let before = state.agents;
            &&& event.kind matches EventKindView::AgentCreated { agent } ==> {
                &&& !before.contains_key(agent.id)
                &&& next == before.insert(agent.id, next[agent.id])
                &&& next[agent.id].identity == agent
                &&& next[agent.id].status == AgentStatus::Created
                &&& next[agent.id].model == agent.model
                &&& next[agent.id].chunks_received == 0
                &&& next[agent.id].usage.input_tokens == 0
                &&& next[agent.id].usage.output_tokens == 0
                &&& next[agent.id].usage.cached_input_tokens is None
            }
            &&& event.kind matches EventKindView::ModelRequested { agent_id, model } ==> {
                &&& before.contains_key(agent_id)
                &&& next == before.insert(
                    agent_id,
                    AgentStateView { status: AgentStatus::Running, model, ..before[agent_id] },
                )
            }
            &&& event.kind matches EventKindView::AgentResumed { agent_id } ==> {
                &&& before.contains_key(agent_id)
                &&& next == before.insert(
                    agent_id,
                    AgentStateView { status: AgentStatus::Running, ..before[agent_id] },
                )
            }
            &&& event.kind matches EventKindView::AgentPaused { agent_id } ==> {
                &&& before.contains_key(agent_id)
                &&& next == before.insert(
                    agent_id,
                    AgentStateView { status: AgentStatus::Paused, ..before[agent_id] },
                )
            }
            &&& event.kind matches EventKindView::ModelCompleted { agent_id, usage } ==> {
                &&& before.contains_key(agent_id)
                &&& next == before.insert(
                    agent_id,
                    AgentStateView { status: AgentStatus::Completed, usage, ..before[agent_id] },
                )
            }
            &&& event.kind matches EventKindView::ModelCancelled { agent_id } ==> {
                &&& before.contains_key(agent_id)
                &&& next == before.insert(
                    agent_id,
                    AgentStateView { status: AgentStatus::Cancelled, ..before[agent_id] },
                )
            }
            &&& event.kind matches EventKindView::ModelFailed { agent_id, .. } ==> {
                &&& before.contains_key(agent_id)
                &&& next == before.insert(
                    agent_id,
                    AgentStateView { status: AgentStatus::Failed, ..before[agent_id] },
                )
            }
            &&& event.kind matches EventKindView::ModelChunkReceived { agent_id, .. } ==> {
                &&& before.contains_key(agent_id)
                &&& next == before.insert(
                    agent_id,
                    AgentStateView {
                        chunks_received: next[agent_id].chunks_received,
                        ..before[agent_id]
                    },
                )
                &&& before[agent_id].chunks_received < u32::MAX ==> next[agent_id].chunks_received
                    == before[agent_id].chunks_received + 1
                &&& before[agent_id].chunks_received == u32::MAX ==> next[agent_id].chunks_received
                    == u32::MAX
            }
            &&& !names_an_agent(event.kind) ==> next == before
        }),
{
    let next = applied(state, event)->Ok_0.agents;
    assert(!names_an_agent(event.kind) ==> next == state.agents);
    if let EventKindView::AgentCreated { agent } = event.kind {
        assert(next =~= state.agents.insert(agent.id, next[agent.id]));
    }
}

/// The event is about one agent.
pub open spec fn names_an_agent(kind: EventKindView) -> bool {
    ||| kind is AgentCreated
    ||| kind is ModelRequested
    ||| kind is ModelChunkReceived
    ||| kind is ModelCompleted
    ||| kind is ModelCancelled
    ||| kind is ModelFailed
    ||| kind is AgentPaused
    ||| kind is AgentResumed
}

/// The event ends its run.
pub open spec fn ends_a_run(kind: EventKindView) -> bool {
    kind is RunCompleted || kind is RunCancelled || kind is RunFailed
}

/// A task, an artifact or an ending is recorded as the event tells it, and
/// nothing but these events changes tasks, artifacts or the run's status.
pub proof fn events_are_recorded_as_told(state: RuntimeStateView, event: EventView)
    requires
        applied(state, event) is Ok,
    ensures
        ({
            let next = applied(state, event)->Ok_0;
            &&& next.run_id == state.run_id
            &&& event.kind matches EventKindView::TaskCreated { task_id, run_id, title } ==> {
                &&& !state.tasks.contains_key(task_id)
                &&& next.tasks == state.tasks.insert(
                    task_id,
                    TaskStateView { id: task_id, run_id, title, status: TaskStatus::Created },
                )
            }
            &&& !(event.kind is TaskCreated) ==> next.tasks == state.tasks
            &&& event.kind matches EventKindView::ArtifactCreated {
                content_hash,
                size_bytes,
                media_type,
                trust,
            } ==> {
                &&& !state.artifacts.contains_key(content_hash)
                &&& next.artifacts == state.artifacts.insert(
                    content_hash,
                    ArtifactRefView { content_hash, size_bytes, media_type, trust },
                )
            }
            &&& !(event.kind is ArtifactCreated) ==> next.artifacts == state.artifacts
            &&& event.kind is RunCompleted ==> next.status == RunStatus::Completed
            &&& event.kind is RunCancelled ==> next.status == RunStatus::Cancelled
            &&& event.kind is RunFailed ==> next.status == RunStatus::Failed
            &&& !ends_a_run(event.kind) ==> next.status == state.status
            &&& state.events_applied < u64::MAX ==> next.events_applied == state.events_applied + 1
            &&& state.events_applied == u64::MAX ==> next.events_applied == u64::MAX
        }),
{
}

/// The run that an event names in what it says, if it names one.
pub open spec fn run_named(kind: EventKindView) -> Option<RunId> {
    match kind {
        EventKindView::RunCreated { run_id } => Some(run_id),
        EventKindView::TaskCreated { run_id, .. } => Some(run_id),
        EventKindView::RunCompleted { run_id } => Some(run_id),
        EventKindView::RunCancelled { run_id } => Some(run_id),
        EventKindView::RunFailed { run_id, .. } => Some(run_id),
        _ => None,
    }
}

/// The agent that an event needs to exist, if it needs one.
pub open spec fn agent_needed(kind: EventKindView) -> Option<AgentId> {
    match kind {
        EventKindView::ModelRequested { agent_id, .. } => Some(agent_id),
        EventKindView::ModelChunkReceived { agent_id, .. } => Some(agent_id),
        EventKindView::ModelCompleted { agent_id, .. } => Some(agent_id),
        EventKindView::ModelCancelled { agent_id } => Some(agent_id),
        EventKindView::ModelFailed { agent_id, .. } => Some(agent_id),
        EventKindView::AgentPaused { agent_id } => Some(agent_id),
        EventKindView::AgentResumed { agent_id } => Some(agent_id),
        _ => None,
    }
}

/// The agent has completed, was cancelled or has failed.
pub open spec fn has_finished(status: AgentStatus) -> bool {
    status == AgentStatus::Completed || status == AgentStatus::Cancelled || status
        == AgentStatus::Failed
}

/// An event is accepted exactly where it belongs to the run, comes in order,
/// creates nothing twice, and finds the agent it names in a status that
/// allows it.
pub proof fn events_are_accepted_in_order(state: RuntimeStateView, event: EventView)
    ensures
        applied(state, event) is Ok <==> {
            &&& event.run_id == state.run_id
            &&& state.events_applied == 0 <==> event.kind is RunCreated
            &&& state.events_applied > 0 ==> state.status == RunStatus::Active
            &&& run_named(event.kind) matches Some(named) ==> named == state.run_id
            &&& agent_needed(event.kind) matches Some(id) ==> state.agents.contains_key(id)
            &&& event.kind matches EventKindView::TaskCreated { task_id, .. }
                ==> !state.tasks.contains_key(task_id)
            &&& event.kind matches EventKindView::AgentCreated { agent }
                ==> !state.agents.contains_key(agent.id)
            &&& event.kind matches EventKindView::ArtifactCreated { content_hash, .. }
                ==> !state.artifacts.contains_key(content_hash)
            &&& event.kind matches EventKindView::ModelRequested { agent_id, .. }
                ==> !has_finished(state.agents[agent_id].status)
            &&& event.kind matches EventKindView::AgentPaused { agent_id } ==> !has_finished(
                state.agents[agent_id].status,
            ) && state.agents[agent_id].status != AgentStatus::Paused
            &&& event.kind matches EventKindView::AgentResumed { agent_id }
                ==> state.agents[agent_id].status == AgentStatus::Paused
        },
{
}

// ---------------------------------------------------------------------------
// Whole histories.

/// The status that an event announces for an agent.
pub open spec fn announced(kind: EventKindView, id: AgentId) -> Option<AgentStatus> {
    match kind {
        EventKindView::AgentCreated { agent } if agent.id == id => Some(AgentStatus::Created),
        EventKindView::ModelRequested { agent_id, .. } if agent_id == id => Some(
            AgentStatus::Running,
        ),
        EventKindView::AgentResumed { agent_id } if agent_id == id => Some(AgentStatus::Running),
        EventKindView::AgentPaused { agent_id } if agent_id == id => Some(AgentStatus::Paused),
        EventKindView::ModelCompleted { agent_id, .. } if agent_id == id => Some(
            AgentStatus::Completed,
        ),
        EventKindView::ModelCancelled { agent_id } if agent_id == id => Some(
            AgentStatus::Cancelled,
        ),
        EventKindView::ModelFailed { agent_id, .. } if agent_id == id => Some(AgentStatus::Failed),
        _ => None,
    }
}

/// The last status that was announced for an agent.
pub open spec fn last_announced(events: Seq<EventView>, id: AgentId) -> Option<AgentStatus>
    decreases events.len(),
{
    if events.len() == 0 {
        None
    } else {
        match announced(events.last().kind, id) {
            Some(status) => Some(status),
            None => last_announced(events.drop_last(), id),
        }
    }
}

/// The model that was last asked for an agent; before that, the one it was
/// created with.
pub open spec fn last_model(events: Seq<EventView>, id: AgentId) -> Option<ModelRefView>
    decreases events.len(),
{
    if events.len() == 0 {
        None
    } else {
        match events.last().kind {
            EventKindView::ModelRequested { agent_id, model } if agent_id == id => Some(model),
            EventKindView::AgentCreated { agent } if agent.id == id => Some(agent.model),
            _ => last_model(events.drop_last(), id),
        }
    }
}

/// The usage that was last reported for an agent.
pub open spec fn last_usage(events: Seq<EventView>, id: AgentId) -> Option<Usage>
    decreases events.len(),
{
    if events.len() == 0 {
        None
    } else {
        match events.last().kind {
            EventKindView::ModelCompleted { agent_id, usage } if agent_id == id => Some(usage),
            _ => last_usage(events.drop_last(), id),
        }
    }
}

/// How many chunks an agent received.
pub open spec fn chunks_for(events: Seq<EventView>, id: AgentId) -> nat
    decreases events.len(),
{
    if events.len() == 0 {
        0
    } else {
        chunks_for(events.drop_last(), id) + match events.last().kind {
            EventKindView::ModelChunkReceived { agent_id, .. } if agent_id == id => 1nat,
            _ => 0nat,
        }
    }
}

/// The event creates a task with a title.
pub open spec fn creates_task(event: EventView, id: TaskId, title: Seq<char>) -> bool {
    event.kind matches EventKindView::TaskCreated { task_id, title: given, .. } && task_id == id
        && given == title
}

/// The event creates an agent.
pub open spec fn creates_agent(event: EventView, id: AgentId) -> bool {
    event.kind matches EventKindView::AgentCreated { agent } && agent.id == id
}

/// The event records an artifact.
pub open spec fn creates_artifact(event: EventView, artifact: ArtifactRefView) -> bool {
    event.kind == (EventKindView::ArtifactCreated {
        content_hash: artifact.content_hash,
        size_bytes: artifact.size_bytes,
        media_type: artifact.media_type,
        trust: artifact.trust,
    })
}

/// The tasks of a replayed run are those that its events created, under
/// their identities, with their titles.
pub proof fn replay_gathers_tasks(run_id: RunId, events: Seq<EventView>)
    requires
        replayed(initial_state(run_id), events) is Ok,
    ensures
        ({
            let tasks = replayed(initial_state(run_id), events)->Ok_0.tasks;
            &&& forall|i: int|
                0 <= i < events.len() ==> ((#[trigger] events[i]).kind matches
                    EventKindView::TaskCreated { task_id, title, .. } ==> tasks.contains_key(
                    task_id,
                ) && tasks[task_id].title == title)
            &&& forall|id: TaskId| #[trigger]
                tasks.contains_key(id) ==> {
                    &&& tasks[id].id == id
                    &&& tasks[id].run_id == run_id
                    &&& tasks[id].status == TaskStatus::Created
                    &&& exists|i: int|
                        0 <= i < events.len() && creates_task(
                            #[trigger] events[i],
                            id,
                            tasks[id].title,
                        )
                }
        }),
    decreases events.len(),
{
    if events.len() > 0 {
        let rest = events.drop_last();
        replay_gathers_tasks(run_id, rest);
        replay_keeps_the_run(run_id, rest);
        let before = replayed(initial_state(run_id), rest)->Ok_0.tasks;
        let tasks = replayed(initial_state(run_id), events)->Ok_0.tasks;
        events_are_accepted_in_order(
            replayed(initial_state(run_id), rest)->Ok_0,
            events[events.len() - 1],
        );
        assert forall|i: int| 0 <= i < events.len() implies ((#[trigger] events[i]).kind matches
            EventKindView::TaskCreated { task_id, title, .. } ==> tasks.contains_key(task_id)
            && tasks[task_id].title == title) by {
            if i < rest.len() {
                assert(rest[i] == events[i]);
            }
        }
        assert forall|id: TaskId| #[trigger] tasks.contains_key(id) implies {
            &&& tasks[id].id == id
            &&& tasks[id].run_id == run_id
            &&& tasks[id].status == TaskStatus::Created
            &&& exists|i: int|
                0 <= i < events.len() && creates_task(#[trigger] events[i], id, tasks[id].title)
        } by {
            if before.contains_key(id) {
                let i = choose|i: int|
                    0 <= i < rest.len() && creates_task(
                        #[trigger] rest[i],
                        id,
                        before[id].title,
                    );
                assert(creates_task(events[i], id, tasks[id].title));
            } else {
                assert(creates_task(events[events.len() - 1], id, tasks[id].title));
            }
        }
    }
}

proof fn replay_keeps_the_run(run_id: RunId, events: Seq<EventView>)
    requires
        replayed(initial_state(run_id), events) is Ok,
    ensures
        replayed(initial_state(run_id), events)->Ok_0.run_id == run_id,
    decreases events.len(),
{
    if events.len() > 0 {
        replay_keeps_the_run(run_id, events.drop_last());
    }
}

/// The agents of a replayed run are those that its events created. Each has
/// the status that was last announced for it, the model that it was last
/// asked with, the usage that was last reported, and its chunks counted.
pub proof fn replay_gathers_agents(run_id: RunId, events: Seq<EventView>, id: AgentId)
    requires
        replayed(initial_state(run_id), events) is Ok,
    ensures
        ({
            let agents = replayed(initial_state(run_id), events)->Ok_0.agents;
            let none = Usage { input_tokens: 0, output_tokens: 0, cached_input_tokens: None };
            &&& agents.contains_key(id) <==> exists|i: int|
                0 <= i < events.len() && creates_agent(#[trigger] events[i], id)
            &&& agents.contains_key(id) <==> last_announced(events, id) is Some
            &&& agents.contains_key(id) ==> {
                &&& agents[id].identity.id == id
                &&& exists|i: int|
                    0 <= i < events.len() && (#[trigger] events[i]).kind == (
                    EventKindView::AgentCreated { agent: agents[id].identity })
                &&& last_announced(events, id) == Some(agents[id].status)
                &&& last_model(events, id) == Some(agents[id].model)
                &&& agents[id].usage == match last_usage(events, id) {
                    Some(usage) => usage,
                    None => none,
                }
                &&& agents[id].chunks_received == if chunks_for(events, id) <= u32::MAX {
                    chunks_for(events, id)
                } else {
                    u32::MAX as nat
                }
            }
            &&& !agents.contains_key(id) ==> chunks_for(events, id) == 0 && last_usage(events, id)
                is None
        }),
    decreases events.len(),
{
    if events.len() > 0 {
        let rest = events.drop_last();
        let last = events.len() - 1;
        replay_gathers_agents(run_id, rest, id);
        let state = replayed(initial_state(run_id), rest)->Ok_0;
        let before = state.agents;
        let agents = replayed(initial_state(run_id), events)->Ok_0.agents;
        agents_take_the_announced_status(state, events[last]);
        if before.contains_key(id) {
            let i = choose|i: int| 0 <= i < rest.len() && creates_agent(#[trigger] rest[i], id);
            assert(creates_agent(events[i], id));
            let k = choose|k: int|
                0 <= k < rest.len() && (#[trigger] rest[k]).kind == (EventKindView::AgentCreated {
                    agent: before[id].identity,
                });
            assert(events[k].kind == (EventKindView::AgentCreated { agent: agents[id].identity }));
        } else if agents.contains_key(id) {
            assert(creates_agent(events[last], id));
        } else {
            assert forall|i: int| 0 <= i < events.len() implies !creates_agent(
                #[trigger] events[i],
                id,
            ) by {
                if i < last {
                    assert(rest[i] == events[i]);
                }
            }
        }
    }
}

/// The artifacts of a replayed run are those that its events recorded.
pub proof fn replay_gathers_artifacts(run_id: RunId, events: Seq<EventView>)
    requires
        replayed(initial_state(run_id), events) is Ok,
    ensures
        ({
            let artifacts = replayed(initial_state(run_id), events)->Ok_0.artifacts;
            &&& forall|i: int|
                0 <= i < events.len() ==> ((#[trigger] events[i]).kind matches
                    EventKindView::ArtifactCreated { content_hash, .. }
                    ==> artifacts.contains_key(content_hash) && creates_artifact(
                    events[i],
                    artifacts[content_hash],
                ))
            &&& forall|hash: Seq<u8>| #[trigger]
                artifacts.contains_key(hash) ==> artifacts[hash].content_hash == hash && exists|
                    i: int,
                |
                    0 <= i < events.len() && creates_artifact(#[trigger] events[i], artifacts[hash])
        }),
    decreases events.len(),
{
    if events.len() > 0 {
        let rest = events.drop_last();
        replay_gathers_artifacts(run_id, rest);
        let before = replayed(initial_state(run_id), rest)->Ok_0.artifacts;
        let artifacts = replayed(initial_state(run_id), events)->Ok_0.artifacts;
        assert forall|i: int| 0 <= i < events.len() implies ((#[trigger] events[i]).kind matches
            EventKindView::ArtifactCreated { content_hash, .. } ==> artifacts.contains_key(
            content_hash,
        ) && creates_artifact(events[i], artifacts[content_hash])) by {
            if i < rest.len() {
                assert(rest[i] == events[i]);
            }
        }
        assert forall|hash: Seq<u8>| #[trigger]
            artifacts.contains_key(hash) implies artifacts[hash].content_hash == hash && exists|
            i: int,
        |
            0 <= i < events.len() && creates_artifact(#[trigger] events[i], artifacts[hash]) by {
            if before.contains_key(hash) {
                let i = choose|i: int|
                    0 <= i < rest.len() && creates_artifact(#[trigger] rest[i], before[hash]);
                assert(creates_artifact(events[i], artifacts[hash]));
            } else {
                assert(creates_artifact(events[events.len() - 1], artifacts[hash]));
            }
        }
    }
}

/// A replayed run is active until an event ends it. That event is its last,
/// and the run has the status that the event names.
pub proof fn replay_shows_how_the_run_ended(run_id: RunId, events: Seq<EventView>)
    requires
        replayed(initial_state(run_id), events) is Ok,
        events.len() > 0,
    ensures
        ({
            let status = replayed(initial_state(run_id), events)->Ok_0.status;
            let last = events.last().kind;
            &&& status == RunStatus::Completed <==> last is RunCompleted
            &&& status == RunStatus::Cancelled <==> last is RunCancelled
            &&& status == RunStatus::Failed <==> last is RunFailed
            &&& status == RunStatus::Active <==> !ends_a_run(last)
        }),
        forall|i: int| 0 <= i < events.len() ==> (#[trigger] events[i]).run_id == run_id,
        forall|i: int|
            0 <= i < events.len() - 1 ==> !ends_a_run((#[trigger] events[i]).kind),
        events[0].kind == (EventKindView::RunCreated { run_id }),
        forall|i: int| 0 < i < events.len() ==> !((#[trigger] events[i]).kind is RunCreated),
        replayed(initial_state(run_id), events)->Ok_0.events_applied > 0,
    decreases events.len(),
{
    let rest = events.drop_last();
    let last = events.len() - 1;
    replay_keeps_the_run(run_id, rest);
    if rest.len() > 0 {
        replay_shows_how_the_run_ended(run_id, rest);
        assert(events[0] == rest[0]);
        assert forall|i: int| 0 <= i < events.len() implies (#[trigger] events[i]).run_id
            == run_id by {
            if i < last {
                assert(events[i] == rest[i]);
            }
        }
        assert forall|i: int| 0 <= i < events.len() - 1 implies !ends_a_run(
            (#[trigger] events[i]).kind,
        ) by {
            assert(events[i] == rest[i]);
            assert(i == last - 1 ==> rest[i] == rest.last());
        }
        assert forall|i: int| 0 < i < events.len() implies !((
        #[trigger] events[i]).kind is RunCreated) by {
            if i < last {
                assert(events[i] == rest[i]);
            }
        }
    } else {
        assert(replayed(initial_state(run_id), rest) == Ok::<_, crate::state::StoreErrorView>(
            initial_state(run_id),
        ));
    }
}

} // verus!
