//! The runtime projection: what a run's events add up to.

use vstd::prelude::*;
use vstd::string::StringExecFns;

use crate::artifact::{hex_text, push_hex_bytes, ArtifactRef, ArtifactRefView, ContentHash};
use crate::ids::{id_text, AgentId, BranchId, EventId, RunId, TaskId};
use crate::kernel::{
    AgentIdentity, AgentIdentityView, Event, EventKind, EventKindView, EventView, ModelRef,
    ModelRefView, Usage,
};
use crate::table::{Record, Table};

verus! {

/// The position of an event in a store's history.
pub type Sequence = u64;

#[derive(Clone, Debug, PartialEq, Eq)]
pub enum StoreError {
    DuplicateEvent(EventId),
    UnknownBranch(BranchId),
    UnknownRun(RunId),
    UnknownAgent(AgentId),
    InvalidTransition(String),
    Storage(String),
    Corrupt(String),
}

pub enum StoreErrorView {
    DuplicateEvent(EventId),
    UnknownBranch(BranchId),
    UnknownRun(RunId),
    UnknownAgent(AgentId),
    InvalidTransition(Seq<char>),
    Storage(Seq<char>),
    Corrupt(Seq<char>),
}

impl View for StoreError {
    type V = StoreErrorView;

    open spec fn view(&self) -> StoreErrorView {
        match *self {
            StoreError::DuplicateEvent(id) => StoreErrorView::DuplicateEvent(id),
            StoreError::UnknownBranch(id) => StoreErrorView::UnknownBranch(id),
            StoreError::UnknownRun(id) => StoreErrorView::UnknownRun(id),
            StoreError::UnknownAgent(id) => StoreErrorView::UnknownAgent(id),
            StoreError::InvalidTransition(message) => StoreErrorView::InvalidTransition(message@),
            StoreError::Storage(message) => StoreErrorView::Storage(message@),
            StoreError::Corrupt(message) => StoreErrorView::Corrupt(message@),
        }
    }
}

impl StoreErrorView {
    pub open spec fn text(self) -> Seq<char> {
        match self {
            StoreErrorView::DuplicateEvent(id) => "event "@ + id_text("event"@, id.0)
                + " was already stored"@,
            StoreErrorView::UnknownBranch(id) => "branch "@ + id_text("branch"@, id.0)
                + " is not present"@,
            StoreErrorView::UnknownRun(id) => "run "@ + id_text("run"@, id.0) + " is not present"@,
            StoreErrorView::UnknownAgent(id) => "agent "@ + id_text("agent"@, id.0)
                + " is not present"@,
            StoreErrorView::InvalidTransition(message) => "invalid event transition: "@ + message,
            StoreErrorView::Storage(message) => "event storage error: "@ + message,
            StoreErrorView::Corrupt(message) => "corrupt event store: "@ + message,
        }
    }
}

/// `first`, `second` and `third` one behind the other.
pub(crate) fn phrase(first: &str, second: &str, third: &str) -> (text: String)
    ensures
        text@ == first@ + second@ + third@,
{
    let mut out = first.to_owned();
    out.append(second);
    out.append(third);
    out
}

impl StoreError {
    pub fn to_text(&self) -> (text: String)
        ensures
            text@ == self@.text(),
    {
        match self {
            StoreError::DuplicateEvent(id) => phrase(
                "event ",
                id.to_text().as_str(),
                " was already stored",
            ),
            StoreError::UnknownBranch(id) => phrase(
                "branch ",
                id.to_text().as_str(),
                " is not present",
            ),
            StoreError::UnknownRun(id) => phrase("run ", id.to_text().as_str(), " is not present"),
            StoreError::UnknownAgent(id) => phrase(
                "agent ",
                id.to_text().as_str(),
                " is not present",
            ),
            StoreError::InvalidTransition(message) => {
                let mut out = "invalid event transition: ".to_owned();
                out.append(message.as_str());
                out
            },
            StoreError::Storage(message) => {
                let mut out = "event storage error: ".to_owned();
                out.append(message.as_str());
                out
            },
            StoreError::Corrupt(message) => {
                let mut out = "corrupt event store: ".to_owned();
                out.append(message.as_str());
                out
            },
        }
    }
}

pub(crate) fn invalid(message: &str) -> (error: StoreError)
    ensures
        error@ == StoreErrorView::InvalidTransition(message@),
{
    StoreError::InvalidTransition(message.to_owned())
}

// ---------------------------------------------------------------------------
// Statuses and entities.

#[derive(Clone, Copy, Debug, PartialEq, Eq, Structural)]
pub enum RunStatus {
    Active,
    Completed,
    Cancelled,
    Failed,
}

impl RunStatus {
    /// No event follows in the run.
    pub open spec fn terminal(self) -> bool {
        self != RunStatus::Active
    }

    pub open spec fn name(self) -> Seq<char> {
        match self {
            RunStatus::Active => "Active"@,
            RunStatus::Completed => "Completed"@,
            RunStatus::Cancelled => "Cancelled"@,
            RunStatus::Failed => "Failed"@,
        }
    }

    pub fn to_text(self) -> (text: String)
        ensures
            text@ == self.name(),
    {
        match self {
            RunStatus::Active => "Active".to_owned(),
            RunStatus::Completed => "Completed".to_owned(),
            RunStatus::Cancelled => "Cancelled".to_owned(),
            RunStatus::Failed => "Failed".to_owned(),
        }
    }
}

#[derive(Clone, Copy, Debug, PartialEq, Eq, Structural)]
pub enum TaskStatus {
    Created,
}

#[derive(Clone, Copy, Debug, PartialEq, Eq, Structural)]
pub enum AgentStatus {
    Created,
    Running,
    Paused,
    Completed,
    Cancelled,
    Failed,
}

impl AgentStatus {
    /// The agent takes no further model request.
    pub open spec fn terminal(self) -> bool {
        self == AgentStatus::Completed || self == AgentStatus::Cancelled || self
            == AgentStatus::Failed
    }

    pub open spec fn name(self) -> Seq<char> {
        match self {
            AgentStatus::Created => "Created"@,
            AgentStatus::Running => "Running"@,
            AgentStatus::Paused => "Paused"@,
            AgentStatus::Completed => "Completed"@,
            AgentStatus::Cancelled => "Cancelled"@,
            AgentStatus::Failed => "Failed"@,
        }
    }

    pub fn is_terminal(self) -> (terminal: bool)
        ensures
            terminal == self.terminal(),
    {
        matches!(self, AgentStatus::Completed | AgentStatus::Cancelled | AgentStatus::Failed)
    }

    pub fn to_text(self) -> (text: String)
        ensures
            text@ == self.name(),
    {
        match self {
            AgentStatus::Created => "Created".to_owned(),
            AgentStatus::Running => "Running".to_owned(),
            AgentStatus::Paused => "Paused".to_owned(),
            AgentStatus::Completed => "Completed".to_owned(),
            AgentStatus::Cancelled => "Cancelled".to_owned(),
            AgentStatus::Failed => "Failed".to_owned(),
        }
    }
}

#[derive(Clone, Debug, PartialEq, Eq)]
pub struct TaskState {
    pub id: TaskId,
    pub run_id: RunId,
    pub title: String,
    pub status: TaskStatus,
}

pub struct TaskStateView {
    pub id: TaskId,
    pub run_id: RunId,
    pub title: Seq<char>,
    pub status: TaskStatus,
}

impl View for TaskState {
    type V = TaskStateView;

    open spec fn view(&self) -> TaskStateView {
        TaskStateView {
            id: self.id,
            run_id: self.run_id,
            title: self.title@,
            status: self.status,
        }
    }
}

impl Record for TaskState {
    fn duplicate(&self) -> (copy: TaskState) {
        TaskState {
            id: self.id,
            run_id: self.run_id,
            title: self.title.clone(),
            status: self.status,
        }
    }

    fn same(&self, other: &TaskState) -> (same: bool) {
        self.id == other.id && self.run_id == other.run_id && self.title == other.title
            && self.status == other.status
    }
}

#[derive(Clone, Debug, PartialEq, Eq)]
pub struct AgentState {
    pub identity: AgentIdentity,
    pub status: AgentStatus,
    pub model: ModelRef,
    pub chunks_received: u32,
    pub usage: Usage,
}

pub struct AgentStateView {
    pub identity: AgentIdentityView,
    pub status: AgentStatus,
    pub model: ModelRefView,
    pub chunks_received: u32,
    pub usage: Usage,
}

impl View for AgentState {
    type V = AgentStateView;

    open spec fn view(&self) -> AgentStateView {
        AgentStateView {
            identity: self.identity@,
            status: self.status,
            model: self.model@,
            chunks_received: self.chunks_received,
            usage: self.usage,
        }
    }
}

impl Record for AgentState {
    fn duplicate(&self) -> (copy: AgentState) {
        AgentState {
            identity: self.identity.clone(),
            status: self.status,
            model: self.model.clone(),
            chunks_received: self.chunks_received,
            usage: self.usage,
        }
    }

    fn same(&self, other: &AgentState) -> (same: bool) {
        self.identity.same(&other.identity) && self.status == other.status && self.model.same(
            &other.model,
        ) && self.chunks_received == other.chunks_received && self.usage.same(&other.usage)
    }
}

// ---------------------------------------------------------------------------
// The projection.

#[derive(Debug, PartialEq, Eq)]
pub struct RuntimeState {
    pub run_id: RunId,
    pub status: RunStatus,
    pub tasks: Table<TaskId, TaskState>,
    pub agents: Table<AgentId, AgentState>,
    pub artifacts: Table<ContentHash, ArtifactRef>,
    pub events_applied: u64,
}

pub struct RuntimeStateView {
    pub run_id: RunId,
    pub status: RunStatus,
    pub tasks: Map<TaskId, TaskStateView>,
    pub agents: Map<AgentId, AgentStateView>,
    pub artifacts: Map<Seq<u8>, ArtifactRefView>,
    pub events_applied: u64,
}

impl View for RuntimeState {
    type V = RuntimeStateView;

    open spec fn view(&self) -> RuntimeStateView {
        RuntimeStateView {
            run_id: self.run_id,
            status: self.status,
            tasks: self.tasks@,
            agents: self.agents@,
            artifacts: self.artifacts@,
            events_applied: self.events_applied,
        }
    }
}

impl Clone for RuntimeState {
    fn clone(&self) -> (copy: RuntimeState)
        ensures
            copy@ == self@,
    {
        self.duplicate()
    }
}

impl Record for RuntimeState {
    fn duplicate(&self) -> (copy: RuntimeState) {
        RuntimeState {
            run_id: self.run_id,
            status: self.status,
            tasks: self.tasks.duplicate(),
            agents: self.agents.duplicate(),
            artifacts: self.artifacts.duplicate(),
            events_applied: self.events_applied,
        }
    }

    fn same(&self, other: &RuntimeState) -> (same: bool) {
        self.run_id == other.run_id && self.status == other.status && self.tasks.same(&other.tasks)
            && self.agents.same(&other.agents) && self.artifacts.same(&other.artifacts)
            && self.events_applied == other.events_applied
    }
}

/// The projection of a run before any event.
pub open spec fn initial_state(run_id: RunId) -> RuntimeStateView {
    RuntimeStateView {
        run_id,
        status: RunStatus::Active,
        tasks: Map::empty(),
        agents: Map::empty(),
        artifacts: Map::empty(),
        events_applied: 0,
    }
}

pub open spec fn refusal(message: Seq<char>) -> Result<RuntimeStateView, StoreErrorView> {
    Err(StoreErrorView::InvalidTransition(message))
}

pub open spec fn agent_named(agent_id: AgentId) -> Seq<char> {
    "agent "@ + id_text("agent"@, agent_id.0)
}

/// An agent with its status changed.
pub open spec fn with_agent(
    state: RuntimeStateView,
    agent_id: AgentId,
    agent: AgentStateView,
) -> RuntimeStateView {
    RuntimeStateView { agents: state.agents.insert(agent_id, agent), ..state }
}

/// What an event does to an agent that exists, or why it is refused.
pub open spec fn agent_transition(
    agent: AgentStateView,
    agent_id: AgentId,
    kind: EventKindView,
) -> Result<AgentStateView, StoreErrorView> {
    match kind {
        EventKindView::ModelRequested { model, .. } => if agent.status.terminal() {
            Err(
                StoreErrorView::InvalidTransition(
                    agent_named(agent_id) + " cannot receive a model request from "@
                        + agent.status.name(),
                ),
            )
        } else {
            Ok(AgentStateView { model, status: AgentStatus::Running, ..agent })
        },
        EventKindView::ModelChunkReceived { .. } => Ok(
            AgentStateView {
                chunks_received: if agent.chunks_received == u32::MAX {
                    u32::MAX
                } else {
                    (agent.chunks_received + 1) as u32
                },
                ..agent
            },
        ),
        EventKindView::ModelCompleted { usage, .. } => Ok(
            AgentStateView { status: AgentStatus::Completed, usage, ..agent },
        ),
        EventKindView::ModelCancelled { .. } => Ok(
            AgentStateView { status: AgentStatus::Cancelled, ..agent },
        ),
        EventKindView::ModelFailed { .. } => Ok(
            AgentStateView { status: AgentStatus::Failed, ..agent },
        ),
        EventKindView::AgentPaused { .. } => if agent.status.terminal() || agent.status
            == AgentStatus::Paused {
            Err(
                StoreErrorView::InvalidTransition(
                    agent_named(agent_id) + " cannot be paused from "@ + agent.status.name(),
                ),
            )
        } else {
            Ok(AgentStateView { status: AgentStatus::Paused, ..agent })
        },
        EventKindView::AgentResumed { .. } => if agent.status != AgentStatus::Paused {
            Err(
                StoreErrorView::InvalidTransition(agent_named(agent_id) + " is not paused"@),
            )
        } else {
            Ok(AgentStateView { status: AgentStatus::Running, ..agent })
        },
        _ => Ok(agent),
    }
}

pub open spec fn on_agent(
    state: RuntimeStateView,
    agent_id: AgentId,
    kind: EventKindView,
) -> Result<RuntimeStateView, StoreErrorView> {
    if !state.agents.contains_key(agent_id) {
        Err(StoreErrorView::UnknownAgent(agent_id))
    } else {
        match agent_transition(state.agents[agent_id], agent_id, kind) {
            Ok(agent) => Ok(with_agent(state, agent_id, agent)),
            Err(error) => Err(error),
        }
    }
}

pub open spec fn ended(state: RuntimeStateView, run_id: RunId, status: RunStatus) -> Result<
    RuntimeStateView,
    StoreErrorView,
> {
    if run_id == state.run_id {
        Ok(RuntimeStateView { status, ..state })
    } else {
        refusal("terminal event belongs to another run"@)
    }
}

/// What the kind of an event does to the projection, once the event is known
/// to be in order.
pub open spec fn kind_applied(state: RuntimeStateView, kind: EventKindView) -> Result<
    RuntimeStateView,
    StoreErrorView,
> {
    match kind {
        EventKindView::RunCreated { run_id } => if run_id != state.run_id {
            refusal(
                "run.created names "@ + id_text("run"@, run_id.0) + ", expected "@ + id_text(
                    "run"@,
                    state.run_id.0,
                ),
            )
        } else if state.events_applied != 0 {
            refusal("run.created must be the first event"@)
        } else {
            Ok(state)
        },
        EventKindView::TaskCreated { task_id, run_id, title } => if run_id != state.run_id {
            refusal("task belongs to another run"@)
        } else if state.tasks.contains_key(task_id) {
            refusal("task "@ + id_text("task"@, task_id.0) + " was created twice"@)
        } else {
            Ok(
                RuntimeStateView {
                    tasks: state.tasks.insert(
                        task_id,
                        TaskStateView { id: task_id, run_id, title, status: TaskStatus::Created },
                    ),
                    ..state
                },
            )
        },
        EventKindView::AgentCreated { agent } => if state.agents.contains_key(agent.id) {
            refusal(agent_named(agent.id) + " was created twice"@)
        } else {
            Ok(
                with_agent(
                    state,
                    agent.id,
                    AgentStateView {
                        identity: agent,
                        status: AgentStatus::Created,
                        model: agent.model,
                        chunks_received: 0,
                        usage: Usage {
                            input_tokens: 0,
                            output_tokens: 0,
                            cached_input_tokens: None,
                        },
                    },
                ),
            )
        },
        EventKindView::ModelRequested { agent_id, .. } => on_agent(state, agent_id, kind),
        EventKindView::ModelChunkReceived { agent_id, .. } => on_agent(state, agent_id, kind),
        EventKindView::ModelCompleted { agent_id, .. } => on_agent(state, agent_id, kind),
        EventKindView::ModelCancelled { agent_id } => on_agent(state, agent_id, kind),
        EventKindView::ModelFailed { agent_id, .. } => on_agent(state, agent_id, kind),
        EventKindView::AgentPaused { agent_id } => on_agent(state, agent_id, kind),
        EventKindView::AgentResumed { agent_id } => on_agent(state, agent_id, kind),
        EventKindView::ArtifactCreated { content_hash, size_bytes, media_type, trust } =>
            if state.artifacts.contains_key(content_hash) {
                refusal("artifact "@ + hex_text(content_hash) + " was created twice"@)
            } else {
                Ok(
                    RuntimeStateView {
                        artifacts: state.artifacts.insert(
                            content_hash,
                            ArtifactRefView { content_hash, size_bytes, media_type, trust },
                        ),
                        ..state
                    },
                )
            },
        EventKindView::RunCompleted { run_id } => ended(state, run_id, RunStatus::Completed),
        EventKindView::RunCancelled { run_id } => ended(state, run_id, RunStatus::Cancelled),
        EventKindView::RunFailed { run_id, .. } => ended(state, run_id, RunStatus::Failed),
        // Context, messages, assumptions, budgets, capabilities, tools, failure
        // memory, specialists and cache telemetry are projections of their own.
        _ => Ok(state),
    }
}

pub open spec fn counted(state: RuntimeStateView) -> RuntimeStateView {
    RuntimeStateView {
        events_applied: if state.events_applied == u64::MAX {
            u64::MAX
        } else {
            (state.events_applied + 1) as u64
        },
        ..state
    }
}

/// The projection after one more event, or why the event is refused.
pub open spec fn applied(state: RuntimeStateView, event: EventView) -> Result<
    RuntimeStateView,
    StoreErrorView,
> {
    if event.run_id != state.run_id {
        refusal(
            "event "@ + id_text("event"@, event.id.0) + " belongs to run "@ + id_text(
                "run"@,
                event.run_id.0,
            ) + ", expected "@ + id_text("run"@, state.run_id.0),
        )
    } else if state.events_applied == 0 && !(event.kind is RunCreated) {
        refusal("run.created must be the first event"@)
    } else if state.events_applied > 0 && state.status.terminal() {
        refusal("events cannot be appended after a terminal run transition"@)
    } else {
        match kind_applied(state, event.kind) {
            Ok(next) => Ok(counted(next)),
            Err(error) => Err(error),
        }
    }
}

/// The projection after a list of events, or the first refusal.
pub open spec fn replayed(state: RuntimeStateView, events: Seq<EventView>) -> Result<
    RuntimeStateView,
    StoreErrorView,
>
    decreases events.len(),
{
    if events.len() == 0 {
        Ok(state)
    } else {
        match replayed(state, events.drop_last()) {
            Ok(before) => applied(before, events.last()),
            Err(error) => Err(error),
        }
    }
}

impl RuntimeState {
    pub fn new(run_id: RunId) -> (state: RuntimeState)
        ensures
            state@ == initial_state(run_id),
    {
        RuntimeState {
            run_id,
            status: RunStatus::Active,
            tasks: Table::new(),
            agents: Table::new(),
            artifacts: Table::new(),
            events_applied: 0,
        }
    }

    fn change_agent(&mut self, agent_id: AgentId, kind: &EventKind) -> (result: Result<
        (),
        StoreError,
    >)
        ensures
            match on_agent(old(self)@, agent_id, kind@) {
                Ok(next) => result is Ok && final(self)@ == next,
                Err(error) => result is Err && result->Err_0@ == error && final(self)@
                    == old(self)@,
            },
    {
        let ghost agents = self.agents@;
        let Some(agent) = self.agents.get_mut(&agent_id) else {
            return Err(StoreError::UnknownAgent(agent_id));
        };
        let ghost before = agent@;
        proof {
            assert(agents.insert(agent_id, before) =~= agents);
        }
        match kind {
            EventKind::ModelRequested { model, .. } => {
                if agent.status.is_terminal() {
                    let mut message = phrase(
                        "agent ",
                        agent_id.to_text().as_str(),
                        " cannot receive a model request from ",
                    );
                    message.append(agent.status.to_text().as_str());
                    return Err(StoreError::InvalidTransition(message));
                }
                agent.model = model.clone();
                agent.status = AgentStatus::Running;
            },
            EventKind::ModelChunkReceived { .. } => {
                agent.chunks_received = agent.chunks_received.saturating_add(1);
            },
            EventKind::ModelCompleted { usage, .. } => {
                agent.status = AgentStatus::Completed;
                agent.usage = *usage;
            },
            EventKind::ModelCancelled { .. } => {
                agent.status = AgentStatus::Cancelled;
            },
            EventKind::ModelFailed { .. } => {
                agent.status = AgentStatus::Failed;
            },
            EventKind::AgentPaused { .. } => {
                if agent.status.is_terminal() || agent.status == AgentStatus::Paused {
                    let mut message = phrase(
                        "agent ",
                        agent_id.to_text().as_str(),
                        " cannot be paused from ",
                    );
                    message.append(agent.status.to_text().as_str());
                    return Err(StoreError::InvalidTransition(message));
                }
                agent.status = AgentStatus::Paused;
            },
            EventKind::AgentResumed { .. } => {
                if agent.status != AgentStatus::Paused {
                    return Err(
                        StoreError::InvalidTransition(
                            phrase("agent ", agent_id.to_text().as_str(), " is not paused"),
                        ),
                    );
                }
                agent.status = AgentStatus::Running;
            },
            _ => {},
        }
        Ok(())
    }

    fn end(&mut self, run_id: RunId, status: RunStatus) -> (result: Result<(), StoreError>)
        ensures
            match ended(old(self)@, run_id, status) {
                Ok(next) => result is Ok && final(self)@ == next,
                Err(error) => result is Err && result->Err_0@ == error && final(self)@
                    == old(self)@,
            },
    {
        if run_id != self.run_id {
            return Err(invalid("terminal event belongs to another run"));
        }
        self.status = status;
        Ok(())
    }

    fn apply_kind(&mut self, kind: &EventKind) -> (result: Result<(), StoreError>)
        ensures
            match kind_applied(old(self)@, kind@) {
                Ok(next) => result is Ok && final(self)@ == next,
                Err(error) => result is Err && result->Err_0@ == error && final(self)@
                    == old(self)@,
            },
    {
        match kind {
            EventKind::RunCreated { run_id } => {
                if *run_id != self.run_id {
                    let mut message = phrase(
                        "run.created names ",
                        run_id.to_text().as_str(),
                        ", expected ",
                    );
                    message.append(self.run_id.to_text().as_str());
                    return Err(StoreError::InvalidTransition(message));
                }
                if self.events_applied != 0 {
                    return Err(invalid("run.created must be the first event"));
                }
                Ok(())
            },
            EventKind::TaskCreated { task_id, run_id, title } => {
                if *run_id != self.run_id {
                    return Err(invalid("task belongs to another run"));
                }
                if self.tasks.contains_key(task_id) {
                    return Err(
                        StoreError::InvalidTransition(
                            phrase("task ", task_id.to_text().as_str(), " was created twice"),
                        ),
                    );
                }
                self.tasks.insert(
                    *task_id,
                    TaskState {
                        id: *task_id,
                        run_id: *run_id,
                        title: title.clone(),
                        status: TaskStatus::Created,
                    },
                );
                Ok(())
            },
            EventKind::AgentCreated { agent } => {
                if self.agents.contains_key(&agent.id) {
                    return Err(
                        StoreError::InvalidTransition(
                            phrase("agent ", agent.id.to_text().as_str(), " was created twice"),
                        ),
                    );
                }
                self.agents.insert(
                    agent.id,
                    AgentState {
                        identity: agent.clone(),
                        status: AgentStatus::Created,
                        model: agent.model.clone(),
                        chunks_received: 0,
                        usage: Usage::new(0, 0),
                    },
                );
                Ok(())
            },
            EventKind::ModelRequested { agent_id, .. } => self.change_agent(*agent_id, kind),
            EventKind::ModelChunkReceived { agent_id, .. } => self.change_agent(*agent_id, kind),
            EventKind::ModelCompleted { agent_id, .. } => self.change_agent(*agent_id, kind),
            EventKind::ModelCancelled { agent_id } => self.change_agent(*agent_id, kind),
            EventKind::ModelFailed { agent_id, .. } => self.change_agent(*agent_id, kind),
            EventKind::AgentPaused { agent_id } => self.change_agent(*agent_id, kind),
            EventKind::AgentResumed { agent_id } => self.change_agent(*agent_id, kind),
            EventKind::ArtifactCreated { content_hash, size_bytes, media_type, trust } => {
                let content_hash = ContentHash::from_digest(*content_hash);
                if self.artifacts.contains_key(&content_hash) {
                    let mut message = "artifact ".to_owned();
                    push_hex_bytes(&mut message, content_hash.0.as_slice());
                    message.append(" was created twice");
                    return Err(StoreError::InvalidTransition(message));
                }
                self.artifacts.insert(
                    content_hash,
                    ArtifactRef {
                        content_hash,
                        size_bytes: *size_bytes,
                        media_type: media_type.clone(),
                        trust: *trust,
                    },
                );
                Ok(())
            },
            EventKind::RunCompleted { run_id } => self.end(*run_id, RunStatus::Completed),
            EventKind::RunCancelled { run_id } => self.end(*run_id, RunStatus::Cancelled),
            EventKind::RunFailed { run_id, .. } => self.end(*run_id, RunStatus::Failed),
            EventKind::ContextTransition { .. }
            | EventKind::CacheObserved { .. }
            | EventKind::AgentMessage { .. }
            | EventKind::AssumptionTransition { .. }
            | EventKind::SchedulerTransition { .. }
            | EventKind::CapabilityTransition { .. }
            | EventKind::ToolTransition { .. }
            | EventKind::FailureMemoryTransition { .. }
            | EventKind::SpecialistTransition { .. } => Ok(()),
        }
    }

    /// Validates and applies one event to the projection. A refused event
    /// leaves the projection as it was.
    ///
    /// Runtime mutations call this before they append, because stores keep
    /// opaque domain payloads and cannot validate every rule across domains.
    pub fn apply_event(&mut self, event: &Event) -> (result: Result<(), StoreError>)
        ensures
            match applied(old(self)@, event@) {
                Ok(next) => result is Ok && final(self)@ == next,
                Err(error) => result is Err && result->Err_0@ == error && final(self)@
                    == old(self)@,
            },
    {
        if event.run_id != self.run_id {
            let mut message = phrase("event ", event.id.to_text().as_str(), " belongs to run ");
            message.append(event.run_id.to_text().as_str());
            message.append(", expected ");
            message.append(self.run_id.to_text().as_str());
            return Err(StoreError::InvalidTransition(message));
        }
        if self.events_applied == 0 && !matches!(event.kind, EventKind::RunCreated { .. }) {
            return Err(invalid("run.created must be the first event"));
        }
        if self.events_applied > 0 && !matches!(self.status, RunStatus::Active) {
            return Err(invalid("events cannot be appended after a terminal run transition"));
        }
        self.apply_kind(&event.kind)?;
        self.events_applied = self.events_applied.saturating_add(1);
        Ok(())
    }
}

// ---------------------------------------------------------------------------
// Laws of the projection.

/// Replaying a prefix and then the rest is replaying the whole.
pub proof fn replay_composes(state: RuntimeStateView, first: Seq<EventView>, rest: Seq<EventView>)
    ensures
        replayed(state, first + rest) == match replayed(state, first) {
            Ok(middle) => replayed(middle, rest),
            Err(error) => Err(error),
        },
    decreases rest.len(),
{
    if rest.len() == 0 {
        assert(first + rest =~= first);
    } else {
        assert((first + rest).drop_last() =~= first + rest.drop_last());
        replay_composes(state, first, rest.drop_last());
    }
}

/// After a terminal run event every further event is refused and changes
/// nothing.
pub proof fn ended_runs_take_no_events(state: RuntimeStateView, event: EventView)
    requires
        state.status.terminal(),
        state.events_applied > 0,
    ensures
        applied(state, event) is Err,
{
}

/// A run's first event is its creation, and it is created once.
pub proof fn creation_comes_first_and_once(state: RuntimeStateView, event: EventView)
    ensures
        applied(state, event) is Ok ==> (state.events_applied == 0 <==> event.kind is RunCreated),
{
}

/// An event touches only the agent it names: every other agent, and every
/// task and artifact that is there already, stays as it was.
pub proof fn events_are_local(state: RuntimeStateView, event: EventView)
    requires
        applied(state, event) is Ok,
    ensures
        ({
            let next = applied(state, event)->Ok_0;
            &&& next.run_id == state.run_id
            &&& forall|id: TaskId|
                state.tasks.contains_key(id) ==> next.tasks.contains_key(id)
                    && #[trigger] next.tasks[id] == state.tasks[id]
            &&& forall|hash: Seq<u8>|
                state.artifacts.contains_key(hash) ==> next.artifacts.contains_key(hash)
                    && #[trigger] next.artifacts[hash] == state.artifacts[hash]
            &&& forall|id: AgentId|
                state.agents.contains_key(id) ==> next.agents.contains_key(id) && (
                #[trigger] next.agents[id]).identity == state.agents[id].identity
            &&& forall|a: AgentId, b: AgentId|
                state.agents.contains_key(a) && state.agents.contains_key(b)
                    && #[trigger] next.agents[a] != state.agents[a] && #[trigger] next.agents[b]
                    != state.agents[b] ==> a == b
        }),
{
}

/// Changing the model of an agent never changes its logical identity.
pub proof fn model_switches_keep_the_identity(
    state: RuntimeStateView,
    event: EventView,
    agent_id: AgentId,
)
    requires
        state.agents.contains_key(agent_id),
        applied(state, event) is Ok,
    ensures
        applied(state, event)->Ok_0.agents[agent_id].identity == state.agents[agent_id].identity,
        event.kind matches EventKindView::ModelRequested { agent_id: named, model } ==> named
            == agent_id ==> applied(state, event)->Ok_0.agents[agent_id].model == model,
{
}

/// An agent that has finished takes no further model request and cannot be
/// paused or resumed.
pub proof fn finished_agents_stay_finished(
    state: RuntimeStateView,
    event: EventView,
    agent_id: AgentId,
)
    requires
        state.agents.contains_key(agent_id),
        state.agents[agent_id].status.terminal(),
        applied(state, event) is Ok,
    ensures
        applied(state, event)->Ok_0.agents[agent_id].status.terminal(),
{
}

/// Every accepted event is counted once.
pub proof fn replay_counts_events(state: RuntimeStateView, events: Seq<EventView>)
    requires
        replayed(state, events) is Ok,
        state.events_applied + events.len() <= u64::MAX,
    ensures
        replayed(state, events)->Ok_0.events_applied == state.events_applied + events.len(),
        replayed(state, events)->Ok_0.run_id == state.run_id,
    decreases events.len(),
{
    if events.len() > 0 {
        replay_counts_events(state, events.drop_last());
    }
}

} // verus!
