//! The demonstration run: who takes part and what is recorded of them.

use vstd::prelude::*;
use vstd::string::StringExecFns;

use crate::agent::{note, noted, Note};
use crate::assumptions::{normalized, Assumption, AssumptionState, AssumptionView};
use crate::context::{
    ContextDraft, ContextDraftView, ContextKind, ContextKindView, ContextOwner, ContextScope,
};
use crate::ids::{AgentId, AssumptionId, IdSource, MessageId, RunId, TaskId, ToolTransactionId};
use crate::inspector::pairs_as;
use crate::ipc::{
    IpcEnvelope, IpcEnvelopeView, IpcMessage, IpcMessageView, IpcProvenance, IpcProvenanceView,
};
use crate::kernel::{
    event_views, AgentIdentity, AgentIdentityView, Event, EventKind, EventKindView, EventTrace,
    ModelClass, ModelClassView, ModelRef, ModelRefView, TrustOrigin,
};
use crate::scan::{number_in, parse_number};
use crate::text::{decimal, joined, numbered, push_decimal, texts};

verus! {

pub const DEMO_RUN: u64 = 0xD3E0_0001;

pub const DEMO_TASK: u64 = 0xD3E0_0010;

pub const DEMO_MANAGER: u64 = 0xD3E0_0100;

pub const DEMO_AUTH: u64 = 0xD3E0_0101;

pub const DEMO_DB: u64 = 0xD3E0_0102;

pub const DEMO_SEC: u64 = 0xD3E0_0103;

pub const DEMO_TRANSACTION: u64 = 0xD3E0_0200;

// ---------------------------------------------------------------------------
// Who takes part.

pub open spec fn demo_identity(
    id: u64,
    name: Seq<char>,
    mission: Seq<char>,
    model: Seq<char>,
    class: ModelClassView,
) -> AgentIdentityView {
    AgentIdentityView {
        id: AgentId(id),
        name,
        mission,
        model: ModelRefView { provider: "mock"@, model, class },
    }
}

/// An agent under a fixed identity.
pub fn demo_agent(id: u64, name: &str, mission: &str, model: &str, class: ModelClass) -> (agent:
    AgentIdentity)
    ensures
        agent@ == demo_identity(id, name@, mission@, model@, class@),
{
    AgentIdentity {
        id: AgentId::from_u64(id),
        name: name.to_owned(),
        mission: mission.to_owned(),
        model: ModelRef::new("mock", model, class),
    }
}

pub open spec fn manager_identity() -> AgentIdentityView {
    demo_identity(
        DEMO_MANAGER,
        "MANAGER"@,
        "Coordinate the migration and review specialist evidence"@,
        "strong-reasoner-v1"@,
        ModelClassView::Strong,
    )
}

pub fn demo_manager() -> (agent: AgentIdentity)
    ensures
        agent@ == manager_identity(),
{
    demo_agent(
        DEMO_MANAGER,
        "MANAGER",
        "Coordinate the migration and review specialist evidence",
        "strong-reasoner-v1",
        ModelClass::Strong,
    )
}

/// A specialist under the manager.
#[derive(Clone, Debug, PartialEq, Eq)]
pub struct DemoSpecialist {
    pub agent: AgentIdentity,
    pub role: String,
    pub scope: Vec<String>,
    pub capabilities: Vec<String>,
    pub promotable: bool,
}

pub struct DemoSpecialistView {
    pub agent: AgentIdentityView,
    pub role: Seq<char>,
    pub scope: Seq<Seq<char>>,
    pub capabilities: Seq<Seq<char>>,
    pub promotable: bool,
}

impl View for DemoSpecialist {
    type V = DemoSpecialistView;

    open spec fn view(&self) -> DemoSpecialistView {
        DemoSpecialistView {
            agent: self.agent@,
            role: self.role@,
            scope: texts(self.scope@),
            capabilities: texts(self.capabilities@),
            promotable: self.promotable,
        }
    }
}

pub open spec fn specialist_views(list: Seq<DemoSpecialist>) -> Seq<DemoSpecialistView> {
    list.map_values(|specialist: DemoSpecialist| specialist@)
}

/// A number with at least two digits.
pub open spec fn two_digits(value: nat) -> Seq<char> {
    if value < 10 {
        "0"@ + decimal(value)
    } else {
        decimal(value)
    }
}

/// What a demonstration calls its security specialist, and the local model
/// that the specialist runs on.
#[derive(Clone, Copy, Debug)]
pub struct DemoWording<'a> {
    pub local_model: &'a str,
    pub security_role: &'a str,
}

pub ghost struct DemoWordingView {
    pub local_model: Seq<char>,
    pub security_role: Seq<char>,
}

impl View for DemoWording<'_> {
    type V = DemoWordingView;

    open spec fn view(&self) -> DemoWordingView {
        DemoWordingView { local_model: self.local_model@, security_role: self.security_role@ }
    }
}

/// The specialist at a place: three that are named, then workers.
pub open spec fn specialist_at(place: int, words: DemoWordingView) -> DemoSpecialistView {
    if place == 0 {
        DemoSpecialistView {
            agent: demo_identity(
                DEMO_AUTH,
                "AUTH-01"@,
                "Validate identity and token schema compatibility"@,
                "cheap-coder-v2"@,
                ModelClassView::Cheap,
            ),
            role: "Authentication specialist"@,
            scope: seq!["src/auth/**"@],
            capabilities: seq!["filesystem.read"@],
            promotable: true,
        }
    } else if place == 1 {
        DemoSpecialistView {
            agent: demo_identity(
                DEMO_DB,
                "DB-02"@,
                "Check migration constraints and persisted identifiers"@,
                "cheap-coder-v2"@,
                ModelClassView::Cheap,
            ),
            role: "Database specialist"@,
            scope: seq!["migrations/**"@],
            capabilities: seq!["filesystem.read"@],
            promotable: false,
        }
    } else if place == 2 {
        DemoSpecialistView {
            agent: demo_identity(
                DEMO_SEC,
                "SEC-03"@,
                "Review capability and ownership boundaries"@,
                words.local_model,
                ModelClassView::Local,
            ),
            role: words.security_role,
            scope: seq!["src/**"@],
            capabilities: seq!["policy.inspect"@],
            promotable: false,
        }
    } else {
        let number = (place + 1) as nat;
        DemoSpecialistView {
            agent: demo_identity(
                (DEMO_MANAGER + number) as u64,
                "WORK-"@ + two_digits(number),
                "Inspect a bounded migration workstream"@,
                "cheap-coder-v2"@,
                ModelClassView::Cheap,
            ),
            role: "Migration specialist"@,
            scope: seq!["workstream-"@ + decimal(number) + "/**"@],
            capabilities: seq!["filesystem.read"@],
            promotable: false,
        }
    }
}

fn one_text(text: &str) -> (list: Vec<String>)
    ensures
        texts(list@) == seq![text@],
{
    let mut list: Vec<String> = Vec::new();
    list.push(text.to_owned());
    assert(texts(list@) =~= seq![text@]);
    list
}

fn worker(number: usize) -> (specialist: DemoSpecialist)
    requires
        4 <= number <= 64,
    ensures
        forall|words: DemoWordingView| specialist@ == #[trigger] specialist_at(number - 1, words),
{
    let mut name = "WORK-".to_owned();
    if number < 10 {
        name.append(numbered("0", number as u128).as_str());
    } else {
        push_decimal(&mut name, number as u128);
    }
    let mut scope = numbered("workstream-", number as u128);
    scope.append("/**");
    DemoSpecialist {
        agent: demo_agent(
            DEMO_MANAGER + number as u64,
            name.as_str(),
            "Inspect a bounded migration workstream",
            "cheap-coder-v2",
            ModelClass::Cheap,
        ),
        role: "Migration specialist".to_owned(),
        scope: one_text(scope.as_str()),
        capabilities: one_text("filesystem.read"),
        promotable: false,
    }
}

/// How many specialists a demonstration with a number of agents has.
pub open spec fn specialist_count(agent_count: int) -> int {
    if agent_count <= 4 {
        3
    } else {
        agent_count - 1
    }
}

/// The specialists of a demonstration.
pub fn demo_specialists(agent_count: usize, wording: DemoWording<'_>) -> (list: Vec<
    DemoSpecialist,
>)
    requires
        agent_count <= 64,
    ensures
        specialist_views(list@) == Seq::new(
            specialist_count(agent_count as int) as nat,
            |i: int| specialist_at(i, wording@),
        ),
{
    let ghost words = wording@;
    let mut list: Vec<DemoSpecialist> = Vec::new();
    list.push(
        DemoSpecialist {
            agent: demo_agent(
                DEMO_AUTH,
                "AUTH-01",
                "Validate identity and token schema compatibility",
                "cheap-coder-v2",
                ModelClass::Cheap,
            ),
            role: "Authentication specialist".to_owned(),
            scope: one_text("src/auth/**"),
            capabilities: one_text("filesystem.read"),
            promotable: true,
        },
    );
    list.push(
        DemoSpecialist {
            agent: demo_agent(
                DEMO_DB,
                "DB-02",
                "Check migration constraints and persisted identifiers",
                "cheap-coder-v2",
                ModelClass::Cheap,
            ),
            role: "Database specialist".to_owned(),
            scope: one_text("migrations/**"),
            capabilities: one_text("filesystem.read"),
            promotable: false,
        },
    );
    list.push(
        DemoSpecialist {
            agent: demo_agent(
                DEMO_SEC,
                "SEC-03",
                "Review capability and ownership boundaries",
                wording.local_model,
                ModelClass::Local,
            ),
            role: wording.security_role.to_owned(),
            scope: one_text("src/**"),
            capabilities: one_text("policy.inspect"),
            promotable: false,
        },
    );
    let wanted: usize = if agent_count == 0 {
        0
    } else {
        agent_count - 1
    };
    assert(specialist_views(list@) =~= Seq::new(3, |i: int| specialist_at(i, words)));
    while list.len() < wanted
        invariant
            words == wording@,
            wanted <= 63,
            3 <= list@.len(),
            list@.len() <= wanted || list@.len() == 3,
            specialist_views(list@) == Seq::new(list@.len(), |i: int| specialist_at(i, words)),
        decreases wanted - list.len(),
    {
        let ghost before = list@;
        let number: usize = list.len() + 1;
        list.push(worker(number));
        assert(specialist_views(list@) =~= specialist_views(before).push(
            specialist_at(number - 1, words),
        ));
        assert(specialist_views(list@) =~= Seq::new(list@.len(), |i: int| specialist_at(i, words)));
    }
    list
}

/// How many agents a setting asks for: a number from one to sixty-four, or
/// else four.
pub open spec fn agents_asked(setting: Option<Seq<char>>) -> nat {
    match setting {
        None => 4,
        Some(text) => match number_in(text, 10, usize::MAX as nat) {
            Some(count) => if 1 <= count <= 64 {
                count
            } else {
                4
            },
            None => 4,
        },
    }
}

pub fn demo_agent_count(setting: Option<&str>) -> (count: usize)
    ensures
        count == agents_asked(
            match setting {
                Some(text) => Some(text@),
                None => None,
            },
        ),
        1 <= count <= 64,
{
    match setting {
        None => 4,
        Some(text) => match parse_number(text, 10, usize::MAX as u64) {
            Some(count) => {
                if 1 <= count && count <= 64 {
                    count as usize
                } else {
                    4
                }
            },
            None => 4,
        },
    }
}

// ---------------------------------------------------------------------------
// What is recorded.

pub open spec fn demo_opening(at_ms: u128) -> Seq<Note> {
    let run_id = RunId(DEMO_RUN);
    let manager = manager_identity();
    seq![
        Note { at_ms, kind: EventKindView::RunCreated { run_id } },
        Note {
            at_ms,
            kind: EventKindView::TaskCreated {
                task_id: TaskId(DEMO_TASK),
                run_id,
                title: "Investigate authentication migration"@,
            },
        },
        Note { at_ms, kind: EventKindView::AgentCreated { agent: manager } },
        Note {
            at_ms,
            kind: EventKindView::ModelRequested { agent_id: manager.id, model: manager.model },
        },
    ]
}

/// The events that a demonstration begins with.
pub fn demo_core_events(ids: &mut IdSource, at_ms: u128) -> (events: Vec<Event>)
    requires
        old(ids).can_issue(4),
    ensures
        event_views(events@) == noted(
            Seq::empty(),
            *old(ids),
            0,
            RunId(DEMO_RUN),
            demo_opening(at_ms),
        ),
        final(ids).issued_from(old(ids), 4),
{
    let run_id = RunId::from_u64(DEMO_RUN);
    let manager = demo_manager();
    let agent_id = manager.id;
    let model = manager.model.clone();
    let mut trace = EventTrace::new();
    note(&mut trace, ids, at_ms, run_id, EventKind::RunCreated { run_id });
    note(
        &mut trace,
        ids,
        at_ms,
        run_id,
        EventKind::TaskCreated {
            task_id: TaskId::from_u64(DEMO_TASK),
            run_id,
            title: "Investigate authentication migration".to_owned(),
        },
    );
    note(&mut trace, ids, at_ms, run_id, EventKind::AgentCreated { agent: manager });
    note(&mut trace, ids, at_ms, run_id, EventKind::ModelRequested { agent_id, model });
    assert(trace@ =~= noted(
        Seq::empty(),
        *old(ids),
        0,
        RunId(DEMO_RUN),
        demo_opening(at_ms),
    ));
    trace.events
}

/// The context that the demonstration publishes.
pub fn demo_draft() -> (draft: ContextDraft)
    ensures
        draft@ == (ContextDraftView {
            namespace: "auth.schema"@,
            kind: ContextKindView::Contract,
            owner: ContextOwner::Agent(AgentId(DEMO_AUTH)),
            scope: ContextScope::Private(AgentId(DEMO_AUTH)),
            content: vstd::utf8::encode_utf8(
                "users.id must remain UUID during the migration."@,
            ),
            token_estimate: 0,
            trust: TrustOrigin::Generated,
            importance: 50,
            dependencies: seq![],
            sources: seq![],
            created_event: None,
        }),
{
    let auth = AgentId::from_u64(DEMO_AUTH);
    ContextDraft::new(
        "auth.schema",
        ContextKind::Contract,
        ContextOwner::Agent(auth),
        ContextScope::Private(auth),
        "users.id must remain UUID during the migration.",
    )
}

pub open spec fn demo_assumption(
    id: u64,
    owner: u64,
    value: Seq<char>,
    claim: Seq<char>,
) -> AssumptionView {
    AssumptionView {
        id: AssumptionId(id),
        run_id: RunId(DEMO_RUN),
        owner: AgentId(owner),
        subject: normalized("users.id"@),
        normalized_value: normalized(value),
        claim,
        evidence: seq![],
        dependencies: seq![],
        revision: 1,
        confidence_millis: 1000,
        state: AssumptionState::Active,
        trust: TrustOrigin::Generated,
        input_origins: seq![],
    }
}

/// The two assumptions that contradict each other.
pub fn demo_assumptions(ids: &mut IdSource) -> (pair: (Assumption, Assumption))
    requires
        old(ids).can_issue(2),
    ensures
        pair.0@ == demo_assumption(
            old(ids).upcoming(0),
            DEMO_AUTH,
            "UUID"@,
            "authentication tokens encode the identifier as UUID"@,
        ),
        pair.1@ == demo_assumption(
            old(ids).upcoming(1),
            DEMO_DB,
            "BIGINT"@,
            "legacy database schema uses numeric identifiers"@,
        ),
        final(ids).issued_from(old(ids), 2),
{
    let run_id = RunId::from_u64(DEMO_RUN);
    let first = Assumption::new(
        ids,
        run_id,
        AgentId::from_u64(DEMO_AUTH),
        "users.id",
        "UUID",
        "authentication tokens encode the identifier as UUID",
    );
    let second = Assumption::new(
        ids,
        run_id,
        AgentId::from_u64(DEMO_DB),
        "users.id",
        "BIGINT",
        "legacy database schema uses numeric identifiers",
    );
    (first, second)
}

/// The manager's question.
pub fn demo_message(ids: &mut IdSource) -> (envelope: IpcEnvelope)
    requires
        old(ids).can_issue(1),
    ensures
        envelope@ == (IpcEnvelopeView {
            id: MessageId(old(ids).upcoming(0)),
            run_id: RunId(DEMO_RUN),
            task_id: Some(TaskId(DEMO_TASK)),
            sender: AgentId(DEMO_MANAGER),
            recipient: AgentId(DEMO_AUTH),
            causal_event_ids: seq![],
            provenance: IpcProvenanceView::Runtime,
            input_origins: seq![],
            payload: IpcMessageView::Question {
                subject: "identifier migration"@,
                why: "confirm the conflict resolution evidence"@,
            },
        }),
        final(ids).issued_from(old(ids), 1),
{
    IpcEnvelope::new(
        ids,
        RunId::from_u64(DEMO_RUN),
        Some(TaskId::from_u64(DEMO_TASK)),
        AgentId::from_u64(DEMO_MANAGER),
        AgentId::from_u64(DEMO_AUTH),
        IpcMessage::Question {
            subject: "identifier migration".to_owned(),
            why: "confirm the conflict resolution evidence".to_owned(),
        },
    ).with_provenance(IpcProvenance::Runtime)
}

/// What the demonstration's provider reports of its cache.
pub fn demo_cache_kind() -> (kind: EventKind)
    ensures
        kind@ == (EventKindView::CacheObserved {
            provider: "mock"@,
            model: "strong-reasoner-v1"@,
            prefix_hash: Seq::new(32, |i: int| 7u8),
            estimated_prefix_tokens: 640,
            cached_input_tokens: 512,
        }),
{
    let prefix_hash = [7u8; 32];
    assert(prefix_hash@ =~= Seq::new(32, |i: int| 7u8));
    EventKind::CacheObserved {
        provider: "mock".to_owned(),
        model: "strong-reasoner-v1".to_owned(),
        prefix_hash,
        estimated_prefix_tokens: 640,
        cached_input_tokens: 512,
    }
}

/// Who asks for a tool.
#[derive(Clone, Copy, Debug, PartialEq, Eq, Structural)]
pub enum ToolProvenance {
    User,
    Manager,
    Agent,
}

/// How far a tool transaction has come.
#[derive(Clone, Copy, Debug, PartialEq, Eq, Structural)]
pub enum ToolState {
    Validated,
    AwaitingApproval,
    Verified,
}

/// A tool that an agent wants to use, and the named texts that it is given.
#[derive(Clone, Debug, PartialEq, Eq)]
pub struct ToolProposal {
    pub run_id: RunId,
    pub task_id: Option<TaskId>,
    pub agent_id: AgentId,
    pub tool_name: String,
    pub input: Vec<(String, String)>,
    pub provenance: ToolProvenance,
    pub input_origins: Vec<TrustOrigin>,
}

pub struct ToolProposalView {
    pub run_id: RunId,
    pub task_id: Option<TaskId>,
    pub agent_id: AgentId,
    pub tool_name: Seq<char>,
    pub input: Seq<(Seq<char>, Seq<char>)>,
    pub provenance: ToolProvenance,
    pub input_origins: Seq<TrustOrigin>,
}

impl View for ToolProposal {
    type V = ToolProposalView;

    open spec fn view(&self) -> ToolProposalView {
        ToolProposalView {
            run_id: self.run_id,
            task_id: self.task_id,
            agent_id: self.agent_id,
            tool_name: self.tool_name@,
            input: pairs_as(self.input@),
            provenance: self.provenance,
            input_origins: self.input_origins@,
        }
    }
}

/// What is recorded of a tool transaction.
#[allow(inconsistent_fields)]
#[derive(Clone, Debug, PartialEq, Eq)]
pub enum ToolTransition {
    Proposed { transaction_id: ToolTransactionId, proposal: ToolProposal, state: ToolState },
    StateChanged { transaction_id: ToolTransactionId, state: ToolState, detail: Option<String> },
}

#[allow(inconsistent_fields)]
pub enum ToolTransitionView {
    Proposed { transaction_id: ToolTransactionId, proposal: ToolProposalView, state: ToolState },
    StateChanged {
        transaction_id: ToolTransactionId,
        state: ToolState,
        detail: Option<Seq<char>>,
    },
}

impl View for ToolTransition {
    type V = ToolTransitionView;

    open spec fn view(&self) -> ToolTransitionView {
        match self {
            ToolTransition::Proposed {
                transaction_id,
                proposal,
                state,
            } => ToolTransitionView::Proposed {
                transaction_id: *transaction_id,
                proposal: proposal@,
                state: *state,
            },
            ToolTransition::StateChanged {
                transaction_id,
                state,
                detail,
            } => ToolTransitionView::StateChanged {
                transaction_id: *transaction_id,
                state: *state,
                detail: match detail {
                    Some(detail) => Some(detail@),
                    None => None,
                },
            },
        }
    }
}

/// The inspection of a file, from generated input, which waits for approval.
pub open spec fn proposed_inspection() -> ToolTransitionView {
    ToolTransitionView::Proposed {
        transaction_id: ToolTransactionId(DEMO_TRANSACTION),
        proposal: ToolProposalView {
            run_id: RunId(DEMO_RUN),
            task_id: Some(TaskId(DEMO_TASK)),
            agent_id: AgentId(DEMO_AUTH),
            tool_name: "filesystem.inspect"@,
            input: seq![("path"@, "src/auth/schema.rs"@)],
            provenance: ToolProvenance::Agent,
            input_origins: seq![TrustOrigin::Generated],
        },
        state: ToolState::AwaitingApproval,
    }
}

/// The same inspection, once it is verified.
pub open spec fn confirmed_inspection() -> ToolTransitionView {
    ToolTransitionView::StateChanged {
        transaction_id: ToolTransactionId(DEMO_TRANSACTION),
        state: ToolState::Verified,
        detail: Some("read-only schema inspection verified"@),
    }
}

/// What is recorded of the inspection: its proposal and its verification.
pub fn demo_inspection() -> (pair: (ToolTransition, ToolTransition))
    ensures
        pair.0@ == proposed_inspection(),
        pair.1@ == confirmed_inspection(),
{
    let transaction_id = ToolTransactionId::from_u64(DEMO_TRANSACTION);
    let mut input: Vec<(String, String)> = Vec::new();
    input.push(("path".to_owned(), "src/auth/schema.rs".to_owned()));
    assert(pairs_as(input@) =~= seq![("path"@, "src/auth/schema.rs"@)]);
    let mut input_origins: Vec<TrustOrigin> = Vec::new();
    input_origins.push(TrustOrigin::Generated);
    assert(input_origins@ =~= seq![TrustOrigin::Generated]);
    let proposal = ToolProposal {
        run_id: RunId::from_u64(DEMO_RUN),
        task_id: Some(TaskId::from_u64(DEMO_TASK)),
        agent_id: AgentId::from_u64(DEMO_AUTH),
        tool_name: "filesystem.inspect".to_owned(),
        input,
        provenance: ToolProvenance::Agent,
        input_origins,
    };
    let proposed = ToolTransition::Proposed {
        transaction_id,
        proposal,
        state: ToolState::AwaitingApproval,
    };
    let confirmed = ToolTransition::StateChanged {
        transaction_id,
        state: ToolState::Verified,
        detail: Some("read-only schema inspection verified".to_owned()),
    };
    (proposed, confirmed)
}

// ---------------------------------------------------------------------------
// The whole course of it.

/// One thing that is asked of the runtime.
#[derive(Clone, Debug, PartialEq, Eq)]
pub enum DemoDeed {
    /// Append the opening events.
    AppendCoreEvents,
    ConfigureBudget {
        agent_id: AgentId,
        max_tokens: u64,
        max_child_agents: Option<u64>,
        max_context_tokens: u64,
    },
    SpawnSpecialist { parent: AgentId, specialist: DemoSpecialist, subscriptions: Vec<String> },
    SelectModel { agent_id: AgentId, model: ModelRef },
    RecordUsage { agent_id: AgentId, tokens: u64, context_tokens: u64 },
    ClaimOwnership { agent_id: AgentId, resource: String },
    /// Lend files to an agent.
    GrantFiles { agent_id: AgentId, task_id: TaskId, resource: String, expires_at_ms: u128 },
    /// Publish the draft and append its transitions as events.
    PublishContext,
    /// Publish the first or the second assumption.
    PublishAssumption { second: bool },
    /// Record that an agent's assumptions conflict.
    SignalConflict { agent_id: AgentId },
    /// Send the manager's question.
    SendMessage,
    RecordTool { transition: ToolTransition },
    /// Append what the provider reported of its cache.
    ObserveCache,
    PauseAgent { agent_id: AgentId },
}

pub enum DemoDeedView {
    AppendCoreEvents,
    ConfigureBudget {
        agent_id: AgentId,
        max_tokens: u64,
        max_child_agents: Option<u64>,
        max_context_tokens: u64,
    },
    SpawnSpecialist {
        parent: AgentId,
        specialist: DemoSpecialistView,
        subscriptions: Seq<Seq<char>>,
    },
    SelectModel { agent_id: AgentId, model: ModelRefView },
    RecordUsage { agent_id: AgentId, tokens: u64, context_tokens: u64 },
    ClaimOwnership { agent_id: AgentId, resource: Seq<char> },
    GrantFiles { agent_id: AgentId, task_id: TaskId, resource: Seq<char>, expires_at_ms: u128 },
    PublishContext,
    PublishAssumption { second: bool },
    SignalConflict { agent_id: AgentId },
    SendMessage,
    RecordTool { transition: ToolTransitionView },
    ObserveCache,
    PauseAgent { agent_id: AgentId },
}

impl View for DemoDeed {
    type V = DemoDeedView;

    open spec fn view(&self) -> DemoDeedView {
        match self {
            DemoDeed::AppendCoreEvents => DemoDeedView::AppendCoreEvents,
            DemoDeed::ConfigureBudget {
                agent_id,
                max_tokens,
                max_child_agents,
                max_context_tokens,
            } => DemoDeedView::ConfigureBudget {
                agent_id: *agent_id,
                max_tokens: *max_tokens,
                max_child_agents: *max_child_agents,
                max_context_tokens: *max_context_tokens,
            },
            DemoDeed::SpawnSpecialist {
                parent,
                specialist,
                subscriptions,
            } => DemoDeedView::SpawnSpecialist {
                parent: *parent,
                specialist: specialist@,
                subscriptions: texts(subscriptions@),
            },
            DemoDeed::SelectModel { agent_id, model } => DemoDeedView::SelectModel {
                agent_id: *agent_id,
                model: model@,
            },
            DemoDeed::RecordUsage {
                agent_id,
                tokens,
                context_tokens,
            } => DemoDeedView::RecordUsage {
                agent_id: *agent_id,
                tokens: *tokens,
                context_tokens: *context_tokens,
            },
            DemoDeed::ClaimOwnership { agent_id, resource } => DemoDeedView::ClaimOwnership {
                agent_id: *agent_id,
                resource: resource@,
            },
            DemoDeed::GrantFiles {
                agent_id,
                task_id,
                resource,
                expires_at_ms,
            } => DemoDeedView::GrantFiles {
                agent_id: *agent_id,
                task_id: *task_id,
                resource: resource@,
                expires_at_ms: *expires_at_ms,
            },
            DemoDeed::PublishContext => DemoDeedView::PublishContext,
            DemoDeed::PublishAssumption { second } => DemoDeedView::PublishAssumption {
                second: *second,
            },
            DemoDeed::SignalConflict { agent_id } => DemoDeedView::SignalConflict {
                agent_id: *agent_id,
            },
            DemoDeed::SendMessage => DemoDeedView::SendMessage,
            DemoDeed::RecordTool { transition } => DemoDeedView::RecordTool {
                transition: transition@,
            },
            DemoDeed::ObserveCache => DemoDeedView::ObserveCache,
            DemoDeed::PauseAgent { agent_id } => DemoDeedView::PauseAgent { agent_id: *agent_id },
        }
    }
}

/// A deed, and what it is called where it fails.
#[derive(Clone, Debug, PartialEq, Eq)]
pub struct DemoStep {
    pub label: String,
    pub deed: DemoDeed,
}

pub struct DemoStepView {
    pub label: Seq<char>,
    pub deed: DemoDeedView,
}

impl View for DemoStep {
    type V = DemoStepView;

    open spec fn view(&self) -> DemoStepView {
        DemoStepView { label: self.label@, deed: self.deed@ }
    }
}

impl DemoStep {
    /// The complaint about a step that failed.
    pub fn complaint(&self, error: &str) -> (text: String)
        ensures
            text@ == "demo "@ + self.label@ + " failed: "@ + error@,
    {
        let mut text = joined("demo ", self.label.as_str());
        text.append(" failed: ");
        text.append(error);
        text
    }
}

pub open spec fn step_views(list: Seq<DemoStep>) -> Seq<DemoStepView> {
    list.map_values(|step: DemoStep| step@)
}

pub open spec fn step_of(label: Seq<char>, deed: DemoDeedView) -> DemoStepView {
    DemoStepView { label, deed }
}

fn add_step(list: &mut Vec<DemoStep>, label: &str, deed: DemoDeed)
    ensures
        step_views(final(list)@) == step_views(old(list)@).push(step_of(label@, deed@)),
{
    let ghost before = list@;
    let step = DemoStep { label: label.to_owned(), deed };
    list.push(step);
    assert(step_views(list@) =~= step_views(before).push(step_of(label@, deed@)));
}

/// The run and its manager.
pub open spec fn opening_steps(agent_count: int) -> Seq<DemoStepView> {
    seq![
        step_of("core events"@, DemoDeedView::AppendCoreEvents),
        step_of(
            "manager budget"@,
            DemoDeedView::ConfigureBudget {
                agent_id: AgentId(DEMO_MANAGER),
                max_tokens: 50000,
                max_child_agents: Some(agent_count as u64),
                max_context_tokens: 16384,
            },
        ),
    ]
}

/// Models, budgets and permissions, and the context that is shared.
pub open spec fn settling_steps(words: DemoWordingView) -> Seq<DemoStepView> {
    seq![
        step_of(
            "model switch"@,
            DemoDeedView::SelectModel {
                agent_id: AgentId(DEMO_AUTH),
                model: ModelRefView {
                    provider: "mock"@,
                    model: "strong-reasoner-v1"@,
                    class: ModelClassView::Strong,
                },
            },
        ),
        step_of(
            "database model assignment"@,
            DemoDeedView::SelectModel {
                agent_id: AgentId(DEMO_DB),
                model: ModelRefView {
                    provider: "mock"@,
                    model: "cheap-coder-v2"@,
                    class: ModelClassView::Cheap,
                },
            },
        ),
        step_of(
            "security model assignment"@,
            DemoDeedView::SelectModel {
                agent_id: AgentId(DEMO_SEC),
                model: ModelRefView {
                    provider: "mock"@,
                    model: words.local_model,
                    class: ModelClassView::Local,
                },
            },
        ),
        step_of(
            "usage"@,
            DemoDeedView::RecordUsage {
                agent_id: AgentId(DEMO_AUTH),
                tokens: 2340,
                context_tokens: 640,
            },
        ),
        step_of(
            "ownership"@,
            DemoDeedView::ClaimOwnership { agent_id: AgentId(DEMO_AUTH), resource: "src/auth"@ },
        ),
        step_of(
            "capability"@,
            DemoDeedView::GrantFiles {
                agent_id: AgentId(DEMO_AUTH),
                task_id: TaskId(DEMO_TASK),
                resource: "src/auth"@,
                expires_at_ms: u128::MAX,
            },
        ),
        step_of("context"@, DemoDeedView::PublishContext),
    ]
}

/// The conflict, the question and the inspection.
pub open spec fn working_steps() -> Seq<DemoStepView> {
    seq![
        step_of("first assumption"@, DemoDeedView::PublishAssumption { second: false }),
        step_of("conflict assumption"@, DemoDeedView::PublishAssumption { second: true }),
        step_of("health signal"@, DemoDeedView::SignalConflict { agent_id: AgentId(DEMO_AUTH) }),
        step_of("IPC"@, DemoDeedView::SendMessage),
        step_of("tool proposal"@, DemoDeedView::RecordTool { transition: proposed_inspection() }),
        step_of(
            "tool verification"@,
            DemoDeedView::RecordTool { transition: confirmed_inspection() },
        ),
        step_of("cache observation"@, DemoDeedView::ObserveCache),
        step_of("pause"@, DemoDeedView::PauseAgent { agent_id: AgentId(DEMO_SEC) }),
    ]
}

pub open spec fn demo_subscriptions() -> Seq<Seq<char>> {
    seq!["assumption.*"@, "tool.*"@]
}

/// A specialist is spawned and given a budget.
pub open spec fn specialist_steps(specialist: DemoSpecialistView) -> Seq<DemoStepView> {
    seq![
        step_of(
            "specialist"@,
            DemoDeedView::SpawnSpecialist {
                parent: AgentId(DEMO_MANAGER),
                specialist,
                subscriptions: demo_subscriptions(),
            },
        ),
        step_of(
            "specialist budget"@,
            DemoDeedView::ConfigureBudget {
                agent_id: specialist.agent.id,
                max_tokens: 12000,
                max_child_agents: None,
                max_context_tokens: 4096,
            },
        ),
    ]
}

pub open spec fn specialists_steps(count: nat, words: DemoWordingView) -> Seq<DemoStepView>
    decreases count,
{
    if count == 0 {
        seq![]
    } else {
        specialists_steps((count - 1) as nat, words)
            + specialist_steps(specialist_at(count - 1, words))
    }
}

/// The whole demonstration with a number of agents.
pub open spec fn script(agent_count: int, words: DemoWordingView) -> Seq<DemoStepView> {
    opening_steps(agent_count) + specialists_steps(specialist_count(agent_count) as nat, words)
        + settling_steps(words) + working_steps()
}

fn add_opening(list: &mut Vec<DemoStep>, agent_count: usize)
    ensures
        step_views(final(list)@) == step_views(old(list)@) + opening_steps(agent_count as int),
{
    add_step(list, "core events", DemoDeed::AppendCoreEvents);
    add_step(
        list,
        "manager budget",
        DemoDeed::ConfigureBudget {
            agent_id: AgentId::from_u64(DEMO_MANAGER),
            max_tokens: 50000,
            max_child_agents: Some(agent_count as u64),
            max_context_tokens: 16384,
        },
    );
    assert(step_views(list@) =~= step_views(old(list)@) + opening_steps(agent_count as int));
}

fn add_settling(list: &mut Vec<DemoStep>, wording: DemoWording<'_>)
    ensures
        step_views(final(list)@) == step_views(old(list)@) + settling_steps(wording@),
{
    add_step(
        list,
        "model switch",
        DemoDeed::SelectModel {
            agent_id: AgentId::from_u64(DEMO_AUTH),
            model: ModelRef::new("mock", "strong-reasoner-v1", ModelClass::Strong),
        },
    );
    add_step(
        list,
        "database model assignment",
        DemoDeed::SelectModel {
            agent_id: AgentId::from_u64(DEMO_DB),
            model: ModelRef::new("mock", "cheap-coder-v2", ModelClass::Cheap),
        },
    );
    add_step(
        list,
        "security model assignment",
        DemoDeed::SelectModel {
            agent_id: AgentId::from_u64(DEMO_SEC),
            model: ModelRef::new("mock", wording.local_model, ModelClass::Local),
        },
    );
    add_step(
        list,
        "usage",
        DemoDeed::RecordUsage {
            agent_id: AgentId::from_u64(DEMO_AUTH),
            tokens: 2340,
            context_tokens: 640,
        },
    );
    add_step(
        list,
        "ownership",
        DemoDeed::ClaimOwnership {
            agent_id: AgentId::from_u64(DEMO_AUTH),
            resource: "src/auth".to_owned(),
        },
    );
    add_step(
        list,
        "capability",
        DemoDeed::GrantFiles {
            agent_id: AgentId::from_u64(DEMO_AUTH),
            task_id: TaskId::from_u64(DEMO_TASK),
            resource: "src/auth".to_owned(),
            expires_at_ms: u128::MAX,
        },
    );
    add_step(list, "context", DemoDeed::PublishContext);
    assert(step_views(list@) =~= step_views(old(list)@) + settling_steps(wording@));
}

fn add_working(list: &mut Vec<DemoStep>)
    ensures
        step_views(final(list)@) == step_views(old(list)@) + working_steps(),
{
    add_step(list, "first assumption", DemoDeed::PublishAssumption { second: false });
    add_step(list, "conflict assumption", DemoDeed::PublishAssumption { second: true });
    add_step(
        list,
        "health signal",
        DemoDeed::SignalConflict { agent_id: AgentId::from_u64(DEMO_AUTH) },
    );
    add_step(list, "IPC", DemoDeed::SendMessage);
    let (proposed, confirmed) = demo_inspection();
    add_step(list, "tool proposal", DemoDeed::RecordTool { transition: proposed });
    add_step(list, "tool verification", DemoDeed::RecordTool { transition: confirmed });
    add_step(list, "cache observation", DemoDeed::ObserveCache);
    add_step(list, "pause", DemoDeed::PauseAgent { agent_id: AgentId::from_u64(DEMO_SEC) });
    assert(step_views(list@) =~= step_views(old(list)@) + working_steps());
}

fn add_specialist(list: &mut Vec<DemoStep>, specialist: DemoSpecialist)
    ensures
        step_views(final(list)@) == step_views(old(list)@) + specialist_steps(specialist@),
{
    let agent_id = specialist.agent.id;
    let mut subscriptions: Vec<String> = Vec::new();
    subscriptions.push("assumption.*".to_owned());
    subscriptions.push("tool.*".to_owned());
    assert(texts(subscriptions@) =~= demo_subscriptions());
    add_step(
        list,
        "specialist",
        DemoDeed::SpawnSpecialist {
            parent: AgentId::from_u64(DEMO_MANAGER),
            specialist,
            subscriptions,
        },
    );
    add_step(
        list,
        "specialist budget",
        DemoDeed::ConfigureBudget {
            agent_id,
            max_tokens: 12000,
            max_child_agents: None,
            max_context_tokens: 4096,
        },
    );
    assert(step_views(list@) =~= step_views(old(list)@) + specialist_steps(specialist@));
}

/// Everything that a demonstration asks of the runtime, in order.
pub fn demo_script(agent_count: usize, wording: DemoWording<'_>) -> (steps: Vec<DemoStep>)
    requires
        agent_count <= 64,
    ensures
        step_views(steps@) == script(agent_count as int, wording@),
{
    let ghost words = wording@;
    let mut steps: Vec<DemoStep> = Vec::new();
    add_opening(&mut steps, agent_count);
    assert(step_views(steps@) =~= opening_steps(agent_count as int));
    let mut specialists = demo_specialists(agent_count, wording);
    let count: usize = specialists.len();
    let ghost views = specialist_views(specialists@);
    assert(views.len() == specialist_count(agent_count as int));
    assert forall|i: int| 0 <= i < specialists@.len() implies (#[trigger] specialists@[i])@
        == specialist_at(i, words) by {
        assert(views[i] == specialists@[i]@);
    }
    let mut index: usize = 0;
    while index < count
        invariant
            words == wording@,
            index <= count,
            count == specialist_count(agent_count as int),
            specialists@.len() == count - index,
            forall|i: int|
                0 <= i < specialists@.len() ==> (#[trigger] specialists@[i])@ == specialist_at(
                    index + i,
                    words,
                ),
            step_views(steps@) == opening_steps(agent_count as int) + specialists_steps(
                index as nat,
                words,
            ),
        decreases count - index,
    {
        let ghost before = specialists@;
        let ghost earlier = step_views(steps@);
        let specialist = specialists.remove(0);
        add_specialist(&mut steps, specialist);
        proof {
            assert(before[0]@ == specialist_at(index as int, words));
            assert(step_views(steps@) =~= opening_steps(agent_count as int) + specialists_steps(
                (index + 1) as nat,
                words,
            ));
            assert forall|i: int| 0 <= i < specialists@.len() implies (#[trigger] specialists@[i])@
                == specialist_at(index + 1 + i, words) by {
                assert(specialists@[i] == before[i + 1]);
            }
        }
        index += 1;
    }
    add_settling(&mut steps, wording);
    add_working(&mut steps);
    assert(step_views(steps@) =~= script(agent_count as int, words));
    steps
}

} // verus!
