//! The shared vocabulary of the runtime: trust, models, agents, tasks, usage,
//! cancellation and the event envelope.

use std::sync::atomic::{AtomicBool, Ordering};
use std::sync::Arc;

use vstd::prelude::*;

use crate::ids::{AgentId, EventId, IdSource, RunId, TaskId};
use crate::keys::same_bytes;
use crate::table::Record;
use crate::text::clone_bytes;

verus! {

/// Policy-level provenance classification shared by runtime domains.
#[derive(Clone, Copy, Debug, PartialEq, Eq, PartialOrd, Ord, Hash, Structural)]
pub enum TrustOrigin {
    Runtime,
    TrustedProject,
    UserProvided,
    Generated,
    RemoteAgent,
    External,
    WebUntrusted,
    McpMetadata,
    McpResult,
}

impl TrustOrigin {
    pub open spec fn trusted(self) -> bool {
        self == TrustOrigin::Runtime || self == TrustOrigin::TrustedProject || self
            == TrustOrigin::UserProvided
    }

    /// How far policy trusts an origin; web content and tool results least.
    pub open spec fn rank(self) -> u8 {
        match self {
            TrustOrigin::WebUntrusted | TrustOrigin::McpResult => 0,
            TrustOrigin::McpMetadata | TrustOrigin::External => 1,
            TrustOrigin::RemoteAgent => 2,
            TrustOrigin::Generated => 3,
            TrustOrigin::UserProvided => 4,
            TrustOrigin::TrustedProject => 5,
            TrustOrigin::Runtime => 6,
        }
    }

    /// The less trusted of two origins, the first where they rank alike.
    pub open spec fn combined(self, other: TrustOrigin) -> TrustOrigin {
        if self.rank() <= other.rank() {
            self
        } else {
            other
        }
    }

    pub fn is_trusted(self) -> (trusted: bool)
        ensures
            trusted == self.trusted(),
    {
        matches!(
            self,
            TrustOrigin::Runtime | TrustOrigin::TrustedProject | TrustOrigin::UserProvided
        )
    }

    /// Combines the origins of the inputs of a derived value without upgrading
    /// trust: the least trusted input wins.
    pub fn combine(self, other: TrustOrigin) -> (origin: TrustOrigin)
        ensures
            origin == self.combined(other),
            origin.rank() <= self.rank(),
            origin.rank() <= other.rank(),
            origin.trusted() ==> self.trusted() && other.trusted(),
    {
        if self.policy_rank() <= other.policy_rank() {
            self
        } else {
            other
        }
    }

    fn policy_rank(self) -> (rank: u8)
        ensures
            rank == self.rank(),
    {
        match self {
            TrustOrigin::WebUntrusted | TrustOrigin::McpResult => 0,
            TrustOrigin::McpMetadata | TrustOrigin::External => 1,
            TrustOrigin::RemoteAgent => 2,
            TrustOrigin::Generated => 3,
            TrustOrigin::UserProvided => 4,
            TrustOrigin::TrustedProject => 5,
            TrustOrigin::Runtime => 6,
        }
    }
}

/// The byte that stands for an origin in message, assumption and context
/// encodings.
pub open spec fn origin_byte(origin: TrustOrigin) -> u8 {
    match origin {
        TrustOrigin::TrustedProject => 0,
        TrustOrigin::UserProvided => 1,
        TrustOrigin::Generated => 2,
        TrustOrigin::RemoteAgent => 3,
        TrustOrigin::WebUntrusted => 4,
        TrustOrigin::McpMetadata => 5,
        TrustOrigin::McpResult => 6,
        TrustOrigin::External => 7,
        TrustOrigin::Runtime => 8,
    }
}

/// The origin that a byte stands for.
pub open spec fn origin_of_byte(tag: u8) -> Option<TrustOrigin> {
    if tag == 0 {
        Some(TrustOrigin::TrustedProject)
    } else if tag == 1 {
        Some(TrustOrigin::UserProvided)
    } else if tag == 2 {
        Some(TrustOrigin::Generated)
    } else if tag == 3 {
        Some(TrustOrigin::RemoteAgent)
    } else if tag == 4 {
        Some(TrustOrigin::WebUntrusted)
    } else if tag == 5 {
        Some(TrustOrigin::McpMetadata)
    } else if tag == 6 {
        Some(TrustOrigin::McpResult)
    } else if tag == 7 {
        Some(TrustOrigin::External)
    } else if tag == 8 {
        Some(TrustOrigin::Runtime)
    } else {
        None
    }
}

pub(crate) fn origin_tag(origin: TrustOrigin) -> (tag: u8)
    ensures
        tag == origin_byte(origin),
{
    match origin {
        TrustOrigin::TrustedProject => 0,
        TrustOrigin::UserProvided => 1,
        TrustOrigin::Generated => 2,
        TrustOrigin::RemoteAgent => 3,
        TrustOrigin::WebUntrusted => 4,
        TrustOrigin::McpMetadata => 5,
        TrustOrigin::McpResult => 6,
        TrustOrigin::External => 7,
        TrustOrigin::Runtime => 8,
    }
}

pub(crate) fn origin_for_tag(tag: u8) -> (origin: Option<TrustOrigin>)
    ensures
        origin == origin_of_byte(tag),
{
    match tag {
        0 => Some(TrustOrigin::TrustedProject),
        1 => Some(TrustOrigin::UserProvided),
        2 => Some(TrustOrigin::Generated),
        3 => Some(TrustOrigin::RemoteAgent),
        4 => Some(TrustOrigin::WebUntrusted),
        5 => Some(TrustOrigin::McpMetadata),
        6 => Some(TrustOrigin::McpResult),
        7 => Some(TrustOrigin::External),
        8 => Some(TrustOrigin::Runtime),
        _ => None,
    }
}

/// The origin that a value inherits from `base` and every origin of `inputs`.
pub open spec fn combined_all(base: TrustOrigin, inputs: Seq<TrustOrigin>) -> TrustOrigin
    decreases inputs.len(),
{
    if inputs.len() == 0 {
        base
    } else {
        combined_all(base, inputs.drop_last()).combined(inputs.last())
    }
}

/// Combining origins: exact for every list of inputs.
pub fn combine_all(base: TrustOrigin, inputs: &Vec<TrustOrigin>) -> (origin: TrustOrigin)
    ensures
        origin == combined_all(base, inputs@),
{
    let mut origin = base;
    let mut index: usize = 0;
    while index < inputs.len()
        invariant
            index <= inputs@.len(),
            origin == combined_all(base, inputs@.take(index as int)),
        decreases inputs.len() - index,
    {
        origin = origin.combine(inputs[index]);
        index += 1;
        assert(inputs@.take(index as int).drop_last() =~= inputs@.take(index - 1));
    }
    assert(inputs@.take(inputs@.len() as int) =~= inputs@);
    origin
}

/// Trust is never upgraded: a combination ranks no higher than its base or
/// any of its inputs, is trusted only where all of them are, and is itself one
/// of them.
pub proof fn combination_never_upgrades_trust(base: TrustOrigin, inputs: Seq<TrustOrigin>)
    ensures
        combined_all(base, inputs).rank() <= base.rank(),
        forall|i: int|
            0 <= i < inputs.len() ==> combined_all(base, inputs).rank() <= (
            #[trigger] inputs[i]).rank(),
        combined_all(base, inputs).trusted() ==> base.trusted() && forall|i: int|
            0 <= i < inputs.len() ==> (#[trigger] inputs[i]).trusted(),
        combined_all(base, inputs) == base || inputs.contains(combined_all(base, inputs)),
    decreases inputs.len(),
{
    if inputs.len() > 0 {
        let rest = inputs.drop_last();
        combination_never_upgrades_trust(base, rest);
        assert forall|i: int| 0 <= i < inputs.len() implies combined_all(base, inputs).rank() <= (
        #[trigger] inputs[i]).rank() by {
            if i < rest.len() {
                assert(inputs[i] == rest[i]);
            }
        }
        if combined_all(base, inputs).trusted() {
            assert forall|i: int| 0 <= i < inputs.len() implies (
            #[trigger] inputs[i]).trusted() by {
                if i < rest.len() {
                    assert(inputs[i] == rest[i]);
                }
            }
        }
        let result = combined_all(base, inputs);
        if result == inputs.last() {
            assert(inputs[inputs.len() - 1] == result);
        } else if rest.contains(result) {
            let i = choose|i: int| 0 <= i < rest.len() && rest[i] == result;
            assert(inputs[i] == result);
        }
    }
}

/// The order of two inputs does not change how far their combination is
/// trusted.
pub proof fn combination_rank_is_symmetric(left: TrustOrigin, right: TrustOrigin)
    ensures
        left.combined(right).rank() == right.combined(left).rank(),
        left.combined(left) == left,
{
}

#[derive(Debug, PartialEq, Eq)]
pub enum ModelClass {
    Local,
    Cheap,
    Strong,
    Custom(String),
}

pub enum ModelClassView {
    Local,
    Cheap,
    Strong,
    Custom(Seq<char>),
}

impl View for ModelClass {
    type V = ModelClassView;

    open spec fn view(&self) -> ModelClassView {
        match *self {
            ModelClass::Local => ModelClassView::Local,
            ModelClass::Cheap => ModelClassView::Cheap,
            ModelClass::Strong => ModelClassView::Strong,
            ModelClass::Custom(name) => ModelClassView::Custom(name@),
        }
    }
}

impl ModelClassView {
    /// The name shown for a class.
    pub open spec fn text(self) -> Seq<char> {
        match self {
            ModelClassView::Local => "local"@,
            ModelClassView::Cheap => "cheap"@,
            ModelClassView::Strong => "strong"@,
            ModelClassView::Custom(name) => name,
        }
    }
}

impl ModelClass {
    pub fn to_text(&self) -> (text: String)
        ensures
            text@ == self@.text(),
    {
        match self {
            ModelClass::Local => "local".to_owned(),
            ModelClass::Cheap => "cheap".to_owned(),
            ModelClass::Strong => "strong".to_owned(),
            ModelClass::Custom(name) => name.clone(),
        }
    }
}

impl Clone for ModelClass {
    fn clone(&self) -> (copy: ModelClass)
        ensures
            copy == *self,
    {
        match self {
            ModelClass::Local => ModelClass::Local,
            ModelClass::Cheap => ModelClass::Cheap,
            ModelClass::Strong => ModelClass::Strong,
            ModelClass::Custom(name) => ModelClass::Custom(name.clone()),
        }
    }
}

impl Record for ModelClass {
    fn duplicate(&self) -> (copy: ModelClass) {
        self.clone()
    }

    fn same(&self, other: &ModelClass) -> (same: bool) {
        match (self, other) {
            (ModelClass::Local, ModelClass::Local) => true,
            (ModelClass::Cheap, ModelClass::Cheap) => true,
            (ModelClass::Strong, ModelClass::Strong) => true,
            (ModelClass::Custom(left), ModelClass::Custom(right)) => *left == *right,
            _ => false,
        }
    }
}

#[derive(Debug, PartialEq, Eq)]
pub struct ModelRef {
    pub provider: String,
    pub model: String,
    pub class: ModelClass,
}

pub struct ModelRefView {
    pub provider: Seq<char>,
    pub model: Seq<char>,
    pub class: ModelClassView,
}

impl View for ModelRef {
    type V = ModelRefView;

    open spec fn view(&self) -> ModelRefView {
        ModelRefView { provider: self.provider@, model: self.model@, class: self.class@ }
    }
}

impl ModelRef {
    pub fn new(provider: &str, model: &str, class: ModelClass) -> (reference: ModelRef)
        ensures
            reference@ == (ModelRefView { provider: provider@, model: model@, class: class@ }),
    {
        ModelRef { provider: provider.to_owned(), model: model.to_owned(), class }
    }
}

impl Clone for ModelRef {
    fn clone(&self) -> (copy: ModelRef)
        ensures
            copy == *self,
    {
        ModelRef {
            provider: self.provider.clone(),
            model: self.model.clone(),
            class: self.class.clone(),
        }
    }
}

impl Record for ModelRef {
    fn duplicate(&self) -> (copy: ModelRef) {
        self.clone()
    }

    fn same(&self, other: &ModelRef) -> (same: bool) {
        self.provider == other.provider && self.model == other.model && self.class.same(
            &other.class,
        )
    }
}

#[derive(Clone, Debug, PartialEq, Eq)]
pub struct Run {
    pub id: RunId,
}

impl Run {
    pub fn new(ids: &mut IdSource) -> (run: Run)
        requires
            old(ids).can_issue(1),
        ensures
            run.id.0 == old(ids).upcoming(0),
            final(ids).issued_from(old(ids), 1),
    {
        Run { id: RunId::new(ids) }
    }
}

#[derive(Clone, Debug, PartialEq, Eq)]
pub struct Task {
    pub id: TaskId,
    pub run_id: RunId,
    pub title: String,
}

impl Task {
    pub fn new(ids: &mut IdSource, run_id: RunId, title: &str) -> (task: Task)
        requires
            old(ids).can_issue(1),
        ensures
            task.id.0 == old(ids).upcoming(0),
            task.run_id == run_id,
            task.title@ == title@,
            final(ids).issued_from(old(ids), 1),
    {
        Task { id: TaskId::new(ids), run_id, title: title.to_owned() }
    }
}

#[derive(Debug, PartialEq, Eq)]
pub struct AgentIdentity {
    pub id: AgentId,
    pub name: String,
    pub mission: String,
    pub model: ModelRef,
}

pub struct AgentIdentityView {
    pub id: AgentId,
    pub name: Seq<char>,
    pub mission: Seq<char>,
    pub model: ModelRefView,
}

impl View for AgentIdentity {
    type V = AgentIdentityView;

    open spec fn view(&self) -> AgentIdentityView {
        AgentIdentityView {
            id: self.id,
            name: self.name@,
            mission: self.mission@,
            model: self.model@,
        }
    }
}

impl AgentIdentity {
    pub fn new(
        ids: &mut IdSource,
        name: &str,
        mission: &str,
        model: ModelRef,
    ) -> (agent: AgentIdentity)
        requires
            old(ids).can_issue(1),
        ensures
            agent@ == (AgentIdentityView {
                id: AgentId(old(ids).upcoming(0)),
                name: name@,
                mission: mission@,
                model: model@,
            }),
            final(ids).issued_from(old(ids), 1),
    {
        AgentIdentity {
            id: AgentId::new(ids),
            name: name.to_owned(),
            mission: mission.to_owned(),
            model,
        }
    }
}

impl Clone for AgentIdentity {
    fn clone(&self) -> (copy: AgentIdentity)
        ensures
            copy == *self,
    {
        AgentIdentity {
            id: self.id,
            name: self.name.clone(),
            mission: self.mission.clone(),
            model: self.model.clone(),
        }
    }
}

impl Record for AgentIdentity {
    fn duplicate(&self) -> (copy: AgentIdentity) {
        self.clone()
    }

    fn same(&self, other: &AgentIdentity) -> (same: bool) {
        self.id == other.id && self.name == other.name && self.mission == other.mission
            && self.model.same(&other.model)
    }
}

#[derive(Clone, Copy, Debug, PartialEq, Eq)]
pub struct Usage {
    pub input_tokens: u64,
    pub output_tokens: u64,
    /// Provider-reported input tokens served from a physical prompt cache.
    /// `None` means the provider did not report cache metadata.
    pub cached_input_tokens: Option<u64>,
}

/// Addition that stops at the largest `u64`.
pub open spec fn capped_sum(left: u64, right: u64) -> u64 {
    if left + right > u64::MAX {
        u64::MAX
    } else {
        (left + right) as u64
    }
}

impl Default for Usage {
    fn default() -> (usage: Usage)
        ensures
            usage == (Usage { input_tokens: 0, output_tokens: 0, cached_input_tokens: None }),
    {
        Usage { input_tokens: 0, output_tokens: 0, cached_input_tokens: None }
    }
}

impl Usage {
    pub fn new(input_tokens: u64, output_tokens: u64) -> (usage: Usage)
        ensures
            usage == (Usage { input_tokens, output_tokens, cached_input_tokens: None }),
    {
        Usage { input_tokens, output_tokens, cached_input_tokens: None }
    }

    pub fn with_cached_input_tokens(self, cached_input_tokens: u64) -> (usage: Usage)
        ensures
            usage == (Usage { cached_input_tokens: Some(cached_input_tokens), ..self }),
    {
        Usage { cached_input_tokens: Some(cached_input_tokens), ..self }
    }

    pub fn total_tokens(self) -> (total: u64)
        requires
            self.input_tokens + self.output_tokens <= u64::MAX,
        ensures
            total == self.input_tokens + self.output_tokens,
    {
        self.input_tokens + self.output_tokens
    }

    /// The sum of two usages. Cached tokens are known only where both sides
    /// reported them.
    pub open spec fn plus(self, other: Usage) -> Usage {
        Usage {
            input_tokens: capped_sum(self.input_tokens, other.input_tokens),
            output_tokens: capped_sum(self.output_tokens, other.output_tokens),
            cached_input_tokens: match (self.cached_input_tokens, other.cached_input_tokens) {
                (Some(left), Some(right)) => Some(capped_sum(left, right)),
                _ => None,
            },
        }
    }

    pub fn saturating_add(self, other: Usage) -> (sum: Usage)
        ensures
            sum == self.plus(other),
    {
        Usage {
            input_tokens: self.input_tokens.saturating_add(other.input_tokens),
            output_tokens: self.output_tokens.saturating_add(other.output_tokens),
            cached_input_tokens: match (self.cached_input_tokens, other.cached_input_tokens) {
                (Some(left), Some(right)) => Some(left.saturating_add(right)),
                _ => None,
            },
        }
    }
}

impl View for Usage {
    type V = Usage;

    open spec fn view(&self) -> Usage {
        *self
    }
}

impl Record for Usage {
    fn duplicate(&self) -> (copy: Usage) {
        *self
    }

    fn same(&self, other: &Usage) -> (same: bool) {
        let cached = match (self.cached_input_tokens, other.cached_input_tokens) {
            (Some(left), Some(right)) => left == right,
            (None, None) => true,
            _ => false,
        };
        self.input_tokens == other.input_tokens && self.output_tokens == other.output_tokens
            && cached
    }
}

/// Usage sums do not depend on order.
pub proof fn usage_sum_is_commutative_and_associative(a: Usage, b: Usage, c: Usage)
    ensures
        a.plus(b) == b.plus(a),
        a.plus(b).plus(c) == a.plus(b.plus(c)),
{
}

/// A cancellation flag shared by every clone of a token.
///
/// What a read returns depends on what other holders of the flag have done,
/// so no contract speaks of it.
#[derive(Debug)]
pub struct CancellationToken {
    cancelled: Arc<AtomicBool>,
}

impl Clone for CancellationToken {
    fn clone(&self) -> (copy: CancellationToken)
        ensures
            copy == *self,
    {
        CancellationToken { cancelled: self.cancelled.clone() }
    }
}

impl CancellationToken {
    pub fn new() -> (token: CancellationToken) {
        CancellationToken { cancelled: Arc::new(AtomicBool::new(false)) }
    }

    pub fn cancel(&self) {
        self.cancelled.store(true, Ordering::Release);
    }

    pub fn is_cancelled(&self) -> (cancelled: bool) {
        self.cancelled.load(Ordering::Acquire)
    }
}

impl Default for CancellationToken {
    fn default() -> (token: CancellationToken) {
        CancellationToken::new()
    }
}

#[allow(inconsistent_fields)]
#[derive(Debug, PartialEq, Eq)]
pub enum EventKind {
    RunCreated { run_id: RunId },
    TaskCreated { task_id: TaskId, run_id: RunId, title: String },
    AgentCreated { agent: AgentIdentity },
    ModelRequested { agent_id: AgentId, model: ModelRef },
    ModelChunkReceived { agent_id: AgentId, chunk_index: u32 },
    ModelCompleted { agent_id: AgentId, usage: Usage },
    ModelCancelled { agent_id: AgentId },
    ModelFailed { agent_id: AgentId, message: String },
    RunCompleted { run_id: RunId },
    RunCancelled { run_id: RunId },
    RunFailed { run_id: RunId, message: String },
    ArtifactCreated {
        content_hash: [u8; 32],
        size_bytes: u64,
        media_type: String,
        trust: TrustOrigin,
    },
    /// Opaque, versioned payload owned by the context subsystem. The kernel
    /// does not interpret it, so that context schemas can evolve on their own.
    ContextTransition { version: u16, payload: Vec<u8> },
    CacheObserved {
        provider: String,
        model: String,
        prefix_hash: [u8; 32],
        estimated_prefix_tokens: u64,
        cached_input_tokens: u64,
    },
    /// Versioned inter-agent message.
    AgentMessage { version: u16, payload: Vec<u8> },
    /// Versioned assumption or conflict transition.
    AssumptionTransition { version: u16, payload: Vec<u8> },
    /// Versioned budget and health transition.
    SchedulerTransition { version: u16, payload: Vec<u8> },
    AgentPaused { agent_id: AgentId },
    AgentResumed { agent_id: AgentId },
    /// Versioned capability grant or revocation.
    CapabilityTransition { version: u16, payload: Vec<u8> },
    /// Versioned tool proposal or state transition.
    ToolTransition { version: u16, payload: Vec<u8> },
    /// Versioned failure-memory transition.
    FailureMemoryTransition { version: u16, payload: Vec<u8> },
    /// Versioned specialist profile.
    SpecialistTransition { version: u16, payload: Vec<u8> },
}

#[allow(inconsistent_fields)]
pub enum EventKindView {
    RunCreated { run_id: RunId },
    TaskCreated { task_id: TaskId, run_id: RunId, title: Seq<char> },
    AgentCreated { agent: AgentIdentityView },
    ModelRequested { agent_id: AgentId, model: ModelRefView },
    ModelChunkReceived { agent_id: AgentId, chunk_index: u32 },
    ModelCompleted { agent_id: AgentId, usage: Usage },
    ModelCancelled { agent_id: AgentId },
    ModelFailed { agent_id: AgentId, message: Seq<char> },
    RunCompleted { run_id: RunId },
    RunCancelled { run_id: RunId },
    RunFailed { run_id: RunId, message: Seq<char> },
    ArtifactCreated {
        content_hash: Seq<u8>,
        size_bytes: u64,
        media_type: Seq<char>,
        trust: TrustOrigin,
    },
    ContextTransition { version: u16, payload: Seq<u8> },
    CacheObserved {
        provider: Seq<char>,
        model: Seq<char>,
        prefix_hash: Seq<u8>,
        estimated_prefix_tokens: u64,
        cached_input_tokens: u64,
    },
    AgentMessage { version: u16, payload: Seq<u8> },
    AssumptionTransition { version: u16, payload: Seq<u8> },
    SchedulerTransition { version: u16, payload: Seq<u8> },
    AgentPaused { agent_id: AgentId },
    AgentResumed { agent_id: AgentId },
    CapabilityTransition { version: u16, payload: Seq<u8> },
    ToolTransition { version: u16, payload: Seq<u8> },
    FailureMemoryTransition { version: u16, payload: Seq<u8> },
    SpecialistTransition { version: u16, payload: Seq<u8> },
}

impl View for EventKind {
    type V = EventKindView;

    open spec fn view(&self) -> EventKindView {
        match *self {
            EventKind::RunCreated { run_id } => EventKindView::RunCreated { run_id },
            EventKind::TaskCreated { task_id, run_id, title } => EventKindView::TaskCreated {
                task_id,
                run_id,
                title: title@,
            },
            EventKind::AgentCreated { agent } => EventKindView::AgentCreated { agent: agent@ },
            EventKind::ModelRequested { agent_id, model } => EventKindView::ModelRequested {
                agent_id,
                model: model@,
            },
            EventKind::ModelChunkReceived {
                agent_id,
                chunk_index,
            } => EventKindView::ModelChunkReceived {
                agent_id,
                chunk_index,
            },
            EventKind::ModelCompleted { agent_id, usage } => EventKindView::ModelCompleted {
                agent_id,
                usage,
            },
            EventKind::ModelCancelled { agent_id } => EventKindView::ModelCancelled { agent_id },
            EventKind::ModelFailed { agent_id, message } => EventKindView::ModelFailed {
                agent_id,
                message: message@,
            },
            EventKind::RunCompleted { run_id } => EventKindView::RunCompleted { run_id },
            EventKind::RunCancelled { run_id } => EventKindView::RunCancelled { run_id },
            EventKind::RunFailed { run_id, message } => EventKindView::RunFailed {
                run_id,
                message: message@,
            },
            EventKind::ArtifactCreated {
                content_hash,
                size_bytes,
                media_type,
                trust,
            } => EventKindView::ArtifactCreated {
                content_hash: content_hash@,
                size_bytes,
                media_type: media_type@,
                trust,
            },
            EventKind::ContextTransition { version, payload } => EventKindView::ContextTransition {
                version,
                payload: payload@,
            },
            EventKind::CacheObserved {
                provider,
                model,
                prefix_hash,
                estimated_prefix_tokens,
                cached_input_tokens,
            } => EventKindView::CacheObserved {
                provider: provider@,
                model: model@,
                prefix_hash: prefix_hash@,
                estimated_prefix_tokens,
                cached_input_tokens,
            },
            EventKind::AgentMessage { version, payload } => EventKindView::AgentMessage {
                version,
                payload: payload@,
            },
            EventKind::AssumptionTransition {
                version,
                payload,
            } => EventKindView::AssumptionTransition {
                version,
                payload: payload@,
            },
            EventKind::SchedulerTransition {
                version,
                payload,
            } => EventKindView::SchedulerTransition {
                version,
                payload: payload@,
            },
            EventKind::AgentPaused { agent_id } => EventKindView::AgentPaused { agent_id },
            EventKind::AgentResumed { agent_id } => EventKindView::AgentResumed { agent_id },
            EventKind::CapabilityTransition {
                version,
                payload,
            } => EventKindView::CapabilityTransition {
                version,
                payload: payload@,
            },
            EventKind::ToolTransition { version, payload } => EventKindView::ToolTransition {
                version,
                payload: payload@,
            },
            EventKind::FailureMemoryTransition {
                version,
                payload,
            } => EventKindView::FailureMemoryTransition {
                version,
                payload: payload@,
            },
            EventKind::SpecialistTransition {
                version,
                payload,
            } => EventKindView::SpecialistTransition {
                version,
                payload: payload@,
            },
        }
    }
}

impl Clone for EventKind {
    fn clone(&self) -> (copy: EventKind)
        ensures
            copy@ == self@,
    {
        match self {
            EventKind::RunCreated { run_id } => EventKind::RunCreated { run_id: *run_id },
            EventKind::TaskCreated { task_id, run_id, title } => EventKind::TaskCreated {
                task_id: *task_id,
                run_id: *run_id,
                title: title.clone(),
            },
            EventKind::AgentCreated { agent } => EventKind::AgentCreated { agent: agent.clone() },
            EventKind::ModelRequested { agent_id, model } => EventKind::ModelRequested {
                agent_id: *agent_id,
                model: model.clone(),
            },
            EventKind::ModelChunkReceived {
                agent_id,
                chunk_index,
            } => EventKind::ModelChunkReceived {
                agent_id: *agent_id,
                chunk_index: *chunk_index,
            },
            EventKind::ModelCompleted { agent_id, usage } => EventKind::ModelCompleted {
                agent_id: *agent_id,
                usage: *usage,
            },
            EventKind::ModelCancelled { agent_id } => EventKind::ModelCancelled {
                agent_id: *agent_id,
            },
            EventKind::ModelFailed { agent_id, message } => EventKind::ModelFailed {
                agent_id: *agent_id,
                message: message.clone(),
            },
            EventKind::RunCompleted { run_id } => EventKind::RunCompleted { run_id: *run_id },
            EventKind::RunCancelled { run_id } => EventKind::RunCancelled { run_id: *run_id },
            EventKind::RunFailed { run_id, message } => EventKind::RunFailed {
                run_id: *run_id,
                message: message.clone(),
            },
            EventKind::ArtifactCreated {
                content_hash,
                size_bytes,
                media_type,
                trust,
            } => EventKind::ArtifactCreated {
                content_hash: *content_hash,
                size_bytes: *size_bytes,
                media_type: media_type.clone(),
                trust: *trust,
            },
            EventKind::ContextTransition { version, payload } => EventKind::ContextTransition {
                version: *version,
                payload: clone_bytes(payload),
            },
            EventKind::CacheObserved {
                provider,
                model,
                prefix_hash,
                estimated_prefix_tokens,
                cached_input_tokens,
            } => EventKind::CacheObserved {
                provider: provider.clone(),
                model: model.clone(),
                prefix_hash: *prefix_hash,
                estimated_prefix_tokens: *estimated_prefix_tokens,
                cached_input_tokens: *cached_input_tokens,
            },
            EventKind::AgentMessage { version, payload } => EventKind::AgentMessage {
                version: *version,
                payload: clone_bytes(payload),
            },
            EventKind::AssumptionTransition {
                version,
                payload,
            } => EventKind::AssumptionTransition {
                version: *version,
                payload: clone_bytes(payload),
            },
            EventKind::SchedulerTransition { version, payload } => EventKind::SchedulerTransition {
                version: *version,
                payload: clone_bytes(payload),
            },
            EventKind::AgentPaused { agent_id } => EventKind::AgentPaused { agent_id: *agent_id },
            EventKind::AgentResumed { agent_id } => EventKind::AgentResumed { agent_id: *agent_id },
            EventKind::CapabilityTransition {
                version,
                payload,
            } => EventKind::CapabilityTransition {
                version: *version,
                payload: clone_bytes(payload),
            },
            EventKind::ToolTransition { version, payload } => EventKind::ToolTransition {
                version: *version,
                payload: clone_bytes(payload),
            },
            EventKind::FailureMemoryTransition {
                version,
                payload,
            } => EventKind::FailureMemoryTransition {
                version: *version,
                payload: clone_bytes(payload),
            },
            EventKind::SpecialistTransition {
                version,
                payload,
            } => EventKind::SpecialistTransition {
                version: *version,
                payload: clone_bytes(payload),
            },
        }
    }
}

impl Record for EventKind {
    fn duplicate(&self) -> (copy: EventKind) {
        self.clone()
    }

    fn same(&self, other: &EventKind) -> (same: bool) {
        match (self, other) {
            (
                EventKind::RunCreated { run_id: left_run_id },
                EventKind::RunCreated { run_id: right_run_id },
            ) => *left_run_id == *right_run_id,
            (
                EventKind::TaskCreated {
                    task_id: left_task_id,
                    run_id: left_run_id,
                    title: left_title,
                },
                EventKind::TaskCreated {
                    task_id: right_task_id,
                    run_id: right_run_id,
                    title: right_title,
                },
            ) => *left_task_id == *right_task_id && *left_run_id == *right_run_id
                && *left_title == *right_title,
            (
                EventKind::AgentCreated { agent: left_agent },
                EventKind::AgentCreated { agent: right_agent },
            ) => left_agent.same(right_agent),
            (
                EventKind::ModelRequested { agent_id: left_agent_id, model: left_model },
                EventKind::ModelRequested { agent_id: right_agent_id, model: right_model },
            ) => *left_agent_id == *right_agent_id && left_model.same(right_model),
            (
                EventKind::ModelChunkReceived {
                    agent_id: left_agent_id,
                    chunk_index: left_chunk_index,
                },
                EventKind::ModelChunkReceived {
                    agent_id: right_agent_id,
                    chunk_index: right_chunk_index,
                },
            ) => *left_agent_id == *right_agent_id && *left_chunk_index == *right_chunk_index,
            (
                EventKind::ModelCompleted { agent_id: left_agent_id, usage: left_usage },
                EventKind::ModelCompleted { agent_id: right_agent_id, usage: right_usage },
            ) => *left_agent_id == *right_agent_id && left_usage.same(right_usage),
            (
                EventKind::ModelCancelled { agent_id: left_agent_id },
                EventKind::ModelCancelled { agent_id: right_agent_id },
            ) => *left_agent_id == *right_agent_id,
            (
                EventKind::ModelFailed { agent_id: left_agent_id, message: left_message },
                EventKind::ModelFailed { agent_id: right_agent_id, message: right_message },
            ) => *left_agent_id == *right_agent_id && *left_message == *right_message,
            (
                EventKind::RunCompleted { run_id: left_run_id },
                EventKind::RunCompleted { run_id: right_run_id },
            ) => *left_run_id == *right_run_id,
            (
                EventKind::RunCancelled { run_id: left_run_id },
                EventKind::RunCancelled { run_id: right_run_id },
            ) => *left_run_id == *right_run_id,
            (
                EventKind::RunFailed { run_id: left_run_id, message: left_message },
                EventKind::RunFailed { run_id: right_run_id, message: right_message },
            ) => *left_run_id == *right_run_id && *left_message == *right_message,
            (
                EventKind::ArtifactCreated {
                    content_hash: left_content_hash,
                    size_bytes: left_size_bytes,
                    media_type: left_media_type,
                    trust: left_trust,
                },
                EventKind::ArtifactCreated {
                    content_hash: right_content_hash,
                    size_bytes: right_size_bytes,
                    media_type: right_media_type,
                    trust: right_trust,
                },
            ) => same_bytes(left_content_hash.as_slice(), right_content_hash.as_slice())
                && *left_size_bytes == *right_size_bytes && *left_media_type == *right_media_type
                && *left_trust == *right_trust,
            (
                EventKind::ContextTransition { version: left_version, payload: left_payload },
                EventKind::ContextTransition { version: right_version, payload: right_payload },
            ) => *left_version == *right_version
                && same_bytes(left_payload.as_slice(), right_payload.as_slice()),
            (
                EventKind::CacheObserved {
                    provider: left_provider,
                    model: left_model,
                    prefix_hash: left_prefix_hash,
                    estimated_prefix_tokens: left_estimated_prefix_tokens,
                    cached_input_tokens: left_cached_input_tokens,
                },
                EventKind::CacheObserved {
                    provider: right_provider,
                    model: right_model,
                    prefix_hash: right_prefix_hash,
                    estimated_prefix_tokens: right_estimated_prefix_tokens,
                    cached_input_tokens: right_cached_input_tokens,
                },
            ) => *left_provider == *right_provider && *left_model == *right_model
                && same_bytes(left_prefix_hash.as_slice(), right_prefix_hash.as_slice())
                && *left_estimated_prefix_tokens == *right_estimated_prefix_tokens
                && *left_cached_input_tokens == *right_cached_input_tokens,
            (
                EventKind::AgentMessage { version: left_version, payload: left_payload },
                EventKind::AgentMessage { version: right_version, payload: right_payload },
            ) => *left_version == *right_version
                && same_bytes(left_payload.as_slice(), right_payload.as_slice()),
            (
                EventKind::AssumptionTransition { version: left_version, payload: left_payload },
                EventKind::AssumptionTransition { version: right_version, payload: right_payload },
            ) => *left_version == *right_version
                && same_bytes(left_payload.as_slice(), right_payload.as_slice()),
            (
                EventKind::SchedulerTransition { version: left_version, payload: left_payload },
                EventKind::SchedulerTransition { version: right_version, payload: right_payload },
            ) => *left_version == *right_version
                && same_bytes(left_payload.as_slice(), right_payload.as_slice()),
            (
                EventKind::AgentPaused { agent_id: left_agent_id },
                EventKind::AgentPaused { agent_id: right_agent_id },
            ) => *left_agent_id == *right_agent_id,
            (
                EventKind::AgentResumed { agent_id: left_agent_id },
                EventKind::AgentResumed { agent_id: right_agent_id },
            ) => *left_agent_id == *right_agent_id,
            (
                EventKind::CapabilityTransition { version: left_version, payload: left_payload },
                EventKind::CapabilityTransition { version: right_version, payload: right_payload },
            ) => *left_version == *right_version
                && same_bytes(left_payload.as_slice(), right_payload.as_slice()),
            (
                EventKind::ToolTransition { version: left_version, payload: left_payload },
                EventKind::ToolTransition { version: right_version, payload: right_payload },
            ) => *left_version == *right_version
                && same_bytes(left_payload.as_slice(), right_payload.as_slice()),
            (
                EventKind::FailureMemoryTransition { version: left_version, payload: left_payload },
                EventKind::FailureMemoryTransition {
                    version: right_version,
                    payload: right_payload,
                },
            ) => *left_version == *right_version
                && same_bytes(left_payload.as_slice(), right_payload.as_slice()),
            (
                EventKind::SpecialistTransition { version: left_version, payload: left_payload },
                EventKind::SpecialistTransition { version: right_version, payload: right_payload },
            ) => *left_version == *right_version
                && same_bytes(left_payload.as_slice(), right_payload.as_slice()),
            _ => false,
        }
    }
}

#[derive(Debug, PartialEq, Eq)]
pub struct Event {
    pub id: EventId,
    pub run_id: RunId,
    pub occurred_at_ms: u128,
    pub kind: EventKind,
}

pub struct EventView {
    pub id: EventId,
    pub run_id: RunId,
    pub occurred_at_ms: u128,
    pub kind: EventKindView,
}

impl View for Event {
    type V = EventView;

    open spec fn view(&self) -> EventView {
        EventView {
            id: self.id,
            run_id: self.run_id,
            occurred_at_ms: self.occurred_at_ms,
            kind: self.kind@,
        }
    }
}

impl Event {
    /// An event of a run, under a fresh identity, at a time read by the caller.
    pub fn new(
        ids: &mut IdSource,
        occurred_at_ms: u128,
        run_id: RunId,
        kind: EventKind,
    ) -> (event: Event)
        requires
            old(ids).can_issue(1),
        ensures
            event.id.0 == old(ids).upcoming(0),
            event.run_id == run_id,
            event.occurred_at_ms == occurred_at_ms,
            event.kind == kind,
            final(ids).issued_from(old(ids), 1),
    {
        Event { id: EventId::new(ids), run_id, occurred_at_ms, kind }
    }
}

impl Clone for Event {
    fn clone(&self) -> (copy: Event)
        ensures
            copy@ == self@,
    {
        Event {
            id: self.id,
            run_id: self.run_id,
            occurred_at_ms: self.occurred_at_ms,
            kind: self.kind.clone(),
        }
    }
}

impl Record for Event {
    fn duplicate(&self) -> (copy: Event) {
        self.clone()
    }

    fn same(&self, other: &Event) -> (same: bool) {
        self.id == other.id && self.run_id == other.run_id && self.occurred_at_ms
            == other.occurred_at_ms && self.kind.same(&other.kind)
    }
}

/// The views of a list of events.
pub open spec fn event_views(events: Seq<Event>) -> Seq<EventView> {
    events.map_values(|event: Event| event@)
}

/// An append-only list of events.
#[derive(Clone, Debug, PartialEq, Eq)]
pub struct EventTrace {
    pub events: Vec<Event>,
}

impl View for EventTrace {
    type V = Seq<EventView>;

    open spec fn view(&self) -> Seq<EventView> {
        event_views(self.events@)
    }
}

impl EventTrace {
    pub fn new() -> (trace: EventTrace)
        ensures
            trace@ == Seq::<EventView>::empty(),
    {
        let trace = EventTrace { events: Vec::new() };
        assert(trace@ =~= Seq::<EventView>::empty());
        trace
    }

    pub fn record(&mut self, event: Event)
        ensures
            final(self)@ == old(self)@.push(event@),
    {
        self.events.push(event);
        assert(self@ =~= old(self)@.push(event@));
    }

    pub fn events(&self) -> (events: &[Event])
        ensures
            event_views(events@) == self@,
    {
        self.events.as_slice()
    }

    pub fn len(&self) -> (length: usize)
        ensures
            length == self@.len(),
    {
        self.events.len()
    }

    pub fn is_empty(&self) -> (empty: bool)
        ensures
            empty == (self@.len() == 0),
    {
        self.events.len() == 0
    }
}

impl Default for EventTrace {
    fn default() -> (trace: EventTrace)
        ensures
            trace@ == Seq::<EventView>::empty(),
    {
        EventTrace::new()
    }
}

} // verus!
