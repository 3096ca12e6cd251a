//! Typed, versioned context: blocks, drafts, transitions and their views.
//!
//! The graph owns metadata and immutable content references. A rendered
//! prompt is a projection of that graph; it is not the graph itself.

use vstd::bytes::{lemma_auto_spec_u64_to_from_le_bytes, spec_u64_to_le_bytes, u64_to_le_bytes};
use vstd::prelude::*;
use vstd::string::StringExecFns;

use crate::artifact::{hex_text, push_hex_bytes, turn, turned};
use crate::codec::Reader;
use crate::ids::{id_text, AgentId, EventId};
use crate::kernel::TrustOrigin;
use crate::keys::{bytes_before, bytes_order_laws, rank_bytes, rank_numbers, same_bytes};
use crate::state::phrase;
use crate::table::{Key, Rank, Record};
use crate::text::{clone_bytes, decimal, push_decimal, push_hex};

verus! {

pub const CONTEXT_TRANSITION_VERSION: u16 = 1;

// ---------------------------------------------------------------------------
// Identities.

#[derive(Clone, Copy, Debug, PartialEq, Eq, PartialOrd, Ord, Hash, Structural)]
pub struct ContextBlockId(pub u64);

#[derive(Clone, Copy, Debug, PartialEq, Eq, PartialOrd, Ord, Hash, Structural)]
pub struct SubscriptionId(pub u64);

/// Numbers the blocks and the subscriptions of one process.
pub struct ContextIdSource {
    next_block: u64,
    next_subscription: u64,
}

impl ContextIdSource {
    pub closed spec fn block(&self) -> u64 {
        self.next_block
    }

    pub closed spec fn subscription(&self) -> u64 {
        self.next_subscription
    }

    pub fn new() -> (source: ContextIdSource)
        ensures
            source.block() == 1,
            source.subscription() == 1,
    {
        ContextIdSource { next_block: 1, next_subscription: 1 }
    }
}

impl Default for ContextIdSource {
    fn default() -> (source: ContextIdSource)
        ensures
            source.block() == 1,
            source.subscription() == 1,
    {
        ContextIdSource::new()
    }
}

impl ContextBlockId {
    pub fn new(source: &mut ContextIdSource) -> (id: ContextBlockId)
        ensures
            id.0 == old(source).block(),
            final(source).block() == old(source).block().wrapping_add(1),
            final(source).subscription() == old(source).subscription(),
    {
        let id: u64 = source.next_block;
        source.next_block = id.wrapping_add(1);
        ContextBlockId(id)
    }

    pub fn from_u64(value: u64) -> (id: ContextBlockId)
        ensures
            id.0 == value,
    {
        ContextBlockId(value)
    }

    pub fn value(self) -> (value: u64)
        ensures
            value == self.0,
    {
        self.0
    }

    /// The rendering `context-` and sixteen hexadecimal digits.
    pub fn to_text(self) -> (text: String)
        ensures
            text@ == id_text("context"@, self.0),
    {
        let mut out = "context".to_owned();
        out.append("-");
        push_hex(&mut out, self.0, 16);
        out
    }
}

impl SubscriptionId {
    pub(crate) fn new(source: &mut ContextIdSource) -> (id: SubscriptionId)
        ensures
            id.0 == old(source).subscription(),
            final(source).subscription() == old(source).subscription().wrapping_add(1),
            final(source).block() == old(source).block(),
    {
        let id: u64 = source.next_subscription;
        source.next_subscription = id.wrapping_add(1);
        SubscriptionId(id)
    }
}

impl Key for ContextBlockId {
    type Model = ContextBlockId;

    open spec fn model(&self) -> ContextBlockId {
        *self
    }

    open spec fn before(left: ContextBlockId, right: ContextBlockId) -> bool {
        left.0 < right.0
    }

    proof fn order_laws(a: ContextBlockId, b: ContextBlockId, c: ContextBlockId) {
    }

    fn rank(&self, other: &ContextBlockId) -> (rank: Rank) {
        rank_numbers(self.0, other.0)
    }

    fn copied(&self) -> (copy: ContextBlockId) {
        *self
    }
}

impl Key for SubscriptionId {
    type Model = SubscriptionId;

    open spec fn model(&self) -> SubscriptionId {
        *self
    }

    open spec fn before(left: SubscriptionId, right: SubscriptionId) -> bool {
        left.0 < right.0
    }

    proof fn order_laws(a: SubscriptionId, b: SubscriptionId, c: SubscriptionId) {
    }

    fn rank(&self, other: &SubscriptionId) -> (rank: Rank) {
        rank_numbers(self.0, other.0)
    }

    fn copied(&self) -> (copy: SubscriptionId) {
        *self
    }
}

/// A revision of a block.
#[derive(Clone, Copy, Debug, PartialEq, Eq, PartialOrd, Ord, Hash, Structural)]
pub struct ContextRef {
    pub block_id: ContextBlockId,
    pub revision: u64,
}

impl ContextRef {
    pub open spec fn text(self) -> Seq<char> {
        id_text("context"@, self.block_id.0) + "@"@ + decimal(self.revision as nat)
    }

    pub fn to_text(self) -> (text: String)
        ensures
            text@ == self.text(),
    {
        let mut out = self.block_id.to_text();
        out.append("@");
        push_decimal(&mut out, self.revision as u128);
        out
    }
}

impl Key for ContextRef {
    type Model = ContextRef;

    open spec fn model(&self) -> ContextRef {
        *self
    }

    open spec fn before(left: ContextRef, right: ContextRef) -> bool {
        left.block_id.0 < right.block_id.0 || (left.block_id == right.block_id && left.revision
            < right.revision)
    }

    proof fn order_laws(a: ContextRef, b: ContextRef, c: ContextRef) {
    }

    fn rank(&self, other: &ContextRef) -> (rank: Rank) {
        if self.block_id != other.block_id {
            rank_numbers(self.block_id.0, other.block_id.0)
        } else {
            rank_numbers(self.revision, other.revision)
        }
    }

    fn copied(&self) -> (copy: ContextRef) {
        *self
    }
}

// ---------------------------------------------------------------------------
// Content digests.

#[derive(Clone, Copy, Debug, PartialEq, Eq, PartialOrd, Ord, Hash)]
pub struct ContentHash(pub [u8; 32]);

impl View for ContentHash {
    type V = Seq<u8>;

    open spec fn view(&self) -> Seq<u8> {
        self.0@
    }
}

impl ContentHash {
    pub fn from_digest(digest: [u8; 32]) -> (hash: ContentHash)
        ensures
            hash@ == digest@,
    {
        ContentHash(digest)
    }

    pub fn as_bytes(self) -> (digest: [u8; 32])
        ensures
            digest@ == self@,
    {
        self.0
    }

    pub fn equals(self, other: ContentHash) -> (same: bool)
        ensures
            same == (self@ == other@),
    {
        same_bytes(self.0.as_slice(), other.0.as_slice())
    }

    /// Sixty-four hexadecimal digits.
    pub fn to_text(self) -> (text: String)
        ensures
            text@ == hex_text(self@),
    {
        let mut out = String::new();
        push_hex_bytes(&mut out, self.0.as_slice());
        assert(out@ =~= hex_text(self@));
        out
    }
}

impl Key for ContentHash {
    type Model = Seq<u8>;

    open spec fn model(&self) -> Seq<u8> {
        self@
    }

    open spec fn before(left: Seq<u8>, right: Seq<u8>) -> bool {
        bytes_before(left, right)
    }

    proof fn order_laws(a: Seq<u8>, b: Seq<u8>, c: Seq<u8>) {
        bytes_order_laws(a, b, c);
    }

    fn rank(&self, other: &ContentHash) -> (rank: Rank) {
        rank_bytes(self.0.as_slice(), other.0.as_slice())
    }

    fn copied(&self) -> (copy: ContentHash) {
        *self
    }
}

/// Deterministic identity hashing for local context addressing. It is not
/// cryptographic and must not be used as a trust or security boundary.
#[derive(Clone, Copy, Debug)]
pub struct DeterministicContentHasher;

/// The four running values of the digest.
pub struct Lanes {
    pub a: u64,
    pub b: u64,
    pub c: u64,
    pub d: u64,
}

pub open spec fn initial_lanes() -> Lanes {
    Lanes {
        a: 0xcbf29ce484222325,
        b: 0x84222325cb29ce4,
        c: 0x9e3779b185ebca87,
        d: 0xd6e8feb86659fd93,
    }
}

pub open spec fn stirred(lane: u64, byte: u8, multiplier: u64, neighbour: u64) -> u64 {
    (lane ^ (byte as u64)).wrapping_mul(multiplier) ^ turned(neighbour, 13)
}

pub open spec fn multiplier(lane: int) -> u64 {
    if lane == 0 {
        0x100000001b3
    } else if lane == 1 {
        0x100000001b3u64 ^ 0x9e3779b97f4a7c15u64
    } else if lane == 2 {
        0x100000001b3u64 ^ 0xd6e8feb86659fd93u64
    } else {
        0x100000001b3u64 ^ 0xa0761d6478bd642fu64
    }
}

/// The lanes after one more byte at `position`; each byte stirs one lane, in
/// turn, with the one after it.
pub open spec fn lanes_step(lanes: Lanes, byte: u8, position: int) -> Lanes {
    let turn = position % 4;
    if turn == 0 {
        Lanes { a: stirred(lanes.a, byte, multiplier(0), lanes.b), ..lanes }
    } else if turn == 1 {
        Lanes { b: stirred(lanes.b, byte, multiplier(1), lanes.c), ..lanes }
    } else if turn == 2 {
        Lanes { c: stirred(lanes.c, byte, multiplier(2), lanes.d), ..lanes }
    } else {
        Lanes { d: stirred(lanes.d, byte, multiplier(3), lanes.a), ..lanes }
    }
}

pub open spec fn lanes_of(bytes: Seq<u8>) -> Lanes
    decreases bytes.len(),
{
    if bytes.len() == 0 {
        initial_lanes()
    } else {
        lanes_step(lanes_of(bytes.drop_last()), bytes.last(), bytes.len() - 1)
    }
}

/// The digest of some content: the lanes, least significant byte first.
#[verifier::opaque]
pub open spec fn context_digest(bytes: Seq<u8>) -> Seq<u8> {
    let lanes = lanes_of(bytes);
    spec_u64_to_le_bytes(lanes.a) + spec_u64_to_le_bytes(lanes.b) + spec_u64_to_le_bytes(lanes.c)
        + spec_u64_to_le_bytes(lanes.d)
}

pub proof fn context_digest_length(bytes: Seq<u8>)
    ensures
        context_digest(bytes).len() == 32,
{
    reveal(context_digest);
    lemma_auto_spec_u64_to_from_le_bytes();
}

impl DeterministicContentHasher {
    pub fn hash(self, bytes: &[u8]) -> (hash: ContentHash)
        ensures
            hash@ == context_digest(bytes@),
    {
        reveal(context_digest);
        let first: u64 = 0x100000001b3;
        let second: u64 = 0x100000001b3u64 ^ 0x9e3779b97f4a7c15u64;
        let third: u64 = 0x100000001b3u64 ^ 0xd6e8feb86659fd93u64;
        let fourth: u64 = 0x100000001b3u64 ^ 0xa0761d6478bd642fu64;
        let mut a: u64 = 0xcbf29ce484222325;
        let mut b: u64 = 0x84222325cb29ce4;
        let mut c: u64 = 0x9e3779b185ebca87;
        let mut d: u64 = 0xd6e8feb86659fd93;
        let mut index: usize = 0;
        while index < bytes.len()
            invariant
                first == multiplier(0),
                second == multiplier(1),
                third == multiplier(2),
                fourth == multiplier(3),
                index <= bytes@.len(),
                (Lanes { a, b, c, d }) == lanes_of(bytes@.take(index as int)),
            decreases bytes.len() - index,
        {
            let byte: u64 = bytes[index] as u64;
            let place: usize = index % 4;
            if place == 0 {
                a = (a ^ byte).wrapping_mul(first) ^ turn(b, 13);
            } else if place == 1 {
                b = (b ^ byte).wrapping_mul(second) ^ turn(c, 13);
            } else if place == 2 {
                c = (c ^ byte).wrapping_mul(third) ^ turn(d, 13);
            } else {
                d = (d ^ byte).wrapping_mul(fourth) ^ turn(a, 13);
            }
            index += 1;
            assert(bytes@.take(index as int).drop_last() =~= bytes@.take(index - 1));
            assert(bytes@.take(index as int).last() == bytes@[index - 1]);
        }
        assert(bytes@.take(index as int) =~= bytes@);
        proof {
            lemma_auto_spec_u64_to_from_le_bytes();
        }
        let mut digest = u64_to_le_bytes(a);
        let mut rest = u64_to_le_bytes(b);
        digest.append(&mut rest);
        let mut rest = u64_to_le_bytes(c);
        digest.append(&mut rest);
        let mut rest = u64_to_le_bytes(d);
        digest.append(&mut rest);
        let mut reader = Reader::new(digest.as_slice());
        match reader.array() {
            Some(array) => {
                assert(digest@.take(32) =~= digest@);
                ContentHash(array)
            },
            None => {
                assert(false);
                ContentHash([0u8; 32])
            },
        }
    }
}

// ---------------------------------------------------------------------------
// Blocks.

#[derive(Clone, Debug, PartialEq, Eq)]
pub enum ContextKind {
    Note,
    Project,
    Contract,
    Task,
    Result,
    ArtifactReference,
    Custom(String),
}

pub enum ContextKindView {
    Note,
    Project,
    Contract,
    Task,
    Result,
    ArtifactReference,
    Custom(Seq<char>),
}

impl View for ContextKind {
    type V = ContextKindView;

    open spec fn view(&self) -> ContextKindView {
        match *self {
            ContextKind::Note => ContextKindView::Note,
            ContextKind::Project => ContextKindView::Project,
            ContextKind::Contract => ContextKindView::Contract,
            ContextKind::Task => ContextKindView::Task,
            ContextKind::Result => ContextKindView::Result,
            ContextKind::ArtifactReference => ContextKindView::ArtifactReference,
            ContextKind::Custom(name) => ContextKindView::Custom(name@),
        }
    }
}

impl Record for ContextKind {
    fn duplicate(&self) -> (copy: ContextKind) {
        match self {
            ContextKind::Note => ContextKind::Note,
            ContextKind::Project => ContextKind::Project,
            ContextKind::Contract => ContextKind::Contract,
            ContextKind::Task => ContextKind::Task,
            ContextKind::Result => ContextKind::Result,
            ContextKind::ArtifactReference => ContextKind::ArtifactReference,
            ContextKind::Custom(name) => ContextKind::Custom(name.clone()),
        }
    }

    fn same(&self, other: &ContextKind) -> (same: bool) {
        match (self, other) {
            (ContextKind::Note, ContextKind::Note) => true,
            (ContextKind::Project, ContextKind::Project) => true,
            (ContextKind::Contract, ContextKind::Contract) => true,
            (ContextKind::Task, ContextKind::Task) => true,
            (ContextKind::Result, ContextKind::Result) => true,
            (ContextKind::ArtifactReference, ContextKind::ArtifactReference) => true,
            (ContextKind::Custom(left), ContextKind::Custom(right)) => *left == *right,
            _ => false,
        }
    }
}

#[derive(Clone, Copy, Debug, PartialEq, Eq, Structural)]
pub enum ContextScope {
    Global,
    Team,
    Private(AgentId),
}

#[derive(Clone, Copy, Debug, PartialEq, Eq, Structural)]
pub enum ContextOwner {
    Runtime,
    Agent(AgentId),
}

#[derive(Clone, Copy, Debug, PartialEq, Eq, Structural)]
pub enum ContextPrincipal {
    Runtime,
    Agent(AgentId),
}

#[derive(Clone, Copy, Debug, PartialEq, Eq, Structural)]
pub enum ContextTrustPolicy {
    AllowAll,
    ExcludeExternal,
    TrustedOnly,
}

impl ContextTrustPolicy {
    pub open spec fn admits(self, trust: TrustOrigin) -> bool {
        match self {
            ContextTrustPolicy::AllowAll => true,
            ContextTrustPolicy::ExcludeExternal => trust == TrustOrigin::TrustedProject || trust
                == TrustOrigin::UserProvided || trust == TrustOrigin::Generated,
            ContextTrustPolicy::TrustedOnly => trust == TrustOrigin::TrustedProject || trust
                == TrustOrigin::UserProvided,
        }
    }

    pub fn allows(self, trust: TrustOrigin) -> (allowed: bool)
        ensures
            allowed == self.admits(trust),
    {
        match self {
            ContextTrustPolicy::AllowAll => true,
            ContextTrustPolicy::ExcludeExternal => matches!(
                trust,
                TrustOrigin::TrustedProject | TrustOrigin::UserProvided | TrustOrigin::Generated
            ),
            ContextTrustPolicy::TrustedOnly => matches!(
                trust,
                TrustOrigin::TrustedProject | TrustOrigin::UserProvided
            ),
        }
    }
}

/// A stricter policy admits nothing that a laxer one refuses.
pub proof fn stricter_policies_admit_less(trust: TrustOrigin)
    ensures
        ContextTrustPolicy::TrustedOnly.admits(trust)
            ==> ContextTrustPolicy::ExcludeExternal.admits(trust),
        ContextTrustPolicy::ExcludeExternal.admits(trust) ==> ContextTrustPolicy::AllowAll.admits(
            trust,
        ),
        ContextTrustPolicy::TrustedOnly.admits(trust) ==> trust.trusted(),
{
}

#[derive(Clone, Copy, Debug, PartialEq, Eq, Structural)]
pub enum ContextLifecycle {
    Active,
    Stale,
    Superseded,
    Archived,
    Invalidated,
}

impl ContextLifecycle {
    /// The block is in use: it can be archived, pinned or made stale.
    pub open spec fn live(self) -> bool {
        self == ContextLifecycle::Active || self == ContextLifecycle::Stale
    }

    pub(crate) fn is_live(self) -> (live: bool)
        ensures
            live == self.live(),
    {
        matches!(self, ContextLifecycle::Active | ContextLifecycle::Stale)
    }
}

#[derive(Debug, PartialEq, Eq)]
pub struct ContextBlock {
    pub id: ContextBlockId,
    pub revision: u64,
    pub namespace: String,
    pub kind: ContextKind,
    pub owner: ContextOwner,
    pub scope: ContextScope,
    pub content_hash: ContentHash,
    pub token_estimate: u64,
    pub trust: TrustOrigin,
    pub importance: u8,
    pub lifecycle: ContextLifecycle,
    pub pinned: bool,
    pub dependencies: Vec<ContextRef>,
    pub sources: Vec<ContextRef>,
    pub created_event: Option<EventId>,
    pub last_access_ms: Option<u64>,
}

pub struct ContextBlockView {
    pub id: ContextBlockId,
    pub revision: u64,
    pub namespace: Seq<char>,
    pub kind: ContextKindView,
    pub owner: ContextOwner,
    pub scope: ContextScope,
    pub content_hash: Seq<u8>,
    pub token_estimate: u64,
    pub trust: TrustOrigin,
    pub importance: u8,
    pub lifecycle: ContextLifecycle,
    pub pinned: bool,
    pub dependencies: Seq<ContextRef>,
    pub sources: Seq<ContextRef>,
    pub created_event: Option<EventId>,
    pub last_access_ms: Option<u64>,
}

impl View for ContextBlock {
    type V = ContextBlockView;

    open spec fn view(&self) -> ContextBlockView {
        ContextBlockView {
            id: self.id,
            revision: self.revision,
            namespace: self.namespace@,
            kind: self.kind@,
            owner: self.owner,
            scope: self.scope,
            content_hash: self.content_hash@,
            token_estimate: self.token_estimate,
            trust: self.trust,
            importance: self.importance,
            lifecycle: self.lifecycle,
            pinned: self.pinned,
            dependencies: self.dependencies@,
            sources: self.sources@,
            created_event: self.created_event,
            last_access_ms: self.last_access_ms,
        }
    }
}

pub(crate) fn clone_refs(list: &Vec<ContextRef>) -> (copy: Vec<ContextRef>)
    ensures
        copy@ == list@,
{
    vstd::slice::slice_to_vec(list.as_slice())
}

impl ContextBlockView {
    pub open spec fn reference(self) -> ContextRef {
        ContextRef { block_id: self.id, revision: self.revision }
    }
}

impl ContextBlock {
    pub fn reference(&self) -> (reference: ContextRef)
        ensures
            reference == self@.reference(),
    {
        ContextRef { block_id: self.id, revision: self.revision }
    }
}

impl Clone for ContextBlock {
    fn clone(&self) -> (copy: ContextBlock)
        ensures
            copy@ == self@,
    {
        ContextBlock {
            id: self.id,
            revision: self.revision,
            namespace: self.namespace.clone(),
            kind: self.kind.duplicate(),
            owner: self.owner,
            scope: self.scope,
            content_hash: self.content_hash,
            token_estimate: self.token_estimate,
            trust: self.trust,
            importance: self.importance,
            lifecycle: self.lifecycle,
            pinned: self.pinned,
            dependencies: clone_refs(&self.dependencies),
            sources: clone_refs(&self.sources),
            created_event: self.created_event,
            last_access_ms: self.last_access_ms,
        }
    }
}

// ---------------------------------------------------------------------------
// Drafts.

#[derive(Clone, Debug, PartialEq, Eq)]
pub struct ContextDraft {
    pub namespace: String,
    pub kind: ContextKind,
    pub owner: ContextOwner,
    pub scope: ContextScope,
    pub content: Vec<u8>,
    pub token_estimate: u64,
    pub trust: TrustOrigin,
    pub importance: u8,
    pub dependencies: Vec<ContextRef>,
    pub sources: Vec<ContextRef>,
    pub created_event: Option<EventId>,
}

pub struct ContextDraftView {
    pub namespace: Seq<char>,
    pub kind: ContextKindView,
    pub owner: ContextOwner,
    pub scope: ContextScope,
    pub content: Seq<u8>,
    pub token_estimate: u64,
    pub trust: TrustOrigin,
    pub importance: u8,
    pub dependencies: Seq<ContextRef>,
    pub sources: Seq<ContextRef>,
    pub created_event: Option<EventId>,
}

impl View for ContextDraft {
    type V = ContextDraftView;

    open spec fn view(&self) -> ContextDraftView {
        ContextDraftView {
            namespace: self.namespace@,
            kind: self.kind@,
            owner: self.owner,
            scope: self.scope,
            content: self.content@,
            token_estimate: self.token_estimate,
            trust: self.trust,
            importance: self.importance,
            dependencies: self.dependencies@,
            sources: self.sources@,
            created_event: self.created_event,
        }
    }
}

impl ContextDraft {
    pub fn new(
        namespace: &str,
        kind: ContextKind,
        owner: ContextOwner,
        scope: ContextScope,
        content: &str,
    ) -> (draft: ContextDraft)
        ensures
            draft@ == (ContextDraftView {
                namespace: namespace@,
                kind: kind@,
                owner,
                scope,
                content: vstd::utf8::encode_utf8(content@),
                token_estimate: 0,
                trust: TrustOrigin::Generated,
                importance: 50,
                dependencies: seq![],
                sources: seq![],
                created_event: None,
            }),
    {
        ContextDraft::from_bytes(
            namespace,
            kind,
            owner,
            scope,
            vstd::slice::slice_to_vec(content.as_bytes()),
        )
    }

    /// A draft with content that need not be text.
    pub fn from_bytes(
        namespace: &str,
        kind: ContextKind,
        owner: ContextOwner,
        scope: ContextScope,
        content: Vec<u8>,
    ) -> (draft: ContextDraft)
        ensures
            draft@ == (ContextDraftView {
                namespace: namespace@,
                kind: kind@,
                owner,
                scope,
                content: content@,
                token_estimate: 0,
                trust: TrustOrigin::Generated,
                importance: 50,
                dependencies: seq![],
                sources: seq![],
                created_event: None,
            }),
    {
        let draft = ContextDraft {
            namespace: namespace.to_owned(),
            kind,
            owner,
            scope,
            content,
            token_estimate: 0,
            trust: TrustOrigin::Generated,
            importance: 50,
            dependencies: Vec::new(),
            sources: Vec::new(),
            created_event: None,
        };
        assert(draft@.dependencies =~= seq![]);
        assert(draft@.sources =~= seq![]);
        draft
    }

    pub fn with_dependency(self, dependency: ContextRef) -> (draft: ContextDraft)
        ensures
            draft@ == (ContextDraftView {
                dependencies: self@.dependencies.push(dependency),
                ..self@
            }),
    {
        let mut draft = self;
        draft.dependencies.push(dependency);
        draft
    }

    pub fn with_token_estimate(self, token_estimate: u64) -> (draft: ContextDraft)
        ensures
            draft@ == (ContextDraftView { token_estimate, ..self@ }),
    {
        ContextDraft { token_estimate, ..self }
    }

    pub fn with_trust(self, trust: TrustOrigin) -> (draft: ContextDraft)
        ensures
            draft@ == (ContextDraftView { trust, ..self@ }),
    {
        ContextDraft { trust, ..self }
    }
}

// ---------------------------------------------------------------------------
// Transitions.

#[derive(Debug, PartialEq, Eq)]
pub struct Invalidation {
    pub block: ContextRef,
    pub dependency: Option<ContextRef>,
    pub reason: String,
}

pub struct InvalidationView {
    pub block: ContextRef,
    pub dependency: Option<ContextRef>,
    pub reason: Seq<char>,
}

impl View for Invalidation {
    type V = InvalidationView;

    open spec fn view(&self) -> InvalidationView {
        InvalidationView {
            block: self.block,
            dependency: self.dependency,
            reason: self.reason@,
        }
    }
}

impl Clone for Invalidation {
    fn clone(&self) -> (copy: Invalidation)
        ensures
            copy == *self,
    {
        Invalidation {
            block: self.block,
            dependency: self.dependency,
            reason: self.reason.clone(),
        }
    }
}

pub open spec fn invalidation_views(list: Seq<Invalidation>) -> Seq<InvalidationView> {
    list.map_values(|invalidation: Invalidation| invalidation@)
}

#[derive(Debug, PartialEq, Eq)]
pub enum ContextTransition {
    Created { block: ContextBlock, content: Vec<u8> },
    CreatedFromArtifact { block: ContextBlock, artifact_hash: [u8; 32] },
    Superseded(ContextRef),
    Archived(ContextRef),
    Restored(ContextRef),
    Pinned(ContextRef),
    Unpinned(ContextRef),
    Invalidated { block: ContextRef, dependency: Option<ContextRef>, reason: String },
}

#[allow(inconsistent_fields)]
pub enum ContextTransitionView {
    Created { block: ContextBlockView, content: Seq<u8> },
    CreatedFromArtifact { block: ContextBlockView, artifact_hash: Seq<u8> },
    Superseded(ContextRef),
    Archived(ContextRef),
    Restored(ContextRef),
    Pinned(ContextRef),
    Unpinned(ContextRef),
    Invalidated { block: ContextRef, dependency: Option<ContextRef>, reason: Seq<char> },
}

impl View for ContextTransition {
    type V = ContextTransitionView;

    open spec fn view(&self) -> ContextTransitionView {
        match *self {
            ContextTransition::Created { block, content } => ContextTransitionView::Created {
                block: block@,
                content: content@,
            },
            ContextTransition::CreatedFromArtifact { block, artifact_hash } =>
                ContextTransitionView::CreatedFromArtifact {
                    block: block@,
                    artifact_hash: artifact_hash@,
                },
            ContextTransition::Superseded(reference) => ContextTransitionView::Superseded(
                reference,
            ),
            ContextTransition::Archived(reference) => ContextTransitionView::Archived(reference),
            ContextTransition::Restored(reference) => ContextTransitionView::Restored(reference),
            ContextTransition::Pinned(reference) => ContextTransitionView::Pinned(reference),
            ContextTransition::Unpinned(reference) => ContextTransitionView::Unpinned(reference),
            ContextTransition::Invalidated { block, dependency, reason } =>
                ContextTransitionView::Invalidated { block, dependency, reason: reason@ },
        }
    }
}

impl Clone for ContextTransition {
    fn clone(&self) -> (copy: ContextTransition)
        ensures
            copy@ == self@,
    {
        match self {
            ContextTransition::Created { block, content } => ContextTransition::Created {
                block: block.clone(),
                content: clone_bytes(content),
            },
            ContextTransition::CreatedFromArtifact { block, artifact_hash } =>
                ContextTransition::CreatedFromArtifact {
                    block: block.clone(),
                    artifact_hash: *artifact_hash,
                },
            ContextTransition::Superseded(reference) => ContextTransition::Superseded(*reference),
            ContextTransition::Archived(reference) => ContextTransition::Archived(*reference),
            ContextTransition::Restored(reference) => ContextTransition::Restored(*reference),
            ContextTransition::Pinned(reference) => ContextTransition::Pinned(*reference),
            ContextTransition::Unpinned(reference) => ContextTransition::Unpinned(*reference),
            ContextTransition::Invalidated { block, dependency, reason } =>
                ContextTransition::Invalidated {
                    block: *block,
                    dependency: *dependency,
                    reason: reason.clone(),
                },
        }
    }
}

pub open spec fn transition_views(list: Seq<ContextTransition>) -> Seq<ContextTransitionView> {
    list.map_values(|transition: ContextTransition| transition@)
}

// ---------------------------------------------------------------------------
// Errors.

#[derive(Clone, Debug, PartialEq, Eq)]
pub enum ContextError {
    EmptyNamespace,
    InvalidPrivateScope,
    UnknownBlock(ContextRef),
    UnknownContent(ContentHash),
    HashCollision(ContentHash),
    MissingArtifact([u8; 32]),
    ArtifactResolution(String),
    NotVisible(ContextRef),
    NotTrusted(ContextRef),
    TrustUpgrade { block: ContextRef, dependency: ContextRef },
    InvalidLifecycle { block: ContextRef, operation: &'static str },
    InvalidSubscriptionPattern,
    InvalidSearchQuery(String),
    InvalidEncoding(String),
}

pub enum ContextErrorView {
    EmptyNamespace,
    InvalidPrivateScope,
    UnknownBlock(ContextRef),
    UnknownContent(Seq<u8>),
    HashCollision(Seq<u8>),
    MissingArtifact(Seq<u8>),
    ArtifactResolution(Seq<char>),
    NotVisible(ContextRef),
    NotTrusted(ContextRef),
    TrustUpgrade { block: ContextRef, dependency: ContextRef },
    InvalidLifecycle { block: ContextRef, operation: Seq<char> },
    InvalidSubscriptionPattern,
    InvalidSearchQuery(Seq<char>),
    InvalidEncoding(Seq<char>),
}

impl View for ContextError {
    type V = ContextErrorView;

    open spec fn view(&self) -> ContextErrorView {
        match *self {
            ContextError::EmptyNamespace => ContextErrorView::EmptyNamespace,
            ContextError::InvalidPrivateScope => ContextErrorView::InvalidPrivateScope,
            ContextError::UnknownBlock(reference) => ContextErrorView::UnknownBlock(reference),
            ContextError::UnknownContent(hash) => ContextErrorView::UnknownContent(hash@),
            ContextError::HashCollision(hash) => ContextErrorView::HashCollision(hash@),
            ContextError::MissingArtifact(hash) => ContextErrorView::MissingArtifact(hash@),
            ContextError::ArtifactResolution(message) => ContextErrorView::ArtifactResolution(
                message@,
            ),
            ContextError::NotVisible(reference) => ContextErrorView::NotVisible(reference),
            ContextError::NotTrusted(reference) => ContextErrorView::NotTrusted(reference),
            ContextError::TrustUpgrade { block, dependency } => ContextErrorView::TrustUpgrade {
                block,
                dependency,
            },
            ContextError::InvalidLifecycle { block, operation } =>
                ContextErrorView::InvalidLifecycle { block, operation: operation@ },
            ContextError::InvalidSubscriptionPattern =>
                ContextErrorView::InvalidSubscriptionPattern,
            ContextError::InvalidSearchQuery(message) => ContextErrorView::InvalidSearchQuery(
                message@,
            ),
            ContextError::InvalidEncoding(message) => ContextErrorView::InvalidEncoding(message@),
        }
    }
}

/// Bytes in brackets, separated by commas.
pub open spec fn byte_list_text(bytes: Seq<u8>) -> Seq<char>
    decreases bytes.len(),
{
    if bytes.len() == 0 {
        "["@
    } else if bytes.len() == 1 {
        "["@ + decimal(bytes[0] as nat)
    } else {
        byte_list_text(bytes.drop_last()) + ", "@ + decimal(bytes.last() as nat)
    }
}

fn push_byte_list(out: &mut String, bytes: &[u8])
    ensures
        final(out)@ == old(out)@ + byte_list_text(bytes@) + "]"@,
{
    let ghost start = out@;
    let mut index: usize = 0;
    out.append("[");
    assert(out@ =~= start + byte_list_text(bytes@.take(0)));
    while index < bytes.len()
        invariant
            index <= bytes@.len(),
            out@ == start + byte_list_text(bytes@.take(index as int)),
        decreases bytes.len() - index,
    {
        if index > 0 {
            out.append(", ");
        }
        push_decimal(out, bytes[index] as u128);
        index += 1;
        proof {
            let now = bytes@.take(index as int);
            assert(now.drop_last() =~= bytes@.take(index - 1));
            assert(now.last() == bytes@[index - 1]);
            if index == 1 {
                assert(now[0] == bytes@[0]);
            }
            assert(out@ =~= start + byte_list_text(now));
        }
    }
    assert(bytes@.take(bytes@.len() as int) =~= bytes@);
    out.append("]");
}

impl ContextErrorView {
    pub open spec fn text(self) -> Seq<char> {
        match self {
            ContextErrorView::EmptyNamespace => "context namespace must not be empty"@,
            ContextErrorView::InvalidPrivateScope =>
                "private context scope must match its agent owner"@,
            ContextErrorView::UnknownBlock(reference) => "unknown context block "@
                + reference.text(),
            ContextErrorView::UnknownContent(hash) => "unknown context content "@ + hex_text(hash),
            ContextErrorView::HashCollision(hash) => "context hash collision for "@ + hex_text(
                hash,
            ),
            ContextErrorView::MissingArtifact(hash) => "context artifact "@ + byte_list_text(hash)
                + "]"@ + " is unavailable"@,
            ContextErrorView::ArtifactResolution(message) =>
                "context artifact resolution failed: "@ + message,
            ContextErrorView::NotVisible(reference) => "context block "@ + reference.text()
                + " is not visible"@,
            ContextErrorView::NotTrusted(reference) => "context block "@ + reference.text()
                + " is not trusted for this projection"@,
            ContextErrorView::TrustUpgrade { block, dependency } => "context block "@
                + block.text() + " upgrades trust above dependency "@ + dependency.text(),
            ContextErrorView::InvalidLifecycle { block, operation } => "cannot "@ + operation
                + " context block "@ + block.text() + " in its current lifecycle"@,
            ContextErrorView::InvalidSubscriptionPattern =>
                "context subscription pattern must not be empty"@,
            ContextErrorView::InvalidSearchQuery(message) => "invalid context search: "@ + message,
            ContextErrorView::InvalidEncoding(message) => "invalid context encoding: "@ + message,
        }
    }
}

impl ContextError {
    pub fn to_text(&self) -> (text: String)
        ensures
            text@ == self@.text(),
    {
        match self {
            ContextError::EmptyNamespace => "context namespace must not be empty".to_owned(),
            ContextError::InvalidPrivateScope =>
                "private context scope must match its agent owner".to_owned(),
            ContextError::UnknownBlock(reference) => {
                let mut out = "unknown context block ".to_owned();
                out.append(reference.to_text().as_str());
                out
            },
            ContextError::UnknownContent(hash) => {
                let mut out = "unknown context content ".to_owned();
                push_hex_bytes(&mut out, hash.0.as_slice());
                out
            },
            ContextError::HashCollision(hash) => {
                let mut out = "context hash collision for ".to_owned();
                push_hex_bytes(&mut out, hash.0.as_slice());
                out
            },
            ContextError::MissingArtifact(hash) => {
                let mut out = "context artifact ".to_owned();
                push_byte_list(&mut out, hash.as_slice());
                out.append(" is unavailable");
                assert(out@ =~= self@.text());
                out
            },
            ContextError::ArtifactResolution(message) => {
                let mut out = "context artifact resolution failed: ".to_owned();
                out.append(message.as_str());
                out
            },
            ContextError::NotVisible(reference) => phrase(
                "context block ",
                reference.to_text().as_str(),
                " is not visible",
            ),
            ContextError::NotTrusted(reference) => phrase(
                "context block ",
                reference.to_text().as_str(),
                " is not trusted for this projection",
            ),
            ContextError::TrustUpgrade { block, dependency } => {
                let mut out = phrase(
                    "context block ",
                    block.to_text().as_str(),
                    " upgrades trust above dependency ",
                );
                out.append(dependency.to_text().as_str());
                out
            },
            ContextError::InvalidLifecycle { block, operation } => {
                let mut out = phrase("cannot ", operation, " context block ");
                out.append(block.to_text().as_str());
                out.append(" in its current lifecycle");
                out
            },
            ContextError::InvalidSubscriptionPattern =>
                "context subscription pattern must not be empty".to_owned(),
            ContextError::InvalidSearchQuery(message) => {
                let mut out = "invalid context search: ".to_owned();
                out.append(message.as_str());
                out
            },
            ContextError::InvalidEncoding(message) => {
                let mut out = "invalid context encoding: ".to_owned();
                out.append(message.as_str());
                out
            },
        }
    }
}

} // verus!
