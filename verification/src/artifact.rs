//! Content-addressed artifacts: digests, references, the in-memory store and
//! the durable encoding of one artifact.

use vstd::bytes::{lemma_auto_spec_u64_to_from_le_bytes, spec_u64_to_le_bytes, u64_to_le_bytes};
use vstd::prelude::*;
use vstd::string::StringExecFns;
use vstd::utf8::encode_utf8;

use crate::codec::{
    blob32_bytes, concat_is_associative, get_bytes, group_codec, outcome, parsed, put_array,
    put_u64, put_u8, u64_bytes, u8_bytes, Reader,
};
use crate::event_codec::{
    blob_reads_back, decode_trust_tag, get_blob, get_text, need_array, need_u64, need_u8, put_blob,
    put_text, read_array, read_blob, read_text, read_u64, read_u8, text_bytes, text_reads_back,
    text_within, trust_byte, trust_from_byte, trust_tag, MAX_FRAME_BYTES,
};
use crate::ids::{IdSource, RunId};
use crate::kernel::{Event, EventKind, EventKindView, TrustOrigin};
use crate::keys::{bytes_before, bytes_order_laws, rank_bytes, same_bytes};
use crate::table::{Key, Rank, Record, Table, Replica};
use crate::text::{blank, clone_bytes, decimal, hex_digits, is_blank, push_decimal, push_hex};

verus! {

/// Inline artifact payloads are bounded. Larger immutable data belongs in an
/// external content-addressed store, not in the event-store hot path or an
/// inline database row.
pub const MAX_ARTIFACT_BYTES: usize = 16777216;

// ---------------------------------------------------------------------------
// Digests.

#[derive(Clone, Copy, Debug, PartialEq, Eq, PartialOrd, Ord, Hash)]
pub struct ContentHash(pub [u8; 32]);

impl View for ContentHash {
    type V = Seq<u8>;

    open spec fn view(&self) -> Seq<u8> {
        self.0@
    }
}

/// The rendering of bytes as two hexadecimal digits each.
pub open spec fn hex_text(bytes: Seq<u8>) -> Seq<char>
    decreases bytes.len(),
{
    if bytes.len() == 0 {
        seq![]
    } else {
        hex_text(bytes.drop_last()) + hex_digits(bytes.last() as nat, 2)
    }
}

impl ContentHash {
    pub fn from_digest(digest: [u8; 32]) -> (hash: ContentHash)
        ensures
            hash@ == digest@,
    {
        ContentHash(digest)
    }

    pub fn as_bytes(self) -> (digest: [u8; 32])
        ensures
            digest@ == self@,
    {
        self.0
    }

    pub fn equals(self, other: ContentHash) -> (same: bool)
        ensures
            same == (self@ == other@),
    {
        same_bytes(self.0.as_slice(), other.0.as_slice())
    }

    /// Sixty-four hexadecimal digits.
    pub fn to_text(self) -> (text: String)
        ensures
            text@ == hex_text(self@),
    {
        let mut out = String::new();
        push_hex_bytes(&mut out, self.0.as_slice());
        assert(out@ =~= hex_text(self@));
        out
    }
}

pub(crate) fn push_hex_bytes(out: &mut String, bytes: &[u8])
    ensures
        final(out)@ == old(out)@ + hex_text(bytes@),
{
    let mut index: usize = 0;
    assert(out@ =~= old(out)@ + hex_text(bytes@.take(0)));
    while index < bytes.len()
        invariant
            index <= bytes@.len(),
            out@ == old(out)@ + hex_text(bytes@.take(index as int)),
        decreases bytes.len() - index,
    {
        push_hex(out, bytes[index] as u64, 2);
        index += 1;
        assert(bytes@.take(index as int).drop_last() =~= bytes@.take(index - 1));
        assert(out@ =~= old(out)@ + hex_text(bytes@.take(index as int)));
    }
    assert(bytes@.take(bytes@.len() as int) =~= bytes@);
}

impl Key for ContentHash {
    type Model = Seq<u8>;

    open spec fn model(&self) -> Seq<u8> {
        self@
    }

    open spec fn before(left: Seq<u8>, right: Seq<u8>) -> bool {
        bytes_before(left, right)
    }

    proof fn order_laws(a: Seq<u8>, b: Seq<u8>, c: Seq<u8>) {
        bytes_order_laws(a, b, c);
    }

    fn rank(&self, other: &ContentHash) -> (rank: Rank) {
        rank_bytes(self.0.as_slice(), other.0.as_slice())
    }

    fn copied(&self) -> (copy: ContentHash) {
        *self
    }
}

/// Assigns a digest to content.
pub trait ContentHasher {
    /// The digest of some content: a function of the content alone.
    spec fn digest(&self, bytes: Seq<u8>) -> Seq<u8>;

    fn hash(&self, bytes: &[u8]) -> (hash: ContentHash)
        ensures
            hash@ == self.digest(bytes@),
    ;
}

/// A stable, deterministic identity hasher without dependencies. It is not
/// cryptographic and must not be used as an integrity or trust boundary.
#[derive(Clone, Copy, Debug)]
pub struct DeterministicContentHasher;

impl Default for DeterministicContentHasher {
    fn default() -> (hasher: DeterministicContentHasher) {
        DeterministicContentHasher
    }
}

/// The value with its bits turned left by `by` places.
pub open spec fn turned(value: u64, by: u64) -> u64 {
    if by == 0 {
        value
    } else {
        (value << by) | (value >> ((64 - by) as u64))
    }
}

pub(crate) fn turn(value: u64, by: u64) -> (result: u64)
    requires
        by < 64,
    ensures
        result == turned(value, by),
{
    if by == 0 {
        value
    } else {
        (value << by) | (value >> (64 - by))
    }
}

pub open spec fn lane_seed(lane: u64) -> u64 {
    if lane == 0 {
        0xcbf29ce484222325
    } else if lane == 1 {
        0x84222325cbf29ce4
    } else if lane == 2 {
        0x9e3779b185ebca87
    } else {
        0xd6e8feb86659fd93
    }
}

pub open spec fn lane_multiplier(lane: u64) -> u64 {
    if lane == 0 {
        0x100000001b3
    } else if lane == 1 {
        0x100000001c9
    } else if lane == 2 {
        0x100000001d7
    } else {
        0x100000001f1
    }
}

/// A lane after one more byte at `position`.
pub open spec fn lane_step(value: u64, byte: u8, position: u64, lane: u64) -> u64 {
    let mixed = (value ^ (byte as u64).wrapping_add(
        turned(position, (lane * 7) as u64),
    )).wrapping_mul(lane_multiplier(lane));
    mixed ^ (mixed >> 29)
}

/// A lane after all bytes.
pub open spec fn lane_of(bytes: Seq<u8>, lane: u64) -> u64
    decreases bytes.len(),
{
    if bytes.len() == 0 {
        lane_seed(lane)
    } else {
        lane_step(
            lane_of(bytes.drop_last(), lane),
            bytes.last(),
            (bytes.len() - 1) as u64,
            lane,
        )
    }
}

/// The eight digest bytes of a lane, most significant first.
pub open spec fn lane_digest(bytes: Seq<u8>, lane: u64) -> Seq<u8> {
    spec_u64_to_le_bytes(
        (lane_of(bytes, lane) ^ turned(bytes.len() as u64, (lane * 11) as u64)).wrapping_mul(
            lane_multiplier(lane),
        ),
    ).reverse()
}

fn hash_lane(bytes: &[u8], lane: u64) -> (digest: Vec<u8>)
    requires
        lane < 4,
    ensures
        digest@ == lane_digest(bytes@, lane),
        digest@.len() == 8,
{
    let seed: u64 = match lane {
        0 => 0xcbf29ce484222325,
        1 => 0x84222325cbf29ce4,
        2 => 0x9e3779b185ebca87,
        _ => 0xd6e8feb86659fd93,
    };
    let multiplier: u64 = match lane {
        0 => 0x100000001b3,
        1 => 0x100000001c9,
        2 => 0x100000001d7,
        _ => 0x100000001f1,
    };
    let mut value: u64 = seed;
    let mut index: usize = 0;
    while index < bytes.len()
        invariant
            lane < 4,
            multiplier == lane_multiplier(lane),
            index <= bytes@.len(),
            value == lane_of(bytes@.take(index as int), lane),
        decreases bytes.len() - index,
    {
        let byte: u64 = bytes[index] as u64;
        let mixed: u64 = (value ^ byte.wrapping_add(turn(index as u64, lane * 7))).wrapping_mul(
            multiplier,
        );
        value = mixed ^ (mixed >> 29);
        index += 1;
        assert(bytes@.take(index as int).drop_last() =~= bytes@.take(index - 1));
        assert(bytes@.take(index as int).last() == bytes@[index - 1]);
    }
    assert(bytes@.take(index as int) =~= bytes@);
    value = (value ^ turn(bytes.len() as u64, lane * 11)).wrapping_mul(multiplier);
    let little = u64_to_le_bytes(value);
    let mut digest: Vec<u8> = Vec::new();
    let mut place: usize = 8;
    while place > 0
        invariant
            place <= 8,
            little@.len() == 8,
            digest@.len() == 8 - place,
            forall|i: int| 0 <= i < digest@.len() ==> digest@[i] == little@[7 - i],
        decreases place,
    {
        place -= 1;
        digest.push(little[place]);
    }
    assert(digest@ =~= little@.reverse());
    digest
}

impl ContentHasher for DeterministicContentHasher {
    open spec fn digest(&self, bytes: Seq<u8>) -> Seq<u8> {
        content_digest(bytes)
    }

    fn hash(&self, bytes: &[u8]) -> (hash: ContentHash) {
        content_hash(bytes)
    }
}

/// The digest that `DeterministicContentHasher` assigns.
#[verifier::opaque]
pub open spec fn content_digest(bytes: Seq<u8>) -> Seq<u8> {
    lane_digest(bytes, 0) + lane_digest(bytes, 1) + lane_digest(bytes, 2) + lane_digest(bytes, 3)
}

pub(crate) proof fn content_digest_length(bytes: Seq<u8>)
    ensures
        content_digest(bytes).len() == 32,
{
    reveal(content_digest);
    lemma_auto_spec_u64_to_from_le_bytes();
}

/// `DeterministicContentHasher` as a plain function.
pub(crate) fn content_hash(bytes: &[u8]) -> (hash: ContentHash)
    ensures
        hash@ == content_digest(bytes@),
{
    reveal(content_digest);
    let mut digest = hash_lane(bytes, 0);
    let mut second = hash_lane(bytes, 1);
    let mut third = hash_lane(bytes, 2);
    let mut fourth = hash_lane(bytes, 3);
    digest.append(&mut second);
    digest.append(&mut third);
    digest.append(&mut fourth);
    let mut reader = Reader::new(digest.as_slice());
    let read = reader.array();
    match read {
        Some(array) => {
            assert(digest@.take(32) =~= digest@);
            ContentHash(array)
        },
        None => {
            assert(false);
            ContentHash([0u8; 32])
        },
    }
}

// ---------------------------------------------------------------------------
// References and errors.

#[derive(Debug, PartialEq, Eq)]
pub struct ArtifactRef {
    pub content_hash: ContentHash,
    pub size_bytes: u64,
    pub media_type: String,
    pub trust: TrustOrigin,
}

pub struct ArtifactRefView {
    pub content_hash: Seq<u8>,
    pub size_bytes: u64,
    pub media_type: Seq<char>,
    pub trust: TrustOrigin,
}

impl View for ArtifactRef {
    type V = ArtifactRefView;

    open spec fn view(&self) -> ArtifactRefView {
        ArtifactRefView {
            content_hash: self.content_hash@,
            size_bytes: self.size_bytes,
            media_type: self.media_type@,
            trust: self.trust,
        }
    }
}

impl Clone for ArtifactRef {
    fn clone(&self) -> (copy: ArtifactRef)
        ensures
            copy == *self,
    {
        ArtifactRef {
            content_hash: self.content_hash,
            size_bytes: self.size_bytes,
            media_type: self.media_type.clone(),
            trust: self.trust,
        }
    }
}

impl Record for ArtifactRef {
    fn duplicate(&self) -> (copy: ArtifactRef) {
        self.clone()
    }

    fn same(&self, other: &ArtifactRef) -> (same: bool) {
        self.content_hash.equals(other.content_hash) && self.size_bytes == other.size_bytes
            && self.media_type == other.media_type && self.trust == other.trust
    }
}

impl ArtifactRef {
    /// The event that records the artifact in a run.
    pub fn created_event(&self, ids: &mut IdSource, occurred_at_ms: u128, run_id: RunId) -> (event:
        Event)
        requires
            old(ids).can_issue(1),
        ensures
            event.id.0 == old(ids).upcoming(0),
            event.run_id == run_id,
            event.occurred_at_ms == occurred_at_ms,
            event.kind@ == (EventKindView::ArtifactCreated {
                content_hash: self@.content_hash,
                size_bytes: self@.size_bytes,
                media_type: self@.media_type,
                trust: self@.trust,
            }),
            final(ids).issued_from(old(ids), 1),
    {
        Event::new(
            ids,
            occurred_at_ms,
            run_id,
            EventKind::ArtifactCreated {
                content_hash: self.content_hash.as_bytes(),
                size_bytes: self.size_bytes,
                media_type: self.media_type.clone(),
                trust: self.trust,
            },
        )
    }
}

#[derive(Debug, PartialEq, Eq)]
pub struct StoredArtifact {
    pub reference: ArtifactRef,
    pub(crate) bytes: Vec<u8>,
}

pub struct StoredArtifactView {
    pub reference: ArtifactRefView,
    pub bytes: Seq<u8>,
}

impl View for StoredArtifact {
    type V = StoredArtifactView;

    open(crate) spec fn view(&self) -> StoredArtifactView {
        StoredArtifactView { reference: self.reference@, bytes: self.bytes@ }
    }
}

impl Clone for StoredArtifact {
    fn clone(&self) -> (copy: StoredArtifact)
        ensures
            copy@ == self@,
    {
        StoredArtifact { reference: self.reference.clone(), bytes: clone_bytes(&self.bytes) }
    }
}

impl StoredArtifact {
    pub fn new(reference: ArtifactRef, bytes: Vec<u8>) -> (artifact: StoredArtifact)
        ensures
            artifact@ == (StoredArtifactView { reference: reference@, bytes: bytes@ }),
    {
        StoredArtifact { reference, bytes }
    }

    pub fn bytes(&self) -> (bytes: &[u8])
        ensures
            bytes@ == self@.bytes,
    {
        self.bytes.as_slice()
    }

    pub fn reference(&self) -> (reference: &ArtifactRef)
        ensures
            reference@ == self@.reference,
    {
        &self.reference
    }
}

#[derive(Clone, Debug, PartialEq, Eq)]
pub enum ArtifactError {
    InvalidMediaType,
    TooLarge { actual: usize, maximum: usize },
    HashCollision(ContentHash),
    MetadataMismatch(ContentHash),
    Storage(String),
    Corrupt(String),
}

pub enum ArtifactErrorView {
    InvalidMediaType,
    TooLarge { actual: usize, maximum: usize },
    HashCollision(Seq<u8>),
    MetadataMismatch(Seq<u8>),
    Storage(Seq<char>),
    Corrupt(Seq<char>),
}

impl View for ArtifactError {
    type V = ArtifactErrorView;

    open spec fn view(&self) -> ArtifactErrorView {
        match *self {
            ArtifactError::InvalidMediaType => ArtifactErrorView::InvalidMediaType,
            ArtifactError::TooLarge { actual, maximum } => ArtifactErrorView::TooLarge {
                actual,
                maximum,
            },
            ArtifactError::HashCollision(hash) => ArtifactErrorView::HashCollision(hash@),
            ArtifactError::MetadataMismatch(hash) => ArtifactErrorView::MetadataMismatch(hash@),
            ArtifactError::Storage(message) => ArtifactErrorView::Storage(message@),
            ArtifactError::Corrupt(message) => ArtifactErrorView::Corrupt(message@),
        }
    }
}

impl ArtifactErrorView {
    pub open spec fn text(self) -> Seq<char> {
        match self {
            ArtifactErrorView::InvalidMediaType => "artifact media type must not be empty"@,
            ArtifactErrorView::TooLarge { actual, maximum } => "artifact is too large: "@ + decimal(
                actual as nat,
            ) + " bytes (maximum "@ + decimal(maximum as nat) + ")"@,
            ArtifactErrorView::HashCollision(hash) => "content hash collision for "@ + hex_text(
                hash,
            ),
            ArtifactErrorView::MetadataMismatch(hash) =>
                "artifact metadata mismatch for content hash "@ + hex_text(hash),
            ArtifactErrorView::Storage(message) => "artifact storage error: "@ + message,
            ArtifactErrorView::Corrupt(message) => "corrupt artifact: "@ + message,
        }
    }
}

impl ArtifactError {
    pub fn to_text(&self) -> (text: String)
        ensures
            text@ == self@.text(),
    {
        match self {
            ArtifactError::InvalidMediaType => "artifact media type must not be empty".to_owned(),
            ArtifactError::TooLarge { actual, maximum } => {
                let mut out = "artifact is too large: ".to_owned();
                push_decimal(&mut out, *actual as u128);
                out.append(" bytes (maximum ");
                push_decimal(&mut out, *maximum as u128);
                out.append(")");
                out
            },
            ArtifactError::HashCollision(hash) => {
                let mut out = "content hash collision for ".to_owned();
                push_hex_bytes(&mut out, hash.0.as_slice());
                out
            },
            ArtifactError::MetadataMismatch(hash) => {
                let mut out = "artifact metadata mismatch for content hash ".to_owned();
                push_hex_bytes(&mut out, hash.0.as_slice());
                out
            },
            ArtifactError::Storage(message) => {
                let mut out = "artifact storage error: ".to_owned();
                out.append(message.as_str());
                out
            },
            ArtifactError::Corrupt(message) => {
                let mut out = "corrupt artifact: ".to_owned();
                out.append(message.as_str());
                out
            },
        }
    }
}

// ---------------------------------------------------------------------------
// Storing.

/// What storing `bytes` refers to, before anything that is already there is
/// looked at.
pub open spec fn described(
    media_type: Seq<char>,
    bytes: Seq<u8>,
    trust: TrustOrigin,
    digest: Seq<u8>,
) -> Result<ArtifactRefView, ArtifactErrorView> {
    if blank(media_type) {
        Err(ArtifactErrorView::InvalidMediaType)
    } else if bytes.len() > MAX_ARTIFACT_BYTES {
        Err(
            ArtifactErrorView::TooLarge {
                actual: bytes.len() as usize,
                maximum: MAX_ARTIFACT_BYTES,
            },
        )
    } else {
        Ok(
            ArtifactRefView {
                content_hash: digest,
                size_bytes: bytes.len() as u64,
                media_type,
                trust,
            },
        )
    }
}

/// The reference after the same content is stored again. Trust is combined
/// and so never upgraded.
pub open spec fn merged(
    existing: StoredArtifactView,
    reference: ArtifactRefView,
    bytes: Seq<u8>,
) -> Result<ArtifactRefView, ArtifactErrorView> {
    if existing.bytes != bytes {
        Err(ArtifactErrorView::HashCollision(reference.content_hash))
    } else if existing.reference.media_type != reference.media_type {
        Err(ArtifactErrorView::MetadataMismatch(reference.content_hash))
    } else {
        Ok(
            ArtifactRefView {
                trust: existing.reference.trust.combined(reference.trust),
                ..existing.reference
            },
        )
    }
}

/// What storing returns, given what is stored under the same digest.
pub open spec fn put_result(
    existing: Option<StoredArtifactView>,
    media_type: Seq<char>,
    bytes: Seq<u8>,
    trust: TrustOrigin,
    digest: Seq<u8>,
) -> Result<ArtifactRefView, ArtifactErrorView> {
    match described(media_type, bytes, trust, digest) {
        Err(error) => Err(error),
        Ok(reference) => match existing {
            Some(existing) => merged(existing, reference, bytes),
            None => Ok(reference),
        },
    }
}

/// Describes content to be stored, or says why it cannot be.
pub fn describe_artifact<H: ContentHasher>(
    hasher: &H,
    media_type: &str,
    bytes: &Vec<u8>,
    trust: TrustOrigin,
) -> (result: Result<ArtifactRef, ArtifactError>)
    ensures
        outcome(result) == described(media_type@, bytes@, trust, hasher.digest(bytes@)),
{
    if is_blank(media_type) {
        return Err(ArtifactError::InvalidMediaType);
    }
    let length: usize = bytes.len();
    if length > MAX_ARTIFACT_BYTES {
        return Err(ArtifactError::TooLarge { actual: length, maximum: MAX_ARTIFACT_BYTES });
    }
    Ok(
        ArtifactRef {
            content_hash: hasher.hash(bytes.as_slice()),
            size_bytes: length as u64,
            media_type: media_type.to_owned(),
            trust,
        },
    )
}

/// Combines a reference with the artifact that is stored under its digest.
pub fn merge_artifact(
    existing: &StoredArtifact,
    reference: &ArtifactRef,
    bytes: &Vec<u8>,
) -> (result: Result<ArtifactRef, ArtifactError>)
    ensures
        outcome(result) == merged(existing@, reference@, bytes@),
{
    if !same_bytes(existing.bytes.as_slice(), bytes.as_slice()) {
        return Err(ArtifactError::HashCollision(reference.content_hash));
    }
    if existing.reference.media_type != reference.media_type {
        return Err(ArtifactError::MetadataMismatch(reference.content_hash));
    }
    let trust = existing.reference.trust.combine(reference.trust);
    Ok(
        ArtifactRef {
            content_hash: existing.reference.content_hash,
            size_bytes: existing.reference.size_bytes,
            media_type: existing.reference.media_type.clone(),
            trust,
        },
    )
}

/// A place for artifacts.
pub trait ArtifactStore {
    fn put(&mut self, media_type: &str, bytes: Vec<u8>) -> Result<ArtifactRef, ArtifactError>;

    fn put_with_trust(
        &mut self,
        media_type: &str,
        bytes: Vec<u8>,
        trust: TrustOrigin,
    ) -> Result<ArtifactRef, ArtifactError>;

    fn get(&self, content_hash: ContentHash) -> Result<Option<StoredArtifact>, ArtifactError>;
}

#[derive(Debug)]
pub struct InMemoryArtifactStore<H> {
    hasher: H,
    artifacts: Table<ContentHash, StoredArtifact>,
}

impl<H> View for InMemoryArtifactStore<H> {
    type V = Map<Seq<u8>, StoredArtifactView>;

    closed spec fn view(&self) -> Map<Seq<u8>, StoredArtifactView> {
        self.artifacts@
    }
}

impl<H> InMemoryArtifactStore<H> {
    pub closed spec fn hasher(&self) -> H {
        self.hasher
    }

    pub fn with_hasher(hasher: H) -> (store: InMemoryArtifactStore<H>)
        ensures
            store@ == Map::<Seq<u8>, StoredArtifactView>::empty(),
            store.hasher() == hasher,
    {
        InMemoryArtifactStore { hasher, artifacts: Table::new() }
    }

    pub fn len(&self) -> (length: usize)
        ensures
            length == self@.len(),
    {
        self.artifacts.len()
    }

    pub fn is_empty(&self) -> (empty: bool)
        ensures
            empty == (self@.len() == 0),
    {
        self.artifacts.is_empty()
    }
}

impl InMemoryArtifactStore<DeterministicContentHasher> {
    pub fn new() -> (store: InMemoryArtifactStore<DeterministicContentHasher>)
        ensures
            store@ == Map::<Seq<u8>, StoredArtifactView>::empty(),
    {
        InMemoryArtifactStore::with_hasher(DeterministicContentHasher)
    }
}

impl Replica for StoredArtifact {
    fn replica(&self) -> (copy: StoredArtifact) {
        self.clone()
    }
}

impl<H: Clone> Clone for InMemoryArtifactStore<H> {
    fn clone(&self) -> (copy: InMemoryArtifactStore<H>)
        ensures
            copy@ == self@,
            vstd::pervasive::cloned(self.hasher(), copy.hasher()),
    {
        InMemoryArtifactStore { hasher: self.hasher.clone(), artifacts: self.artifacts.clone() }
    }
}

impl Default for InMemoryArtifactStore<DeterministicContentHasher> {
    fn default() -> (store: InMemoryArtifactStore<DeterministicContentHasher>)
        ensures
            store@ == Map::<Seq<u8>, StoredArtifactView>::empty(),
    {
        InMemoryArtifactStore::new()
    }
}

/// The stored artifacts after a put.
pub open spec fn after_put(
    stored: Map<Seq<u8>, StoredArtifactView>,
    media_type: Seq<char>,
    bytes: Seq<u8>,
    trust: TrustOrigin,
    digest: Seq<u8>,
) -> Map<Seq<u8>, StoredArtifactView> {
    match put_result(stored.get(digest), media_type, bytes, trust, digest) {
        Ok(reference) => stored.insert(digest, StoredArtifactView { reference, bytes }),
        Err(_) => stored,
    }
}

impl<H: ContentHasher> ArtifactStore for InMemoryArtifactStore<H> {
    fn put(&mut self, media_type: &str, bytes: Vec<u8>) -> (result: Result<
        ArtifactRef,
        ArtifactError,
    >)
        ensures
            outcome(result) == put_result(
                old(self)@.get(old(self).hasher().digest(bytes@)),
                media_type@,
                bytes@,
                TrustOrigin::Generated,
                old(self).hasher().digest(bytes@),
            ),
            final(self)@ == after_put(
                old(self)@,
                media_type@,
                bytes@,
                TrustOrigin::Generated,
                old(self).hasher().digest(bytes@),
            ),
            final(self).hasher() == old(self).hasher(),
    {
        self.put_with_trust(media_type, bytes, TrustOrigin::Generated)
    }

    fn put_with_trust(
        &mut self,
        media_type: &str,
        bytes: Vec<u8>,
        trust: TrustOrigin,
    ) -> (result: Result<ArtifactRef, ArtifactError>)
        ensures
            outcome(result) == put_result(
                old(self)@.get(old(self).hasher().digest(bytes@)),
                media_type@,
                bytes@,
                trust,
                old(self).hasher().digest(bytes@),
            ),
            final(self)@ == after_put(
                old(self)@,
                media_type@,
                bytes@,
                trust,
                old(self).hasher().digest(bytes@),
            ),
            final(self).hasher() == old(self).hasher(),
    {
        let reference = describe_artifact(&self.hasher, media_type, &bytes, trust)?;
        let content_hash = reference.content_hash;
        let reference = match self.artifacts.get(&content_hash) {
            Some(existing) => merge_artifact(existing, &reference, &bytes)?,
            None => reference,
        };
        self.artifacts.insert(
            content_hash,
            StoredArtifact { reference: reference.clone(), bytes },
        );
        Ok(reference)
    }

    fn get(&self, content_hash: ContentHash) -> (result: Result<
        Option<StoredArtifact>,
        ArtifactError,
    >)
        ensures
            match result {
                Ok(Some(artifact)) => self@.contains_key(content_hash@) && artifact@
                    == self@[content_hash@],
                Ok(None) => !self@.contains_key(content_hash@),
                Err(_) => false,
            },
    {
        match self.artifacts.get(&content_hash) {
            Some(artifact) => Ok(Some(artifact.clone())),
            None => Ok(None),
        }
    }
}

/// A stored artifact is read back under its digest, with the content and the
/// reference that storing it returned.
pub proof fn stored_artifacts_read_back(
    stored: Map<Seq<u8>, StoredArtifactView>,
    media_type: Seq<char>,
    bytes: Seq<u8>,
    trust: TrustOrigin,
    digest: Seq<u8>,
)
    ensures
        match put_result(stored.get(digest), media_type, bytes, trust, digest) {
            Ok(reference) => after_put(stored, media_type, bytes, trust, digest).get(digest)
                == Some(StoredArtifactView { reference, bytes }),
            Err(_) => after_put(stored, media_type, bytes, trust, digest) == stored,
        },
        forall|other: Seq<u8>|
            other != digest ==> (#[trigger] after_put(
                stored,
                media_type,
                bytes,
                trust,
                digest,
            ).get(other)) == stored.get(other),
{
}

/// Storing content again keeps one copy, and its trust is no higher than
/// before and no higher than that of the new source.
pub proof fn storing_again_deduplicates(
    stored: Map<Seq<u8>, StoredArtifactView>,
    media_type: Seq<char>,
    bytes: Seq<u8>,
    trust: TrustOrigin,
    digest: Seq<u8>,
)
    requires
        stored.dom().finite(),
        stored.contains_key(digest),
        put_result(stored.get(digest), media_type, bytes, trust, digest) is Ok,
    ensures
        ({
            let after = after_put(stored, media_type, bytes, trust, digest);
            &&& after.dom() == stored.dom()
            &&& after[digest].bytes == stored[digest].bytes
            &&& after[digest].reference.trust.rank() <= stored[digest].reference.trust.rank()
            &&& after[digest].reference.trust.rank() <= trust.rank()
            &&& after[digest].reference.trust.trusted() ==> trust.trusted()
                && stored[digest].reference.trust.trusted()
        }),
{
    assert(after_put(stored, media_type, bytes, trust, digest).dom() =~= stored.dom());
}

// ---------------------------------------------------------------------------
// The durable encoding.

pub open spec fn legacy_magic() -> Seq<u8> {
    encode_utf8("ORYNTH-BLOB-1\n"@)
}

pub open spec fn current_magic() -> Seq<u8> {
    encode_utf8("ORYNTH-BLOB-2\n"@)
}

pub open spec fn artifact_bytes(artifact: StoredArtifactView) -> Seq<u8> {
    blob32_bytes(current_magic()) + u64_bytes(artifact.reference.size_bytes) + text_bytes(
        artifact.reference.media_type,
    ) + artifact.reference.content_hash + u8_bytes(trust_byte(artifact.reference.trust))
        + blob32_bytes(artifact.bytes)
}

/// The fields of an encoded artifact behind its magic.
pub open spec fn get_artifact_fields(bytes: Seq<u8>, has_trust: bool) -> Result<
    (StoredArtifactView, Seq<u8>),
    Seq<char>,
> {
    match need_u64(bytes) {
        Err(message) => Err(message),
        Ok((size_bytes, rest)) => match get_text(rest) {
            Err(message) => Err(message),
            Ok((media_type, rest)) => match need_array(rest) {
                Err(message) => Err(message),
                Ok((content_hash, rest)) => match get_artifact_trust(rest, has_trust) {
                    Err(message) => Err(message),
                    Ok((trust, rest)) => match get_blob(rest) {
                        Err(message) => Err(message),
                        Ok((payload, rest)) => Ok(
                            (
                                StoredArtifactView {
                                    reference: ArtifactRefView {
                                        content_hash,
                                        size_bytes,
                                        media_type,
                                        trust,
                                    },
                                    bytes: payload,
                                },
                                rest,
                            ),
                        ),
                    },
                },
            },
        },
    }
}

/// The trust byte, which older encodings lack.
pub open spec fn get_artifact_trust(bytes: Seq<u8>, has_trust: bool) -> Result<
    (TrustOrigin, Seq<u8>),
    Seq<char>,
> {
    if has_trust {
        match need_u8(bytes) {
            Err(message) => Err(message),
            Ok((tag, rest)) => match trust_from_byte(tag) {
                Err(message) => Err(message),
                Ok(trust) => Ok((trust, rest)),
            },
        }
    } else {
        Ok((TrustOrigin::Generated, bytes))
    }
}

/// What a whole encoded artifact means under the digest it is expected to
/// have, or why it is corrupt.
pub open spec fn artifact_of(
    bytes: Seq<u8>,
    expected: Seq<u8>,
    digest: spec_fn(Seq<u8>) -> Seq<u8>,
) -> Result<StoredArtifactView, Seq<char>> {
    match get_blob(bytes) {
        Err(message) => Err(message),
        Ok((magic, rest)) => if magic != legacy_magic() && magic != current_magic() {
            Err("artifact header is invalid"@)
        } else {
            match get_artifact_fields(rest, magic != legacy_magic()) {
                Err(message) => Err(message),
                Ok((artifact, rest)) => if rest.len() != 0 {
                    Err("encoded value contains trailing bytes"@)
                } else if artifact.reference.content_hash != expected {
                    Err("artifact filename/hash mismatch"@)
                } else if artifact.reference.size_bytes != artifact.bytes.len() {
                    Err("artifact size mismatch"@)
                } else if digest(artifact.bytes) != expected {
                    Err("artifact content hash mismatch"@)
                } else {
                    Ok(artifact)
                },
            }
        },
    }
}

/// Encodes an artifact under its reference.
pub fn encode_artifact(reference: &ArtifactRef, bytes: &[u8]) -> (result: Result<Vec<u8>, String>)
    ensures
        match result {
            Ok(encoded) => {
                &&& text_within(reference@.media_type, u32::MAX as int)
                &&& bytes@.len() <= u32::MAX
                &&& encoded@ == artifact_bytes(
                    (StoredArtifactView { reference: reference@, bytes: bytes@ }),
                )
            },
            Err(message) => {
                &&& !text_within(reference@.media_type, u32::MAX as int) || bytes@.len() > u32::MAX
                &&& message@ == "value exceeds u32::MAX"@
            },
        },
{
    broadcast use concat_is_associative;
    let mut out: Vec<u8> = Vec::new();
    let magic = "ORYNTH-BLOB-2\n";
    proof {
        magic_lengths();
    }
    put_blob(&mut out, magic.as_bytes())?;
    put_u64(&mut out, reference.size_bytes);
    put_text(&mut out, reference.media_type.as_str())?;
    put_array(&mut out, &reference.content_hash.0);
    put_u8(&mut out, trust_tag(reference.trust));
    put_blob(&mut out, bytes)?;
    assert(out@ =~= artifact_bytes(
        (StoredArtifactView { reference: reference@, bytes: bytes@ }),
    ));
    Ok(out)
}

proof fn magic_lengths()
    ensures
        current_magic().len() == 14,
        legacy_magic().len() == 14,
        current_magic() != legacy_magic(),
{
    reveal_strlit("ORYNTH-BLOB-2\n");
    reveal_strlit("ORYNTH-BLOB-1\n");
    vstd::utf8::is_ascii_chars_encode_utf8("ORYNTH-BLOB-2\n"@);
    vstd::utf8::is_ascii_chars_encode_utf8("ORYNTH-BLOB-1\n"@);
    assert(current_magic()[12] != legacy_magic()[12]);
}

fn decode_artifact_trust_byte(reader: &mut Reader, has_trust: bool) -> (result: Result<
    TrustOrigin,
    String,
>)
    ensures
        match get_artifact_trust(old(reader).left(), has_trust) {
            Ok((trust, left)) => result == Ok::<TrustOrigin, String>(trust) && final(reader).left()
                == left,
            Err(message) => result is Err && result->Err_0@ == message,
        },
{
    if has_trust {
        decode_trust_tag(read_u8(reader)?)
    } else {
        Ok(TrustOrigin::Generated)
    }
}

fn decode_artifact_fields(reader: &mut Reader, has_trust: bool) -> (result: Result<
    StoredArtifact,
    String,
>)
    ensures
        parsed(
            outcome(result),
            final(reader).left(),
            get_artifact_fields(old(reader).left(), has_trust),
        ),
{
    let size_bytes: u64 = read_u64(reader)?;
    let media_type = read_text(reader)?;
    let content_hash = ContentHash::from_digest(read_array(reader)?);
    let trust = decode_artifact_trust_byte(reader, has_trust)?;
    let bytes = read_blob(reader)?;
    Ok(
        StoredArtifact {
            reference: ArtifactRef { content_hash, size_bytes, media_type, trust },
            bytes,
        },
    )
}

fn check_artifact<H: ContentHasher>(
    bytes: &[u8],
    expected_hash: ContentHash,
    hasher: &H,
) -> (result: Result<StoredArtifact, String>)
    ensures
        outcome(result) == artifact_of(bytes@, expected_hash@, |b: Seq<u8>| hasher.digest(b)),
{
    let mut reader = Reader::new(bytes);
    let magic = read_blob(&mut reader)?;
    let legacy = same_bytes(magic.as_slice(), "ORYNTH-BLOB-1\n".as_bytes());
    let current = same_bytes(magic.as_slice(), "ORYNTH-BLOB-2\n".as_bytes());
    if !legacy && !current {
        return Err("artifact header is invalid".to_owned());
    }
    let artifact = decode_artifact_fields(&mut reader, !legacy)?;
    if !reader.is_done() {
        return Err("encoded value contains trailing bytes".to_owned());
    }
    if !artifact.reference.content_hash.equals(expected_hash) {
        return Err("artifact filename/hash mismatch".to_owned());
    }
    if artifact.reference.size_bytes != artifact.bytes.len() as u64 {
        return Err("artifact size mismatch".to_owned());
    }
    if !hasher.hash(artifact.bytes.as_slice()).equals(expected_hash) {
        return Err("artifact content hash mismatch".to_owned());
    }
    Ok(artifact)
}

/// Decodes an artifact and checks it against the digest it is stored under.
pub fn decode_artifact<H: ContentHasher>(
    bytes: &[u8],
    expected_hash: ContentHash,
    hasher: &H,
) -> (result: Result<StoredArtifact, ArtifactError>)
    ensures
        match artifact_of(bytes@, expected_hash@, |b: Seq<u8>| hasher.digest(b)) {
            Ok(artifact) => result is Ok && result->Ok_0@ == artifact,
            Err(message) => result is Err && result->Err_0@ == ArtifactErrorView::Corrupt(message),
        },
{
    match check_artifact(bytes, expected_hash, hasher) {
        Ok(artifact) => Ok(artifact),
        Err(message) => Err(ArtifactError::Corrupt(message)),
    }
}

/// An encoded artifact decodes to itself under its own digest.
pub proof fn artifact_decoding_inverts_encoding(
    artifact: StoredArtifactView,
    digest: spec_fn(Seq<u8>) -> Seq<u8>,
)
    requires
        artifact.bytes.len() <= MAX_FRAME_BYTES,
        text_within(artifact.reference.media_type, MAX_FRAME_BYTES as int),
        artifact.reference.content_hash == digest(artifact.bytes),
        artifact.reference.content_hash.len() == 32,
        artifact.reference.size_bytes == artifact.bytes.len(),
    ensures
        artifact_of(artifact_bytes(artifact), artifact.reference.content_hash, digest) == Ok::<
            StoredArtifactView,
            Seq<char>,
        >(artifact),
{
    broadcast use {group_codec, blob_reads_back, text_reads_back};

    magic_lengths();
    let r = artifact.reference;
    let end = Seq::<u8>::empty();
    let d = blob32_bytes(artifact.bytes) + end;
    let c = u8_bytes(trust_byte(r.trust)) + d;
    let b = r.content_hash + c;
    let a = text_bytes(r.media_type) + b;
    assert(artifact_bytes(artifact) == blob32_bytes(current_magic()) + (u64_bytes(r.size_bytes)
        + a)) by {
        assert(artifact_bytes(artifact) =~= artifact_bytes(artifact) + end);
    }
    assert(get_bytes(r.content_hash + c, 32) == Some((r.content_hash, c)));
}

} // verus!
