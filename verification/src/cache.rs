//! What providers report of their prompt caches.
//!
//! A prefix hash describes a rendered prompt, not a provider's cache. A record
//! is made only where a provider's usage says how much was cached.

use vstd::prelude::*;
use vstd::string::StringExecFns;
use vstd::utf8::{encode_utf8, encode_utf8_decode_utf8};

use crate::kernel::{ModelRef, ModelRefView, Usage};
use crate::keys::{bytes_before, bytes_order_laws, rank_bytes};
use crate::table::{Key, Rank, Table, Replica};
use crate::text::{decimal, push_decimal};

verus! {

#[derive(Clone, Debug, PartialEq, Eq, Hash)]
pub struct CacheKey {
    pub provider: String,
    pub model: String,
    pub prefix_hash: [u8; 32],
}

pub struct CacheKeyView {
    pub provider: Seq<char>,
    pub model: Seq<char>,
    pub prefix_hash: Seq<u8>,
}

impl View for CacheKey {
    type V = CacheKeyView;

    open spec fn view(&self) -> CacheKeyView {
        CacheKeyView {
            provider: self.provider@,
            model: self.model@,
            prefix_hash: self.prefix_hash@,
        }
    }
}

impl CacheKey {
    pub fn new(model: &ModelRef, prefix_hash: [u8; 32]) -> (key: CacheKey)
        ensures
            key@ == key_of(model@, prefix_hash@),
    {
        CacheKey { provider: model.provider.clone(), model: model.model.clone(), prefix_hash }
    }
}

pub open spec fn key_of(model: ModelRefView, prefix_hash: Seq<u8>) -> CacheKeyView {
    CacheKeyView { provider: model.provider, model: model.model, prefix_hash }
}

/// Keys in order of provider, then model, then prefix.
pub open spec fn key_before(left: CacheKeyView, right: CacheKeyView) -> bool {
    bytes_before(encode_utf8(left.provider), encode_utf8(right.provider)) || (left.provider
        == right.provider && (bytes_before(encode_utf8(left.model), encode_utf8(right.model)) || (
    left.model == right.model && bytes_before(left.prefix_hash, right.prefix_hash))))
}

impl Key for CacheKey {
    type Model = CacheKeyView;

    open spec fn model(&self) -> CacheKeyView {
        self@
    }

    open spec fn before(left: CacheKeyView, right: CacheKeyView) -> bool {
        key_before(left, right)
    }

    proof fn order_laws(a: CacheKeyView, b: CacheKeyView, c: CacheKeyView) {
        bytes_order_laws(
            encode_utf8(a.provider),
            encode_utf8(b.provider),
            encode_utf8(c.provider),
        );
        bytes_order_laws(encode_utf8(a.model), encode_utf8(b.model), encode_utf8(c.model));
        bytes_order_laws(a.prefix_hash, b.prefix_hash, c.prefix_hash);
        encode_utf8_decode_utf8(a.provider);
        encode_utf8_decode_utf8(b.provider);
        encode_utf8_decode_utf8(a.model);
        encode_utf8_decode_utf8(b.model);
    }

    fn rank(&self, other: &CacheKey) -> (rank: Rank) {
        proof {
            encode_utf8_decode_utf8(self.provider@);
            encode_utf8_decode_utf8(other.provider@);
            encode_utf8_decode_utf8(self.model@);
            encode_utf8_decode_utf8(other.model@);
        }
        match rank_bytes(self.provider.as_str().as_bytes(), other.provider.as_str().as_bytes()) {
            Rank::Same => match rank_bytes(
                self.model.as_str().as_bytes(),
                other.model.as_str().as_bytes(),
            ) {
                Rank::Same => rank_bytes(
                    self.prefix_hash.as_slice(),
                    other.prefix_hash.as_slice(),
                ),
                rank => rank,
            },
            rank => rank,
        }
    }

    fn copied(&self) -> (copy: CacheKey) {
        CacheKey {
            provider: self.provider.clone(),
            model: self.model.clone(),
            prefix_hash: self.prefix_hash,
        }
    }
}

#[derive(Clone, Debug, PartialEq, Eq)]
pub struct CacheObservation {
    pub key: CacheKey,
    pub estimated_prefix_tokens: u64,
    pub observed_cached_tokens: u64,
    pub observed_at_ms: u128,
}

pub struct CacheObservationView {
    pub key: CacheKeyView,
    pub estimated_prefix_tokens: u64,
    pub observed_cached_tokens: u64,
    pub observed_at_ms: u128,
}

impl View for CacheObservation {
    type V = CacheObservationView;

    open spec fn view(&self) -> CacheObservationView {
        CacheObservationView {
            key: self.key@,
            estimated_prefix_tokens: self.estimated_prefix_tokens,
            observed_cached_tokens: self.observed_cached_tokens,
            observed_at_ms: self.observed_at_ms,
        }
    }
}

#[derive(Clone, Copy, Debug, PartialEq, Eq)]
pub struct CacheRecord {
    pub first_observed_at_ms: u128,
    pub last_observed_at_ms: u128,
    pub observations: u64,
    pub total_cached_tokens: u64,
    pub last_cached_tokens: u64,
    pub last_estimated_prefix_tokens: u64,
}

impl View for CacheRecord {
    type V = CacheRecord;

    open spec fn view(&self) -> CacheRecord {
        *self
    }
}

impl Replica for CacheRecord {
    fn replica(&self) -> (copy: CacheRecord) {
        *self
    }
}

#[derive(Clone, Copy, Debug, PartialEq, Eq, Structural)]
pub enum CacheError {
    CachedTokensExceedInput { cached: u64, input: u64 },
}

impl CacheError {
    pub open spec fn text(self) -> Seq<char> {
        match self {
            CacheError::CachedTokensExceedInput { cached, input } => "provider reported "@
                + decimal(cached as nat) + " cached input tokens, exceeding "@ + decimal(
                input as nat,
            ) + " input tokens"@,
        }
    }

    pub fn to_text(self) -> (text: String)
        ensures
            text@ == self.text(),
    {
        match self {
            CacheError::CachedTokensExceedInput { cached, input } => {
                let mut out = "provider reported ".to_owned();
                push_decimal(&mut out, cached as u128);
                out.append(" cached input tokens, exceeding ");
                push_decimal(&mut out, input as u128);
                out.append(" input tokens");
                out
            },
        }
    }
}

/// A sum that stops at the largest `u64`.
pub open spec fn capped(a: u64, b: u64) -> u64 {
    if a + b > u64::MAX {
        u64::MAX
    } else {
        (a + b) as u64
    }
}

/// A record with one more observation. What was observed last in time is what
/// the record reports last.
pub open spec fn observed(
    before: Option<CacheRecord>,
    observation: CacheObservationView,
) -> CacheRecord {
    let at = observation.observed_at_ms;
    match before {
        None => CacheRecord {
            first_observed_at_ms: at,
            last_observed_at_ms: at,
            observations: 1,
            total_cached_tokens: observation.observed_cached_tokens,
            last_cached_tokens: observation.observed_cached_tokens,
            last_estimated_prefix_tokens: observation.estimated_prefix_tokens,
        },
        Some(record) => {
            let latest = at >= record.last_observed_at_ms;
            CacheRecord {
                first_observed_at_ms: if at < record.first_observed_at_ms {
                    at
                } else {
                    record.first_observed_at_ms
                },
                last_observed_at_ms: if latest {
                    at
                } else {
                    record.last_observed_at_ms
                },
                observations: capped(record.observations, 1),
                total_cached_tokens: capped(
                    record.total_cached_tokens,
                    observation.observed_cached_tokens,
                ),
                last_cached_tokens: if latest {
                    observation.observed_cached_tokens
                } else {
                    record.last_cached_tokens
                },
                last_estimated_prefix_tokens: if latest {
                    observation.estimated_prefix_tokens
                } else {
                    record.last_estimated_prefix_tokens
                },
            }
        },
    }
}

pub open spec fn record_at(
    records: Map<CacheKeyView, CacheRecord>,
    key: CacheKeyView,
) -> Option<CacheRecord> {
    if records.contains_key(key) {
        Some(records[key])
    } else {
        None
    }
}

/// The records with one more observation.
pub open spec fn with_observation(
    records: Map<CacheKeyView, CacheRecord>,
    observation: CacheObservationView,
) -> Map<CacheKeyView, CacheRecord> {
    records.insert(
        observation.key,
        observed(record_at(records, observation.key), observation),
    )
}

/// What a usage says of the cache: nothing, something, or more than was sent.
pub open spec fn observation_in(
    model: ModelRefView,
    prefix_hash: Seq<u8>,
    estimated_prefix_tokens: u64,
    usage: Usage,
    observed_at_ms: u128,
) -> Result<Option<CacheObservationView>, CacheError> {
    match usage.cached_input_tokens {
        None => Ok(None),
        Some(cached) => if cached > usage.input_tokens {
            Err(CacheError::CachedTokensExceedInput { cached, input: usage.input_tokens })
        } else {
            Ok(
                Some(
                    CacheObservationView {
                        key: key_of(model, prefix_hash),
                        estimated_prefix_tokens,
                        observed_cached_tokens: cached,
                        observed_at_ms,
                    },
                ),
            )
        },
    }
}

#[derive(Debug, PartialEq, Eq)]
pub struct CacheTelemetry {
    records: Table<CacheKey, CacheRecord>,
}

impl View for CacheTelemetry {
    type V = Map<CacheKeyView, CacheRecord>;

    closed spec fn view(&self) -> Map<CacheKeyView, CacheRecord> {
        self.records@
    }
}

fn saturating_sum(a: u64, b: u64) -> (sum: u64)
    ensures
        sum == capped(a, b),
{
    if a > u64::MAX - b {
        u64::MAX
    } else {
        a + b
    }
}

impl CacheTelemetry {
    pub fn new() -> (telemetry: CacheTelemetry)
        ensures
            telemetry@ == Map::<CacheKeyView, CacheRecord>::empty(),
    {
        CacheTelemetry { records: Table::new() }
    }

    pub fn is_empty(&self) -> (empty: bool)
        ensures
            empty == (self@ == Map::<CacheKeyView, CacheRecord>::empty()),
    {
        self.records.is_empty()
    }

    pub fn len(&self) -> (length: usize)
        ensures
            length == self@.len(),
    {
        self.records.len()
    }

    /// Records what a usage says of the cache, if it says anything.
    pub fn record(
        &mut self,
        model: &ModelRef,
        prefix_hash: [u8; 32],
        estimated_prefix_tokens: u64,
        usage: Usage,
        observed_at_ms: u128,
    ) -> (result: Result<Option<CacheObservation>, CacheError>)
        ensures
            match observation_in(
                model@,
                prefix_hash@,
                estimated_prefix_tokens,
                usage,
                observed_at_ms,
            ) {
                Ok(None) => result == Ok::<Option<CacheObservation>, CacheError>(None)
                    && final(self)@ == old(self)@,
                Ok(Some(observation)) => {
                    &&& result matches Ok(Some(made)) && made@ == observation
                    &&& final(self)@ == with_observation(old(self)@, observation)
                },
                Err(error) => result == Err::<Option<CacheObservation>, CacheError>(error)
                    && final(self)@ == old(self)@,
            },
    {
        let observed_cached_tokens: u64 = match usage.cached_input_tokens {
            Some(cached) => cached,
            None => {
                return Ok(None);
            },
        };
        if observed_cached_tokens > usage.input_tokens {
            return Err(
                CacheError::CachedTokensExceedInput {
                    cached: observed_cached_tokens,
                    input: usage.input_tokens,
                },
            );
        }
        let key = CacheKey::new(model, prefix_hash);
        let observation = CacheObservation {
            key: key.copied(),
            estimated_prefix_tokens,
            observed_cached_tokens,
            observed_at_ms,
        };
        self.record_observation(
            CacheObservation {
                key,
                estimated_prefix_tokens,
                observed_cached_tokens,
                observed_at_ms,
            },
        );
        Ok(Some(observation))
    }

    /// Adds an observation to the record of its key.
    pub fn record_observation(&mut self, observation: CacheObservation)
        ensures
            final(self)@ == with_observation(old(self)@, observation@),
    {
        let at: u128 = observation.observed_at_ms;
        let cached: u64 = observation.observed_cached_tokens;
        let estimated: u64 = observation.estimated_prefix_tokens;
        let record = match self.records.get(&observation.key) {
            None => CacheRecord {
                first_observed_at_ms: at,
                last_observed_at_ms: at,
                observations: 1,
                total_cached_tokens: cached,
                last_cached_tokens: cached,
                last_estimated_prefix_tokens: estimated,
            },
            Some(record) => {
                let latest = at >= record.last_observed_at_ms;
                CacheRecord {
                    first_observed_at_ms: if at < record.first_observed_at_ms {
                        at
                    } else {
                        record.first_observed_at_ms
                    },
                    last_observed_at_ms: if latest {
                        at
                    } else {
                        record.last_observed_at_ms
                    },
                    observations: saturating_sum(record.observations, 1),
                    total_cached_tokens: saturating_sum(record.total_cached_tokens, cached),
                    last_cached_tokens: if latest {
                        cached
                    } else {
                        record.last_cached_tokens
                    },
                    last_estimated_prefix_tokens: if latest {
                        estimated
                    } else {
                        record.last_estimated_prefix_tokens
                    },
                }
            },
        };
        self.records.insert(observation.key, record);
    }

    pub fn get(&self, key: &CacheKey) -> (record: Option<&CacheRecord>)
        ensures
            match record {
                Some(record) => record_at(self@, key@) == Some(*record),
                None => record_at(self@, key@) is None,
            },
    {
        self.records.get(key)
    }

    pub fn records(&self) -> (records: &Table<CacheKey, CacheRecord>)
        ensures
            records@ == self@,
    {
        &self.records
    }
}

impl Clone for CacheTelemetry {
    fn clone(&self) -> (copy: CacheTelemetry)
        ensures
            copy@ == self@,
    {
        CacheTelemetry { records: self.records.clone() }
    }
}

impl Default for CacheTelemetry {
    fn default() -> (telemetry: CacheTelemetry)
        ensures
            telemetry@ == Map::<CacheKeyView, CacheRecord>::empty(),
    {
        CacheTelemetry::new()
    }
}

/// Two observations leave the same records in either order, unless they say
/// different things of one prefix at one time.
pub proof fn observations_may_arrive_in_any_order(
    records: Map<CacheKeyView, CacheRecord>,
    first: CacheObservationView,
    second: CacheObservationView,
)
    requires
        first.key != second.key || first.observed_at_ms != second.observed_at_ms || (
        first.observed_cached_tokens == second.observed_cached_tokens
            && first.estimated_prefix_tokens == second.estimated_prefix_tokens),
    ensures
        with_observation(with_observation(records, first), second) == with_observation(
            with_observation(records, second),
            first,
        ),
{
    let left = with_observation(with_observation(records, first), second);
    let right = with_observation(with_observation(records, second), first);
    assert(left =~= right);
}

/// A record's span holds every observation's time: the new one's, and with
/// those that it held before.
pub proof fn records_span_their_observations(
    records: Map<CacheKeyView, CacheRecord>,
    observation: CacheObservationView,
)
    ensures
        ({
            let record = with_observation(records, observation)[observation.key];
            &&& record.first_observed_at_ms <= observation.observed_at_ms
                <= record.last_observed_at_ms
            &&& record_at(records, observation.key) matches Some(before) ==> {
                &&& record.first_observed_at_ms <= before.first_observed_at_ms
                &&& before.last_observed_at_ms <= record.last_observed_at_ms
            }
        }),
{
}

} // verus!
