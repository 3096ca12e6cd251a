//! What is kept of failures, caches, artifacts and plugins, and which messages
//! are valid.

use vstd::prelude::*;
use vstd::utf8::encode_utf8;

use crate::artifact::{after_put, put_result, StoredArtifactView};
use crate::assumptions;
use crate::cache::{
    observation_in, with_observation, CacheError, CacheKeyView, CacheObservationView, CacheRecord,
};
use crate::claim_laws::{fair_text, fair_texts};
use crate::context_codec;
use crate::context_log::transitions_in;
use crate::failure_memory::{
    self, active_among, with_fingerprint, FailureRecord, FailureRecordView, FailureState,
    FailureTransitionView,
};
use crate::ids::{FailureId, PluginId};
use crate::ipc::{self, envelope_check, IpcEnvelopeView, IpcMessageView, IpcProvenanceView};
use crate::kernel::{EventKindView, EventView, ModelRefView, TrustOrigin, Usage};
use crate::plugin::{
    capabilities_refusal, capability_refusal, registration_refusal, request_refusal,
    response_refusal, wanted_among, PluginCapabilityView, PluginKind, PluginManifestView,
    PluginResourceLimits,
};
use crate::table::{finite_maps_have_listings, listing, Key};
use crate::text::blank;

verus! {

// ---------------------------------------------------------------------------
// Failures.

proof fn evidence_is_checked_one_by_one(field: Seq<char>, list: Seq<Seq<char>>)
    ensures
        failure_memory::texts_check(field, list) is Ok <==> forall|i: int|
            0 <= i < list.len() ==> fair_text(#[trigger] list[i]),
    decreases list.len(),
{
    if list.len() > 0 {
        let rest = list.drop_last();
        let last = list.len() - 1;
        evidence_is_checked_one_by_one(field, rest);
        if forall|i: int| 0 <= i < list.len() ==> fair_text(#[trigger] list[i]) {
            assert forall|i: int| 0 <= i < rest.len() implies fair_text(#[trigger] rest[i]) by {
                assert(rest[i] == list[i]);
            }
            assert(fair_text(list[last]));
        }
        if failure_memory::texts_check(field, list) is Ok {
            assert forall|i: int| 0 <= i < list.len() implies fair_text(#[trigger] list[i]) by {
                if i < last {
                    assert(rest[i] == list[i]);
                }
            }
        }
    }
}

/// A failure is recorded, as it was told, exactly where it says what was tried
/// and why it failed, is still active and has a new identity. An active one
/// can be resolved, which changes nothing else of it.
pub proof fn failures_are_recorded_as_told(
    memory: Map<FailureId, FailureRecordView>,
    record: FailureRecordView,
    id: FailureId,
)
    ensures
        ({
            let recorded = failure_memory::applied(
                memory,
                FailureTransitionView::Recorded { record },
            );
            let resolved = failure_memory::applied(
                memory,
                FailureTransitionView::Resolved { failure_id: id },
            );
            &&& recorded is Ok <==> {
                &&& fair_text(record.fingerprint)
                &&& fair_text(record.approach)
                &&& fair_text(record.reason)
                &&& fair_texts(record.evidence)
                &&& record.state == FailureState::Active
                &&& !memory.contains_key(record.id)
            }
            &&& recorded matches Ok(now) ==> now == memory.insert(record.id, record)
            &&& resolved is Ok <==> memory.contains_key(id) && memory[id].state
                == FailureState::Active
            &&& resolved matches Ok(now) ==> now == memory.insert(
                id,
                FailureRecordView { state: FailureState::Resolved, ..memory[id] },
            )
        }),
{
    evidence_is_checked_one_by_one("failure evidence"@, record.evidence);
}

/// Asking for a fingerprint, or for what is active, leaves out nothing that
/// fits and shows nothing else, in order.
pub proof fn failures_are_found(records: Seq<FailureRecord>, fingerprint: Seq<char>)
    ensures
        with_fingerprint(records, fingerprint) == records.filter(
            |record: FailureRecord| record.fingerprint@ == fingerprint,
        ),
        active_among(records) == records.filter(
            |record: FailureRecord| record.state == FailureState::Active,
        ),
    decreases records.len(),
{
    reveal(Seq::filter);
    if records.len() > 0 {
        failures_are_found(records.drop_last(), fingerprint);
    }
}

// ---------------------------------------------------------------------------
// Caches.

/// An observation is added to the record of its key and to no other: it is
/// counted, its tokens are added, and it is the last that is reported unless a
/// later one is known.
pub proof fn observations_are_added_up(
    records: Map<CacheKeyView, CacheRecord>,
    seen: CacheObservationView,
    other: CacheKeyView,
)
    ensures
        ({
            let now = with_observation(records, seen);
            let record = now[seen.key];
            &&& now.contains_key(seen.key)
            &&& other != seen.key ==> (now.contains_key(other) <==> records.contains_key(other))
                && now[other] == records[other]
            &&& !records.contains_key(seen.key) ==> {
                &&& record.observations == 1
                &&& record.total_cached_tokens == seen.observed_cached_tokens
                &&& record.last_cached_tokens == seen.observed_cached_tokens
                &&& record.last_estimated_prefix_tokens == seen.estimated_prefix_tokens
                &&& record.first_observed_at_ms == seen.observed_at_ms
                &&& record.last_observed_at_ms == seen.observed_at_ms
            }
            &&& records.contains_key(seen.key) ==> {
                let before = records[seen.key];
                let total = before.total_cached_tokens + seen.observed_cached_tokens;
                &&& before.observations < u64::MAX ==> record.observations == before.observations
                    + 1
                &&& before.observations == u64::MAX ==> record.observations == u64::MAX
                &&& total <= u64::MAX ==> record.total_cached_tokens == total
                &&& total > u64::MAX ==> record.total_cached_tokens == u64::MAX
                &&& seen.observed_at_ms >= before.last_observed_at_ms ==> {
                    &&& record.last_observed_at_ms == seen.observed_at_ms
                    &&& record.last_cached_tokens == seen.observed_cached_tokens
                    &&& record.last_estimated_prefix_tokens == seen.estimated_prefix_tokens
                }
                &&& seen.observed_at_ms < before.last_observed_at_ms ==> {
                    &&& record.last_observed_at_ms == before.last_observed_at_ms
                    &&& record.last_cached_tokens == before.last_cached_tokens
                    &&& record.last_estimated_prefix_tokens == before.last_estimated_prefix_tokens
                }
                &&& record.first_observed_at_ms == before.first_observed_at_ms
                    || record.first_observed_at_ms == seen.observed_at_ms
                &&& record.first_observed_at_ms <= before.first_observed_at_ms
                &&& record.first_observed_at_ms <= seen.observed_at_ms
            }
        }),
{
}

/// A usage is observed as the provider reported it: nothing where it reports
/// no cache, and an error where more was cached than sent.
pub proof fn usages_are_observed_as_reported(
    model: ModelRefView,
    prefix_hash: Seq<u8>,
    estimated: u64,
    usage: Usage,
    at_ms: u128,
)
    ensures
        match usage.cached_input_tokens {
            None => observation_in(model, prefix_hash, estimated, usage, at_ms) == Ok::<
                Option<CacheObservationView>,
                CacheError,
            >(None),
            Some(cached) => {
                let seen = observation_in(model, prefix_hash, estimated, usage, at_ms);
                &&& cached > usage.input_tokens <==> seen is Err
                &&& seen is Err ==> seen == Err::<Option<CacheObservationView>, CacheError>(
                    CacheError::CachedTokensExceedInput { cached, input: usage.input_tokens },
                )
                &&& seen matches Ok(seen) ==> seen matches Some(seen) && {
                    &&& seen.key.provider == model.provider
                    &&& seen.key.model == model.model
                    &&& seen.key.prefix_hash == prefix_hash
                    &&& seen.estimated_prefix_tokens == estimated
                    &&& seen.observed_cached_tokens == cached
                    &&& seen.observed_at_ms == at_ms
                }
            },
        },
{
}

// ---------------------------------------------------------------------------
// Artifacts.

/// Content is stored exactly where it has a media type, is at most 16 MiB
/// long, and is, where its digest is taken, the same content of the same type.
/// The reference tells of it as it is.
pub proof fn artifacts_are_described_as_stored(
    stored: Map<Seq<u8>, StoredArtifactView>,
    media_type: Seq<char>,
    bytes: Seq<u8>,
    trust: TrustOrigin,
    digest: Seq<u8>,
)
    ensures
        ({
            let result = put_result(stored.get(digest), media_type, bytes, trust, digest);
            let now = after_put(stored, media_type, bytes, trust, digest);
            &&& result is Ok <==> {
                &&& !blank(media_type)
                &&& bytes.len() <= 16777216
                &&& stored.contains_key(digest) ==> stored[digest].bytes == bytes
                    && stored[digest].reference.media_type == media_type
            }
            &&& result matches Ok(reference) ==> {
                &&& reference.media_type == media_type
                &&& !stored.contains_key(digest) ==> reference.content_hash == digest
                    && reference.size_bytes == bytes.len() && reference.trust == trust
                &&& stored.contains_key(digest) ==> {
                    let before = stored[digest].reference;
                    &&& reference.content_hash == before.content_hash
                    &&& reference.size_bytes == before.size_bytes
                    &&& reference.trust == before.trust || reference.trust == trust
                    &&& reference.trust.rank() <= before.trust.rank()
                    &&& reference.trust.rank() <= trust.rank()
                }
                &&& now == stored.insert(digest, StoredArtifactView { reference, bytes })
            }
            &&& result is Err ==> now == stored
        }),
{
}

// ---------------------------------------------------------------------------
// Plugins.

/// A name that says something, in at most 256 bytes.
pub open spec fn fair_name(name: Seq<char>) -> bool {
    !blank(name) && encode_utf8(name).len() <= 256
}

/// The limits allow something, and messages of at most a mebibyte.
pub open spec fn fair_limits(limits: PluginResourceLimits) -> bool {
    &&& 0 < limits.max_message_bytes <= 1048576
    &&& limits.max_memory_bytes > 0
    &&& limits.max_fuel > 0
    &&& limits.max_wall_time_ms > 0
}

/// A resource that says something, in at most 65536 bytes.
pub open spec fn fair_resource(capability: PluginCapabilityView) -> bool {
    fair_text(capability.resource)
}

proof fn capabilities_are_checked_one_by_one(list: Seq<PluginCapabilityView>)
    ensures
        capabilities_refusal(list) is None <==> forall|i: int|
            0 <= i < list.len() ==> fair_resource(#[trigger] list[i]),
    decreases list.len(),
{
    if list.len() > 0 {
        let rest = list.drop_last();
        let last = list.len() - 1;
        capabilities_are_checked_one_by_one(rest);
        assert(capability_refusal(list[last]) is None <==> fair_resource(list[last]));
        if forall|i: int| 0 <= i < list.len() ==> fair_resource(#[trigger] list[i]) {
            assert forall|i: int| 0 <= i < rest.len() implies fair_resource(
                #[trigger] rest[i],
            ) by {
                assert(rest[i] == list[i]);
            }
        }
        if capabilities_refusal(list) is None {
            assert forall|i: int| 0 <= i < list.len() implies fair_resource(#[trigger] list[i]) by {
                if i < last {
                    assert(rest[i] == list[i]);
                }
            }
        }
    }
}

/// A manifest is registered exactly where it has an identity that is new, the
/// protocol's version, a name and a version, at most 64 capabilities that say
/// what they are for, and sound limits, and where fewer than 256 are there.
pub proof fn sound_manifests_are_registered(
    registry: Map<PluginId, PluginManifestView>,
    manifest: PluginManifestView,
)
    ensures
        registration_refusal(registry, manifest) is None <==> {
            &&& manifest.id.0 != 0
            &&& manifest.protocol_version == 1
            &&& fair_name(manifest.name)
            &&& fair_name(manifest.version)
            &&& manifest.capabilities.len() <= 64
            &&& forall|i: int|
                0 <= i < manifest.capabilities.len() ==> fair_resource(
                    #[trigger] manifest.capabilities[i],
                )
            &&& fair_limits(manifest.limits)
            &&& !registry.contains_key(manifest.id)
            &&& registry.len() < 256
        },
{
    capabilities_are_checked_one_by_one(manifest.capabilities);
}

/// Requests and responses are accepted exactly where they carry an identity,
/// requests name a method, and the payload is within the limits, which are
/// sound themselves.
pub proof fn messages_within_limits_are_accepted(
    request_id: u64,
    method: Seq<char>,
    length: nat,
    limits: PluginResourceLimits,
)
    ensures
        request_refusal(request_id, method, length, limits) is None <==> {
            &&& fair_limits(limits)
            &&& request_id != 0
            &&& fair_name(method)
            &&& length <= limits.max_message_bytes
        },
        response_refusal(request_id, length, limits) is None <==> {
            &&& fair_limits(limits)
            &&& request_id != 0
            &&& length <= limits.max_message_bytes
        },
{
}

/// The manifest is of the kind that is asked for, if one is, and its name
/// begins with the prefix.
pub open spec fn asked_for(
    manifest: PluginManifestView,
    kind: Option<PluginKind>,
    prefix: Seq<char>,
) -> bool {
    &&& kind is None || kind == Some(manifest.kind)
    &&& prefix.len() <= manifest.name.len()
    &&& forall|i: int| 0 <= i < prefix.len() ==> #[trigger] manifest.name[i] == prefix[i]
}

proof fn wanted_ones_are_asked_for(
    registry: Map<PluginId, PluginManifestView>,
    ids: Seq<PluginId>,
    kind: Option<PluginKind>,
    prefix: Seq<char>,
)
    ensures
        wanted_among(registry, ids, kind, prefix) == ids.filter(
            |id: PluginId| asked_for(registry[id], kind, prefix),
        ).map_values(|id: PluginId| registry[id]),
    decreases ids.len(),
{
    reveal(Seq::filter);
    let chosen = ids.filter(|id: PluginId| asked_for(registry[id], kind, prefix));
    if ids.len() == 0 {
        assert(chosen.map_values(|id: PluginId| registry[id])
            =~= Seq::<PluginManifestView>::empty());
    } else {
        let rest = ids.drop_last();
        let last = ids.last();
        wanted_ones_are_asked_for(registry, rest, kind, prefix);
        let early = rest.filter(|id: PluginId| asked_for(registry[id], kind, prefix));
        let name = registry[last].name;
        assert(crate::scan::begins_with(name, prefix) <==> prefix.len() <= name.len() && (forall|
            i: int,
        |
            0 <= i < prefix.len() ==> #[trigger] name[i] == prefix[i])) by {
            if prefix.len() <= name.len() {
                let front = name.take(prefix.len() as int);
                if front == prefix {
                    assert forall|i: int| 0 <= i < prefix.len() implies #[trigger] name[i]
                        == prefix[i] by {
                        assert(front[i] == prefix[i]);
                    }
                }
                if forall|i: int| 0 <= i < prefix.len() ==> #[trigger] name[i] == prefix[i] {
                    assert(front =~= prefix);
                }
            }
        }
        if asked_for(registry[last], kind, prefix) {
            assert(chosen == early.push(last));
            assert(chosen.map_values(|id: PluginId| registry[id]) =~= early.map_values(
                |id: PluginId| registry[id],
            ).push(registry[last]));
        } else {
            assert(chosen == early);
        }
    }
}

/// A search of the registry shows exactly the manifests of the kind whose
/// names begin with the prefix, in ascending order of identity.
pub proof fn searches_show_what_is_asked_for(
    registry: Map<PluginId, PluginManifestView>,
    kind: Option<PluginKind>,
    prefix: Seq<char>,
)
    requires
        registry.dom().finite(),
    ensures
        ({
            let ids = listing::<PluginId, PluginManifestView>(registry);
            &&& wanted_among(registry, ids, kind, prefix) == ids.filter(
                |id: PluginId| asked_for(registry[id], kind, prefix),
            ).map_values(|id: PluginId| registry[id])
            &&& forall|i: int, j: int|
                0 <= i < j < ids.len() ==> (#[trigger] ids[i]).0 < (#[trigger] ids[j]).0
            &&& forall|id: PluginId| #[trigger] ids.contains(id) <==> registry.contains_key(id)
        }),
{
    let ids = listing::<PluginId, PluginManifestView>(registry);
    finite_maps_have_listings::<PluginId, PluginManifestView>(registry);
    wanted_ones_are_asked_for(registry, ids, kind, prefix);
    assert forall|i: int, j: int| 0 <= i < j < ids.len() implies (#[trigger] ids[i]).0 < (
    #[trigger] ids[j]).0 by {
        assert(PluginId::before(ids[i], ids[j]));
    }
    assert forall|id: PluginId| #[trigger] ids.contains(id) <==> registry.contains_key(id) by {
        if ids.contains(id) {
            let i = choose|i: int| 0 <= i < ids.len() && ids[i] == id;
            assert(registry.contains_key(ids[i]));
        }
    }
}

// ---------------------------------------------------------------------------
// Messages.

/// The message says everything that it is there to say, within bounds.
pub open spec fn speaks(message: IpcMessageView) -> bool {
    match message {
        IpcMessageView::Question { subject, why } => fair_text(subject) && fair_text(why),
        IpcMessageView::Answer { subject, value, revision, evidence } => fair_text(subject)
            && fair_text(value) && fair_texts(evidence) && (revision is None || fair_text(
            revision->0,
        )),
        IpcMessageView::Assumption { subject, normalized_value, claim, evidence } => fair_text(
            subject,
        ) && fair_text(normalized_value) && fair_text(claim) && fair_texts(evidence),
        IpcMessageView::Decision { subject, value, rationale } => fair_text(subject) && fair_text(
            value,
        ) && fair_text(rationale),
        IpcMessageView::Conflict { subject, left, right, affected } => fair_text(subject)
            && fair_text(left) && fair_text(right) && fair_texts(affected),
        IpcMessageView::Blocked { reason } => fair_text(reason),
        IpcMessageView::Progress { summary, completed_millis } => fair_text(summary)
            && completed_millis <= 1000,
        IpcMessageView::Artifact { reference, description } => fair_text(reference) && fair_text(
            description,
        ),
        IpcMessageView::ReviewRequest { subject, instructions } => fair_text(subject) && fair_text(
            instructions,
        ),
        IpcMessageView::Warning { subject, message } => fair_text(subject) && fair_text(message),
        IpcMessageView::Handoff { summary } => fair_text(summary),
        IpcMessageView::ContractUpdate { subject, revision, value } => fair_text(subject)
            && fair_text(revision) && fair_text(value),
        IpcMessageView::OwnershipRequest { resource, reason } => fair_text(resource) && fair_text(
            reason,
        ),
    }
}

/// Where an outside provenance says it comes from.
pub open spec fn said_source(provenance: IpcProvenanceView) -> Option<Seq<char>> {
    match provenance {
        IpcProvenanceView::External { source } => Some(source),
        IpcProvenanceView::RemoteAgent { source } => Some(source),
        IpcProvenanceView::WebUntrusted { source } => Some(source),
        IpcProvenanceView::McpMetadata { source } => Some(source),
        IpcProvenanceView::McpResult { source } => Some(source),
        _ => None,
    }
}

proof fn lists_are_checked_one_by_one(field: Seq<char>, list: Seq<Seq<char>>)
    ensures
        ipc::texts_check(field, list) is Ok <==> forall|i: int|
            0 <= i < list.len() ==> fair_text(#[trigger] list[i]),
    decreases list.len(),
{
    if list.len() > 0 {
        let rest = list.drop_last();
        let last = list.len() - 1;
        lists_are_checked_one_by_one(field, rest);
        if forall|i: int| 0 <= i < list.len() ==> fair_text(#[trigger] list[i]) {
            assert forall|i: int| 0 <= i < rest.len() implies fair_text(#[trigger] rest[i]) by {
                assert(rest[i] == list[i]);
            }
            assert(fair_text(list[last]));
        }
        if ipc::texts_check(field, list) is Ok {
            assert forall|i: int| 0 <= i < list.len() implies fair_text(#[trigger] list[i]) by {
                if i < last {
                    assert(rest[i] == list[i]);
                }
            }
        }
    }
}

proof fn lists_are_checked(field: Seq<char>, list: Seq<Seq<char>>)
    ensures
        ipc::text_list_check(field, list) is Ok <==> fair_texts(list),
{
    lists_are_checked_one_by_one(field, list);
}

/// A message is valid exactly where it says what it is there to say: none of
/// its texts is blank or too long, its lists are short, and progress is at
/// most whole.
#[verifier::spinoff_prover]
pub proof fn valid_messages_speak(message: IpcMessageView)
    ensures
        ipc::message_check(message) is Ok <==> speaks(message),
{
    match message {
        IpcMessageView::Answer { evidence, .. } => {
            lists_are_checked("answer evidence"@, evidence);
        },
        IpcMessageView::Assumption { evidence, .. } => {
            lists_are_checked("assumption evidence"@, evidence);
        },
        IpcMessageView::Conflict { affected, .. } => {
            lists_are_checked("conflict affected"@, affected);
        },
        _ => {},
    }
}

/// An envelope is valid exactly where its message is, the source that it names
/// says something, and it names at most 32 causes and 32 origins.
pub proof fn valid_envelopes_say_something(envelope: IpcEnvelopeView)
    ensures
        envelope_check(envelope) is Ok <==> {
            &&& envelope.causal_event_ids.len() <= 32
            &&& envelope.input_origins.len() <= 32
            &&& said_source(envelope.provenance) matches Some(source) ==> fair_text(source)
            &&& ipc::message_check(envelope.payload) is Ok
        },
{
}

/// How far a message is trusted for where it comes from.
pub proof fn provenance_decides_trust(provenance: IpcProvenanceView)
    ensures
        provenance.origin() == TrustOrigin::Runtime <==> provenance is Runtime,
        provenance.origin() == TrustOrigin::Generated <==> provenance is Agent,
        provenance.origin() == TrustOrigin::UserProvided <==> provenance is User,
        provenance.origin() == TrustOrigin::TrustedProject <==> provenance is TrustedProject,
        provenance.origin() == TrustOrigin::External <==> provenance is External,
        provenance.origin() == TrustOrigin::RemoteAgent <==> provenance is RemoteAgent,
        provenance.origin() == TrustOrigin::WebUntrusted <==> provenance is WebUntrusted,
        provenance.origin() == TrustOrigin::McpMetadata <==> provenance is McpMetadata,
        provenance.origin() == TrustOrigin::McpResult <==> provenance is McpResult,
{
}

// ---------------------------------------------------------------------------
// Histories.

/// What is rebuilt from a history follows its events one by one: an event that
/// carries a transition of that kind applies it, or refuses the history where
/// it cannot be read or applied; any other event changes nothing.
pub proof fn histories_are_followed_event_by_event(before: Seq<EventView>, event: EventView)
    ensures
        ({
            let claims = assumptions::replayed(before);
            let now = assumptions::replayed(before.push(event));
            match event.kind {
                EventKindView::AssumptionTransition { version, payload } => {
                    now is Ok <==> {
                        &&& claims is Ok
                        &&& assumptions::decoded(version, payload) is Ok
                        &&& assumptions::applied(
                            claims->Ok_0,
                            assumptions::decoded(version, payload)->Ok_0,
                        ).1 is Ok
                    }
                },
                _ => now == claims,
            }
        }),
        event.kind matches EventKindView::AssumptionTransition { version, payload } ==> (
        assumptions::replayed(before.push(event)) matches Ok(now) ==> now == assumptions::applied(
            assumptions::replayed(before)->Ok_0,
            assumptions::decoded(version, payload)->Ok_0,
        ).0),
        ({
            let memory = failure_memory::replayed(before);
            let now = failure_memory::replayed(before.push(event));
            match event.kind {
                EventKindView::FailureMemoryTransition { version, payload } => {
                    &&& now is Ok <==> {
                        &&& memory is Ok
                        &&& failure_memory::decoded(version, payload) is Ok
                        &&& failure_memory::applied(
                            memory->Ok_0,
                            failure_memory::decoded(version, payload)->Ok_0,
                        ) is Ok
                    }
                    &&& now is Ok ==> now == failure_memory::applied(
                        memory->Ok_0,
                        failure_memory::decoded(version, payload)->Ok_0,
                    )
                },
                _ => now == memory,
            }
        }),
        ({
            let log = transitions_in(before);
            let now = transitions_in(before.push(event));
            match event.kind {
                EventKindView::ContextTransition { version, payload } => {
                    &&& now is Ok <==> log is Ok && context_codec::decoded(version, payload) is Ok
                    &&& now matches Ok(now) ==> now == log->Ok_0.push(
                        context_codec::decoded(version, payload)->Ok_0,
                    )
                },
                _ => now == log,
            }
        }),
{
    assert(before.push(event).drop_last() =~= before);
}

} // verus!
