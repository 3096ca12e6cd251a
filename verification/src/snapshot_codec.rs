//! The durable encoding of a run's projected state.

use vstd::prelude::*;
use vstd::string::StringExecFns;
use vstd::utf8::encode_utf8;

use crate::artifact::{
    hex_text, push_hex_bytes, ArtifactErrorView, ArtifactRef, ArtifactRefView, ContentHash,
};
use crate::codec::{
    blob32_bytes, concat_is_associative, get_bytes, get_u32, get_u32_of_bytes, get_u64,
    get_u64_of_bytes, get_u8, get_u8_of_bytes, group_codec, optional_u64_bytes, outcome, parsed,
    put_array, put_bytes, put_optional_u64, put_u32, put_u64, put_u8, regroup1, regroup2, regroup3,
    regroup4, text_from, text_of, u32_bytes, u64_bytes, u8_bytes, Reader,
};
use crate::event_codec::{
    class_bytes, identity_bytes, model_bytes, text_bytes, text_within, trust_byte, trust_from_byte,
    trust_tag,
};
use crate::ids::{id_text, AgentId, RunId, TaskId};
use crate::kernel::{
    AgentIdentity, AgentIdentityView, ModelClass, ModelClassView, ModelRef, ModelRefView,
    TrustOrigin, Usage,
};
use crate::keys::same_bytes;
use crate::state::{
    phrase, AgentState, AgentStateView, AgentStatus, RunStatus, RuntimeState, RuntimeStateView,
    TaskState, TaskStateView, TaskStatus,
};
use crate::table::{entry_in_map, map_entry_has_index, Key, Table};
use crate::text::{decimal, numbered};

verus! {

pub const MAX_SNAPSHOT_ITEMS: u32 = 1000000;

// ---------------------------------------------------------------------------
// What the bytes of a state are.

/// A state with its tasks, agents and artifacts listed in key order.
pub struct StateListing {
    pub run_id: RunId,
    pub status: RunStatus,
    pub events_applied: u64,
    pub tasks: Seq<TaskStateView>,
    pub agents: Seq<AgentStateView>,
    pub artifacts: Seq<ArtifactRefView>,
}

pub open spec fn task_views(list: Seq<TaskState>) -> Seq<TaskStateView> {
    list.map_values(|task: TaskState| task@)
}

pub open spec fn agent_views(list: Seq<AgentState>) -> Seq<AgentStateView> {
    list.map_values(|agent: AgentState| agent@)
}

pub open spec fn artifact_views(list: Seq<ArtifactRef>) -> Seq<ArtifactRefView> {
    list.map_values(|artifact: ArtifactRef| artifact@)
}

pub open spec fn listing_of(state: RuntimeState) -> StateListing {
    StateListing {
        run_id: state.run_id,
        status: state.status,
        events_applied: state.events_applied,
        tasks: task_views(state.tasks.values()),
        agents: agent_views(state.agents.values()),
        artifacts: artifact_views(state.artifacts.values()),
    }
}

pub open spec fn run_status_byte(status: RunStatus) -> u8 {
    match status {
        RunStatus::Active => 0,
        RunStatus::Completed => 1,
        RunStatus::Cancelled => 2,
        RunStatus::Failed => 3,
    }
}

pub open spec fn task_status_byte(status: TaskStatus) -> u8 {
    match status {
        TaskStatus::Created => 0,
    }
}

pub open spec fn agent_status_byte(status: AgentStatus) -> u8 {
    match status {
        AgentStatus::Created => 0,
        AgentStatus::Running => 1,
        AgentStatus::Completed => 2,
        AgentStatus::Cancelled => 3,
        AgentStatus::Failed => 4,
        AgentStatus::Paused => 5,
    }
}

pub open spec fn task_bytes(task: TaskStateView) -> Seq<u8> {
    u64_bytes(task.id.0) + u64_bytes(task.run_id.0) + text_bytes(task.title) + u8_bytes(
        task_status_byte(task.status),
    )
}

/// Status, chunks and usage of an agent.
pub open spec fn progress_bytes(agent: AgentStateView) -> Seq<u8> {
    u8_bytes(agent_status_byte(agent.status)) + u32_bytes(agent.chunks_received) + u64_bytes(
        agent.usage.input_tokens,
    ) + u64_bytes(agent.usage.output_tokens) + optional_u64_bytes(agent.usage.cached_input_tokens)
}

/// An agent: its logical identity, then the model it effectively uses.
pub open spec fn agent_bytes(agent: AgentStateView) -> Seq<u8> {
    identity_bytes(agent.identity) + model_bytes(agent.model) + progress_bytes(agent)
}

pub open spec fn reference_bytes(artifact: ArtifactRefView) -> Seq<u8> {
    artifact.content_hash + u64_bytes(artifact.size_bytes) + text_bytes(artifact.media_type)
        + u8_bytes(trust_byte(artifact.trust))
}

pub open spec fn tasks_bytes(list: Seq<TaskStateView>) -> Seq<u8>
    decreases list.len(),
{
    if list.len() == 0 {
        seq![]
    } else {
        tasks_bytes(list.drop_last()) + task_bytes(list.last())
    }
}

pub open spec fn agents_bytes(list: Seq<AgentStateView>) -> Seq<u8>
    decreases list.len(),
{
    if list.len() == 0 {
        seq![]
    } else {
        agents_bytes(list.drop_last()) + agent_bytes(list.last())
    }
}

pub open spec fn references_bytes(list: Seq<ArtifactRefView>) -> Seq<u8>
    decreases list.len(),
{
    if list.len() == 0 {
        seq![]
    } else {
        references_bytes(list.drop_last()) + reference_bytes(list.last())
    }
}

pub open spec fn magic(version: int) -> Seq<u8> {
    if version == 4 {
        encode_utf8("ORYNTH-SNAPSHOT-4\n"@)
    } else if version == 3 {
        encode_utf8("ORYNTH-SNAPSHOT-3\n"@)
    } else if version == 2 {
        encode_utf8("ORYNTH-SNAPSHOT-2\n"@)
    } else {
        encode_utf8("ORYNTH-SNAPSHOT-1\n"@)
    }
}

pub open spec fn head_bytes(listing: StateListing) -> Seq<u8> {
    u64_bytes(listing.run_id.0) + u8_bytes(run_status_byte(listing.status)) + u64_bytes(
        listing.events_applied,
    )
}

pub open spec fn task_list_bytes(list: Seq<TaskStateView>) -> Seq<u8> {
    u32_bytes(list.len() as u32) + tasks_bytes(list)
}

pub open spec fn agent_list_bytes(list: Seq<AgentStateView>) -> Seq<u8> {
    u32_bytes(list.len() as u32) + agents_bytes(list)
}

pub open spec fn reference_list_bytes(list: Seq<ArtifactRefView>) -> Seq<u8> {
    u32_bytes(list.len() as u32) + references_bytes(list)
}

pub open spec fn state_bytes(listing: StateListing) -> Seq<u8> {
    magic(4) + head_bytes(listing) + task_list_bytes(listing.tasks) + agent_list_bytes(
        listing.agents,
    ) + reference_list_bytes(listing.artifacts)
}

// ---------------------------------------------------------------------------
// Which states can be written.

pub open spec fn text_ok(text: Seq<char>) -> bool {
    text_within(text, u32::MAX as int)
}

pub open spec fn model_ok(model: ModelRefView) -> bool {
    text_ok(model.provider) && text_ok(model.model) && match model.class {
        ModelClassView::Custom(name) => text_ok(name),
        _ => true,
    }
}

pub open spec fn agent_ok(agent: AgentStateView) -> bool {
    text_ok(agent.identity.name) && text_ok(agent.identity.mission) && model_ok(
        agent.identity.model,
    ) && model_ok(agent.model)
}

pub open spec fn tasks_ok(list: Seq<TaskStateView>) -> bool {
    forall|i: int| 0 <= i < list.len() ==> text_ok((#[trigger] list[i]).title)
}

pub open spec fn agents_ok(list: Seq<AgentStateView>) -> bool {
    forall|i: int| 0 <= i < list.len() ==> agent_ok(#[trigger] list[i])
}

pub open spec fn references_ok(list: Seq<ArtifactRefView>) -> bool {
    forall|i: int| 0 <= i < list.len() ==> text_ok((#[trigger] list[i]).media_type)
}

/// What encoding a state yields: lists and texts must fit their lengths.
pub open spec fn encoded(listing: StateListing) -> Result<Seq<u8>, Seq<char>> {
    if listing.tasks.len() > u32::MAX {
        Err("snapshot collection is too large"@)
    } else if !tasks_ok(listing.tasks) {
        Err("snapshot string is too large"@)
    } else if listing.agents.len() > u32::MAX {
        Err("snapshot collection is too large"@)
    } else if !agents_ok(listing.agents) {
        Err("snapshot string is too large"@)
    } else if listing.artifacts.len() > u32::MAX {
        Err("snapshot collection is too large"@)
    } else if !references_ok(listing.artifacts) {
        Err("snapshot string is too large"@)
    } else {
        Ok(state_bytes(listing))
    }
}

// ---------------------------------------------------------------------------
// What reading bytes as a state yields.

/// What an encoding carries: older ones lack the cached token counts, the
/// artifact trust, or the effective model of an agent.
#[derive(Clone, Copy, Debug, PartialEq, Eq, Structural)]
pub struct SnapshotFeatures {
    pub has_cache_usage: bool,
    pub has_artifact_trust: bool,
    pub has_effective_model: bool,
}

pub open spec fn features_of(version: int) -> SnapshotFeatures {
    SnapshotFeatures {
        has_cache_usage: version >= 2,
        has_artifact_trust: version >= 3,
        has_effective_model: version >= 4,
    }
}

pub open spec fn get_features(bytes: Seq<u8>) -> Result<(SnapshotFeatures, Seq<u8>), Seq<char>> {
    match get_bytes(bytes, 18) {
        None => Err("snapshot magic is invalid"@),
        Some((front, rest)) => if front == magic(4) {
            Ok((features_of(4), rest))
        } else if front == magic(3) {
            Ok((features_of(3), rest))
        } else if front == magic(2) {
            Ok((features_of(2), rest))
        } else if front == magic(1) {
            Ok((features_of(1), rest))
        } else {
            Err("snapshot magic is invalid"@)
        },
    }
}

pub open spec fn cut_off() -> Seq<char> {
    "snapshot is truncated"@
}

#[verifier::opaque]
pub open spec fn get_text(bytes: Seq<u8>) -> Result<(Seq<char>, Seq<u8>), Seq<char>> {
    match get_u32(bytes) {
        None => Err(cut_off()),
        Some((length, rest)) => match get_bytes(rest, length as nat) {
            None => Err(cut_off()),
            Some((front, rest)) => match text_of(front) {
                Some(text) => Ok((text, rest)),
                None => Err("snapshot contains invalid UTF-8"@),
            },
        },
    }
}

pub open spec fn get_count(bytes: Seq<u8>) -> Result<(u32, Seq<u8>), Seq<char>> {
    match get_u32(bytes) {
        None => Err(cut_off()),
        Some((count, rest)) => if count > MAX_SNAPSHOT_ITEMS {
            Err("snapshot collection count "@ + decimal(count as nat) + " is too large"@)
        } else {
            Ok((count, rest))
        },
    }
}

pub open spec fn get_run_status(bytes: Seq<u8>) -> Result<(RunStatus, Seq<u8>), Seq<char>> {
    match get_u8(bytes) {
        None => Err(cut_off()),
        Some((tag, rest)) => if tag == 0 {
            Ok((RunStatus::Active, rest))
        } else if tag == 1 {
            Ok((RunStatus::Completed, rest))
        } else if tag == 2 {
            Ok((RunStatus::Cancelled, rest))
        } else if tag == 3 {
            Ok((RunStatus::Failed, rest))
        } else {
            Err("unknown run status tag "@ + decimal(tag as nat))
        },
    }
}

pub open spec fn get_task_status(bytes: Seq<u8>) -> Result<(TaskStatus, Seq<u8>), Seq<char>> {
    match get_u8(bytes) {
        None => Err(cut_off()),
        Some((tag, rest)) => if tag == 0 {
            Ok((TaskStatus::Created, rest))
        } else {
            Err("unknown task status tag "@ + decimal(tag as nat))
        },
    }
}

pub open spec fn get_agent_status(bytes: Seq<u8>) -> Result<(AgentStatus, Seq<u8>), Seq<char>> {
    match get_u8(bytes) {
        None => Err(cut_off()),
        Some((tag, rest)) => if tag == 0 {
            Ok((AgentStatus::Created, rest))
        } else if tag == 1 {
            Ok((AgentStatus::Running, rest))
        } else if tag == 2 {
            Ok((AgentStatus::Completed, rest))
        } else if tag == 3 {
            Ok((AgentStatus::Cancelled, rest))
        } else if tag == 4 {
            Ok((AgentStatus::Failed, rest))
        } else if tag == 5 {
            Ok((AgentStatus::Paused, rest))
        } else {
            Err("unknown agent status tag "@ + decimal(tag as nat))
        },
    }
}

pub open spec fn get_task(bytes: Seq<u8>) -> Result<(TaskStateView, Seq<u8>), Seq<char>> {
    match get_u64(bytes) {
        None => Err(cut_off()),
        Some((id, rest)) => match get_u64(rest) {
            None => Err(cut_off()),
            Some((run_id, rest)) => match get_text(rest) {
                Err(message) => Err(message),
                Ok((title, rest)) => match get_task_status(rest) {
                    Err(message) => Err(message),
                    Ok((status, rest)) => Ok(
                        (
                            TaskStateView {
                                id: TaskId(id),
                                run_id: RunId(run_id),
                                title,
                                status,
                            },
                            rest,
                        ),
                    ),
                },
            },
        },
    }
}

pub open spec fn get_class(bytes: Seq<u8>) -> Result<(ModelClassView, Seq<u8>), Seq<char>> {
    match get_u8(bytes) {
        None => Err(cut_off()),
        Some((tag, rest)) => if tag == 0 {
            Ok((ModelClassView::Local, rest))
        } else if tag == 1 {
            Ok((ModelClassView::Cheap, rest))
        } else if tag == 2 {
            Ok((ModelClassView::Strong, rest))
        } else if tag == 3 {
            match get_text(rest) {
                Err(message) => Err(message),
                Ok((name, rest)) => Ok((ModelClassView::Custom(name), rest)),
            }
        } else {
            Err("unknown model class tag "@ + decimal(tag as nat))
        },
    }
}

pub open spec fn get_model(bytes: Seq<u8>) -> Result<(ModelRefView, Seq<u8>), Seq<char>> {
    match get_text(bytes) {
        Err(message) => Err(message),
        Ok((provider, rest)) => match get_text(rest) {
            Err(message) => Err(message),
            Ok((model, rest)) => match get_class(rest) {
                Err(message) => Err(message),
                Ok((class, rest)) => Ok((ModelRefView { provider, model, class }, rest)),
            },
        },
    }
}

pub open spec fn get_identity(bytes: Seq<u8>) -> Result<
    (AgentIdentityView, Seq<u8>),
    Seq<char>,
> {
    match get_u64(bytes) {
        None => Err(cut_off()),
        Some((id, rest)) => match get_text(rest) {
            Err(message) => Err(message),
            Ok((name, rest)) => match get_text(rest) {
                Err(message) => Err(message),
                Ok((mission, rest)) => match get_model(rest) {
                    Err(message) => Err(message),
                    Ok((model, rest)) => Ok(
                        (AgentIdentityView { id: AgentId(id), name, mission, model }, rest),
                    ),
                },
            },
        },
    }
}

/// The effective model; older encodings mean the model of the identity.
pub open spec fn get_effective_model(
    features: SnapshotFeatures,
    identity: AgentIdentityView,
    bytes: Seq<u8>,
) -> Result<(ModelRefView, Seq<u8>), Seq<char>> {
    if features.has_effective_model {
        get_model(bytes)
    } else {
        Ok((identity.model, bytes))
    }
}

pub open spec fn get_cached(features: SnapshotFeatures, bytes: Seq<u8>) -> Result<
    (Option<u64>, Seq<u8>),
    Seq<char>,
> {
    if !features.has_cache_usage {
        Ok((None, bytes))
    } else {
        match get_u8(bytes) {
            None => Err(cut_off()),
            Some((tag, rest)) => if tag == 0 {
                Ok((None, rest))
            } else if tag == 1 {
                match get_u64(rest) {
                    None => Err(cut_off()),
                    Some((cached, rest)) => Ok((Some(cached), rest)),
                }
            } else {
                Err("unknown cached usage tag "@ + decimal(tag as nat))
            },
        }
    }
}

pub open spec fn get_usage(features: SnapshotFeatures, bytes: Seq<u8>) -> Result<
    (Usage, Seq<u8>),
    Seq<char>,
> {
    match get_u64(bytes) {
        None => Err(cut_off()),
        Some((input_tokens, rest)) => match get_u64(rest) {
            None => Err(cut_off()),
            Some((output_tokens, rest)) => match get_cached(features, rest) {
                Err(message) => Err(message),
                Ok((cached_input_tokens, rest)) => Ok(
                    (Usage { input_tokens, output_tokens, cached_input_tokens }, rest),
                ),
            },
        },
    }
}

/// Status, chunks and usage, behind identity and model.
pub open spec fn get_progress(
    features: SnapshotFeatures,
    identity: AgentIdentityView,
    model: ModelRefView,
    bytes: Seq<u8>,
) -> Result<(AgentStateView, Seq<u8>), Seq<char>> {
    match get_agent_status(bytes) {
        Err(message) => Err(message),
        Ok((status, rest)) => match get_u32(rest) {
            None => Err(cut_off()),
            Some((chunks_received, rest)) => match get_usage(features, rest) {
                Err(message) => Err(message),
                Ok((usage, rest)) => Ok(
                    (AgentStateView { identity, status, model, chunks_received, usage }, rest),
                ),
            },
        },
    }
}

pub open spec fn get_agent(features: SnapshotFeatures, bytes: Seq<u8>) -> Result<
    (AgentStateView, Seq<u8>),
    Seq<char>,
> {
    match get_identity(bytes) {
        Err(message) => Err(message),
        Ok((identity, rest)) => match get_effective_model(features, identity, rest) {
            Err(message) => Err(message),
            Ok((model, rest)) => get_progress(features, identity, model, rest),
        },
    }
}

pub open spec fn get_reference_trust(features: SnapshotFeatures, bytes: Seq<u8>) -> Result<
    (TrustOrigin, Seq<u8>),
    Seq<char>,
> {
    if !features.has_artifact_trust {
        Ok((TrustOrigin::Generated, bytes))
    } else {
        match get_u8(bytes) {
            None => Err(cut_off()),
            Some((tag, rest)) => match trust_from_byte(tag) {
                Ok(trust) => Ok((trust, rest)),
                Err(_) => Err(
                    ArtifactErrorView::Corrupt(
                        "unknown artifact trust tag "@ + decimal(tag as nat),
                    ).text(),
                ),
            },
        }
    }
}

pub open spec fn get_reference(features: SnapshotFeatures, bytes: Seq<u8>) -> Result<
    (ArtifactRefView, Seq<u8>),
    Seq<char>,
> {
    match get_bytes(bytes, 32) {
        None => Err(cut_off()),
        Some((content_hash, rest)) => match get_u64(rest) {
            None => Err(cut_off()),
            Some((size_bytes, rest)) => match get_text(rest) {
                Err(message) => Err(message),
                Ok((media_type, rest)) => match get_reference_trust(features, rest) {
                    Err(message) => Err(message),
                    Ok((trust, rest)) => Ok(
                        (ArtifactRefView { content_hash, size_bytes, media_type, trust }, rest),
                    ),
                },
            },
        },
    }
}

/// `count` more tasks beside those of `tasks`; none may come twice.
pub open spec fn get_tasks(
    tasks: Map<TaskId, TaskStateView>,
    count: nat,
    bytes: Seq<u8>,
) -> Result<(Map<TaskId, TaskStateView>, Seq<u8>), Seq<char>>
    decreases count,
{
    if count == 0 {
        Ok((tasks, bytes))
    } else {
        match get_task(bytes) {
            Err(message) => Err(message),
            Ok((task, rest)) => if tasks.contains_key(task.id) {
                Err("duplicate task "@ + id_text("task"@, task.id.0) + " in snapshot"@)
            } else {
                get_tasks(tasks.insert(task.id, task), (count - 1) as nat, rest)
            },
        }
    }
}

pub open spec fn get_agents(
    features: SnapshotFeatures,
    agents: Map<AgentId, AgentStateView>,
    count: nat,
    bytes: Seq<u8>,
) -> Result<(Map<AgentId, AgentStateView>, Seq<u8>), Seq<char>>
    decreases count,
{
    if count == 0 {
        Ok((agents, bytes))
    } else {
        match get_agent(features, bytes) {
            Err(message) => Err(message),
            Ok((agent, rest)) => if agents.contains_key(agent.identity.id) {
                Err("duplicate agent "@ + id_text("agent"@, agent.identity.id.0) + " in snapshot"@)
            } else {
                get_agents(
                    features,
                    agents.insert(agent.identity.id, agent),
                    (count - 1) as nat,
                    rest,
                )
            },
        }
    }
}

pub open spec fn get_references(
    features: SnapshotFeatures,
    artifacts: Map<Seq<u8>, ArtifactRefView>,
    count: nat,
    bytes: Seq<u8>,
) -> Result<(Map<Seq<u8>, ArtifactRefView>, Seq<u8>), Seq<char>>
    decreases count,
{
    if count == 0 {
        Ok((artifacts, bytes))
    } else {
        match get_reference(features, bytes) {
            Err(message) => Err(message),
            Ok((artifact, rest)) => if artifacts.contains_key(artifact.content_hash) {
                Err("duplicate artifact "@ + hex_text(artifact.content_hash) + " in snapshot"@)
            } else {
                get_references(
                    features,
                    artifacts.insert(artifact.content_hash, artifact),
                    (count - 1) as nat,
                    rest,
                )
            },
        }
    }
}

pub open spec fn get_task_list(bytes: Seq<u8>) -> Result<
    (Map<TaskId, TaskStateView>, Seq<u8>),
    Seq<char>,
> {
    match get_count(bytes) {
        Err(message) => Err(message),
        Ok((count, rest)) => get_tasks(Map::empty(), count as nat, rest),
    }
}

pub open spec fn get_agent_list(features: SnapshotFeatures, bytes: Seq<u8>) -> Result<
    (Map<AgentId, AgentStateView>, Seq<u8>),
    Seq<char>,
> {
    match get_count(bytes) {
        Err(message) => Err(message),
        Ok((count, rest)) => get_agents(features, Map::empty(), count as nat, rest),
    }
}

pub open spec fn get_reference_list(features: SnapshotFeatures, bytes: Seq<u8>) -> Result<
    (Map<Seq<u8>, ArtifactRefView>, Seq<u8>),
    Seq<char>,
> {
    match get_count(bytes) {
        Err(message) => Err(message),
        Ok((count, rest)) => get_references(features, Map::empty(), count as nat, rest),
    }
}

/// The lists of a state, behind its head.
pub open spec fn get_lists(
    features: SnapshotFeatures,
    run_id: RunId,
    status: RunStatus,
    events_applied: u64,
    bytes: Seq<u8>,
) -> Result<(RuntimeStateView, Seq<u8>), Seq<char>> {
    match get_task_list(bytes) {
        Err(message) => Err(message),
        Ok((tasks, rest)) => match get_agent_list(features, rest) {
            Err(message) => Err(message),
            Ok((agents, rest)) => match get_reference_list(features, rest) {
                Err(message) => Err(message),
                Ok((artifacts, rest)) => Ok(
                    (
                        RuntimeStateView {
                            run_id,
                            status,
                            tasks,
                            agents,
                            artifacts,
                            events_applied,
                        },
                        rest,
                    ),
                ),
            },
        },
    }
}

pub open spec fn get_state(bytes: Seq<u8>) -> Result<(RuntimeStateView, Seq<u8>), Seq<char>> {
    match get_features(bytes) {
        Err(message) => Err(message),
        Ok((features, rest)) => match get_u64(rest) {
            None => Err(cut_off()),
            Some((run_id, rest)) => match get_run_status(rest) {
                Err(message) => Err(message),
                Ok((status, rest)) => match get_u64(rest) {
                    None => Err(cut_off()),
                    Some((events_applied, rest)) => get_lists(
                        features,
                        RunId(run_id),
                        status,
                        events_applied,
                        rest,
                    ),
                },
            },
        },
    }
}

/// What a whole encoded state means, or why it means nothing.
pub open spec fn decoded(bytes: Seq<u8>) -> Result<RuntimeStateView, Seq<char>> {
    match get_state(bytes) {
        Err(message) => Err(message),
        Ok((state, rest)) => if rest.len() != 0 {
            Err("snapshot has trailing bytes"@)
        } else {
            Ok(state)
        },
    }
}

// ---------------------------------------------------------------------------
// Writing.

fn put_text(out: &mut Vec<u8>, value: &str) -> (result: Result<(), String>)
    ensures
        match result {
            Ok(_) => text_ok(value@) && final(out)@ == old(out)@ + text_bytes(value@),
            Err(message) => !text_ok(value@) && message@ == "snapshot string is too large"@,
        },
{
    match crate::event_codec::put_text(out, value) {
        Ok(_) => Ok(()),
        Err(_) => Err("snapshot string is too large".to_owned()),
    }
}

fn put_model(out: &mut Vec<u8>, model: &ModelRef) -> (result: Result<(), String>)
    ensures
        match result {
            Ok(_) => model_ok(model@) && final(out)@ == old(out)@ + model_bytes(model@),
            Err(message) => !model_ok(model@) && message@ == "snapshot string is too large"@,
        },
{
    match crate::event_codec::put_model(out, model) {
        Ok(_) => Ok(()),
        Err(_) => Err("snapshot string is too large".to_owned()),
    }
}

fn put_count(out: &mut Vec<u8>, count: usize) -> (result: Result<(), String>)
    ensures
        match result {
            Ok(_) => count <= u32::MAX && final(out)@ == old(out)@ + u32_bytes(count as u32),
            Err(message) => count > u32::MAX && message@ == "snapshot collection is too large"@,
        },
{
    if count > 4294967295 {
        return Err("snapshot collection is too large".to_owned());
    }
    put_u32(out, count as u32);
    Ok(())
}

fn run_status_tag(status: RunStatus) -> (tag: u8)
    ensures
        tag == run_status_byte(status),
{
    match status {
        RunStatus::Active => 0,
        RunStatus::Completed => 1,
        RunStatus::Cancelled => 2,
        RunStatus::Failed => 3,
    }
}

fn agent_status_tag(status: AgentStatus) -> (tag: u8)
    ensures
        tag == agent_status_byte(status),
{
    match status {
        AgentStatus::Created => 0,
        AgentStatus::Running => 1,
        AgentStatus::Completed => 2,
        AgentStatus::Cancelled => 3,
        AgentStatus::Failed => 4,
        AgentStatus::Paused => 5,
    }
}

fn put_task(out: &mut Vec<u8>, task: &TaskState) -> (result: Result<(), String>)
    ensures
        match result {
            Ok(_) => text_ok(task@.title) && final(out)@ == old(out)@ + task_bytes(task@),
            Err(message) => !text_ok(task@.title) && message@ == "snapshot string is too large"@,
        },
{
    broadcast use concat_is_associative;
    put_u64(out, task.id.value());
    put_u64(out, task.run_id.value());
    put_text(out, task.title.as_str())?;
    put_u8(out, 0);
    Ok(())
}

fn put_agent(out: &mut Vec<u8>, agent: &AgentState) -> (result: Result<(), String>)
    ensures
        match result {
            Ok(_) => agent_ok(agent@) && final(out)@ == old(out)@ + agent_bytes(agent@),
            Err(message) => !agent_ok(agent@) && message@ == "snapshot string is too large"@,
        },
{
    broadcast use concat_is_associative;
    let ghost start = out@;
    put_u64(out, agent.identity.id.value());
    put_text(out, agent.identity.name.as_str())?;
    put_text(out, agent.identity.mission.as_str())?;
    put_model(out, &agent.identity.model)?;
    assert(out@ == start + identity_bytes(agent@.identity));
    put_model(out, &agent.model)?;
    let ghost base = out@;
    put_u8(out, agent_status_tag(agent.status));
    put_u32(out, agent.chunks_received);
    put_u64(out, agent.usage.input_tokens);
    put_u64(out, agent.usage.output_tokens);
    put_optional_u64(out, agent.usage.cached_input_tokens);
    assert(out@ == base + progress_bytes(agent@));
    Ok(())
}

fn put_reference(out: &mut Vec<u8>, artifact: &ArtifactRef) -> (result: Result<(), String>)
    ensures
        match result {
            Ok(_) => text_ok(artifact@.media_type) && final(out)@ == old(out)@ + reference_bytes(
                artifact@,
            ),
            Err(message) => !text_ok(artifact@.media_type) && message@
                == "snapshot string is too large"@,
        },
{
    broadcast use concat_is_associative;
    put_array(out, &artifact.content_hash.0);
    put_u64(out, artifact.size_bytes);
    put_text(out, artifact.media_type.as_str())?;
    put_u8(out, trust_tag(artifact.trust));
    Ok(())
}

fn put_tasks(out: &mut Vec<u8>, tasks: &Table<TaskId, TaskState>) -> (result: Result<(), String>)
    ensures
        ({
            let list = task_views(tasks.values());
            match result {
                Ok(_) => list.len() <= u32::MAX && tasks_ok(list) && final(out)@ == old(out)@
                    + task_list_bytes(list),
                Err(message) => if list.len() > u32::MAX {
                    message@ == "snapshot collection is too large"@
                } else {
                    !tasks_ok(list) && message@ == "snapshot string is too large"@
                },
            }
        }),
{
    broadcast use concat_is_associative;
    let length: usize = tasks.len();
    let ghost list = task_views(tasks.values());
    put_count(out, length)?;
    let ghost base = out@;
    let mut index: usize = 0;
    assert(base + tasks_bytes(list.take(0)) =~= base);
    while index < length
        invariant
            index <= length,
            length == tasks.keys().len(),
            tasks.well_formed(),
            list == task_views(tasks.values()),
            length <= u32::MAX,
            forall|i: int| 0 <= i < index ==> text_ok((#[trigger] list[i]).title),
            out@ == base + tasks_bytes(list.take(index as int)),
        decreases length - index,
    {
        let task = tasks.value_at(index);
        assert(list[index as int] == task@);
        put_task(out, task)?;
        index += 1;
        proof {
            assert(list.take(index as int).drop_last() =~= list.take(index - 1));
            assert(out@ =~= base + tasks_bytes(list.take(index as int)));
        }
    }
    assert(list.take(list.len() as int) =~= list);
    Ok(())
}

fn put_agents(out: &mut Vec<u8>, agents: &Table<AgentId, AgentState>) -> (result: Result<
    (),
    String,
>)
    ensures
        ({
            let list = agent_views(agents.values());
            match result {
                Ok(_) => list.len() <= u32::MAX && agents_ok(list) && final(out)@ == old(out)@
                    + agent_list_bytes(list),
                Err(message) => if list.len() > u32::MAX {
                    message@ == "snapshot collection is too large"@
                } else {
                    !agents_ok(list) && message@ == "snapshot string is too large"@
                },
            }
        }),
{
    broadcast use concat_is_associative;
    let length: usize = agents.len();
    let ghost list = agent_views(agents.values());
    put_count(out, length)?;
    let ghost base = out@;
    let mut index: usize = 0;
    assert(base + agents_bytes(list.take(0)) =~= base);
    while index < length
        invariant
            index <= length,
            length == agents.keys().len(),
            agents.well_formed(),
            list == agent_views(agents.values()),
            length <= u32::MAX,
            forall|i: int| 0 <= i < index ==> agent_ok(#[trigger] list[i]),
            out@ == base + agents_bytes(list.take(index as int)),
        decreases length - index,
    {
        let agent = agents.value_at(index);
        assert(list[index as int] == agent@);
        put_agent(out, agent)?;
        index += 1;
        proof {
            assert(list.take(index as int).drop_last() =~= list.take(index - 1));
            assert(out@ =~= base + agents_bytes(list.take(index as int)));
        }
    }
    assert(list.take(list.len() as int) =~= list);
    Ok(())
}

fn put_references(out: &mut Vec<u8>, artifacts: &Table<ContentHash, ArtifactRef>) -> (result:
    Result<(), String>)
    ensures
        ({
            let list = artifact_views(artifacts.values());
            match result {
                Ok(_) => list.len() <= u32::MAX && references_ok(list) && final(out)@ == old(out)@
                    + reference_list_bytes(list),
                Err(message) => if list.len() > u32::MAX {
                    message@ == "snapshot collection is too large"@
                } else {
                    !references_ok(list) && message@ == "snapshot string is too large"@
                },
            }
        }),
{
    broadcast use concat_is_associative;
    let length: usize = artifacts.len();
    let ghost list = artifact_views(artifacts.values());
    put_count(out, length)?;
    let ghost base = out@;
    let mut index: usize = 0;
    assert(base + references_bytes(list.take(0)) =~= base);
    while index < length
        invariant
            index <= length,
            length == artifacts.keys().len(),
            artifacts.well_formed(),
            list == artifact_views(artifacts.values()),
            length <= u32::MAX,
            forall|i: int| 0 <= i < index ==> text_ok((#[trigger] list[i]).media_type),
            out@ == base + references_bytes(list.take(index as int)),
        decreases length - index,
    {
        let artifact = artifacts.value_at(index);
        assert(list[index as int] == artifact@);
        put_reference(out, artifact)?;
        index += 1;
        proof {
            assert(list.take(index as int).drop_last() =~= list.take(index - 1));
            assert(out@ =~= base + references_bytes(list.take(index as int)));
        }
    }
    assert(list.take(list.len() as int) =~= list);
    Ok(())
}

/// Encodes a state. Tasks, agents and artifacts are written in key order, so
/// that equal states have equal encodings.
pub fn encode_snapshot_state(state: &RuntimeState) -> (result: Result<Vec<u8>, String>)
    ensures
        outcome(result) == encoded(listing_of(*state)),
{
    broadcast use concat_is_associative;
    let ghost listing = listing_of(*state);
    let mut out: Vec<u8> = Vec::new();
    put_bytes(&mut out, "ORYNTH-SNAPSHOT-4\n".as_bytes());
    assert(out@ =~= magic(4));
    let ghost base = out@;
    put_u64(&mut out, state.run_id.value());
    put_u8(&mut out, run_status_tag(state.status));
    put_u64(&mut out, state.events_applied);
    assert(out@ == base + head_bytes(listing));
    put_tasks(&mut out, &state.tasks)?;
    put_agents(&mut out, &state.agents)?;
    put_references(&mut out, &state.artifacts)?;
    Ok(out)
}

// ---------------------------------------------------------------------------
// Reading.

fn truncated() -> (message: String)
    ensures
        message@ == cut_off(),
{
    "snapshot is truncated".to_owned()
}

proof fn magic_lengths()
    ensures
        forall|version: int| (#[trigger] magic(version)).len() == 18,
        magic(4) != magic(3),
        magic(4) != magic(2),
        magic(4) != magic(1),
        magic(3) != magic(2),
        magic(3) != magic(1),
        magic(2) != magic(1),
{
    reveal_strlit("ORYNTH-SNAPSHOT-4\n");
    reveal_strlit("ORYNTH-SNAPSHOT-3\n");
    reveal_strlit("ORYNTH-SNAPSHOT-2\n");
    reveal_strlit("ORYNTH-SNAPSHOT-1\n");
    vstd::utf8::is_ascii_chars_encode_utf8("ORYNTH-SNAPSHOT-4\n"@);
    vstd::utf8::is_ascii_chars_encode_utf8("ORYNTH-SNAPSHOT-3\n"@);
    vstd::utf8::is_ascii_chars_encode_utf8("ORYNTH-SNAPSHOT-2\n"@);
    vstd::utf8::is_ascii_chars_encode_utf8("ORYNTH-SNAPSHOT-1\n"@);
    assert(magic(4)[16] == '4' as u8);
    assert(magic(3)[16] == '3' as u8);
    assert(magic(2)[16] == '2' as u8);
    assert(magic(1)[16] == '1' as u8);
}

fn read_features(reader: &mut Reader) -> (result: Result<SnapshotFeatures, String>)
    ensures
        match get_features(old(reader).left()) {
            Ok((features, left)) => result == Ok::<SnapshotFeatures, String>(features)
                && final(reader).left() == left,
            Err(message) => result is Err && result->Err_0@ == message,
        },
{
    let Some(front) = reader.take(18) else {
        return Err("snapshot magic is invalid".to_owned());
    };
    if same_bytes(front, "ORYNTH-SNAPSHOT-4\n".as_bytes()) {
        Ok(
            SnapshotFeatures {
                has_cache_usage: true,
                has_artifact_trust: true,
                has_effective_model: true,
            },
        )
    } else if same_bytes(front, "ORYNTH-SNAPSHOT-3\n".as_bytes()) {
        Ok(
            SnapshotFeatures {
                has_cache_usage: true,
                has_artifact_trust: true,
                has_effective_model: false,
            },
        )
    } else if same_bytes(front, "ORYNTH-SNAPSHOT-2\n".as_bytes()) {
        Ok(
            SnapshotFeatures {
                has_cache_usage: true,
                has_artifact_trust: false,
                has_effective_model: false,
            },
        )
    } else if same_bytes(front, "ORYNTH-SNAPSHOT-1\n".as_bytes()) {
        Ok(
            SnapshotFeatures {
                has_cache_usage: false,
                has_artifact_trust: false,
                has_effective_model: false,
            },
        )
    } else {
        Err("snapshot magic is invalid".to_owned())
    }
}

fn read_text(reader: &mut Reader) -> (result: Result<String, String>)
    ensures
        parsed(outcome(result), final(reader).left(), get_text(old(reader).left())),
{
    reveal(get_text);
    let Some(length) = reader.u32() else {
        return Err(truncated());
    };
    let Some(bytes) = reader.take(length as usize) else {
        return Err(truncated());
    };
    match text_from(bytes) {
        Some(text) => Ok(text),
        None => Err("snapshot contains invalid UTF-8".to_owned()),
    }
}

fn read_count(reader: &mut Reader) -> (result: Result<u32, String>)
    ensures
        parsed(outcome(result), final(reader).left(), get_count(old(reader).left())),
{
    let Some(count) = reader.u32() else {
        return Err(truncated());
    };
    if count > MAX_SNAPSHOT_ITEMS {
        let mut message = numbered("snapshot collection count ", count as u128);
        message.append(" is too large");
        return Err(message);
    }
    Ok(count)
}

fn read_u64(reader: &mut Reader) -> (result: Result<u64, String>)
    ensures
        match get_u64(old(reader).left()) {
            Some((value, left)) => result == Ok::<u64, String>(value) && final(reader).left()
                == left,
            None => result is Err && result->Err_0@ == cut_off(),
        },
{
    match reader.u64() {
        Some(value) => Ok(value),
        None => Err(truncated()),
    }
}

fn read_run_status(reader: &mut Reader) -> (result: Result<RunStatus, String>)
    ensures
        match get_run_status(old(reader).left()) {
            Ok((status, left)) => result == Ok::<RunStatus, String>(status) && final(reader).left()
                == left,
            Err(message) => result is Err && result->Err_0@ == message,
        },
{
    let Some(tag) = reader.u8() else {
        return Err(truncated());
    };
    match tag {
        0 => Ok(RunStatus::Active),
        1 => Ok(RunStatus::Completed),
        2 => Ok(RunStatus::Cancelled),
        3 => Ok(RunStatus::Failed),
        _ => Err(numbered("unknown run status tag ", tag as u128)),
    }
}

fn read_agent_status(reader: &mut Reader) -> (result: Result<AgentStatus, String>)
    ensures
        match get_agent_status(old(reader).left()) {
            Ok((status, left)) => result == Ok::<AgentStatus, String>(status)
                && final(reader).left() == left,
            Err(message) => result is Err && result->Err_0@ == message,
        },
{
    let Some(tag) = reader.u8() else {
        return Err(truncated());
    };
    match tag {
        0 => Ok(AgentStatus::Created),
        1 => Ok(AgentStatus::Running),
        2 => Ok(AgentStatus::Completed),
        3 => Ok(AgentStatus::Cancelled),
        4 => Ok(AgentStatus::Failed),
        5 => Ok(AgentStatus::Paused),
        _ => Err(numbered("unknown agent status tag ", tag as u128)),
    }
}

fn read_task(reader: &mut Reader) -> (result: Result<TaskState, String>)
    ensures
        parsed(outcome(result), final(reader).left(), get_task(old(reader).left())),
{
    let id = TaskId::from_u64(read_u64(reader)?);
    let run_id = RunId::from_u64(read_u64(reader)?);
    let title = read_text(reader)?;
    let Some(tag) = reader.u8() else {
        return Err(truncated());
    };
    match tag {
        0 => Ok(TaskState { id, run_id, title, status: TaskStatus::Created }),
        _ => Err(numbered("unknown task status tag ", tag as u128)),
    }
}

fn read_class(reader: &mut Reader) -> (result: Result<ModelClass, String>)
    ensures
        parsed(outcome(result), final(reader).left(), get_class(old(reader).left())),
{
    let Some(tag) = reader.u8() else {
        return Err(truncated());
    };
    match tag {
        0 => Ok(ModelClass::Local),
        1 => Ok(ModelClass::Cheap),
        2 => Ok(ModelClass::Strong),
        3 => Ok(ModelClass::Custom(read_text(reader)?)),
        _ => Err(numbered("unknown model class tag ", tag as u128)),
    }
}

fn read_model(reader: &mut Reader) -> (result: Result<ModelRef, String>)
    ensures
        parsed(outcome(result), final(reader).left(), get_model(old(reader).left())),
{
    let provider = read_text(reader)?;
    let model = read_text(reader)?;
    let class = read_class(reader)?;
    Ok(ModelRef { provider, model, class })
}

fn read_identity(reader: &mut Reader) -> (result: Result<AgentIdentity, String>)
    ensures
        parsed(outcome(result), final(reader).left(), get_identity(old(reader).left())),
{
    let id = AgentId::from_u64(read_u64(reader)?);
    let name = read_text(reader)?;
    let mission = read_text(reader)?;
    let model = read_model(reader)?;
    Ok(AgentIdentity { id, name, mission, model })
}

fn read_usage(features: SnapshotFeatures, reader: &mut Reader) -> (result: Result<Usage, String>)
    ensures
        parsed(outcome(result), final(reader).left(), get_usage(features, old(reader).left())),
{
    let input_tokens: u64 = read_u64(reader)?;
    let output_tokens: u64 = read_u64(reader)?;
    let usage = Usage::new(input_tokens, output_tokens);
    if !features.has_cache_usage {
        return Ok(usage);
    }
    let Some(tag) = reader.u8() else {
        return Err(truncated());
    };
    match tag {
        0 => Ok(usage),
        1 => Ok(usage.with_cached_input_tokens(read_u64(reader)?)),
        _ => Err(numbered("unknown cached usage tag ", tag as u128)),
    }
}

fn read_agent(features: SnapshotFeatures, reader: &mut Reader) -> (result: Result<
    AgentState,
    String,
>)
    ensures
        parsed(outcome(result), final(reader).left(), get_agent(features, old(reader).left())),
{
    let identity = read_identity(reader)?;
    let model = if features.has_effective_model {
        read_model(reader)?
    } else {
        identity.model.clone()
    };
    let status = read_agent_status(reader)?;
    let Some(chunks_received) = reader.u32() else {
        return Err(truncated());
    };
    let usage = read_usage(features, reader)?;
    Ok(AgentState { identity, status, model, chunks_received, usage })
}

fn read_reference_trust(features: SnapshotFeatures, reader: &mut Reader) -> (result: Result<
    TrustOrigin,
    String,
>)
    ensures
        match get_reference_trust(features, old(reader).left()) {
            Ok((trust, left)) => result == Ok::<TrustOrigin, String>(trust) && final(reader).left()
                == left,
            Err(message) => result is Err && result->Err_0@ == message,
        },
{
    if !features.has_artifact_trust {
        return Ok(TrustOrigin::Generated);
    }
    let Some(tag) = reader.u8() else {
        return Err(truncated());
    };
    match crate::event_codec::decode_trust_tag(tag) {
        Ok(trust) => Ok(trust),
        Err(_) => {
            let mut message = "corrupt artifact: ".to_owned();
            message.append(numbered("unknown artifact trust tag ", tag as u128).as_str());
            Err(message)
        },
    }
}

fn read_reference(features: SnapshotFeatures, reader: &mut Reader) -> (result: Result<
    ArtifactRef,
    String,
>)
    ensures
        parsed(outcome(result), final(reader).left(), get_reference(features, old(reader).left())),
{
    let Some(digest) = reader.array() else {
        return Err(truncated());
    };
    let content_hash = ContentHash::from_digest(digest);
    let size_bytes: u64 = read_u64(reader)?;
    let media_type = read_text(reader)?;
    let trust = read_reference_trust(features, reader)?;
    Ok(ArtifactRef { content_hash, size_bytes, media_type, trust })
}

fn read_tasks(reader: &mut Reader) -> (result: Result<Table<TaskId, TaskState>, String>)
    ensures
        parsed(outcome(result), final(reader).left(), get_task_list(old(reader).left())),
{
    let count: u32 = read_count(reader)?;
    let mut tasks: Table<TaskId, TaskState> = Table::new();
    let mut index: u32 = 0;
    while index < count
        invariant
            index <= count,
            get_task_list(old(reader).left()) == get_tasks(
                tasks@,
                (count - index) as nat,
                reader.left(),
            ),
        decreases count - index,
    {
        let task = read_task(reader)?;
        let id = task.id;
        if tasks.insert(id, task) {
            return Err(phrase("duplicate task ", id.to_text().as_str(), " in snapshot"));
        }
        index += 1;
    }
    Ok(tasks)
}

fn read_agents(features: SnapshotFeatures, reader: &mut Reader) -> (result: Result<
    Table<AgentId, AgentState>,
    String,
>)
    ensures
        parsed(outcome(result), final(reader).left(), get_agent_list(features, old(reader).left())),
{
    let count: u32 = read_count(reader)?;
    let mut agents: Table<AgentId, AgentState> = Table::new();
    let mut index: u32 = 0;
    while index < count
        invariant
            index <= count,
            get_agent_list(features, old(reader).left()) == get_agents(
                features,
                agents@,
                (count - index) as nat,
                reader.left(),
            ),
        decreases count - index,
    {
        let agent = read_agent(features, reader)?;
        let id = agent.identity.id;
        if agents.insert(id, agent) {
            return Err(phrase("duplicate agent ", id.to_text().as_str(), " in snapshot"));
        }
        index += 1;
    }
    Ok(agents)
}

fn read_references(features: SnapshotFeatures, reader: &mut Reader) -> (result: Result<
    Table<ContentHash, ArtifactRef>,
    String,
>)
    ensures
        parsed(
            outcome(result),
            final(reader).left(),
            get_reference_list(features, old(reader).left()),
        ),
{
    let count: u32 = read_count(reader)?;
    let mut artifacts: Table<ContentHash, ArtifactRef> = Table::new();
    let mut index: u32 = 0;
    while index < count
        invariant
            index <= count,
            get_reference_list(features, old(reader).left()) == get_references(
                features,
                artifacts@,
                (count - index) as nat,
                reader.left(),
            ),
        decreases count - index,
    {
        let artifact = read_reference(features, reader)?;
        let hash = artifact.content_hash;
        if artifacts.insert(hash, artifact) {
            let mut message = "duplicate artifact ".to_owned();
            push_hex_bytes(&mut message, hash.0.as_slice());
            message.append(" in snapshot");
            return Err(message);
        }
        index += 1;
    }
    Ok(artifacts)
}

/// Decodes a state of any version.
pub fn decode_snapshot_state(bytes: &[u8]) -> (result: Result<RuntimeState, String>)
    ensures
        outcome(result) == decoded(bytes@),
{
    let mut reader = Reader::new(bytes);
    let features = read_features(&mut reader)?;
    let run_id = RunId::from_u64(read_u64(&mut reader)?);
    let status = read_run_status(&mut reader)?;
    let events_applied: u64 = read_u64(&mut reader)?;
    let tasks = read_tasks(&mut reader)?;
    let agents = read_agents(features, &mut reader)?;
    let artifacts = read_references(features, &mut reader)?;
    if !reader.is_done() {
        return Err("snapshot has trailing bytes".to_owned());
    }
    Ok(RuntimeState { run_id, status, tasks, agents, artifacts, events_applied })
}

// ---------------------------------------------------------------------------
// Reading back what was written.

broadcast proof fn text_reads_back(text: Seq<char>, rest: Seq<u8>)
    requires
        text_ok(text),
    ensures
        #[trigger] get_text(text_bytes(text) + rest) == Ok::<_, Seq<char>>((text, rest)),
{
    broadcast use group_codec;

    reveal(text_bytes);
    reveal(get_text);
    reveal(blob32_bytes);
    let bytes = encode_utf8(text);
    assert(blob32_bytes(bytes) + rest == u32_bytes(bytes.len() as u32) + (bytes + rest));
}

proof fn task_reads_back(task: TaskStateView, rest: Seq<u8>)
    requires
        text_ok(task.title),
    ensures
        get_task(task_bytes(task) + rest) == Ok::<_, Seq<char>>((task, rest)),
{
    let status = u8_bytes(task_status_byte(task.status));
    let c = status + rest;
    let b = text_bytes(task.title) + c;
    let a = u64_bytes(task.run_id.0) + b;
    regroup3(
        u64_bytes(task.id.0),
        u64_bytes(task.run_id.0),
        text_bytes(task.title),
        status,
        rest,
    );
    get_u64_of_bytes(task.id.0, a);
    get_u64_of_bytes(task.run_id.0, b);
    text_reads_back(task.title, c);
    get_u8_of_bytes(0, rest);
}

proof fn model_reads_back(model: ModelRefView, rest: Seq<u8>)
    requires
        model_ok(model),
    ensures
        get_model(model_bytes(model) + rest) == Ok::<_, Seq<char>>((model, rest)),
{
    let b = class_bytes(model.class) + rest;
    let a = text_bytes(model.model) + b;
    regroup2(
        text_bytes(model.provider),
        text_bytes(model.model),
        class_bytes(model.class),
        rest,
    );
    text_reads_back(model.provider, a);
    text_reads_back(model.model, b);
    match model.class {
        ModelClassView::Local => get_u8_of_bytes(0, rest),
        ModelClassView::Cheap => get_u8_of_bytes(1, rest),
        ModelClassView::Strong => get_u8_of_bytes(2, rest),
        ModelClassView::Custom(name) => {
            regroup1(u8_bytes(3), text_bytes(name), rest);
            get_u8_of_bytes(3, text_bytes(name) + rest);
            text_reads_back(name, rest);
        },
    }
}

proof fn identity_reads_back(identity: AgentIdentityView, rest: Seq<u8>)
    requires
        text_ok(identity.name),
        text_ok(identity.mission),
        model_ok(identity.model),
    ensures
        get_identity(identity_bytes(identity) + rest) == Ok::<_, Seq<char>>((identity, rest)),
{
    let c = model_bytes(identity.model) + rest;
    let b = text_bytes(identity.mission) + c;
    let a = text_bytes(identity.name) + b;
    regroup3(
        u64_bytes(identity.id.0),
        text_bytes(identity.name),
        text_bytes(identity.mission),
        model_bytes(identity.model),
        rest,
    );
    get_u64_of_bytes(identity.id.0, a);
    text_reads_back(identity.name, b);
    text_reads_back(identity.mission, c);
    model_reads_back(identity.model, rest);
}

proof fn progress_reads_back(agent: AgentStateView, rest: Seq<u8>)
    ensures
        get_progress(features_of(4), agent.identity, agent.model, progress_bytes(agent) + rest)
            == Ok::<_, Seq<char>>((agent, rest)),
{
    let cached = optional_u64_bytes(agent.usage.cached_input_tokens);
    let status = agent_status_byte(agent.status);
    let d = cached + rest;
    let c = u64_bytes(agent.usage.output_tokens) + d;
    let b = u64_bytes(agent.usage.input_tokens) + c;
    let a = u32_bytes(agent.chunks_received) + b;
    regroup4(
        u8_bytes(status),
        u32_bytes(agent.chunks_received),
        u64_bytes(agent.usage.input_tokens),
        u64_bytes(agent.usage.output_tokens),
        cached,
        rest,
    );
    get_u8_of_bytes(status, a);
    get_u32_of_bytes(agent.chunks_received, b);
    get_u64_of_bytes(agent.usage.input_tokens, c);
    get_u64_of_bytes(agent.usage.output_tokens, d);
    match agent.usage.cached_input_tokens {
        Some(value) => {
            regroup1(u8_bytes(1), u64_bytes(value), rest);
            get_u8_of_bytes(1, u64_bytes(value) + rest);
            get_u64_of_bytes(value, rest);
        },
        None => get_u8_of_bytes(0, rest),
    }
}

proof fn agent_reads_back(agent: AgentStateView, rest: Seq<u8>)
    requires
        agent_ok(agent),
    ensures
        get_agent(features_of(4), agent_bytes(agent) + rest) == Ok::<_, Seq<char>>((agent, rest)),
{
    let b = progress_bytes(agent) + rest;
    let a = model_bytes(agent.model) + b;
    regroup2(
        identity_bytes(agent.identity),
        model_bytes(agent.model),
        progress_bytes(agent),
        rest,
    );
    identity_reads_back(agent.identity, a);
    model_reads_back(agent.model, b);
    progress_reads_back(agent, rest);
}

proof fn reference_reads_back(artifact: ArtifactRefView, rest: Seq<u8>)
    requires
        text_ok(artifact.media_type),
        artifact.content_hash.len() == 32,
    ensures
        get_reference(features_of(4), reference_bytes(artifact) + rest) == Ok::<_, Seq<char>>(
            (artifact, rest),
        ),
{
    let tag = trust_byte(artifact.trust);
    let c = u8_bytes(tag) + rest;
    let b = text_bytes(artifact.media_type) + c;
    let a = u64_bytes(artifact.size_bytes) + b;
    regroup3(
        artifact.content_hash,
        u64_bytes(artifact.size_bytes),
        text_bytes(artifact.media_type),
        u8_bytes(tag),
        rest,
    );
    crate::codec::get_bytes_of_concat(artifact.content_hash, a);
    get_u64_of_bytes(artifact.size_bytes, b);
    text_reads_back(artifact.media_type, c);
    get_u8_of_bytes(tag, rest);
}

/// Tasks under their identities.
pub open spec fn task_map(list: Seq<TaskStateView>) -> Map<TaskId, TaskStateView>
    decreases list.len(),
{
    if list.len() == 0 {
        Map::empty()
    } else {
        task_map(list.drop_last()).insert(list.last().id, list.last())
    }
}

/// Agents under their identities.
pub open spec fn agent_map(list: Seq<AgentStateView>) -> Map<AgentId, AgentStateView>
    decreases list.len(),
{
    if list.len() == 0 {
        Map::empty()
    } else {
        agent_map(list.drop_last()).insert(list.last().identity.id, list.last())
    }
}

/// Artifacts under their digests.
pub open spec fn reference_map(list: Seq<ArtifactRefView>) -> Map<Seq<u8>, ArtifactRefView>
    decreases list.len(),
{
    if list.len() == 0 {
        Map::empty()
    } else {
        reference_map(list.drop_last()).insert(list.last().content_hash, list.last())
    }
}

/// The state that a listing describes.
pub open spec fn state_of(listing: StateListing) -> RuntimeStateView {
    RuntimeStateView {
        run_id: listing.run_id,
        status: listing.status,
        tasks: task_map(listing.tasks),
        agents: agent_map(listing.agents),
        artifacts: reference_map(listing.artifacts),
        events_applied: listing.events_applied,
    }
}

/// Nothing is listed twice.
pub open spec fn tasks_distinct(list: Seq<TaskStateView>) -> bool {
    forall|i: int, j: int|
        #![trigger list[i], list[j]]
        0 <= i < j < list.len() ==> list[i].id != list[j].id
}

pub open spec fn agents_distinct(list: Seq<AgentStateView>) -> bool {
    forall|i: int, j: int|
        #![trigger list[i], list[j]]
        0 <= i < j < list.len() ==> list[i].identity.id != list[j].identity.id
}

pub open spec fn references_distinct(list: Seq<ArtifactRefView>) -> bool {
    forall|i: int, j: int|
        #![trigger list[i], list[j]]
        0 <= i < j < list.len() ==> list[i].content_hash != list[j].content_hash
}

proof fn task_map_members(list: Seq<TaskStateView>, id: TaskId)
    ensures
        task_map(list).contains_key(id) ==> exists|i: int|
            0 <= i < list.len() && (#[trigger] list[i]).id == id && task_map(list)[id] == list[i],
        (exists|i: int| 0 <= i < list.len() && (#[trigger] list[i]).id == id) ==> task_map(
            list,
        ).contains_key(id),
    decreases list.len(),
{
    if list.len() > 0 {
        let front = list.drop_last();
        task_map_members(front, id);
        if list.last().id == id {
            assert(list[list.len() - 1].id == id);
        } else {
            if task_map(front).contains_key(id) {
                let i = choose|i: int|
                    0 <= i < front.len() && (#[trigger] front[i]).id == id && task_map(front)[id]
                        == front[i];
                assert(list[i] == front[i]);
            }
            if exists|i: int| 0 <= i < list.len() && (#[trigger] list[i]).id == id {
                let i = choose|i: int| 0 <= i < list.len() && (#[trigger] list[i]).id == id;
                assert(front[i] == list[i]);
            }
        }
    }
}

proof fn agent_map_members(list: Seq<AgentStateView>, id: AgentId)
    ensures
        agent_map(list).contains_key(id) ==> exists|i: int|
            0 <= i < list.len() && (#[trigger] list[i]).identity.id == id && agent_map(list)[id]
                == list[i],
        (exists|i: int| 0 <= i < list.len() && (#[trigger] list[i]).identity.id == id)
            ==> agent_map(list).contains_key(id),
    decreases list.len(),
{
    if list.len() > 0 {
        let front = list.drop_last();
        agent_map_members(front, id);
        if list.last().identity.id == id {
            assert(list[list.len() - 1].identity.id == id);
        } else {
            if agent_map(front).contains_key(id) {
                let i = choose|i: int|
                    0 <= i < front.len() && (#[trigger] front[i]).identity.id == id && agent_map(
                        front,
                    )[id] == front[i];
                assert(list[i] == front[i]);
            }
            if exists|i: int| 0 <= i < list.len() && (#[trigger] list[i]).identity.id == id {
                let i = choose|i: int|
                    0 <= i < list.len() && (#[trigger] list[i]).identity.id == id;
                assert(front[i] == list[i]);
            }
        }
    }
}

proof fn reference_map_members(list: Seq<ArtifactRefView>, hash: Seq<u8>)
    ensures
        reference_map(list).contains_key(hash) ==> exists|i: int|
            0 <= i < list.len() && (#[trigger] list[i]).content_hash == hash && reference_map(
                list,
            )[hash] == list[i],
        (exists|i: int| 0 <= i < list.len() && (#[trigger] list[i]).content_hash == hash)
            ==> reference_map(list).contains_key(hash),
    decreases list.len(),
{
    if list.len() > 0 {
        let front = list.drop_last();
        reference_map_members(front, hash);
        if list.last().content_hash == hash {
            assert(list[list.len() - 1].content_hash == hash);
        } else {
            if reference_map(front).contains_key(hash) {
                let i = choose|i: int|
                    0 <= i < front.len() && (#[trigger] front[i]).content_hash == hash
                        && reference_map(front)[hash] == front[i];
                assert(list[i] == front[i]);
            }
            if exists|i: int| 0 <= i < list.len() && (#[trigger] list[i]).content_hash == hash {
                let i = choose|i: int|
                    0 <= i < list.len() && (#[trigger] list[i]).content_hash == hash;
                assert(front[i] == list[i]);
            }
        }
    }
}

proof fn tasks_read_back(list: Seq<TaskStateView>, more: nat, rest: Seq<u8>)
    requires
        tasks_ok(list),
        tasks_distinct(list),
    ensures
        get_tasks(Map::empty(), list.len() + more, tasks_bytes(list) + rest) == get_tasks(
            task_map(list),
            more,
            rest,
        ),
    decreases list.len(),
{
    if list.len() == 0 {
        assert(tasks_bytes(list) + rest =~= rest);
    } else {
        let front = list.drop_last();
        let last = list.last();
        let tail = task_bytes(last) + rest;
        assert forall|i: int| 0 <= i < front.len() implies text_ok((#[trigger] front[i]).title) by {
            assert(front[i] == list[i]);
        }
        assert(text_ok(list[list.len() - 1].title));
        assert forall|i: int, j: int|
            #![trigger front[i], front[j]]
            0 <= i < j < front.len() implies front[i].id != front[j].id by {
            assert(front[i] == list[i] && front[j] == list[j]);
        }
        assert(tasks_bytes(list) + rest =~= tasks_bytes(front) + tail);
        tasks_read_back(front, more + 1, tail);
        task_reads_back(last, rest);
        task_map_members(front, last.id);
        if task_map(front).contains_key(last.id) {
            let i = choose|i: int|
                0 <= i < front.len() && (#[trigger] front[i]).id == last.id && task_map(
                    front,
                )[last.id] == front[i];
            assert(list[i].id != list[list.len() - 1].id);
        }
    }
}

proof fn agents_read_back(list: Seq<AgentStateView>, more: nat, rest: Seq<u8>)
    requires
        agents_ok(list),
        agents_distinct(list),
    ensures
        get_agents(features_of(4), Map::empty(), list.len() + more, agents_bytes(list) + rest)
            == get_agents(features_of(4), agent_map(list), more, rest),
    decreases list.len(),
{
    if list.len() == 0 {
        assert(agents_bytes(list) + rest =~= rest);
    } else {
        let front = list.drop_last();
        let last = list.last();
        let tail = agent_bytes(last) + rest;
        assert forall|i: int| 0 <= i < front.len() implies agent_ok(#[trigger] front[i]) by {
            assert(front[i] == list[i]);
        }
        assert(agent_ok(list[list.len() - 1]));
        assert forall|i: int, j: int|
            #![trigger front[i], front[j]]
            0 <= i < j < front.len() implies front[i].identity.id != front[j].identity.id by {
            assert(front[i] == list[i] && front[j] == list[j]);
        }
        assert(agents_bytes(list) + rest =~= agents_bytes(front) + tail);
        agents_read_back(front, more + 1, tail);
        agent_reads_back(last, rest);
        agent_map_members(front, last.identity.id);
        if agent_map(front).contains_key(last.identity.id) {
            let i = choose|i: int|
                0 <= i < front.len() && (#[trigger] front[i]).identity.id == last.identity.id
                    && agent_map(front)[last.identity.id] == front[i];
            assert(list[i].identity.id != list[list.len() - 1].identity.id);
        }
    }
}

proof fn references_read_back(list: Seq<ArtifactRefView>, more: nat, rest: Seq<u8>)
    requires
        references_ok(list),
        references_distinct(list),
        forall|i: int| 0 <= i < list.len() ==> (#[trigger] list[i]).content_hash.len() == 32,
    ensures
        get_references(
            features_of(4),
            Map::empty(),
            list.len() + more,
            references_bytes(list) + rest,
        ) == get_references(features_of(4), reference_map(list), more, rest),
    decreases list.len(),
{
    if list.len() == 0 {
        assert(references_bytes(list) + rest =~= rest);
    } else {
        let front = list.drop_last();
        let last = list.last();
        let tail = reference_bytes(last) + rest;
        assert forall|i: int| 0 <= i < front.len() implies text_ok(
            (#[trigger] front[i]).media_type,
        ) && front[i].content_hash.len() == 32 by {
            assert(front[i] == list[i]);
        }
        assert(text_ok(list[list.len() - 1].media_type));
        assert forall|i: int, j: int|
            #![trigger front[i], front[j]]
            0 <= i < j < front.len() implies front[i].content_hash != front[j].content_hash by {
            assert(front[i] == list[i] && front[j] == list[j]);
        }
        assert(references_bytes(list) + rest =~= references_bytes(front) + tail);
        references_read_back(front, more + 1, tail);
        reference_reads_back(last, rest);
        reference_map_members(front, last.content_hash);
        if reference_map(front).contains_key(last.content_hash) {
            let i = choose|i: int|
                0 <= i < front.len() && (#[trigger] front[i]).content_hash == last.content_hash
                    && reference_map(front)[last.content_hash] == front[i];
            assert(list[i].content_hash != list[list.len() - 1].content_hash);
        }
    }
}

/// A listing that an encoding can be read back from.
pub open spec fn readable(listing: StateListing) -> bool {
    &&& listing.tasks.len() <= MAX_SNAPSHOT_ITEMS
    &&& listing.agents.len() <= MAX_SNAPSHOT_ITEMS
    &&& listing.artifacts.len() <= MAX_SNAPSHOT_ITEMS
    &&& tasks_distinct(listing.tasks)
    &&& agents_distinct(listing.agents)
    &&& references_distinct(listing.artifacts)
    &&& forall|i: int|
        0 <= i < listing.artifacts.len() ==> (
        #[trigger] listing.artifacts[i]).content_hash.len() == 32
}

proof fn lists_read_back(listing: StateListing)
    requires
        encoded(listing) is Ok,
        readable(listing),
    ensures
        get_lists(
            features_of(4),
            listing.run_id,
            listing.status,
            listing.events_applied,
            task_list_bytes(listing.tasks) + (agent_list_bytes(listing.agents)
                + reference_list_bytes(listing.artifacts)),
        ) == Ok::<_, Seq<char>>((state_of(listing), Seq::<u8>::empty())),
{
    let empty = Seq::<u8>::empty();
    let references = reference_list_bytes(listing.artifacts);
    assert(references == references + empty) by {
        assert(references =~= references + empty);
    }
    let agents = agent_list_bytes(listing.agents) + references;
    let count = listing.tasks.len() as u32;
    regroup1(u32_bytes(count), tasks_bytes(listing.tasks), agents);
    get_u32_of_bytes(count, tasks_bytes(listing.tasks) + agents);
    tasks_read_back(listing.tasks, 0, agents);
    let count = listing.agents.len() as u32;
    regroup1(u32_bytes(count), agents_bytes(listing.agents), references);
    get_u32_of_bytes(count, agents_bytes(listing.agents) + references);
    agents_read_back(listing.agents, 0, references);
    let count = listing.artifacts.len() as u32;
    regroup1(u32_bytes(count), references_bytes(listing.artifacts), empty);
    get_u32_of_bytes(count, references_bytes(listing.artifacts) + empty);
    references_read_back(listing.artifacts, 0, empty);
}

/// Decoding gives back every listing that can be encoded and read.
pub proof fn decoding_inverts_encoding(listing: StateListing)
    requires
        encoded(listing) is Ok,
        readable(listing),
    ensures
        decoded(encoded(listing)->Ok_0) == Ok::<RuntimeStateView, Seq<char>>(state_of(listing)),
{
    let lists = task_list_bytes(listing.tasks) + (agent_list_bytes(listing.agents)
        + reference_list_bytes(listing.artifacts));
    let status = run_status_byte(listing.status);
    let b = u64_bytes(listing.events_applied) + lists;
    let a = u8_bytes(status) + b;
    let head = u64_bytes(listing.run_id.0) + a;
    regroup3(
        magic(4),
        head_bytes(listing),
        task_list_bytes(listing.tasks),
        agent_list_bytes(listing.agents),
        reference_list_bytes(listing.artifacts),
    );
    regroup2(
        u64_bytes(listing.run_id.0),
        u8_bytes(status),
        u64_bytes(listing.events_applied),
        lists,
    );
    assert(state_bytes(listing) == magic(4) + head);
    magic_lengths();
    crate::codec::get_bytes_of_concat(magic(4), head);
    get_u64_of_bytes(listing.run_id.0, a);
    get_u8_of_bytes(status, b);
    get_u64_of_bytes(listing.events_applied, lists);
    lists_read_back(listing);
}

/// Everything is stored under its own identity or digest.
pub open spec fn keyed(state: RuntimeStateView) -> bool {
    &&& forall|id: TaskId| state.tasks.contains_key(id) ==> (#[trigger] state.tasks[id]).id == id
    &&& forall|id: AgentId|
        state.agents.contains_key(id) ==> (#[trigger] state.agents[id]).identity.id == id
    &&& forall|hash: Seq<u8>|
        state.artifacts.contains_key(hash) ==> (#[trigger] state.artifacts[hash]).content_hash
            == hash
}

/// Every state that events add up to is keyed.
pub proof fn replayed_states_are_keyed(
    state: RuntimeStateView,
    events: Seq<crate::kernel::EventView>,
)
    requires
        keyed(state),
        crate::state::replayed(state, events) is Ok,
    ensures
        keyed(crate::state::replayed(state, events)->Ok_0),
    decreases events.len(),
{
    if events.len() > 0 {
        replayed_states_are_keyed(state, events.drop_last());
    }
}

/// The listing of a keyed state describes that state, and lists nothing
/// twice.
pub proof fn listings_describe_states(state: RuntimeState)
    requires
        state.tasks.well_formed(),
        state.agents.well_formed(),
        state.artifacts.well_formed(),
        keyed(state@),
    ensures
        state_of(listing_of(state)) == state@,
        tasks_distinct(listing_of(state).tasks),
        agents_distinct(listing_of(state).agents),
        references_distinct(listing_of(state).artifacts),
        forall|i: int|
            0 <= i < listing_of(state).artifacts.len() ==> (
            #[trigger] listing_of(state).artifacts[i]).content_hash.len() == 32,
{
    let listing = listing_of(state);
    let tk = state.tasks.keys();
    let tv = state.tasks.values();
    assert forall|i: int| 0 <= i < tk.len() implies (#[trigger] listing.tasks[i]).id == tk[i] by {
        entry_in_map(tk, tv, i);
    }
    assert forall|i: int, j: int|
        #![trigger listing.tasks[i], listing.tasks[j]]
        0 <= i < j < listing.tasks.len() implies listing.tasks[i].id != listing.tasks[j].id by {
        assert(TaskId::before(tk[i].model(), tk[j].model()));
    }
    assert forall|id: TaskId|
        #![trigger task_map(listing.tasks).dom().contains(id)]
        #![trigger state@.tasks.dom().contains(id)]
        task_map(listing.tasks).dom().contains(id) == state@.tasks.dom().contains(id) && (
        state@.tasks.dom().contains(id) ==> task_map(listing.tasks)[id] == state@.tasks[id]) by {
        task_map_members(listing.tasks, id);
        if task_map(listing.tasks).contains_key(id) {
            let i = choose|i: int|
                0 <= i < listing.tasks.len() && (#[trigger] listing.tasks[i]).id == id && task_map(
                    listing.tasks,
                )[id] == listing.tasks[i];
            entry_in_map(tk, tv, i);
        }
        if state@.tasks.contains_key(id) {
            let i = map_entry_has_index(tk, tv, id);
            assert(listing.tasks[i].id == id);
        }
    }
    assert(task_map(listing.tasks) =~= state@.tasks);

    let ak = state.agents.keys();
    let av = state.agents.values();
    assert forall|i: int| 0 <= i < ak.len() implies (
    #[trigger] listing.agents[i]).identity.id == ak[i] by {
        entry_in_map(ak, av, i);
    }
    assert forall|i: int, j: int|
        #![trigger listing.agents[i], listing.agents[j]]
        0 <= i < j < listing.agents.len() implies listing.agents[i].identity.id
        != listing.agents[j].identity.id by {
        assert(AgentId::before(ak[i].model(), ak[j].model()));
    }
    assert forall|id: AgentId|
        #![trigger agent_map(listing.agents).dom().contains(id)]
        #![trigger state@.agents.dom().contains(id)]
        agent_map(listing.agents).dom().contains(id) == state@.agents.dom().contains(id) && (
        state@.agents.dom().contains(id) ==> agent_map(listing.agents)[id]
            == state@.agents[id]) by {
        agent_map_members(listing.agents, id);
        if agent_map(listing.agents).contains_key(id) {
            let i = choose|i: int|
                0 <= i < listing.agents.len() && (#[trigger] listing.agents[i]).identity.id == id
                    && agent_map(listing.agents)[id] == listing.agents[i];
            entry_in_map(ak, av, i);
        }
        if state@.agents.contains_key(id) {
            let i = map_entry_has_index(ak, av, id);
            assert(listing.agents[i].identity.id == id);
        }
    }
    assert(agent_map(listing.agents) =~= state@.agents);

    let rk = state.artifacts.keys();
    let rv = state.artifacts.values();
    assert forall|i: int| 0 <= i < rk.len() implies (
    #[trigger] listing.artifacts[i]).content_hash == rk[i]@ && rk[i]@.len() == 32 by {
        entry_in_map(rk, rv, i);
    }
    assert forall|i: int, j: int|
        #![trigger listing.artifacts[i], listing.artifacts[j]]
        0 <= i < j < listing.artifacts.len() implies listing.artifacts[i].content_hash
        != listing.artifacts[j].content_hash by {
        assert(ContentHash::before(rk[i].model(), rk[j].model()));
        ContentHash::order_laws(rk[i].model(), rk[i].model(), rk[i].model());
    }
    assert forall|hash: Seq<u8>|
        #![trigger reference_map(listing.artifacts).dom().contains(hash)]
        #![trigger state@.artifacts.dom().contains(hash)]
        reference_map(listing.artifacts).dom().contains(hash) == state@.artifacts.dom().contains(
            hash,
        ) && (state@.artifacts.dom().contains(hash) ==> reference_map(listing.artifacts)[hash]
            == state@.artifacts[hash]) by {
        reference_map_members(listing.artifacts, hash);
        if reference_map(listing.artifacts).contains_key(hash) {
            let i = choose|i: int|
                0 <= i < listing.artifacts.len() && (#[trigger] listing.artifacts[i]).content_hash
                    == hash && reference_map(listing.artifacts)[hash] == listing.artifacts[i];
            entry_in_map(rk, rv, i);
        }
        if state@.artifacts.contains_key(hash) {
            let i = map_entry_has_index(rk, rv, hash);
            assert(listing.artifacts[i].content_hash == hash);
        }
    }
    assert(reference_map(listing.artifacts) =~= state@.artifacts);
}

/// An encoded state decodes to itself: the logical identity and the effective
/// model of every agent are both preserved.
pub proof fn snapshots_preserve_states(state: RuntimeState)
    requires
        state.tasks.well_formed(),
        state.agents.well_formed(),
        state.artifacts.well_formed(),
        keyed(state@),
        encoded(listing_of(state)) is Ok,
        state.tasks.values().len() <= MAX_SNAPSHOT_ITEMS,
        state.agents.values().len() <= MAX_SNAPSHOT_ITEMS,
        state.artifacts.values().len() <= MAX_SNAPSHOT_ITEMS,
    ensures
        decoded(encoded(listing_of(state))->Ok_0) == Ok::<RuntimeStateView, Seq<char>>(state@),
{
    listings_describe_states(state);
    decoding_inverts_encoding(listing_of(state));
}

} // verus!
