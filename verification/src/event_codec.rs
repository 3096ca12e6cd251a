//! The durable encoding of events.

use vstd::prelude::*;
use vstd::utf8::encode_utf8;

use crate::codec::{
    blob32_bytes, concat_is_associative, get_bytes, get_u128, get_u16, get_u32, get_u32_of_bytes,
    get_u64, get_u64_of_bytes, get_u8, get_u8_of_bytes, group_codec, optional_u64_bytes, outcome,
    parsed, put_array, put_bytes, put_optional_u64, put_u128, put_u16, put_u32, put_u64, put_u8,
    regroup1, regroup2, regroup3, regroup4, regroup5, required, string_from_utf8, text_of,
    u128_bytes, u16_bytes, u32_bytes, u64_bytes, u8_bytes, Reader,
};
use crate::ids::{AgentId, EventId, RunId, TaskId};
use crate::kernel::{
    AgentIdentity, AgentIdentityView, Event, EventKind, EventKindView, EventView, ModelClass,
    ModelClassView, ModelRef, ModelRefView, TrustOrigin, Usage,
};
use crate::text::{decimal, numbered};

verus! {

/// The largest encoded value that is read back.
pub const MAX_FRAME_BYTES: usize = 67108864;

// ---------------------------------------------------------------------------
// What the bytes of an event are.

#[verifier::opaque]
pub open spec fn text_bytes(text: Seq<char>) -> Seq<u8> {
    blob32_bytes(encode_utf8(text))
}

pub open spec fn model_bytes(model: ModelRefView) -> Seq<u8> {
    text_bytes(model.provider) + text_bytes(model.model) + class_bytes(model.class)
}

pub open spec fn class_bytes(class: ModelClassView) -> Seq<u8> {
    match class {
        ModelClassView::Local => u8_bytes(0),
        ModelClassView::Cheap => u8_bytes(1),
        ModelClassView::Strong => u8_bytes(2),
        ModelClassView::Custom(name) => u8_bytes(3) + text_bytes(name),
    }
}

pub open spec fn identity_bytes(agent: AgentIdentityView) -> Seq<u8> {
    u64_bytes(agent.id.0) + text_bytes(agent.name) + text_bytes(agent.mission) + model_bytes(
        agent.model,
    )
}

pub open spec fn versioned_bytes(version: u16, payload: Seq<u8>) -> Seq<u8> {
    u16_bytes(version) + blob32_bytes(payload)
}

pub open spec fn usage_bytes(usage: Usage) -> Seq<u8> {
    u64_bytes(usage.input_tokens) + u64_bytes(usage.output_tokens) + optional_u64_bytes(
        usage.cached_input_tokens,
    )
}

pub open spec fn trust_byte(trust: TrustOrigin) -> u8 {
    match trust {
        TrustOrigin::Runtime => 0,
        TrustOrigin::TrustedProject => 1,
        TrustOrigin::UserProvided => 2,
        TrustOrigin::Generated => 3,
        TrustOrigin::RemoteAgent => 4,
        TrustOrigin::External => 5,
        TrustOrigin::WebUntrusted => 6,
        TrustOrigin::McpMetadata => 7,
        TrustOrigin::McpResult => 8,
    }
}

/// The kind of an event: its tag, then its fields in order.
pub open spec fn kind_bytes(kind: EventKindView) -> Seq<u8> {
    match kind {
        EventKindView::RunCreated { run_id } => {
            u8_bytes(0) + u64_bytes(run_id.0)
        },
        EventKindView::TaskCreated { task_id, run_id, title } => {
            u8_bytes(1) + u64_bytes(task_id.0) + u64_bytes(run_id.0) + text_bytes(title)
        },
        EventKindView::AgentCreated { agent } => {
            u8_bytes(2) + identity_bytes(agent)
        },
        EventKindView::ModelRequested { agent_id, model } => {
            u8_bytes(3) + u64_bytes(agent_id.0) + model_bytes(model)
        },
        EventKindView::ModelChunkReceived { agent_id, chunk_index } => {
            u8_bytes(4) + u64_bytes(agent_id.0) + u32_bytes(chunk_index)
        },
        EventKindView::ModelCompleted { agent_id, usage } => {
            u8_bytes(5) + u64_bytes(agent_id.0) + usage_bytes(usage)
        },
        EventKindView::ModelCancelled { agent_id } => {
            u8_bytes(6) + u64_bytes(agent_id.0)
        },
        EventKindView::ModelFailed { agent_id, message } => {
            u8_bytes(7) + u64_bytes(agent_id.0) + text_bytes(message)
        },
        EventKindView::RunCompleted { run_id } => {
            u8_bytes(8) + u64_bytes(run_id.0)
        },
        EventKindView::RunCancelled { run_id } => {
            u8_bytes(9) + u64_bytes(run_id.0)
        },
        EventKindView::RunFailed { run_id, message } => {
            u8_bytes(10) + u64_bytes(run_id.0) + text_bytes(message)
        },
        EventKindView::ArtifactCreated { content_hash, size_bytes, media_type, trust } => {
            u8_bytes(11) + content_hash + u64_bytes(size_bytes) + text_bytes(media_type)
                + u8_bytes(trust_byte(trust))
        },
        EventKindView::ContextTransition { version, payload } => {
            u8_bytes(12) + versioned_bytes(version, payload)
        },
        EventKindView::CacheObserved {
            provider,
            model,
            prefix_hash,
            estimated_prefix_tokens,
            cached_input_tokens,
        } => {
            u8_bytes(13) + text_bytes(provider) + text_bytes(model) + prefix_hash
                + u64_bytes(estimated_prefix_tokens) + u64_bytes(cached_input_tokens)
        },
        EventKindView::AgentMessage { version, payload } => {
            u8_bytes(14) + versioned_bytes(version, payload)
        },
        EventKindView::AssumptionTransition { version, payload } => {
            u8_bytes(15) + versioned_bytes(version, payload)
        },
        EventKindView::SchedulerTransition { version, payload } => {
            u8_bytes(16) + versioned_bytes(version, payload)
        },
        EventKindView::AgentPaused { agent_id } => {
            u8_bytes(17) + u64_bytes(agent_id.0)
        },
        EventKindView::AgentResumed { agent_id } => {
            u8_bytes(18) + u64_bytes(agent_id.0)
        },
        EventKindView::CapabilityTransition { version, payload } => {
            u8_bytes(19) + versioned_bytes(version, payload)
        },
        EventKindView::ToolTransition { version, payload } => {
            u8_bytes(20) + versioned_bytes(version, payload)
        },
        EventKindView::FailureMemoryTransition { version, payload } => {
            u8_bytes(21) + versioned_bytes(version, payload)
        },
        EventKindView::SpecialistTransition { version, payload } => {
            u8_bytes(22) + versioned_bytes(version, payload)
        },
    }
}

pub open spec fn event_bytes(event: EventView) -> Seq<u8> {
    u64_bytes(event.id.0) + u64_bytes(event.run_id.0) + u128_bytes(event.occurred_at_ms)
        + kind_bytes(event.kind)
}

// ---------------------------------------------------------------------------
// Which events can be written, and which of those can be read back.

/// Every text and payload of the value is at most `limit` bytes long.
pub open spec fn text_within(text: Seq<char>, limit: int) -> bool {
    encode_utf8(text).len() <= limit
}

pub open spec fn model_within(model: ModelRefView, limit: int) -> bool {
    text_within(model.provider, limit) && text_within(model.model, limit) && match model.class {
        ModelClassView::Custom(name) => text_within(name, limit),
        _ => true,
    }
}

pub open spec fn identity_within(agent: AgentIdentityView, limit: int) -> bool {
    text_within(agent.name, limit) && text_within(agent.mission, limit) && model_within(
        agent.model,
        limit,
    )
}

pub open spec fn kind_within(kind: EventKindView, limit: int) -> bool {
    match kind {
        EventKindView::TaskCreated { title, .. } => text_within(title, limit),
        EventKindView::AgentCreated { agent, .. } => identity_within(agent, limit),
        EventKindView::ModelRequested { model, .. } => model_within(model, limit),
        EventKindView::ModelFailed { message, .. } => text_within(message, limit),
        EventKindView::RunFailed { message, .. } => text_within(message, limit),
        EventKindView::ArtifactCreated { media_type, .. } => text_within(media_type, limit),
        EventKindView::ContextTransition { version, payload } => payload.len() <= limit,
        EventKindView::CacheObserved { provider, model, .. } => text_within(provider, limit)
            && text_within(model, limit),
        EventKindView::AgentMessage { version, payload } => payload.len() <= limit,
        EventKindView::AssumptionTransition { version, payload } => payload.len() <= limit,
        EventKindView::SchedulerTransition { version, payload } => payload.len() <= limit,
        EventKindView::CapabilityTransition { version, payload } => payload.len() <= limit,
        EventKindView::ToolTransition { version, payload } => payload.len() <= limit,
        EventKindView::FailureMemoryTransition { version, payload } => payload.len() <= limit,
        EventKindView::SpecialistTransition { version, payload } => payload.len() <= limit,
        _ => true,
    }
}

/// A digest is 32 bytes long.
pub open spec fn kind_well_formed(kind: EventKindView) -> bool {
    match kind {
        EventKindView::ArtifactCreated { content_hash, .. } => content_hash.len() == 32,
        EventKindView::CacheObserved { prefix_hash, .. } => prefix_hash.len() == 32,
        _ => true,
    }
}

// ---------------------------------------------------------------------------
// What reading bytes as an event yields.

pub open spec fn end_message() -> Seq<char> {
    "unexpected end of encoded value"@
}

pub open spec fn need_u8(bytes: Seq<u8>) -> Result<(u8, Seq<u8>), Seq<char>> {
    required(get_u8(bytes), end_message())
}

pub open spec fn need_u16(bytes: Seq<u8>) -> Result<(u16, Seq<u8>), Seq<char>> {
    required(get_u16(bytes), end_message())
}

pub open spec fn need_u32(bytes: Seq<u8>) -> Result<(u32, Seq<u8>), Seq<char>> {
    required(get_u32(bytes), end_message())
}

pub open spec fn need_u64(bytes: Seq<u8>) -> Result<(u64, Seq<u8>), Seq<char>> {
    required(get_u64(bytes), end_message())
}

pub open spec fn need_u128(bytes: Seq<u8>) -> Result<(u128, Seq<u8>), Seq<char>> {
    required(get_u128(bytes), end_message())
}

pub open spec fn need_array(bytes: Seq<u8>) -> Result<(Seq<u8>, Seq<u8>), Seq<char>> {
    required(get_bytes(bytes, 32), end_message())
}

#[verifier::opaque]
pub open spec fn get_blob(bytes: Seq<u8>) -> Result<(Seq<u8>, Seq<u8>), Seq<char>> {
    match need_u32(bytes) {
        Err(message) => Err(message),
        Ok((length, rest)) => if length > MAX_FRAME_BYTES {
            Err("encoded value exceeds maximum frame size"@)
        } else {
            required(get_bytes(rest, length as nat), end_message())
        },
    }
}

#[verifier::opaque]
pub open spec fn get_text(bytes: Seq<u8>) -> Result<(Seq<char>, Seq<u8>), Seq<char>> {
    match get_blob(bytes) {
        Err(message) => Err(message),
        Ok((blob, rest)) => match text_of(blob) {
            Some(text) => Ok((text, rest)),
            None => Err("encoded string is not UTF-8"@),
        },
    }
}

pub open spec fn get_class(bytes: Seq<u8>) -> Result<(ModelClassView, Seq<u8>), Seq<char>> {
    match need_u8(bytes) {
        Err(message) => Err(message),
        Ok((tag, rest)) => if tag == 0 {
            Ok((ModelClassView::Local, rest))
        } else if tag == 1 {
            Ok((ModelClassView::Cheap, rest))
        } else if tag == 2 {
            Ok((ModelClassView::Strong, rest))
        } else if tag == 3 {
            match get_text(rest) {
                Err(message) => Err(message),
                Ok((name, rest)) => Ok((ModelClassView::Custom(name), rest)),
            }
        } else {
            Err("unknown model class tag "@ + decimal(tag as nat))
        },
    }
}

pub open spec fn get_model(bytes: Seq<u8>) -> Result<(ModelRefView, Seq<u8>), Seq<char>> {
    match get_text(bytes) {
        Err(message) => Err(message),
        Ok((provider, rest)) => match get_text(rest) {
            Err(message) => Err(message),
            Ok((model, rest)) => match get_class(rest) {
                Err(message) => Err(message),
                Ok((class, rest)) => Ok((ModelRefView { provider, model, class }, rest)),
            },
        },
    }
}

pub open spec fn get_identity(bytes: Seq<u8>) -> Result<
    (AgentIdentityView, Seq<u8>),
    Seq<char>,
> {
    match need_u64(bytes) {
        Err(message) => Err(message),
        Ok((id, rest)) => match get_text(rest) {
            Err(message) => Err(message),
            Ok((name, rest)) => match get_text(rest) {
                Err(message) => Err(message),
                Ok((mission, rest)) => match get_model(rest) {
                    Err(message) => Err(message),
                    Ok((model, rest)) => Ok(
                        (AgentIdentityView { id: AgentId(id), name, mission, model }, rest),
                    ),
                },
            },
        },
    }
}

/// Token counts. Older encodings end before the cached count.
pub open spec fn get_usage(bytes: Seq<u8>) -> Result<(Usage, Seq<u8>), Seq<char>> {
    match need_u64(bytes) {
        Err(message) => Err(message),
        Ok((input_tokens, rest)) => match need_u64(rest) {
            Err(message) => Err(message),
            Ok((output_tokens, rest)) => if rest.len() == 0 {
                Ok((Usage { input_tokens, output_tokens, cached_input_tokens: None }, rest))
            } else {
                match need_u8(rest) {
                    Err(message) => Err(message),
                    Ok((tag, rest)) => if tag == 0 {
                        Ok((Usage { input_tokens, output_tokens, cached_input_tokens: None }, rest))
                    } else if tag == 1 {
                        match need_u64(rest) {
                            Err(message) => Err(message),
                            Ok((cached, rest)) => Ok(
                                (
                                    Usage {
                                        input_tokens,
                                        output_tokens,
                                        cached_input_tokens: Some(cached),
                                    },
                                    rest,
                                ),
                            ),
                        }
                    } else {
                        Err("unknown cached usage tag "@ + decimal(tag as nat))
                    },
                }
            },
        },
    }
}

pub open spec fn trust_from_byte(tag: u8) -> Result<TrustOrigin, Seq<char>> {
    if tag == 0 {
        Ok(TrustOrigin::Runtime)
    } else if tag == 1 {
        Ok(TrustOrigin::TrustedProject)
    } else if tag == 2 {
        Ok(TrustOrigin::UserProvided)
    } else if tag == 3 {
        Ok(TrustOrigin::Generated)
    } else if tag == 4 {
        Ok(TrustOrigin::RemoteAgent)
    } else if tag == 5 {
        Ok(TrustOrigin::External)
    } else if tag == 6 {
        Ok(TrustOrigin::WebUntrusted)
    } else if tag == 7 {
        Ok(TrustOrigin::McpMetadata)
    } else if tag == 8 {
        Ok(TrustOrigin::McpResult)
    } else {
        Err("unknown trust origin tag "@ + decimal(tag as nat))
    }
}

/// A trust byte. Older encodings end before it and mean generated content.
pub open spec fn get_trust(bytes: Seq<u8>) -> Result<(TrustOrigin, Seq<u8>), Seq<char>> {
    if bytes.len() == 0 {
        Ok((TrustOrigin::Generated, bytes))
    } else {
        match need_u8(bytes) {
            Err(message) => Err(message),
            Ok((tag, rest)) => match trust_from_byte(tag) {
                Err(message) => Err(message),
                Ok(trust) => Ok((trust, rest)),
            },
        }
    }
}

pub open spec fn get_versioned(bytes: Seq<u8>) -> Result<((u16, Seq<u8>), Seq<u8>), Seq<char>> {
    match need_u16(bytes) {
        Err(message) => Err(message),
        Ok((version, rest)) => match get_blob(rest) {
            Err(message) => Err(message),
            Ok((payload, rest)) => Ok(((version, payload), rest)),
        },
    }
}

/// The fields of an event kind behind its tag.
pub open spec fn get_kind_fields(tag: u8, bytes: Seq<u8>) -> Result<
    (EventKindView, Seq<u8>),
    Seq<char>,
> {
    if tag == 0 {
        match need_u64(bytes) {
            Err(message) => Err(message),
            Ok((run_id, rest)) => Ok((EventKindView::RunCreated { run_id: RunId(run_id) }, rest)),
        }
    } else if tag == 1 {
        match need_u64(bytes) {
            Err(message) => Err(message),
            Ok((task_id, rest)) => {
            match need_u64(rest) {
                Err(message) => Err(message),
                Ok((run_id, rest)) => {
                match get_text(rest) {
                    Err(message) => Err(message),
                    Ok((title, rest)) => Ok(
                        (
                            EventKindView::TaskCreated {
                                task_id: TaskId(task_id),
                                run_id: RunId(run_id),
                                title,
                            },
                            rest,
                        ),
                    ),
                }},
            }},
        }
    } else if tag == 2 {
        match get_identity(bytes) {
            Err(message) => Err(message),
            Ok((agent, rest)) => Ok((EventKindView::AgentCreated { agent }, rest)),
        }
    } else if tag == 3 {
        match need_u64(bytes) {
            Err(message) => Err(message),
            Ok((agent_id, rest)) => {
            match get_model(rest) {
                Err(message) => Err(message),
                Ok((model, rest)) => Ok(
                    (EventKindView::ModelRequested { agent_id: AgentId(agent_id), model }, rest),
                ),
            }},
        }
    } else if tag == 4 {
        match need_u64(bytes) {
            Err(message) => Err(message),
            Ok((agent_id, rest)) => {
            match need_u32(rest) {
                Err(message) => Err(message),
                Ok((chunk_index, rest)) => Ok(
                    (
                        EventKindView::ModelChunkReceived {
                            agent_id: AgentId(agent_id),
                            chunk_index,
                        },
                        rest,
                    ),
                ),
            }},
        }
    } else if tag == 5 {
        match need_u64(bytes) {
            Err(message) => Err(message),
            Ok((agent_id, rest)) => {
            match get_usage(rest) {
                Err(message) => Err(message),
                Ok((usage, rest)) => Ok(
                    (EventKindView::ModelCompleted { agent_id: AgentId(agent_id), usage }, rest),
                ),
            }},
        }
    } else if tag == 6 {
        match need_u64(bytes) {
            Err(message) => Err(message),
            Ok((agent_id, rest)) => Ok(
                (EventKindView::ModelCancelled { agent_id: AgentId(agent_id) }, rest),
            ),
        }
    } else if tag == 7 {
        match need_u64(bytes) {
            Err(message) => Err(message),
            Ok((agent_id, rest)) => {
            match get_text(rest) {
                Err(message) => Err(message),
                Ok((message, rest)) => Ok(
                    (EventKindView::ModelFailed { agent_id: AgentId(agent_id), message }, rest),
                ),
            }},
        }
    } else if tag == 8 {
        match need_u64(bytes) {
            Err(message) => Err(message),
            Ok((run_id, rest)) => Ok((EventKindView::RunCompleted { run_id: RunId(run_id) }, rest)),
        }
    } else if tag == 9 {
        match need_u64(bytes) {
            Err(message) => Err(message),
            Ok((run_id, rest)) => Ok((EventKindView::RunCancelled { run_id: RunId(run_id) }, rest)),
        }
    } else if tag == 10 {
        match need_u64(bytes) {
            Err(message) => Err(message),
            Ok((run_id, rest)) => {
            match get_text(rest) {
                Err(message) => Err(message),
                Ok((message, rest)) => Ok(
                    (EventKindView::RunFailed { run_id: RunId(run_id), message }, rest),
                ),
            }},
        }
    } else if tag == 11 {
        match need_array(bytes) {
            Err(message) => Err(message),
            Ok((content_hash, rest)) => {
            match need_u64(rest) {
                Err(message) => Err(message),
                Ok((size_bytes, rest)) => {
                match get_text(rest) {
                    Err(message) => Err(message),
                    Ok((media_type, rest)) => {
                    match get_trust(rest) {
                        Err(message) => Err(message),
                        Ok((trust, rest)) => Ok(
                            (
                                EventKindView::ArtifactCreated {
                                    content_hash,
                                    size_bytes,
                                    media_type,
                                    trust,
                                },
                                rest,
                            ),
                        ),
                    }},
                }},
            }},
        }
    } else if tag == 12 {
        match get_versioned(bytes) {
            Err(message) => Err(message),
            Ok(((version, payload), rest)) => Ok(
                (EventKindView::ContextTransition { version, payload }, rest),
            ),
        }
    } else if tag == 13 {
        match get_text(bytes) {
            Err(message) => Err(message),
            Ok((provider, rest)) => {
            match get_text(rest) {
                Err(message) => Err(message),
                Ok((model, rest)) => {
                match need_array(rest) {
                    Err(message) => Err(message),
                    Ok((prefix_hash, rest)) => {
                    match need_u64(rest) {
                        Err(message) => Err(message),
                        Ok((estimated_prefix_tokens, rest)) => {
                        match need_u64(rest) {
                            Err(message) => Err(message),
                            Ok((cached_input_tokens, rest)) => Ok(
                                (
                                    EventKindView::CacheObserved {
                                        provider,
                                        model,
                                        prefix_hash,
                                        estimated_prefix_tokens,
                                        cached_input_tokens,
                                    },
                                    rest,
                                ),
                            ),
                        }},
                    }},
                }},
            }},
        }
    } else if tag == 14 {
        match get_versioned(bytes) {
            Err(message) => Err(message),
            Ok(((version, payload), rest)) => Ok(
                (EventKindView::AgentMessage { version, payload }, rest),
            ),
        }
    } else if tag == 15 {
        match get_versioned(bytes) {
            Err(message) => Err(message),
            Ok(((version, payload), rest)) => Ok(
                (EventKindView::AssumptionTransition { version, payload }, rest),
            ),
        }
    } else if tag == 16 {
        match get_versioned(bytes) {
            Err(message) => Err(message),
            Ok(((version, payload), rest)) => Ok(
                (EventKindView::SchedulerTransition { version, payload }, rest),
            ),
        }
    } else if tag == 17 {
        match need_u64(bytes) {
            Err(message) => Err(message),
            Ok((agent_id, rest)) => Ok(
                (EventKindView::AgentPaused { agent_id: AgentId(agent_id) }, rest),
            ),
        }
    } else if tag == 18 {
        match need_u64(bytes) {
            Err(message) => Err(message),
            Ok((agent_id, rest)) => Ok(
                (EventKindView::AgentResumed { agent_id: AgentId(agent_id) }, rest),
            ),
        }
    } else if tag == 19 {
        match get_versioned(bytes) {
            Err(message) => Err(message),
            Ok(((version, payload), rest)) => Ok(
                (EventKindView::CapabilityTransition { version, payload }, rest),
            ),
        }
    } else if tag == 20 {
        match get_versioned(bytes) {
            Err(message) => Err(message),
            Ok(((version, payload), rest)) => Ok(
                (EventKindView::ToolTransition { version, payload }, rest),
            ),
        }
    } else if tag == 21 {
        match get_versioned(bytes) {
            Err(message) => Err(message),
            Ok(((version, payload), rest)) => Ok(
                (EventKindView::FailureMemoryTransition { version, payload }, rest),
            ),
        }
    } else if tag == 22 {
        match get_versioned(bytes) {
            Err(message) => Err(message),
            Ok(((version, payload), rest)) => Ok(
                (EventKindView::SpecialistTransition { version, payload }, rest),
            ),
        }
    } else {
        Err("unknown event kind tag "@ + decimal(tag as nat))
    }
}

pub open spec fn get_kind(bytes: Seq<u8>) -> Result<(EventKindView, Seq<u8>), Seq<char>> {
    match need_u8(bytes) {
        Err(message) => Err(message),
        Ok((tag, rest)) => get_kind_fields(tag, rest),
    }
}

/// What a whole encoded event means, or why it means nothing.
pub open spec fn event_of(bytes: Seq<u8>) -> Result<EventView, Seq<char>> {
    match need_u64(bytes) {
        Err(message) => Err(message),
        Ok((id, rest)) => match need_u64(rest) {
            Err(message) => Err(message),
            Ok((run_id, rest)) => match need_u128(rest) {
                Err(message) => Err(message),
                Ok((occurred_at_ms, rest)) => match get_kind(rest) {
                    Err(message) => Err(message),
                    Ok((kind, rest)) => if rest.len() == 0 {
                        Ok(
                            EventView {
                                id: EventId(id),
                                run_id: RunId(run_id),
                                occurred_at_ms,
                                kind,
                            },
                        )
                    } else {
                        Err("encoded value contains trailing bytes"@)
                    },
                },
            },
        },
    }
}

// ---------------------------------------------------------------------------
// Reading back what was written.

pub broadcast proof fn blob_reads_back(value: Seq<u8>, rest: Seq<u8>)
    requires
        value.len() <= MAX_FRAME_BYTES,
    ensures
        #[trigger] get_blob(blob32_bytes(value) + rest) == Ok::<_, Seq<char>>((value, rest)),
{
    broadcast use group_codec;

    reveal(blob32_bytes);
    reveal(get_blob);
    assert(blob32_bytes(value) + rest == u32_bytes(value.len() as u32) + (value + rest));
}

pub broadcast proof fn text_reads_back(text: Seq<char>, rest: Seq<u8>)
    requires
        text_within(text, MAX_FRAME_BYTES as int),
    ensures
        #[trigger] get_text(text_bytes(text) + rest) == Ok::<_, Seq<char>>((text, rest)),
{
    broadcast use {group_codec, blob_reads_back};

    reveal(text_bytes);
    reveal(get_text);
}

pub broadcast proof fn model_reads_back(model: ModelRefView, rest: Seq<u8>)
    requires
        model_within(model, MAX_FRAME_BYTES as int),
    ensures
        #[trigger] get_model(model_bytes(model) + rest) == Ok::<_, Seq<char>>((model, rest)),
{
    broadcast use {group_codec, text_reads_back};

    let tail = class_bytes(model.class) + rest;
    assert(model_bytes(model) + rest == text_bytes(model.provider) + (text_bytes(model.model)
        + tail));
    assert(get_class(tail) == Ok::<_, Seq<char>>((model.class, rest)));
}

pub broadcast proof fn identity_reads_back(agent: AgentIdentityView, rest: Seq<u8>)
    requires
        identity_within(agent, MAX_FRAME_BYTES as int),
    ensures
        #[trigger] get_identity(identity_bytes(agent) + rest) == Ok::<_, Seq<char>>((agent, rest)),
{
    broadcast use {group_codec, text_reads_back, model_reads_back};

    assert(identity_bytes(agent) + rest == u64_bytes(agent.id.0) + (text_bytes(agent.name) + (
    text_bytes(agent.mission) + (model_bytes(agent.model) + rest))));
}

pub broadcast proof fn usage_reads_back(usage: Usage, rest: Seq<u8>)
    ensures
        #[trigger] get_usage(usage_bytes(usage) + rest) == Ok::<_, Seq<char>>((usage, rest)),
{
    broadcast use group_codec;

    let tail = optional_u64_bytes(usage.cached_input_tokens) + rest;
    assert(usage_bytes(usage) + rest == u64_bytes(usage.input_tokens) + (u64_bytes(
        usage.output_tokens,
    ) + tail));
    assert(tail.len() > 0);
    match usage.cached_input_tokens {
        Some(cached) => {
            assert(tail == u8_bytes(1) + (u64_bytes(cached) + rest));
        },
        None => {
            assert(tail == u8_bytes(0) + rest);
        },
    }
}

pub broadcast proof fn trust_reads_back(trust: TrustOrigin, rest: Seq<u8>)
    ensures
        #[trigger] get_trust(u8_bytes(trust_byte(trust)) + rest) == Ok::<_, Seq<char>>(
            (trust, rest),
        ),
{
    broadcast use group_codec;

    assert((u8_bytes(trust_byte(trust)) + rest).len() > 0);
}

pub broadcast proof fn versioned_reads_back(version: u16, payload: Seq<u8>, rest: Seq<u8>)
    requires
        payload.len() <= MAX_FRAME_BYTES,
    ensures
        #[trigger] get_versioned(versioned_bytes(version, payload) + rest) == Ok::<_, Seq<char>>(
            ((version, payload), rest),
        ),
{
    broadcast use {group_codec, blob_reads_back};

    assert(versioned_bytes(version, payload) + rest == u16_bytes(version) + (blob32_bytes(payload)
        + rest));
}

proof fn digest_reads_back(digest: Seq<u8>, rest: Seq<u8>)
    requires
        digest.len() == 32,
    ensures
        need_array(digest + rest) == Ok::<_, Seq<char>>((digest, rest)),
{
    broadcast use group_codec;

}

proof fn tagged_reads_back(tag: u8, fields: Seq<u8>, rest: Seq<u8>)
    ensures
        need_u8(u8_bytes(tag) + fields + rest) == Ok::<_, Seq<char>>((tag, fields + rest)),
{
    broadcast use group_codec;

}

proof fn run_kind_reads_back(kind: EventKindView, rest: Seq<u8>)
    requires
        kind_within(kind, MAX_FRAME_BYTES as int),
        kind_well_formed(kind),
        kind is RunCreated
            || kind is RunCompleted
            || kind is RunCancelled
            || kind is RunFailed
            || kind is TaskCreated,
    ensures
        get_kind(kind_bytes(kind) + rest) == Ok::<_, Seq<char>>((kind, rest)),
{
    match kind {
        EventKindView::RunCreated { run_id } => {
            get_u8_of_bytes(0, u64_bytes(run_id.0) + rest);
            regroup1(u8_bytes(0), u64_bytes(run_id.0), rest);
            get_u64_of_bytes(run_id.0, rest);
        },
        EventKindView::RunCompleted { run_id } => {
            get_u8_of_bytes(8, u64_bytes(run_id.0) + rest);
            regroup1(u8_bytes(8), u64_bytes(run_id.0), rest);
            get_u64_of_bytes(run_id.0, rest);
        },
        EventKindView::RunCancelled { run_id } => {
            get_u8_of_bytes(9, u64_bytes(run_id.0) + rest);
            regroup1(u8_bytes(9), u64_bytes(run_id.0), rest);
            get_u64_of_bytes(run_id.0, rest);
        },
        EventKindView::RunFailed { run_id, message } => {
            get_u8_of_bytes(10, u64_bytes(run_id.0) + (text_bytes(message) + rest));
            regroup2(u8_bytes(10), u64_bytes(run_id.0), text_bytes(message), rest);
            text_reads_back(message, rest);
            get_u64_of_bytes(run_id.0, text_bytes(message) + rest);
        },
        EventKindView::TaskCreated { task_id, run_id, title } => {
            get_u8_of_bytes(
                1,
                u64_bytes(task_id.0) + (u64_bytes(run_id.0) + (text_bytes(title) + rest)),
            );
            regroup3(
                u8_bytes(1),
                u64_bytes(task_id.0),
                u64_bytes(run_id.0),
                text_bytes(title),
                rest,
            );
            text_reads_back(title, rest);
            get_u64_of_bytes(run_id.0, text_bytes(title) + rest);
            get_u64_of_bytes(task_id.0, u64_bytes(run_id.0) + (text_bytes(title) + rest));
        },
        _ => {},
    }
}

proof fn agent_kind_reads_back(kind: EventKindView, rest: Seq<u8>)
    requires
        kind_within(kind, MAX_FRAME_BYTES as int),
        kind_well_formed(kind),
        kind is AgentCreated
            || kind is AgentPaused
            || kind is AgentResumed,
    ensures
        get_kind(kind_bytes(kind) + rest) == Ok::<_, Seq<char>>((kind, rest)),
{
    match kind {
        EventKindView::AgentCreated { agent } => {
            get_u8_of_bytes(2, identity_bytes(agent) + rest);
            regroup1(u8_bytes(2), identity_bytes(agent), rest);
            identity_reads_back(agent, rest);
        },
        EventKindView::AgentPaused { agent_id } => {
            get_u8_of_bytes(17, u64_bytes(agent_id.0) + rest);
            regroup1(u8_bytes(17), u64_bytes(agent_id.0), rest);
            get_u64_of_bytes(agent_id.0, rest);
        },
        EventKindView::AgentResumed { agent_id } => {
            get_u8_of_bytes(18, u64_bytes(agent_id.0) + rest);
            regroup1(u8_bytes(18), u64_bytes(agent_id.0), rest);
            get_u64_of_bytes(agent_id.0, rest);
        },
        _ => {},
    }
}

proof fn model_kind_reads_back(kind: EventKindView, rest: Seq<u8>)
    requires
        kind_within(kind, MAX_FRAME_BYTES as int),
        kind_well_formed(kind),
        kind is ModelRequested
            || kind is ModelChunkReceived
            || kind is ModelCompleted
            || kind is ModelCancelled
            || kind is ModelFailed,
    ensures
        get_kind(kind_bytes(kind) + rest) == Ok::<_, Seq<char>>((kind, rest)),
{
    match kind {
        EventKindView::ModelRequested { agent_id, model } => {
            get_u8_of_bytes(3, u64_bytes(agent_id.0) + (model_bytes(model) + rest));
            regroup2(u8_bytes(3), u64_bytes(agent_id.0), model_bytes(model), rest);
            model_reads_back(model, rest);
            get_u64_of_bytes(agent_id.0, model_bytes(model) + rest);
        },
        EventKindView::ModelChunkReceived { agent_id, chunk_index } => {
            get_u8_of_bytes(4, u64_bytes(agent_id.0) + (u32_bytes(chunk_index) + rest));
            regroup2(u8_bytes(4), u64_bytes(agent_id.0), u32_bytes(chunk_index), rest);
            get_u32_of_bytes(chunk_index, rest);
            get_u64_of_bytes(agent_id.0, u32_bytes(chunk_index) + rest);
        },
        EventKindView::ModelCompleted { agent_id, usage } => {
            get_u8_of_bytes(5, u64_bytes(agent_id.0) + (usage_bytes(usage) + rest));
            regroup2(u8_bytes(5), u64_bytes(agent_id.0), usage_bytes(usage), rest);
            usage_reads_back(usage, rest);
            get_u64_of_bytes(agent_id.0, usage_bytes(usage) + rest);
        },
        EventKindView::ModelCancelled { agent_id } => {
            get_u8_of_bytes(6, u64_bytes(agent_id.0) + rest);
            regroup1(u8_bytes(6), u64_bytes(agent_id.0), rest);
            get_u64_of_bytes(agent_id.0, rest);
        },
        EventKindView::ModelFailed { agent_id, message } => {
            get_u8_of_bytes(7, u64_bytes(agent_id.0) + (text_bytes(message) + rest));
            regroup2(u8_bytes(7), u64_bytes(agent_id.0), text_bytes(message), rest);
            text_reads_back(message, rest);
            get_u64_of_bytes(agent_id.0, text_bytes(message) + rest);
        },
        _ => {},
    }
}

proof fn content_kind_reads_back(kind: EventKindView, rest: Seq<u8>)
    requires
        kind_within(kind, MAX_FRAME_BYTES as int),
        kind_well_formed(kind),
        kind is ArtifactCreated
            || kind is CacheObserved,
    ensures
        get_kind(kind_bytes(kind) + rest) == Ok::<_, Seq<char>>((kind, rest)),
{
    match kind {
        EventKindView::ArtifactCreated { content_hash, size_bytes, media_type, trust } => {
            get_u8_of_bytes(
                11,
                content_hash
                    + (u64_bytes(size_bytes) + (text_bytes(media_type) + (u8_bytes(trust_byte(trust)) + rest))),
            );
            regroup4(
                u8_bytes(11),
                content_hash,
                u64_bytes(size_bytes),
                text_bytes(media_type),
                u8_bytes(trust_byte(trust)),
                rest,
            );
            trust_reads_back(trust, rest);
            text_reads_back(media_type, u8_bytes(trust_byte(trust)) + rest);
            get_u64_of_bytes(
                size_bytes,
                text_bytes(media_type) + (u8_bytes(trust_byte(trust)) + rest),
            );
            digest_reads_back(
                content_hash,
                u64_bytes(size_bytes)
                    + (text_bytes(media_type) + (u8_bytes(trust_byte(trust)) + rest)),
            );
        },
        EventKindView::CacheObserved {
            provider,
            model,
            prefix_hash,
            estimated_prefix_tokens,
            cached_input_tokens,
        } => {
            get_u8_of_bytes(
                13,
                text_bytes(provider)
                    + (text_bytes(model) + (prefix_hash + (u64_bytes(estimated_prefix_tokens) + (u64_bytes(cached_input_tokens) + rest)))),
            );
            regroup5(
                u8_bytes(13),
                text_bytes(provider),
                text_bytes(model),
                prefix_hash,
                u64_bytes(estimated_prefix_tokens),
                u64_bytes(cached_input_tokens),
                rest,
            );
            get_u64_of_bytes(cached_input_tokens, rest);
            get_u64_of_bytes(estimated_prefix_tokens, u64_bytes(cached_input_tokens) + rest);
            digest_reads_back(
                prefix_hash,
                u64_bytes(estimated_prefix_tokens) + (u64_bytes(cached_input_tokens) + rest),
            );
            text_reads_back(
                model,
                prefix_hash
                    + (u64_bytes(estimated_prefix_tokens) + (u64_bytes(cached_input_tokens) + rest)),
            );
            text_reads_back(
                provider,
                text_bytes(model)
                    + (prefix_hash + (u64_bytes(estimated_prefix_tokens) + (u64_bytes(cached_input_tokens) + rest))),
            );
        },
        _ => {},
    }
}

proof fn payload_kind_reads_back(kind: EventKindView, rest: Seq<u8>)
    requires
        kind_within(kind, MAX_FRAME_BYTES as int),
        kind_well_formed(kind),
        kind is ContextTransition
            || kind is AgentMessage
            || kind is AssumptionTransition
            || kind is SchedulerTransition
            || kind is CapabilityTransition
            || kind is ToolTransition
            || kind is FailureMemoryTransition
            || kind is SpecialistTransition,
    ensures
        get_kind(kind_bytes(kind) + rest) == Ok::<_, Seq<char>>((kind, rest)),
{
    match kind {
        EventKindView::ContextTransition { version, payload } => {
            versioned_reads_back(version, payload, rest);
            tagged_reads_back(12, versioned_bytes(version, payload), rest);
        },
        EventKindView::AgentMessage { version, payload } => {
            versioned_reads_back(version, payload, rest);
            tagged_reads_back(14, versioned_bytes(version, payload), rest);
        },
        EventKindView::AssumptionTransition { version, payload } => {
            versioned_reads_back(version, payload, rest);
            tagged_reads_back(15, versioned_bytes(version, payload), rest);
        },
        EventKindView::SchedulerTransition { version, payload } => {
            versioned_reads_back(version, payload, rest);
            tagged_reads_back(16, versioned_bytes(version, payload), rest);
        },
        EventKindView::CapabilityTransition { version, payload } => {
            versioned_reads_back(version, payload, rest);
            tagged_reads_back(19, versioned_bytes(version, payload), rest);
        },
        EventKindView::ToolTransition { version, payload } => {
            versioned_reads_back(version, payload, rest);
            tagged_reads_back(20, versioned_bytes(version, payload), rest);
        },
        EventKindView::FailureMemoryTransition { version, payload } => {
            versioned_reads_back(version, payload, rest);
            tagged_reads_back(21, versioned_bytes(version, payload), rest);
        },
        EventKindView::SpecialistTransition { version, payload } => {
            versioned_reads_back(version, payload, rest);
            tagged_reads_back(22, versioned_bytes(version, payload), rest);
        },
        _ => {},
    }
}

proof fn kind_reads_back(kind: EventKindView, rest: Seq<u8>)
    requires
        kind_within(kind, MAX_FRAME_BYTES as int),
        kind_well_formed(kind),
    ensures
        get_kind(kind_bytes(kind) + rest) == Ok::<_, Seq<char>>((kind, rest)),
{
    if kind is RunCreated || kind is RunCompleted || kind is RunCancelled || kind is RunFailed
        || kind is TaskCreated {
        run_kind_reads_back(kind, rest);
    } else if kind is AgentCreated || kind is AgentPaused || kind is AgentResumed {
        agent_kind_reads_back(kind, rest);
    } else if kind is ModelRequested || kind is ModelChunkReceived || kind is ModelCompleted
        || kind is ModelCancelled || kind is ModelFailed {
        model_kind_reads_back(kind, rest);
    } else if kind is ArtifactCreated || kind is CacheObserved {
        content_kind_reads_back(kind, rest);
    } else {
        payload_kind_reads_back(kind, rest);
    }
}

/// Decoding gives back what was encoded, for every event whose texts and
/// payloads fit a frame.
pub proof fn decoding_inverts_encoding(event: EventView)
    requires
        kind_within(event.kind, MAX_FRAME_BYTES as int),
        kind_well_formed(event.kind),
    ensures
        event_of(event_bytes(event)) == Ok::<EventView, Seq<char>>(event),
{
    broadcast use group_codec;

    let empty = Seq::<u8>::empty();
    kind_reads_back(event.kind, empty);
    assert(event_bytes(event) == u64_bytes(event.id.0) + (u64_bytes(event.run_id.0) + (u128_bytes(
        event.occurred_at_ms,
    ) + (kind_bytes(event.kind) + empty)))) by {
        assert(event_bytes(event) =~= event_bytes(event) + empty);
    }
}

/// An encoded event is what it is read as, up to where its kind ends.
proof fn headers_read_back(event: EventView, kind: EventKindView, fields: Seq<u8>, rest: Seq<u8>)
    requires
        get_kind(fields) == Ok::<_, Seq<char>>((kind, rest)),
    ensures
        event_of(
            u64_bytes(event.id.0) + (u64_bytes(event.run_id.0) + (u128_bytes(event.occurred_at_ms)
                + fields)),
        ) == if rest.len() == 0 {
            Ok::<EventView, Seq<char>>(EventView { kind, ..event })
        } else {
            Err::<EventView, Seq<char>>("encoded value contains trailing bytes"@)
        },
{
    broadcast use group_codec;

}

/// Whatever follows an encoded event, it is refused.
pub proof fn trailing_bytes_are_refused(event: EventView, more: Seq<u8>)
    requires
        kind_within(event.kind, MAX_FRAME_BYTES as int),
        kind_well_formed(event.kind),
        more.len() > 0,
    ensures
        event_of(event_bytes(event) + more) == Err::<EventView, Seq<char>>(
            "encoded value contains trailing bytes"@,
        ),
{
    kind_reads_back(event.kind, more);
    headers_read_back(event, event.kind, kind_bytes(event.kind) + more, more);
    regroup3(
        u64_bytes(event.id.0),
        u64_bytes(event.run_id.0),
        u128_bytes(event.occurred_at_ms),
        kind_bytes(event.kind),
        more,
    );
}

/// A completed model's event from before cached tokens were recorded still
/// decodes: it lacks the last byte.
pub proof fn older_completions_still_decode(event: EventView)
    requires
        event.kind matches EventKindView::ModelCompleted { usage, .. }
            && usage.cached_input_tokens is None,
    ensures
        event_of(event_bytes(event).drop_last()) == Ok::<EventView, Seq<char>>(event),
{
    broadcast use group_codec;

    let empty = Seq::<u8>::empty();
    if let EventKindView::ModelCompleted { agent_id, usage } = event.kind {
        let last = u64_bytes(usage.output_tokens) + empty;
        let tokens = u64_bytes(usage.input_tokens) + last;
        let fields = u8_bytes(5) + (u64_bytes(agent_id.0) + tokens);
        assert(get_usage(tokens) == Ok::<_, Seq<char>>((usage, empty)));
        assert(get_kind(fields) == Ok::<_, Seq<char>>((event.kind, empty)));
        headers_read_back(event, event.kind, fields, empty);
        let older = u64_bytes(event.id.0) + (u64_bytes(event.run_id.0) + (u128_bytes(
            event.occurred_at_ms,
        ) + fields));
        assert(u8_bytes(0) =~= seq![0u8]);
        assert(event_bytes(event) =~= older + u8_bytes(0));
        assert(event_bytes(event).drop_last() =~= older);
    }
}

/// An artifact's event from before trust was recorded still decodes: it lacks
/// the last byte, and counts as generated.
pub proof fn older_artifacts_still_decode(event: EventView)
    requires
        event.kind is ArtifactCreated,
        kind_within(event.kind, MAX_FRAME_BYTES as int),
        kind_well_formed(event.kind),
    ensures
        ({
            let kind = EventKindView::ArtifactCreated {
                content_hash: event.kind->ArtifactCreated_content_hash,
                size_bytes: event.kind->ArtifactCreated_size_bytes,
                media_type: event.kind->ArtifactCreated_media_type,
                trust: TrustOrigin::Generated,
            };
            event_of(event_bytes(event).drop_last()) == Ok::<EventView, Seq<char>>(
                EventView { kind, ..event },
            )
        }),
{
    let empty = Seq::<u8>::empty();
    if let EventKindView::ArtifactCreated { content_hash, size_bytes, media_type, trust } =
        event.kind {
        let kind = EventKindView::ArtifactCreated {
            content_hash,
            size_bytes,
            media_type,
            trust: TrustOrigin::Generated,
        };
        let name = text_bytes(media_type) + empty;
        let size = u64_bytes(size_bytes) + name;
        let fields = u8_bytes(11) + (content_hash + size);
        text_reads_back(media_type, empty);
        get_u64_of_bytes(size_bytes, name);
        digest_reads_back(content_hash, size);
        get_u8_of_bytes(11, content_hash + size);
        assert(get_kind(fields) == Ok::<_, Seq<char>>((kind, empty)));
        headers_read_back(event, kind, fields, empty);
        let older = u64_bytes(event.id.0) + (u64_bytes(event.run_id.0) + (u128_bytes(
            event.occurred_at_ms,
        ) + fields));
        let tag = u8_bytes(trust_byte(trust));
        assert(tag.len() == 1);
        assert(event_bytes(event) =~= older + tag);
        assert(event_bytes(event).drop_last() =~= older);
    }
}

/// Events with the same encoding are the same event.
pub proof fn encoding_is_injective(left: EventView, right: EventView)
    requires
        kind_within(left.kind, MAX_FRAME_BYTES as int),
        kind_well_formed(left.kind),
        kind_within(right.kind, MAX_FRAME_BYTES as int),
        kind_well_formed(right.kind),
        event_bytes(left) == event_bytes(right),
    ensures
        left == right,
{
    decoding_inverts_encoding(left);
    decoding_inverts_encoding(right);
}

// ---------------------------------------------------------------------------
// Writing.

pub(crate) fn put_blob(out: &mut Vec<u8>, value: &[u8]) -> (result: Result<(), String>)
    ensures
        match result {
            Ok(_) => value@.len() <= u32::MAX && final(out)@ == old(out)@ + blob32_bytes(value@),
            Err(message) => value@.len() > u32::MAX && message@ == "value exceeds u32::MAX"@,
        },
{
    broadcast use concat_is_associative;
    reveal(blob32_bytes);
    let length: usize = value.len();
    if length > 4294967295 {
        return Err("value exceeds u32::MAX".to_owned());
    }
    put_u32(out, length as u32);
    put_bytes(out, value);
    Ok(())
}

pub(crate) fn put_text(out: &mut Vec<u8>, value: &str) -> (result: Result<(), String>)
    ensures
        match result {
            Ok(_) => text_within(value@, u32::MAX as int) && final(out)@ == old(out)@ + text_bytes(
                value@,
            ),
            Err(message) => !text_within(value@, u32::MAX as int) && message@
                == "value exceeds u32::MAX"@,
        },
{
    reveal(text_bytes);
    put_blob(out, value.as_bytes())
}

pub(crate) fn put_model(out: &mut Vec<u8>, model: &ModelRef) -> (result: Result<(), String>)
    ensures
        match result {
            Ok(_) => model_within(model@, u32::MAX as int) && final(out)@ == old(out)@
                + model_bytes(model@),
            Err(message) => !model_within(model@, u32::MAX as int) && message@
                == "value exceeds u32::MAX"@,
        },
{
    broadcast use concat_is_associative;
    put_text(out, model.provider.as_str())?;
    put_text(out, model.model.as_str())?;
    match &model.class {
        ModelClass::Local => put_u8(out, 0),
        ModelClass::Cheap => put_u8(out, 1),
        ModelClass::Strong => put_u8(out, 2),
        ModelClass::Custom(name) => {
            put_u8(out, 3);
            put_text(out, name.as_str())?;
        },
    }
    Ok(())
}

pub(crate) fn put_identity(out: &mut Vec<u8>, agent: &AgentIdentity) -> (result: Result<
    (),
    String,
>)
    ensures
        match result {
            Ok(_) => identity_within(agent@, u32::MAX as int) && final(out)@ == old(out)@
                + identity_bytes(agent@),
            Err(message) => !identity_within(agent@, u32::MAX as int) && message@
                == "value exceeds u32::MAX"@,
        },
{
    broadcast use concat_is_associative;
    put_u64(out, agent.id.value());
    put_text(out, agent.name.as_str())?;
    put_text(out, agent.mission.as_str())?;
    put_model(out, &agent.model)?;
    Ok(())
}

fn put_usage(out: &mut Vec<u8>, usage: Usage)
    ensures
        final(out)@ == old(out)@ + usage_bytes(usage),
{
    broadcast use concat_is_associative;
    put_u64(out, usage.input_tokens);
    put_u64(out, usage.output_tokens);
    put_optional_u64(out, usage.cached_input_tokens);
}

fn put_versioned(out: &mut Vec<u8>, version: u16, payload: &Vec<u8>) -> (result: Result<
    (),
    String,
>)
    ensures
        match result {
            Ok(_) => payload@.len() <= u32::MAX && final(out)@ == old(out)@ + versioned_bytes(
                version,
                payload@,
            ),
            Err(message) => payload@.len() > u32::MAX && message@ == "value exceeds u32::MAX"@,
        },
{
    broadcast use concat_is_associative;
    put_u16(out, version);
    put_blob(out, payload.as_slice())?;
    Ok(())
}

pub(crate) fn trust_tag(trust: TrustOrigin) -> (tag: u8)
    ensures
        tag == trust_byte(trust),
{
    match trust {
        TrustOrigin::Runtime => 0,
        TrustOrigin::TrustedProject => 1,
        TrustOrigin::UserProvided => 2,
        TrustOrigin::Generated => 3,
        TrustOrigin::RemoteAgent => 4,
        TrustOrigin::External => 5,
        TrustOrigin::WebUntrusted => 6,
        TrustOrigin::McpMetadata => 7,
        TrustOrigin::McpResult => 8,
    }
}

fn put_kind(out: &mut Vec<u8>, kind: &EventKind) -> (result: Result<(), String>)
    ensures
        match result {
            Ok(_) => kind_within(kind@, u32::MAX as int) && final(out)@ == old(out)@ + kind_bytes(
                kind@,
            ),
            Err(message) => !kind_within(kind@, u32::MAX as int) && message@
                == "value exceeds u32::MAX"@,
        },
{
    broadcast use concat_is_associative;
    match kind {
        EventKind::RunCreated { run_id } => {
            put_u8(out, 0);
            put_u64(out, run_id.value());
        },
        EventKind::TaskCreated { task_id, run_id, title } => {
            put_u8(out, 1);
            put_u64(out, task_id.value());
            put_u64(out, run_id.value());
            put_text(out, title)?;
        },
        EventKind::AgentCreated { agent } => {
            put_u8(out, 2);
            put_identity(out, agent)?;
        },
        EventKind::ModelRequested { agent_id, model } => {
            put_u8(out, 3);
            put_u64(out, agent_id.value());
            put_model(out, model)?;
        },
        EventKind::ModelChunkReceived { agent_id, chunk_index } => {
            put_u8(out, 4);
            put_u64(out, agent_id.value());
            put_u32(out, *chunk_index);
        },
        EventKind::ModelCompleted { agent_id, usage } => {
            put_u8(out, 5);
            put_u64(out, agent_id.value());
            put_usage(out, *usage);
        },
        EventKind::ModelCancelled { agent_id } => {
            put_u8(out, 6);
            put_u64(out, agent_id.value());
        },
        EventKind::ModelFailed { agent_id, message } => {
            put_u8(out, 7);
            put_u64(out, agent_id.value());
            put_text(out, message)?;
        },
        EventKind::RunCompleted { run_id } => {
            put_u8(out, 8);
            put_u64(out, run_id.value());
        },
        EventKind::RunCancelled { run_id } => {
            put_u8(out, 9);
            put_u64(out, run_id.value());
        },
        EventKind::RunFailed { run_id, message } => {
            put_u8(out, 10);
            put_u64(out, run_id.value());
            put_text(out, message)?;
        },
        EventKind::ArtifactCreated { content_hash, size_bytes, media_type, trust } => {
            put_u8(out, 11);
            put_array(out, content_hash);
            put_u64(out, *size_bytes);
            put_text(out, media_type)?;
            put_u8(out, trust_tag(*trust));
        },
        EventKind::ContextTransition { version, payload } => {
            put_u8(out, 12);
            put_versioned(out, *version, payload)?;
        },
        EventKind::CacheObserved {
            provider,
            model,
            prefix_hash,
            estimated_prefix_tokens,
            cached_input_tokens,
        } => {
            put_u8(out, 13);
            put_text(out, provider)?;
            put_text(out, model)?;
            put_array(out, prefix_hash);
            put_u64(out, *estimated_prefix_tokens);
            put_u64(out, *cached_input_tokens);
        },
        EventKind::AgentMessage { version, payload } => {
            put_u8(out, 14);
            put_versioned(out, *version, payload)?;
        },
        EventKind::AssumptionTransition { version, payload } => {
            put_u8(out, 15);
            put_versioned(out, *version, payload)?;
        },
        EventKind::SchedulerTransition { version, payload } => {
            put_u8(out, 16);
            put_versioned(out, *version, payload)?;
        },
        EventKind::AgentPaused { agent_id } => {
            put_u8(out, 17);
            put_u64(out, agent_id.value());
        },
        EventKind::AgentResumed { agent_id } => {
            put_u8(out, 18);
            put_u64(out, agent_id.value());
        },
        EventKind::CapabilityTransition { version, payload } => {
            put_u8(out, 19);
            put_versioned(out, *version, payload)?;
        },
        EventKind::ToolTransition { version, payload } => {
            put_u8(out, 20);
            put_versioned(out, *version, payload)?;
        },
        EventKind::FailureMemoryTransition { version, payload } => {
            put_u8(out, 21);
            put_versioned(out, *version, payload)?;
        },
        EventKind::SpecialistTransition { version, payload } => {
            put_u8(out, 22);
            put_versioned(out, *version, payload)?;
        },
    }
    Ok(())
}

/// Encodes an event. It fails only where a text or payload is longer than a
/// `u32` can say.
pub fn encode_event(event: &Event) -> (result: Result<Vec<u8>, String>)
    ensures
        match result {
            Ok(bytes) => kind_within(event@.kind, u32::MAX as int) && bytes@ == event_bytes(
                event@,
            ),
            Err(message) => !kind_within(event@.kind, u32::MAX as int) && message@
                == "value exceeds u32::MAX"@,
        },
{
    broadcast use concat_is_associative;
    let mut out: Vec<u8> = Vec::new();
    put_u64(&mut out, event.id.value());
    put_u64(&mut out, event.run_id.value());
    put_u128(&mut out, event.occurred_at_ms);
    put_kind(&mut out, &event.kind)?;
    assert(out@ =~= event_bytes(event@));
    Ok(out)
}

// ---------------------------------------------------------------------------
// Reading.

fn at_end() -> (message: String)
    ensures
        message@ == end_message(),
{
    "unexpected end of encoded value".to_owned()
}

pub(crate) fn read_u8(reader: &mut Reader) -> (result: Result<u8, String>)
    ensures
        parsed(outcome(result), final(reader).left(), need_u8(old(reader).left())),
{
    match reader.u8() {
        Some(value) => Ok(value),
        None => Err(at_end()),
    }
}

pub(crate) fn read_u16(reader: &mut Reader) -> (result: Result<u16, String>)
    ensures
        parsed(outcome(result), final(reader).left(), need_u16(old(reader).left())),
{
    match reader.u16() {
        Some(value) => Ok(value),
        None => Err(at_end()),
    }
}

pub(crate) fn read_u32(reader: &mut Reader) -> (result: Result<u32, String>)
    ensures
        parsed(outcome(result), final(reader).left(), need_u32(old(reader).left())),
{
    match reader.u32() {
        Some(value) => Ok(value),
        None => Err(at_end()),
    }
}

pub(crate) fn read_u64(reader: &mut Reader) -> (result: Result<u64, String>)
    ensures
        parsed(outcome(result), final(reader).left(), need_u64(old(reader).left())),
{
    match reader.u64() {
        Some(value) => Ok(value),
        None => Err(at_end()),
    }
}

pub(crate) fn read_u128(reader: &mut Reader) -> (result: Result<u128, String>)
    ensures
        parsed(outcome(result), final(reader).left(), need_u128(old(reader).left())),
{
    match reader.u128() {
        Some(value) => Ok(value),
        None => Err(at_end()),
    }
}

pub(crate) fn read_array(reader: &mut Reader) -> (result: Result<[u8; 32], String>)
    ensures
        parsed(outcome(result), final(reader).left(), need_array(old(reader).left())),
{
    match reader.array() {
        Some(value) => Ok(value),
        None => Err(at_end()),
    }
}

pub(crate) fn read_blob(reader: &mut Reader) -> (result: Result<Vec<u8>, String>)
    ensures
        parsed(outcome(result), final(reader).left(), get_blob(old(reader).left())),
{
    reveal(get_blob);
    let length: usize = read_u32(reader)? as usize;
    if length > MAX_FRAME_BYTES {
        return Err("encoded value exceeds maximum frame size".to_owned());
    }
    match reader.take(length) {
        Some(bytes) => Ok(vstd::slice::slice_to_vec(bytes)),
        None => Err(at_end()),
    }
}

pub(crate) fn read_text(reader: &mut Reader) -> (result: Result<String, String>)
    ensures
        parsed(outcome(result), final(reader).left(), get_text(old(reader).left())),
{
    reveal(get_text);
    match string_from_utf8(read_blob(reader)?) {
        Some(text) => Ok(text),
        None => Err("encoded string is not UTF-8".to_owned()),
    }
}

fn decode_class(reader: &mut Reader) -> (result: Result<ModelClass, String>)
    ensures
        parsed(outcome(result), final(reader).left(), get_class(old(reader).left())),
{
    let tag: u8 = read_u8(reader)?;
    match tag {
        0 => Ok(ModelClass::Local),
        1 => Ok(ModelClass::Cheap),
        2 => Ok(ModelClass::Strong),
        3 => Ok(ModelClass::Custom(read_text(reader)?)),
        _ => Err(numbered("unknown model class tag ", tag as u128)),
    }
}

pub(crate) fn decode_model(reader: &mut Reader) -> (result: Result<ModelRef, String>)
    ensures
        parsed(outcome(result), final(reader).left(), get_model(old(reader).left())),
{
    let provider = read_text(reader)?;
    let model = read_text(reader)?;
    let class = decode_class(reader)?;
    Ok(ModelRef { provider, model, class })
}

pub(crate) fn decode_identity(reader: &mut Reader) -> (result: Result<AgentIdentity, String>)
    ensures
        parsed(outcome(result), final(reader).left(), get_identity(old(reader).left())),
{
    let id = AgentId::from_u64(read_u64(reader)?);
    let name = read_text(reader)?;
    let mission = read_text(reader)?;
    let model = decode_model(reader)?;
    Ok(AgentIdentity { id, name, mission, model })
}

fn decode_usage(reader: &mut Reader) -> (result: Result<Usage, String>)
    ensures
        match get_usage(old(reader).left()) {
            Ok((usage, left)) => result == Ok::<Usage, String>(usage) && final(reader).left()
                == left,
            Err(message) => result is Err && result->Err_0@ == message,
        },
{
    let input_tokens: u64 = read_u64(reader)?;
    let output_tokens: u64 = read_u64(reader)?;
    let usage = Usage::new(input_tokens, output_tokens);
    if reader.is_done() {
        return Ok(usage);
    }
    let tag: u8 = read_u8(reader)?;
    match tag {
        0 => Ok(usage),
        1 => Ok(usage.with_cached_input_tokens(read_u64(reader)?)),
        _ => Err(numbered("unknown cached usage tag ", tag as u128)),
    }
}

pub(crate) fn decode_trust_tag(tag: u8) -> (result: Result<TrustOrigin, String>)
    ensures
        match trust_from_byte(tag) {
            Ok(trust) => result == Ok::<TrustOrigin, String>(trust),
            Err(message) => result is Err && result->Err_0@ == message,
        },
{
    match tag {
        0 => Ok(TrustOrigin::Runtime),
        1 => Ok(TrustOrigin::TrustedProject),
        2 => Ok(TrustOrigin::UserProvided),
        3 => Ok(TrustOrigin::Generated),
        4 => Ok(TrustOrigin::RemoteAgent),
        5 => Ok(TrustOrigin::External),
        6 => Ok(TrustOrigin::WebUntrusted),
        7 => Ok(TrustOrigin::McpMetadata),
        8 => Ok(TrustOrigin::McpResult),
        _ => Err(numbered("unknown trust origin tag ", tag as u128)),
    }
}

fn decode_trust(reader: &mut Reader) -> (result: Result<TrustOrigin, String>)
    ensures
        match get_trust(old(reader).left()) {
            Ok((trust, left)) => result == Ok::<TrustOrigin, String>(trust) && final(reader).left()
                == left,
            Err(message) => result is Err && result->Err_0@ == message,
        },
{
    if reader.is_done() {
        return Ok(TrustOrigin::Generated);
    }
    decode_trust_tag(read_u8(reader)?)
}

fn decode_versioned(reader: &mut Reader) -> (result: Result<(u16, Vec<u8>), String>)
    ensures
        parsed(outcome(result), final(reader).left(), get_versioned(old(reader).left())),
{
    let version: u16 = read_u16(reader)?;
    let payload = read_blob(reader)?;
    Ok((version, payload))
}

fn decode_kind(reader: &mut Reader) -> (result: Result<EventKind, String>)
    ensures
        parsed(outcome(result), final(reader).left(), get_kind(old(reader).left())),
{
    let tag: u8 = read_u8(reader)?;
    match tag {
        0 => {
            let run_id = RunId::from_u64(read_u64(reader)?);
            Ok(EventKind::RunCreated { run_id })
        },
        1 => {
            let task_id = TaskId::from_u64(read_u64(reader)?);
            let run_id = RunId::from_u64(read_u64(reader)?);
            let title = read_text(reader)?;
            Ok(EventKind::TaskCreated { task_id, run_id, title })
        },
        2 => {
            let agent = decode_identity(reader)?;
            Ok(EventKind::AgentCreated { agent })
        },
        3 => {
            let agent_id = AgentId::from_u64(read_u64(reader)?);
            let model = decode_model(reader)?;
            Ok(EventKind::ModelRequested { agent_id, model })
        },
        4 => {
            let agent_id = AgentId::from_u64(read_u64(reader)?);
            let chunk_index: u32 = read_u32(reader)?;
            Ok(EventKind::ModelChunkReceived { agent_id, chunk_index })
        },
        5 => {
            let agent_id = AgentId::from_u64(read_u64(reader)?);
            let usage = decode_usage(reader)?;
            Ok(EventKind::ModelCompleted { agent_id, usage })
        },
        6 => {
            let agent_id = AgentId::from_u64(read_u64(reader)?);
            Ok(EventKind::ModelCancelled { agent_id })
        },
        7 => {
            let agent_id = AgentId::from_u64(read_u64(reader)?);
            let message = read_text(reader)?;
            Ok(EventKind::ModelFailed { agent_id, message })
        },
        8 => {
            let run_id = RunId::from_u64(read_u64(reader)?);
            Ok(EventKind::RunCompleted { run_id })
        },
        9 => {
            let run_id = RunId::from_u64(read_u64(reader)?);
            Ok(EventKind::RunCancelled { run_id })
        },
        10 => {
            let run_id = RunId::from_u64(read_u64(reader)?);
            let message = read_text(reader)?;
            Ok(EventKind::RunFailed { run_id, message })
        },
        11 => {
            let content_hash = read_array(reader)?;
            let size_bytes: u64 = read_u64(reader)?;
            let media_type = read_text(reader)?;
            let trust = decode_trust(reader)?;
            Ok(EventKind::ArtifactCreated { content_hash, size_bytes, media_type, trust })
        },
        12 => {
            let (version, payload) = decode_versioned(reader)?;
            Ok(EventKind::ContextTransition { version, payload })
        },
        13 => {
            let provider = read_text(reader)?;
            let model = read_text(reader)?;
            let prefix_hash = read_array(reader)?;
            let estimated_prefix_tokens: u64 = read_u64(reader)?;
            let cached_input_tokens: u64 = read_u64(reader)?;
            Ok(
                EventKind::CacheObserved {
                    provider,
                    model,
                    prefix_hash,
                    estimated_prefix_tokens,
                    cached_input_tokens,
                },
            )
        },
        14 => {
            let (version, payload) = decode_versioned(reader)?;
            Ok(EventKind::AgentMessage { version, payload })
        },
        15 => {
            let (version, payload) = decode_versioned(reader)?;
            Ok(EventKind::AssumptionTransition { version, payload })
        },
        16 => {
            let (version, payload) = decode_versioned(reader)?;
            Ok(EventKind::SchedulerTransition { version, payload })
        },
        17 => {
            let agent_id = AgentId::from_u64(read_u64(reader)?);
            Ok(EventKind::AgentPaused { agent_id })
        },
        18 => {
            let agent_id = AgentId::from_u64(read_u64(reader)?);
            Ok(EventKind::AgentResumed { agent_id })
        },
        19 => {
            let (version, payload) = decode_versioned(reader)?;
            Ok(EventKind::CapabilityTransition { version, payload })
        },
        20 => {
            let (version, payload) = decode_versioned(reader)?;
            Ok(EventKind::ToolTransition { version, payload })
        },
        21 => {
            let (version, payload) = decode_versioned(reader)?;
            Ok(EventKind::FailureMemoryTransition { version, payload })
        },
        22 => {
            let (version, payload) = decode_versioned(reader)?;
            Ok(EventKind::SpecialistTransition { version, payload })
        },
        _ => Err(numbered("unknown event kind tag ", tag as u128)),
    }
}

/// Decodes an event. Older encodings of token counts and artifact trust are
/// accepted where the value ends.
pub fn decode_event(bytes: &[u8]) -> (result: Result<Event, String>)
    ensures
        outcome(result) == event_of(bytes@),
{
    let mut reader = Reader::new(bytes);
    let id = EventId::from_u64(read_u64(&mut reader)?);
    let run_id = RunId::from_u64(read_u64(&mut reader)?);
    let occurred_at_ms: u128 = read_u128(&mut reader)?;
    let kind = decode_kind(&mut reader)?;
    if !reader.is_done() {
        return Err("encoded value contains trailing bytes".to_owned());
    }
    Ok(Event { id, run_id, occurred_at_ms, kind })
}

} // verus!
