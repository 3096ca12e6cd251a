//! The durable encoding of context transitions.

use vstd::prelude::*;
use vstd::utf8::encode_utf8;

use crate::codec::{
    blob64_bytes, concat_is_associative, get_bytes, get_u64, get_u64_of_bytes, get_u8,
    get_u8_of_bytes, group_codec, optional_u64_bytes, outcome, parsed, put_array, put_bytes,
    put_optional_u64, put_u64, put_u8, regroup1, regroup2, regroup3, regroup4, regroup5,
    string_from_utf8, text_of, u64_bytes, u8_bytes, Reader,
};
use crate::context::{
    ContentHash, ContextBlock, ContextBlockId, ContextBlockView, ContextError, ContextErrorView,
    ContextKind, ContextKindView, ContextLifecycle, ContextOwner, ContextRef, ContextScope,
    ContextTransition, ContextTransitionView, CONTEXT_TRANSITION_VERSION,
};
use crate::ids::{AgentId, EventId};
use crate::kernel::{origin_byte, origin_for_tag, origin_of_byte, origin_tag, TrustOrigin};
use crate::text::{decimal, numbered};

verus! {

pub const MAX_CONTEXT_PAYLOAD_BYTES: usize = 67108864;

pub const MAX_CONTEXT_ITEMS: usize = 1000000;

// ---------------------------------------------------------------------------
// What the bytes of a transition are.

#[verifier::opaque]
pub open spec fn text_bytes(text: Seq<char>) -> Seq<u8> {
    blob64_bytes(encode_utf8(text))
}

pub open spec fn reference_bytes(reference: ContextRef) -> Seq<u8> {
    u64_bytes(reference.block_id.0) + u64_bytes(reference.revision)
}

pub open spec fn references_bytes(list: Seq<ContextRef>) -> Seq<u8>
    decreases list.len(),
{
    if list.len() == 0 {
        seq![]
    } else {
        references_bytes(list.drop_last()) + reference_bytes(list.last())
    }
}

pub open spec fn reference_list_bytes(list: Seq<ContextRef>) -> Seq<u8> {
    u64_bytes(list.len() as u64) + references_bytes(list)
}

pub open spec fn kind_bytes(kind: ContextKindView) -> Seq<u8> {
    match kind {
        ContextKindView::Note => u8_bytes(0),
        ContextKindView::Project => u8_bytes(1),
        ContextKindView::Contract => u8_bytes(2),
        ContextKindView::Task => u8_bytes(3),
        ContextKindView::Result => u8_bytes(4),
        ContextKindView::ArtifactReference => u8_bytes(5),
        ContextKindView::Custom(name) => u8_bytes(6) + text_bytes(name),
    }
}

pub open spec fn owner_bytes(owner: ContextOwner) -> Seq<u8> {
    match owner {
        ContextOwner::Runtime => u8_bytes(0),
        ContextOwner::Agent(agent_id) => u8_bytes(1) + u64_bytes(agent_id.0),
    }
}

pub open spec fn scope_bytes(scope: ContextScope) -> Seq<u8> {
    match scope {
        ContextScope::Global => u8_bytes(0),
        ContextScope::Team => u8_bytes(1),
        ContextScope::Private(agent_id) => u8_bytes(2) + u64_bytes(agent_id.0),
    }
}

pub open spec fn lifecycle_byte(lifecycle: ContextLifecycle) -> u8 {
    match lifecycle {
        ContextLifecycle::Active => 0,
        ContextLifecycle::Stale => 1,
        ContextLifecycle::Superseded => 2,
        ContextLifecycle::Archived => 3,
        ContextLifecycle::Invalidated => 4,
    }
}

pub open spec fn event_value(event: Option<EventId>) -> Option<u64> {
    match event {
        Some(id) => Some(id.0),
        None => None,
    }
}

/// What a block is and whose it is.
pub open spec fn block_head_bytes(block: ContextBlockView) -> Seq<u8> {
    u64_bytes(block.id.0) + u64_bytes(block.revision) + text_bytes(block.namespace) + kind_bytes(
        block.kind,
    ) + owner_bytes(block.owner) + scope_bytes(block.scope)
}

/// Its content and standing.
pub open spec fn block_standing_bytes(block: ContextBlockView) -> Seq<u8> {
    block.content_hash + u64_bytes(block.token_estimate) + u8_bytes(origin_byte(block.trust))
        + u8_bytes(block.importance) + u8_bytes(lifecycle_byte(block.lifecycle))
}

/// What it rests on and when it was made and read.
pub open spec fn block_links_bytes(block: ContextBlockView) -> Seq<u8> {
    reference_list_bytes(block.dependencies) + reference_list_bytes(block.sources)
        + optional_u64_bytes(event_value(block.created_event)) + optional_u64_bytes(
        block.last_access_ms,
    )
}

/// A block. Pins are recorded by transitions of their own and are not part
/// of it.
pub open spec fn block_bytes(block: ContextBlockView) -> Seq<u8> {
    block_head_bytes(block) + block_standing_bytes(block) + block_links_bytes(block)
}

pub open spec fn optional_reference_bytes(reference: Option<ContextRef>) -> Seq<u8> {
    match reference {
        Some(reference) => u8_bytes(1) + reference_bytes(reference),
        None => u8_bytes(0),
    }
}

pub open spec fn transition_bytes(transition: ContextTransitionView) -> Seq<u8> {
    match transition {
        ContextTransitionView::Created { block, content } => u8_bytes(0) + block_bytes(block)
            + blob64_bytes(content),
        ContextTransitionView::CreatedFromArtifact { block, artifact_hash } => u8_bytes(3)
            + block_bytes(block) + artifact_hash,
        ContextTransitionView::Superseded(reference) => u8_bytes(1) + reference_bytes(reference),
        ContextTransitionView::Archived(reference) => u8_bytes(4) + reference_bytes(reference),
        ContextTransitionView::Restored(reference) => u8_bytes(5) + reference_bytes(reference),
        ContextTransitionView::Pinned(reference) => u8_bytes(6) + reference_bytes(reference),
        ContextTransitionView::Unpinned(reference) => u8_bytes(7) + reference_bytes(reference),
        ContextTransitionView::Invalidated { block, dependency, reason } => u8_bytes(2)
            + reference_bytes(block) + optional_reference_bytes(dependency) + text_bytes(reason),
    }
}

// ---------------------------------------------------------------------------
// Which transitions can be written.

pub open spec fn text_within(text: Seq<char>, limit: int) -> bool {
    encode_utf8(text).len() <= limit
}

pub open spec fn block_within(block: ContextBlockView, limit: int) -> bool {
    text_within(block.namespace, limit) && match block.kind {
        ContextKindView::Custom(name) => text_within(name, limit),
        _ => true,
    }
}

pub open spec fn transition_within(transition: ContextTransitionView, limit: int) -> bool {
    match transition {
        ContextTransitionView::Created { block, content } => block_within(block, limit)
            && content.len() <= limit,
        ContextTransitionView::CreatedFromArtifact { block, .. } => block_within(block, limit),
        ContextTransitionView::Invalidated { reason, .. } => text_within(reason, limit),
        _ => true,
    }
}

pub open spec fn bad(message: Seq<char>) -> ContextErrorView {
    ContextErrorView::InvalidEncoding(message)
}

/// What encoding a transition yields.
pub open spec fn encoded(transition: ContextTransitionView) -> Result<Seq<u8>, ContextErrorView> {
    if transition_within(transition, u32::MAX as int) {
        Ok(transition_bytes(transition))
    } else {
        Err(bad("context value exceeds u32::MAX"@))
    }
}

// ---------------------------------------------------------------------------
// What reading bytes as a transition yields.

pub open spec fn at_end<V>() -> Result<(V, Seq<u8>), ContextErrorView> {
    Err(bad("context payload is truncated"@))
}

#[verifier::opaque]
pub open spec fn get_blob(bytes: Seq<u8>) -> Result<(Seq<u8>, Seq<u8>), ContextErrorView> {
    match get_u64(bytes) {
        None => at_end(),
        Some((length, rest)) => if length > MAX_CONTEXT_PAYLOAD_BYTES {
            Err(bad("context value exceeds maximum payload size"@))
        } else {
            match get_bytes(rest, length as nat) {
                None => at_end(),
                Some(found) => Ok(found),
            }
        },
    }
}

#[verifier::opaque]
pub open spec fn get_text(bytes: Seq<u8>) -> Result<(Seq<char>, Seq<u8>), ContextErrorView> {
    match get_blob(bytes) {
        Err(error) => Err(error),
        Ok((blob, rest)) => match text_of(blob) {
            Some(text) => Ok((text, rest)),
            None => Err(bad("context string is not UTF-8"@)),
        },
    }
}

pub open spec fn get_reference(bytes: Seq<u8>) -> Result<(ContextRef, Seq<u8>), ContextErrorView> {
    match get_u64(bytes) {
        None => at_end(),
        Some((id, rest)) => match get_u64(rest) {
            None => at_end(),
            Some((revision, rest)) => Ok(
                (ContextRef { block_id: ContextBlockId(id), revision }, rest),
            ),
        },
    }
}

pub open spec fn get_references(list: Seq<ContextRef>, count: nat, bytes: Seq<u8>) -> Result<
    (Seq<ContextRef>, Seq<u8>),
    ContextErrorView,
>
    decreases count,
{
    if count == 0 {
        Ok((list, bytes))
    } else {
        match get_reference(bytes) {
            Err(error) => Err(error),
            Ok((reference, rest)) => get_references(
                list.push(reference),
                (count - 1) as nat,
                rest,
            ),
        }
    }
}

pub open spec fn get_reference_list(bytes: Seq<u8>) -> Result<
    (Seq<ContextRef>, Seq<u8>),
    ContextErrorView,
> {
    match get_u64(bytes) {
        None => at_end(),
        Some((count, rest)) => if count > MAX_CONTEXT_ITEMS {
            Err(bad("context item count exceeds limit"@))
        } else {
            get_references(seq![], count as nat, rest)
        },
    }
}

pub open spec fn get_kind(bytes: Seq<u8>) -> Result<(ContextKindView, Seq<u8>), ContextErrorView> {
    match get_u8(bytes) {
        None => at_end(),
        Some((tag, rest)) => if tag == 0 {
            Ok((ContextKindView::Note, rest))
        } else if tag == 1 {
            Ok((ContextKindView::Project, rest))
        } else if tag == 2 {
            Ok((ContextKindView::Contract, rest))
        } else if tag == 3 {
            Ok((ContextKindView::Task, rest))
        } else if tag == 4 {
            Ok((ContextKindView::Result, rest))
        } else if tag == 5 {
            Ok((ContextKindView::ArtifactReference, rest))
        } else if tag == 6 {
            match get_text(rest) {
                Err(error) => Err(error),
                Ok((name, rest)) => Ok((ContextKindView::Custom(name), rest)),
            }
        } else {
            Err(bad("unknown context kind tag "@ + decimal(tag as nat)))
        },
    }
}

pub open spec fn get_owner(bytes: Seq<u8>) -> Result<(ContextOwner, Seq<u8>), ContextErrorView> {
    match get_u8(bytes) {
        None => at_end(),
        Some((tag, rest)) => if tag == 0 {
            Ok((ContextOwner::Runtime, rest))
        } else if tag == 1 {
            match get_u64(rest) {
                None => at_end(),
                Some((id, rest)) => Ok((ContextOwner::Agent(AgentId(id)), rest)),
            }
        } else {
            Err(bad("unknown context owner tag "@ + decimal(tag as nat)))
        },
    }
}

pub open spec fn get_scope(bytes: Seq<u8>) -> Result<(ContextScope, Seq<u8>), ContextErrorView> {
    match get_u8(bytes) {
        None => at_end(),
        Some((tag, rest)) => if tag == 0 {
            Ok((ContextScope::Global, rest))
        } else if tag == 1 {
            Ok((ContextScope::Team, rest))
        } else if tag == 2 {
            match get_u64(rest) {
                None => at_end(),
                Some((id, rest)) => Ok((ContextScope::Private(AgentId(id)), rest)),
            }
        } else {
            Err(bad("unknown context scope tag "@ + decimal(tag as nat)))
        },
    }
}

pub open spec fn get_trust(bytes: Seq<u8>) -> Result<(TrustOrigin, Seq<u8>), ContextErrorView> {
    match get_u8(bytes) {
        None => at_end(),
        Some((tag, rest)) => match origin_of_byte(tag) {
            Some(trust) => Ok((trust, rest)),
            None => Err(bad("unknown context trust tag "@ + decimal(tag as nat))),
        },
    }
}

pub open spec fn get_lifecycle(bytes: Seq<u8>) -> Result<
    (ContextLifecycle, Seq<u8>),
    ContextErrorView,
> {
    match get_u8(bytes) {
        None => at_end(),
        Some((tag, rest)) => if tag == 0 {
            Ok((ContextLifecycle::Active, rest))
        } else if tag == 1 {
            Ok((ContextLifecycle::Stale, rest))
        } else if tag == 2 {
            Ok((ContextLifecycle::Superseded, rest))
        } else if tag == 3 {
            Ok((ContextLifecycle::Archived, rest))
        } else if tag == 4 {
            Ok((ContextLifecycle::Invalidated, rest))
        } else {
            Err(bad("unknown context lifecycle tag "@ + decimal(tag as nat)))
        },
    }
}

pub open spec fn get_optional_u64(bytes: Seq<u8>) -> Result<
    (Option<u64>, Seq<u8>),
    ContextErrorView,
> {
    match get_u8(bytes) {
        None => at_end(),
        Some((tag, rest)) => if tag == 0 {
            Ok((None, rest))
        } else if tag == 1 {
            match get_u64(rest) {
                None => at_end(),
                Some((value, rest)) => Ok((Some(value), rest)),
            }
        } else {
            Err(bad("unknown optional value tag "@ + decimal(tag as nat)))
        },
    }
}

/// What a block is before anything has been read of it.
pub open spec fn blank_block() -> ContextBlockView {
    ContextBlockView {
        id: ContextBlockId(0),
        revision: 0,
        namespace: seq![],
        kind: ContextKindView::Note,
        owner: ContextOwner::Runtime,
        scope: ContextScope::Global,
        content_hash: seq![],
        token_estimate: 0,
        trust: TrustOrigin::Generated,
        importance: 0,
        lifecycle: ContextLifecycle::Active,
        pinned: false,
        dependencies: seq![],
        sources: seq![],
        created_event: None,
        last_access_ms: None,
    }
}

pub open spec fn get_block_head(bytes: Seq<u8>) -> Result<
    (ContextBlockView, Seq<u8>),
    ContextErrorView,
> {
    match get_u64(bytes) {
        None => at_end(),
        Some((id, rest)) => match get_u64(rest) {
            None => at_end(),
            Some((revision, rest)) => match get_text(rest) {
                Err(error) => Err(error),
                Ok((namespace, rest)) => match get_kind(rest) {
                    Err(error) => Err(error),
                    Ok((kind, rest)) => match get_owner(rest) {
                        Err(error) => Err(error),
                        Ok((owner, rest)) => match get_scope(rest) {
                            Err(error) => Err(error),
                            Ok((scope, rest)) => Ok(
                                (
                                    ContextBlockView {
                                        id: ContextBlockId(id),
                                        revision,
                                        namespace,
                                        kind,
                                        owner,
                                        scope,
                                        ..blank_block()
                                    },
                                    rest,
                                ),
                            ),
                        },
                    },
                },
            },
        },
    }
}

pub open spec fn get_block_standing(head: ContextBlockView, bytes: Seq<u8>) -> Result<
    (ContextBlockView, Seq<u8>),
    ContextErrorView,
> {
    match get_bytes(bytes, 32) {
        None => at_end(),
        Some((content_hash, rest)) => match get_u64(rest) {
            None => at_end(),
            Some((token_estimate, rest)) => match get_trust(rest) {
                Err(error) => Err(error),
                Ok((trust, rest)) => match get_u8(rest) {
                    None => at_end(),
                    Some((importance, rest)) => match get_lifecycle(rest) {
                        Err(error) => Err(error),
                        Ok((lifecycle, rest)) => Ok(
                            (
                                ContextBlockView {
                                    content_hash,
                                    token_estimate,
                                    trust,
                                    importance,
                                    lifecycle,
                                    ..head
                                },
                                rest,
                            ),
                        ),
                    },
                },
            },
        },
    }
}

pub open spec fn get_block_links(head: ContextBlockView, bytes: Seq<u8>) -> Result<
    (ContextBlockView, Seq<u8>),
    ContextErrorView,
> {
    match get_reference_list(bytes) {
        Err(error) => Err(error),
        Ok((dependencies, rest)) => match get_reference_list(rest) {
            Err(error) => Err(error),
            Ok((sources, rest)) => match get_optional_u64(rest) {
                Err(error) => Err(error),
                Ok((created, rest)) => match get_optional_u64(rest) {
                    Err(error) => Err(error),
                    Ok((last_access_ms, rest)) => Ok(
                        (
                            ContextBlockView {
                                dependencies,
                                sources,
                                created_event: match created {
                                    Some(id) => Some(EventId(id)),
                                    None => None,
                                },
                                last_access_ms,
                                ..head
                            },
                            rest,
                        ),
                    ),
                },
            },
        },
    }
}

pub open spec fn get_block(bytes: Seq<u8>) -> Result<
    (ContextBlockView, Seq<u8>),
    ContextErrorView,
> {
    match get_block_head(bytes) {
        Err(error) => Err(error),
        Ok((head, rest)) => match get_block_standing(head, rest) {
            Err(error) => Err(error),
            Ok((head, rest)) => get_block_links(head, rest),
        },
    }
}

pub open spec fn get_optional_reference(bytes: Seq<u8>) -> Result<
    (Option<ContextRef>, Seq<u8>),
    ContextErrorView,
> {
    match get_u8(bytes) {
        None => at_end(),
        Some((tag, rest)) => if tag == 0 {
            Ok((None, rest))
        } else if tag == 1 {
            match get_reference(rest) {
                Err(error) => Err(error),
                Ok((reference, rest)) => Ok((Some(reference), rest)),
            }
        } else {
            Err(bad("unknown dependency presence tag "@ + decimal(tag as nat)))
        },
    }
}

pub open spec fn get_transition(bytes: Seq<u8>) -> Result<
    (ContextTransitionView, Seq<u8>),
    ContextErrorView,
> {
    match get_u8(bytes) {
        None => at_end(),
        Some((tag, rest)) => if tag == 0 {
            match get_block(rest) {
                Err(error) => Err(error),
                Ok((block, rest)) => match get_blob(rest) {
                    Err(error) => Err(error),
                    Ok((content, rest)) => Ok(
                        (ContextTransitionView::Created { block, content }, rest),
                    ),
                },
            }
        } else if tag == 3 {
            match get_block(rest) {
                Err(error) => Err(error),
                Ok((block, rest)) => match get_bytes(rest, 32) {
                    None => at_end(),
                    Some((artifact_hash, rest)) => Ok(
                        (
                            ContextTransitionView::CreatedFromArtifact { block, artifact_hash },
                            rest,
                        ),
                    ),
                },
            }
        } else if tag == 2 {
            match get_reference(rest) {
                Err(error) => Err(error),
                Ok((block, rest)) => match get_optional_reference(rest) {
                    Err(error) => Err(error),
                    Ok((dependency, rest)) => match get_text(rest) {
                        Err(error) => Err(error),
                        Ok((reason, rest)) => Ok(
                            (
                                ContextTransitionView::Invalidated { block, dependency, reason },
                                rest,
                            ),
                        ),
                    },
                },
            }
        } else if tag == 1 || (4 <= tag <= 7) {
            match get_reference(rest) {
                Err(error) => Err(error),
                Ok((reference, rest)) => Ok((marked(tag, reference), rest)),
            }
        } else {
            Err(bad("unknown context transition tag "@ + decimal(tag as nat)))
        },
    }
}

/// The transition that only names a block.
pub open spec fn marked(tag: u8, reference: ContextRef) -> ContextTransitionView {
    if tag == 1 {
        ContextTransitionView::Superseded(reference)
    } else if tag == 4 {
        ContextTransitionView::Archived(reference)
    } else if tag == 5 {
        ContextTransitionView::Restored(reference)
    } else if tag == 6 {
        ContextTransitionView::Pinned(reference)
    } else {
        ContextTransitionView::Unpinned(reference)
    }
}

/// What a whole encoded transition means, or why it means nothing.
pub open spec fn decoded(version: u16, bytes: Seq<u8>) -> Result<
    ContextTransitionView,
    ContextErrorView,
> {
    if version != CONTEXT_TRANSITION_VERSION {
        Err(bad("unsupported context transition version "@ + decimal(version as nat)))
    } else if bytes.len() > MAX_CONTEXT_PAYLOAD_BYTES {
        Err(bad("context transition exceeds maximum payload size"@))
    } else {
        match get_transition(bytes) {
            Err(error) => Err(error),
            Ok((transition, rest)) => if rest.len() != 0 {
                Err(bad("context payload has trailing bytes"@))
            } else {
                Ok(transition)
            },
        }
    }
}

// ---------------------------------------------------------------------------
// Writing.

fn put_blob(out: &mut Vec<u8>, value: &[u8]) -> (result: Result<(), ContextError>)
    ensures
        match result {
            Ok(_) => value@.len() <= u32::MAX && final(out)@ == old(out)@ + blob64_bytes(value@),
            Err(error) => value@.len() > u32::MAX && error@ == bad(
                "context value exceeds u32::MAX"@,
            ),
        },
{
    broadcast use concat_is_associative;
    reveal(blob64_bytes);
    let length: usize = value.len();
    if length > 4294967295 {
        return Err(ContextError::InvalidEncoding("context value exceeds u32::MAX".to_owned()));
    }
    put_u64(out, length as u64);
    put_bytes(out, value);
    Ok(())
}

fn put_text(out: &mut Vec<u8>, value: &str) -> (result: Result<(), ContextError>)
    ensures
        match result {
            Ok(_) => text_within(value@, u32::MAX as int) && final(out)@ == old(out)@ + text_bytes(
                value@,
            ),
            Err(error) => !text_within(value@, u32::MAX as int) && error@ == bad(
                "context value exceeds u32::MAX"@,
            ),
        },
{
    reveal(text_bytes);
    put_blob(out, value.as_bytes())
}

fn put_reference(out: &mut Vec<u8>, reference: ContextRef)
    ensures
        final(out)@ == old(out)@ + reference_bytes(reference),
{
    broadcast use concat_is_associative;
    put_u64(out, reference.block_id.value());
    put_u64(out, reference.revision);
}

fn put_references(out: &mut Vec<u8>, list: &Vec<ContextRef>)
    ensures
        final(out)@ == old(out)@ + reference_list_bytes(list@),
{
    broadcast use concat_is_associative;
    put_u64(out, list.len() as u64);
    let ghost base = out@;
    let mut index: usize = 0;
    assert(list@.take(0) =~= Seq::<ContextRef>::empty());
    assert(base + references_bytes(list@.take(0)) =~= base);
    while index < list.len()
        invariant
            index <= list@.len(),
            out@ == base + references_bytes(list@.take(index as int)),
        decreases list.len() - index,
    {
        put_reference(out, list[index]);
        index += 1;
        proof {
            assert(list@.take(index as int).drop_last() =~= list@.take(index - 1));
            assert(out@ =~= base + references_bytes(list@.take(index as int)));
        }
    }
    assert(list@.take(list@.len() as int) =~= list@);
}

fn put_kind(out: &mut Vec<u8>, kind: &ContextKind) -> (result: Result<(), ContextError>)
    ensures
        ({
            let fits = match kind@ {
                ContextKindView::Custom(name) => text_within(name, u32::MAX as int),
                _ => true,
            };
            match result {
                Ok(_) => fits && final(out)@ == old(out)@ + kind_bytes(kind@),
                Err(error) => !fits && error@ == bad("context value exceeds u32::MAX"@),
            }
        }),
{
    broadcast use concat_is_associative;
    match kind {
        ContextKind::Note => put_u8(out, 0),
        ContextKind::Project => put_u8(out, 1),
        ContextKind::Contract => put_u8(out, 2),
        ContextKind::Task => put_u8(out, 3),
        ContextKind::Result => put_u8(out, 4),
        ContextKind::ArtifactReference => put_u8(out, 5),
        ContextKind::Custom(name) => {
            put_u8(out, 6);
            put_text(out, name.as_str())?;
        },
    }
    Ok(())
}

fn put_owner(out: &mut Vec<u8>, owner: ContextOwner)
    ensures
        final(out)@ == old(out)@ + owner_bytes(owner),
{
    broadcast use concat_is_associative;
    match owner {
        ContextOwner::Runtime => put_u8(out, 0),
        ContextOwner::Agent(agent_id) => {
            put_u8(out, 1);
            put_u64(out, agent_id.value());
        },
    }
}

fn put_scope(out: &mut Vec<u8>, scope: ContextScope)
    ensures
        final(out)@ == old(out)@ + scope_bytes(scope),
{
    broadcast use concat_is_associative;
    match scope {
        ContextScope::Global => put_u8(out, 0),
        ContextScope::Team => put_u8(out, 1),
        ContextScope::Private(agent_id) => {
            put_u8(out, 2);
            put_u64(out, agent_id.value());
        },
    }
}

fn lifecycle_tag(lifecycle: ContextLifecycle) -> (tag: u8)
    ensures
        tag == lifecycle_byte(lifecycle),
{
    match lifecycle {
        ContextLifecycle::Active => 0,
        ContextLifecycle::Stale => 1,
        ContextLifecycle::Superseded => 2,
        ContextLifecycle::Archived => 3,
        ContextLifecycle::Invalidated => 4,
    }
}

fn put_block(out: &mut Vec<u8>, block: &ContextBlock) -> (result: Result<(), ContextError>)
    ensures
        match result {
            Ok(_) => block_within(block@, u32::MAX as int) && final(out)@ == old(out)@
                + block_bytes(block@),
            Err(error) => !block_within(block@, u32::MAX as int) && error@ == bad(
                "context value exceeds u32::MAX"@,
            ),
        },
{
    broadcast use concat_is_associative;
    let ghost base = out@;
    put_u64(out, block.id.value());
    put_u64(out, block.revision);
    put_text(out, block.namespace.as_str())?;
    put_kind(out, &block.kind)?;
    put_owner(out, block.owner);
    put_scope(out, block.scope);
    assert(out@ == base + block_head_bytes(block@));
    let ghost base = out@;
    put_array(out, &block.content_hash.0);
    put_u64(out, block.token_estimate);
    put_u8(out, origin_tag(block.trust));
    put_u8(out, block.importance);
    put_u8(out, lifecycle_tag(block.lifecycle));
    assert(out@ == base + block_standing_bytes(block@));
    let ghost base = out@;
    put_references(out, &block.dependencies);
    put_references(out, &block.sources);
    let created: Option<u64> = match block.created_event {
        Some(id) => Some(id.value()),
        None => None,
    };
    put_optional_u64(out, created);
    put_optional_u64(out, block.last_access_ms);
    assert(out@ == base + block_links_bytes(block@));
    Ok(())
}

/// Encodes a transition. It fails only where a text or content is longer than
/// a `u32` can say.
pub fn encode_transition(transition: &ContextTransition) -> (result: Result<
    Vec<u8>,
    ContextError,
>)
    ensures
        outcome(result) == encoded(transition@),
{
    let mut out: Vec<u8> = Vec::new();
    match transition {
        ContextTransition::Created { block, content } => {
            put_u8(&mut out, 0);
            assert(out@ =~= u8_bytes(0));
            put_block(&mut out, block)?;
            put_blob(&mut out, content.as_slice())?;
        },
        ContextTransition::CreatedFromArtifact { block, artifact_hash } => {
            put_u8(&mut out, 3);
            assert(out@ =~= u8_bytes(3));
            put_block(&mut out, block)?;
            put_array(&mut out, artifact_hash);
        },
        ContextTransition::Superseded(reference) => {
            put_u8(&mut out, 1);
            assert(out@ =~= u8_bytes(1));
            put_reference(&mut out, *reference);
        },
        ContextTransition::Archived(reference) => {
            put_u8(&mut out, 4);
            assert(out@ =~= u8_bytes(4));
            put_reference(&mut out, *reference);
        },
        ContextTransition::Restored(reference) => {
            put_u8(&mut out, 5);
            assert(out@ =~= u8_bytes(5));
            put_reference(&mut out, *reference);
        },
        ContextTransition::Pinned(reference) => {
            put_u8(&mut out, 6);
            assert(out@ =~= u8_bytes(6));
            put_reference(&mut out, *reference);
        },
        ContextTransition::Unpinned(reference) => {
            put_u8(&mut out, 7);
            assert(out@ =~= u8_bytes(7));
            put_reference(&mut out, *reference);
        },
        ContextTransition::Invalidated { block, dependency, reason } => {
            put_u8(&mut out, 2);
            assert(out@ =~= u8_bytes(2));
            put_reference(&mut out, *block);
            let ghost base = out@;
            match dependency {
                Some(reference) => {
                    put_u8(&mut out, 1);
                    put_reference(&mut out, *reference);
                    proof {
                        concat_is_associative(base, u8_bytes(1), reference_bytes(*reference));
                    }
                },
                None => put_u8(&mut out, 0),
            }
            put_text(&mut out, reason.as_str())?;
        },
    }
    Ok(out)
}

// ---------------------------------------------------------------------------
// Reading.

fn truncated() -> (error: ContextError)
    ensures
        error@ == bad("context payload is truncated"@),
{
    ContextError::InvalidEncoding("context payload is truncated".to_owned())
}

fn unknown_tag(what: &str, tag: u8) -> (error: ContextError)
    ensures
        error@ == bad(what@ + decimal(tag as nat)),
{
    ContextError::InvalidEncoding(numbered(what, tag as u128))
}

fn read_u8(reader: &mut Reader) -> (result: Result<u8, ContextError>)
    ensures
        match get_u8(old(reader).left()) {
            Some((value, left)) => result == Ok::<u8, ContextError>(value) && final(reader).left()
                == left,
            None => result is Err && result->Err_0@ == bad("context payload is truncated"@),
        },
{
    match reader.u8() {
        Some(value) => Ok(value),
        None => Err(truncated()),
    }
}

fn read_u64(reader: &mut Reader) -> (result: Result<u64, ContextError>)
    ensures
        match get_u64(old(reader).left()) {
            Some((value, left)) => result == Ok::<u64, ContextError>(value) && final(reader).left()
                == left,
            None => result is Err && result->Err_0@ == bad("context payload is truncated"@),
        },
{
    match reader.u64() {
        Some(value) => Ok(value),
        None => Err(truncated()),
    }
}

fn read_array(reader: &mut Reader) -> (result: Result<[u8; 32], ContextError>)
    ensures
        match get_bytes(old(reader).left(), 32) {
            Some((value, left)) => result is Ok && result->Ok_0@ == value && final(reader).left()
                == left,
            None => result is Err && result->Err_0@ == bad("context payload is truncated"@),
        },
{
    match reader.array() {
        Some(value) => Ok(value),
        None => Err(truncated()),
    }
}

fn read_blob(reader: &mut Reader) -> (result: Result<Vec<u8>, ContextError>)
    ensures
        parsed(outcome(result), final(reader).left(), get_blob(old(reader).left())),
{
    reveal(get_blob);
    let length: u64 = read_u64(reader)?;
    if length > MAX_CONTEXT_PAYLOAD_BYTES as u64 {
        return Err(
            ContextError::InvalidEncoding(
                "context value exceeds maximum payload size".to_owned(),
            ),
        );
    }
    match reader.take(length as usize) {
        Some(bytes) => Ok(vstd::slice::slice_to_vec(bytes)),
        None => Err(truncated()),
    }
}

fn read_text(reader: &mut Reader) -> (result: Result<String, ContextError>)
    ensures
        parsed(outcome(result), final(reader).left(), get_text(old(reader).left())),
{
    reveal(get_text);
    match string_from_utf8(read_blob(reader)?) {
        Some(text) => Ok(text),
        None => Err(ContextError::InvalidEncoding("context string is not UTF-8".to_owned())),
    }
}

fn read_reference(reader: &mut Reader) -> (result: Result<ContextRef, ContextError>)
    ensures
        match get_reference(old(reader).left()) {
            Ok((reference, left)) => result == Ok::<ContextRef, ContextError>(reference)
                && final(reader).left() == left,
            Err(error) => result is Err && result->Err_0@ == error,
        },
{
    let block_id = ContextBlockId::from_u64(read_u64(reader)?);
    let revision: u64 = read_u64(reader)?;
    Ok(ContextRef { block_id, revision })
}

fn read_references(reader: &mut Reader) -> (result: Result<Vec<ContextRef>, ContextError>)
    ensures
        parsed(outcome(result), final(reader).left(), get_reference_list(old(reader).left())),
{
    let count: u64 = read_u64(reader)?;
    if count > MAX_CONTEXT_ITEMS as u64 {
        return Err(
            ContextError::InvalidEncoding("context item count exceeds limit".to_owned()),
        );
    }
    let mut list: Vec<ContextRef> = Vec::new();
    let mut index: u64 = 0;
    assert(list@ =~= Seq::<ContextRef>::empty());
    while index < count
        invariant
            index <= count,
            get_reference_list(old(reader).left()) == get_references(
                list@,
                (count - index) as nat,
                reader.left(),
            ),
        decreases count - index,
    {
        let reference = read_reference(reader)?;
        list.push(reference);
        index += 1;
    }
    Ok(list)
}

fn read_kind(reader: &mut Reader) -> (result: Result<ContextKind, ContextError>)
    ensures
        parsed(outcome(result), final(reader).left(), get_kind(old(reader).left())),
{
    let tag: u8 = read_u8(reader)?;
    match tag {
        0 => Ok(ContextKind::Note),
        1 => Ok(ContextKind::Project),
        2 => Ok(ContextKind::Contract),
        3 => Ok(ContextKind::Task),
        4 => Ok(ContextKind::Result),
        5 => Ok(ContextKind::ArtifactReference),
        6 => Ok(ContextKind::Custom(read_text(reader)?)),
        _ => Err(unknown_tag("unknown context kind tag ", tag)),
    }
}

fn read_owner(reader: &mut Reader) -> (result: Result<ContextOwner, ContextError>)
    ensures
        match get_owner(old(reader).left()) {
            Ok((owner, left)) => result == Ok::<ContextOwner, ContextError>(owner)
                && final(reader).left() == left,
            Err(error) => result is Err && result->Err_0@ == error,
        },
{
    let tag: u8 = read_u8(reader)?;
    match tag {
        0 => Ok(ContextOwner::Runtime),
        1 => Ok(ContextOwner::Agent(AgentId::from_u64(read_u64(reader)?))),
        _ => Err(unknown_tag("unknown context owner tag ", tag)),
    }
}

fn read_scope(reader: &mut Reader) -> (result: Result<ContextScope, ContextError>)
    ensures
        match get_scope(old(reader).left()) {
            Ok((scope, left)) => result == Ok::<ContextScope, ContextError>(scope)
                && final(reader).left() == left,
            Err(error) => result is Err && result->Err_0@ == error,
        },
{
    let tag: u8 = read_u8(reader)?;
    match tag {
        0 => Ok(ContextScope::Global),
        1 => Ok(ContextScope::Team),
        2 => Ok(ContextScope::Private(AgentId::from_u64(read_u64(reader)?))),
        _ => Err(unknown_tag("unknown context scope tag ", tag)),
    }
}

fn read_trust(reader: &mut Reader) -> (result: Result<TrustOrigin, ContextError>)
    ensures
        match get_trust(old(reader).left()) {
            Ok((trust, left)) => result == Ok::<TrustOrigin, ContextError>(trust)
                && final(reader).left() == left,
            Err(error) => result is Err && result->Err_0@ == error,
        },
{
    let tag: u8 = read_u8(reader)?;
    match origin_for_tag(tag) {
        Some(trust) => Ok(trust),
        None => Err(unknown_tag("unknown context trust tag ", tag)),
    }
}

fn read_lifecycle(reader: &mut Reader) -> (result: Result<ContextLifecycle, ContextError>)
    ensures
        match get_lifecycle(old(reader).left()) {
            Ok((lifecycle, left)) => result == Ok::<ContextLifecycle, ContextError>(lifecycle)
                && final(reader).left() == left,
            Err(error) => result is Err && result->Err_0@ == error,
        },
{
    let tag: u8 = read_u8(reader)?;
    match tag {
        0 => Ok(ContextLifecycle::Active),
        1 => Ok(ContextLifecycle::Stale),
        2 => Ok(ContextLifecycle::Superseded),
        3 => Ok(ContextLifecycle::Archived),
        4 => Ok(ContextLifecycle::Invalidated),
        _ => Err(unknown_tag("unknown context lifecycle tag ", tag)),
    }
}

fn read_optional_u64(reader: &mut Reader) -> (result: Result<Option<u64>, ContextError>)
    ensures
        match get_optional_u64(old(reader).left()) {
            Ok((value, left)) => result == Ok::<Option<u64>, ContextError>(value)
                && final(reader).left() == left,
            Err(error) => result is Err && result->Err_0@ == error,
        },
{
    let tag: u8 = read_u8(reader)?;
    match tag {
        0 => Ok(None),
        1 => Ok(Some(read_u64(reader)?)),
        _ => Err(unknown_tag("unknown optional value tag ", tag)),
    }
}

fn read_block(reader: &mut Reader) -> (result: Result<ContextBlock, ContextError>)
    ensures
        parsed(outcome(result), final(reader).left(), get_block(old(reader).left())),
{
    let id = ContextBlockId::from_u64(read_u64(reader)?);
    let revision: u64 = read_u64(reader)?;
    let namespace = read_text(reader)?;
    let kind = read_kind(reader)?;
    let owner = read_owner(reader)?;
    let scope = read_scope(reader)?;
    let content_hash = ContentHash::from_digest(read_array(reader)?);
    let token_estimate: u64 = read_u64(reader)?;
    let trust = read_trust(reader)?;
    let importance: u8 = read_u8(reader)?;
    let lifecycle = read_lifecycle(reader)?;
    let dependencies = read_references(reader)?;
    let sources = read_references(reader)?;
    let created_event = match read_optional_u64(reader)? {
        Some(id) => Some(EventId::from_u64(id)),
        None => None,
    };
    let last_access_ms: Option<u64> = read_optional_u64(reader)?;
    Ok(
        ContextBlock {
            id,
            revision,
            namespace,
            kind,
            owner,
            scope,
            content_hash,
            token_estimate,
            trust,
            importance,
            lifecycle,
            pinned: false,
            dependencies,
            sources,
            created_event,
            last_access_ms,
        },
    )
}

fn read_optional_reference(reader: &mut Reader) -> (result: Result<
    Option<ContextRef>,
    ContextError,
>)
    ensures
        match get_optional_reference(old(reader).left()) {
            Ok((reference, left)) => result == Ok::<Option<ContextRef>, ContextError>(reference)
                && final(reader).left() == left,
            Err(error) => result is Err && result->Err_0@ == error,
        },
{
    let tag: u8 = read_u8(reader)?;
    match tag {
        0 => Ok(None),
        1 => Ok(Some(read_reference(reader)?)),
        _ => Err(unknown_tag("unknown dependency presence tag ", tag)),
    }
}

/// Decodes a transition.
pub fn decode_transition(version: u16, bytes: &[u8]) -> (result: Result<
    ContextTransition,
    ContextError,
>)
    ensures
        outcome(result) == decoded(version, bytes@),
{
    if version != CONTEXT_TRANSITION_VERSION {
        return Err(
            ContextError::InvalidEncoding(
                numbered("unsupported context transition version ", version as u128),
            ),
        );
    }
    if bytes.len() > MAX_CONTEXT_PAYLOAD_BYTES {
        return Err(
            ContextError::InvalidEncoding(
                "context transition exceeds maximum payload size".to_owned(),
            ),
        );
    }
    let mut reader = Reader::new(bytes);
    let tag: u8 = read_u8(&mut reader)?;
    let transition = match tag {
        0 => {
            let block = read_block(&mut reader)?;
            let content = read_blob(&mut reader)?;
            ContextTransition::Created { block, content }
        },
        3 => {
            let block = read_block(&mut reader)?;
            let artifact_hash = read_array(&mut reader)?;
            ContextTransition::CreatedFromArtifact { block, artifact_hash }
        },
        1 => ContextTransition::Superseded(read_reference(&mut reader)?),
        4 => ContextTransition::Archived(read_reference(&mut reader)?),
        5 => ContextTransition::Restored(read_reference(&mut reader)?),
        6 => ContextTransition::Pinned(read_reference(&mut reader)?),
        7 => ContextTransition::Unpinned(read_reference(&mut reader)?),
        2 => {
            let block = read_reference(&mut reader)?;
            let dependency = read_optional_reference(&mut reader)?;
            let reason = read_text(&mut reader)?;
            ContextTransition::Invalidated { block, dependency, reason }
        },
        _ => {
            return Err(unknown_tag("unknown context transition tag ", tag));
        },
    };
    if !reader.is_done() {
        return Err(
            ContextError::InvalidEncoding("context payload has trailing bytes".to_owned()),
        );
    }
    Ok(transition)
}

// ---------------------------------------------------------------------------
// Reading back what was written.

proof fn blob_reads_back(value: Seq<u8>, rest: Seq<u8>)
    requires
        value.len() <= MAX_CONTEXT_PAYLOAD_BYTES,
    ensures
        get_blob(blob64_bytes(value) + rest) == Ok::<_, ContextErrorView>((value, rest)),
{
    broadcast use group_codec;

    reveal(blob64_bytes);
    reveal(get_blob);
    assert(blob64_bytes(value) + rest == u64_bytes(value.len() as u64) + (value + rest));
}

proof fn text_reads_back(text: Seq<char>, rest: Seq<u8>)
    requires
        text_within(text, MAX_CONTEXT_PAYLOAD_BYTES as int),
    ensures
        get_text(text_bytes(text) + rest) == Ok::<_, ContextErrorView>((text, rest)),
{
    broadcast use group_codec;

    reveal(text_bytes);
    reveal(get_text);
    blob_reads_back(encode_utf8(text), rest);
}

proof fn reference_reads_back(reference: ContextRef, rest: Seq<u8>)
    ensures
        get_reference(reference_bytes(reference) + rest) == Ok::<_, ContextErrorView>(
            (reference, rest),
        ),
{
    regroup1(u64_bytes(reference.block_id.0), u64_bytes(reference.revision), rest);
    get_u64_of_bytes(reference.block_id.0, u64_bytes(reference.revision) + rest);
    get_u64_of_bytes(reference.revision, rest);
}

proof fn references_read_back(
    before: Seq<ContextRef>,
    list: Seq<ContextRef>,
    more: nat,
    rest: Seq<u8>,
)
    ensures
        get_references(before, list.len() + more, references_bytes(list) + rest) == get_references(
            before + list,
            more,
            rest,
        ),
    decreases list.len(),
{
    if list.len() == 0 {
        assert(references_bytes(list) + rest =~= rest);
        assert(before + list =~= before);
    } else {
        let front = list.drop_last();
        let tail = reference_bytes(list.last()) + rest;
        assert(references_bytes(list) + rest =~= references_bytes(front) + tail);
        references_read_back(before, front, more + 1, tail);
        reference_reads_back(list.last(), rest);
        assert((before + front).push(list.last()) =~= before + list);
    }
}

proof fn reference_list_reads_back(list: Seq<ContextRef>, rest: Seq<u8>)
    requires
        list.len() <= MAX_CONTEXT_ITEMS,
    ensures
        get_reference_list(reference_list_bytes(list) + rest) == Ok::<_, ContextErrorView>(
            (list, rest),
        ),
{
    regroup1(u64_bytes(list.len() as u64), references_bytes(list), rest);
    get_u64_of_bytes(list.len() as u64, references_bytes(list) + rest);
    references_read_back(seq![], list, 0, rest);
    assert(Seq::<ContextRef>::empty() + list =~= list);
}

proof fn kind_reads_back(kind: ContextKindView, rest: Seq<u8>)
    requires
        kind matches ContextKindView::Custom(name) ==> text_within(
            name,
            MAX_CONTEXT_PAYLOAD_BYTES as int,
        ),
    ensures
        get_kind(kind_bytes(kind) + rest) == Ok::<_, ContextErrorView>((kind, rest)),
{
    match kind {
        ContextKindView::Note => get_u8_of_bytes(0, rest),
        ContextKindView::Project => get_u8_of_bytes(1, rest),
        ContextKindView::Contract => get_u8_of_bytes(2, rest),
        ContextKindView::Task => get_u8_of_bytes(3, rest),
        ContextKindView::Result => get_u8_of_bytes(4, rest),
        ContextKindView::ArtifactReference => get_u8_of_bytes(5, rest),
        ContextKindView::Custom(name) => {
            regroup1(u8_bytes(6), text_bytes(name), rest);
            get_u8_of_bytes(6, text_bytes(name) + rest);
            text_reads_back(name, rest);
        },
    }
}

proof fn owner_reads_back(owner: ContextOwner, rest: Seq<u8>)
    ensures
        get_owner(owner_bytes(owner) + rest) == Ok::<_, ContextErrorView>((owner, rest)),
{
    match owner {
        ContextOwner::Runtime => get_u8_of_bytes(0, rest),
        ContextOwner::Agent(agent_id) => {
            regroup1(u8_bytes(1), u64_bytes(agent_id.0), rest);
            get_u8_of_bytes(1, u64_bytes(agent_id.0) + rest);
            get_u64_of_bytes(agent_id.0, rest);
        },
    }
}

proof fn scope_reads_back(scope: ContextScope, rest: Seq<u8>)
    ensures
        get_scope(scope_bytes(scope) + rest) == Ok::<_, ContextErrorView>((scope, rest)),
{
    match scope {
        ContextScope::Global => get_u8_of_bytes(0, rest),
        ContextScope::Team => get_u8_of_bytes(1, rest),
        ContextScope::Private(agent_id) => {
            regroup1(u8_bytes(2), u64_bytes(agent_id.0), rest);
            get_u8_of_bytes(2, u64_bytes(agent_id.0) + rest);
            get_u64_of_bytes(agent_id.0, rest);
        },
    }
}

proof fn optional_u64_reads_back(value: Option<u64>, rest: Seq<u8>)
    ensures
        get_optional_u64(optional_u64_bytes(value) + rest) == Ok::<_, ContextErrorView>(
            (value, rest),
        ),
{
    match value {
        None => get_u8_of_bytes(0, rest),
        Some(v) => {
            regroup1(u8_bytes(1), u64_bytes(v), rest);
            get_u8_of_bytes(1, u64_bytes(v) + rest);
            get_u64_of_bytes(v, rest);
        },
    }
}

proof fn head_reads_back(block: ContextBlockView, rest: Seq<u8>)
    requires
        block_within(block, MAX_CONTEXT_PAYLOAD_BYTES as int),
    ensures
        get_block_head(block_head_bytes(block) + rest) == Ok::<_, ContextErrorView>(
            (
                ContextBlockView {
                    id: block.id,
                    revision: block.revision,
                    namespace: block.namespace,
                    kind: block.kind,
                    owner: block.owner,
                    scope: block.scope,
                    ..blank_block()
                },
                rest,
            ),
        ),
{
    let e = scope_bytes(block.scope) + rest;
    let d = owner_bytes(block.owner) + e;
    let c = kind_bytes(block.kind) + d;
    let b = text_bytes(block.namespace) + c;
    let a = u64_bytes(block.revision) + b;
    regroup5(
        u64_bytes(block.id.0),
        u64_bytes(block.revision),
        text_bytes(block.namespace),
        kind_bytes(block.kind),
        owner_bytes(block.owner),
        scope_bytes(block.scope),
        rest,
    );
    get_u64_of_bytes(block.id.0, a);
    get_u64_of_bytes(block.revision, b);
    text_reads_back(block.namespace, c);
    kind_reads_back(block.kind, d);
    owner_reads_back(block.owner, e);
    scope_reads_back(block.scope, rest);
}

proof fn standing_reads_back(head: ContextBlockView, block: ContextBlockView, rest: Seq<u8>)
    requires
        block.content_hash.len() == 32,
    ensures
        get_block_standing(head, block_standing_bytes(block) + rest) == Ok::<_, ContextErrorView>(
            (
                ContextBlockView {
                    content_hash: block.content_hash,
                    token_estimate: block.token_estimate,
                    trust: block.trust,
                    importance: block.importance,
                    lifecycle: block.lifecycle,
                    ..head
                },
                rest,
            ),
        ),
{
    let trust = origin_byte(block.trust);
    let lifecycle = lifecycle_byte(block.lifecycle);
    let d = u8_bytes(lifecycle) + rest;
    let c = u8_bytes(block.importance) + d;
    let b = u8_bytes(trust) + c;
    let a = u64_bytes(block.token_estimate) + b;
    regroup4(
        block.content_hash,
        u64_bytes(block.token_estimate),
        u8_bytes(trust),
        u8_bytes(block.importance),
        u8_bytes(lifecycle),
        rest,
    );
    crate::codec::get_bytes_of_concat(block.content_hash, a);
    get_u64_of_bytes(block.token_estimate, b);
    get_u8_of_bytes(trust, c);
    get_u8_of_bytes(block.importance, d);
    get_u8_of_bytes(lifecycle, rest);
}

proof fn links_read_back(head: ContextBlockView, block: ContextBlockView, rest: Seq<u8>)
    requires
        block.dependencies.len() <= MAX_CONTEXT_ITEMS,
        block.sources.len() <= MAX_CONTEXT_ITEMS,
    ensures
        get_block_links(head, block_links_bytes(block) + rest) == Ok::<_, ContextErrorView>(
            (
                ContextBlockView {
                    dependencies: block.dependencies,
                    sources: block.sources,
                    created_event: block.created_event,
                    last_access_ms: block.last_access_ms,
                    ..head
                },
                rest,
            ),
        ),
{
    let created = optional_u64_bytes(event_value(block.created_event));
    let access = optional_u64_bytes(block.last_access_ms);
    let c = access + rest;
    let b = created + c;
    let a = reference_list_bytes(block.sources) + b;
    regroup3(
        reference_list_bytes(block.dependencies),
        reference_list_bytes(block.sources),
        created,
        access,
        rest,
    );
    reference_list_reads_back(block.dependencies, a);
    reference_list_reads_back(block.sources, b);
    optional_u64_reads_back(event_value(block.created_event), c);
    optional_u64_reads_back(block.last_access_ms, rest);
}

/// A block whose encoding can be read back. Pins are not part of it.
pub open spec fn block_readable(block: ContextBlockView) -> bool {
    &&& block_within(block, MAX_CONTEXT_PAYLOAD_BYTES as int)
    &&& block.content_hash.len() == 32
    &&& block.dependencies.len() <= MAX_CONTEXT_ITEMS
    &&& block.sources.len() <= MAX_CONTEXT_ITEMS
    &&& !block.pinned
}

proof fn block_reads_back(block: ContextBlockView, rest: Seq<u8>)
    requires
        block_readable(block),
    ensures
        get_block(block_bytes(block) + rest) == Ok::<_, ContextErrorView>((block, rest)),
{
    let b = block_links_bytes(block) + rest;
    let a = block_standing_bytes(block) + b;
    regroup2(
        block_head_bytes(block),
        block_standing_bytes(block),
        block_links_bytes(block),
        rest,
    );
    head_reads_back(block, a);
    let head = get_block_head(block_head_bytes(block) + a)->Ok_0.0;
    standing_reads_back(head, block, b);
    let head = get_block_standing(head, a)->Ok_0.0;
    links_read_back(head, block, rest);
}

pub open spec fn transition_readable(transition: ContextTransitionView) -> bool {
    match transition {
        ContextTransitionView::Created { block, content } => block_readable(block)
            && content.len() <= MAX_CONTEXT_PAYLOAD_BYTES,
        ContextTransitionView::CreatedFromArtifact { block, artifact_hash } => block_readable(
            block,
        ) && artifact_hash.len() == 32,
        ContextTransitionView::Invalidated { reason, .. } => text_within(
            reason,
            MAX_CONTEXT_PAYLOAD_BYTES as int,
        ),
        _ => true,
    }
}

proof fn mark_reads_back(tag: u8, reference: ContextRef, rest: Seq<u8>)
    requires
        tag == 1 || 4 <= tag <= 7,
    ensures
        get_transition(u8_bytes(tag) + reference_bytes(reference) + rest) == Ok::<
            _,
            ContextErrorView,
        >((marked(tag, reference), rest)),
{
    regroup1(u8_bytes(tag), reference_bytes(reference), rest);
    get_u8_of_bytes(tag, reference_bytes(reference) + rest);
    reference_reads_back(reference, rest);
}

proof fn transition_reads_back(transition: ContextTransitionView, rest: Seq<u8>)
    requires
        transition_readable(transition),
        encoded(transition) is Ok,
    ensures
        get_transition(encoded(transition)->Ok_0 + rest) == Ok::<_, ContextErrorView>(
            (transition, rest),
        ),
{
    match transition {
        ContextTransitionView::Created { block, content } => {
            let a = blob64_bytes(content) + rest;
            regroup2(u8_bytes(0), block_bytes(block), blob64_bytes(content), rest);
            get_u8_of_bytes(0, block_bytes(block) + a);
            block_reads_back(block, a);
            blob_reads_back(content, rest);
        },
        ContextTransitionView::CreatedFromArtifact { block, artifact_hash } => {
            let a = artifact_hash + rest;
            regroup2(u8_bytes(3), block_bytes(block), artifact_hash, rest);
            get_u8_of_bytes(3, block_bytes(block) + a);
            block_reads_back(block, a);
            crate::codec::get_bytes_of_concat(artifact_hash, rest);
        },
        ContextTransitionView::Superseded(reference) => mark_reads_back(1, reference, rest),
        ContextTransitionView::Archived(reference) => mark_reads_back(4, reference, rest),
        ContextTransitionView::Restored(reference) => mark_reads_back(5, reference, rest),
        ContextTransitionView::Pinned(reference) => mark_reads_back(6, reference, rest),
        ContextTransitionView::Unpinned(reference) => mark_reads_back(7, reference, rest),
        ContextTransitionView::Invalidated { block, dependency, reason } => {
            let c = text_bytes(reason) + rest;
            let b = optional_reference_bytes(dependency) + c;
            let a = reference_bytes(block) + b;
            regroup3(
                u8_bytes(2),
                reference_bytes(block),
                optional_reference_bytes(dependency),
                text_bytes(reason),
                rest,
            );
            get_u8_of_bytes(2, a);
            reference_reads_back(block, b);
            match dependency {
                Some(reference) => {
                    regroup1(u8_bytes(1), reference_bytes(reference), c);
                    get_u8_of_bytes(1, reference_bytes(reference) + c);
                    reference_reads_back(reference, c);
                },
                None => get_u8_of_bytes(0, c),
            }
            text_reads_back(reason, rest);
        },
    }
}

/// Decoding gives back every transition whose texts and lists are within the
/// limits, where the whole encoding is.
pub proof fn decoding_inverts_encoding(transition: ContextTransitionView)
    requires
        transition_readable(transition),
        encoded(transition) is Ok,
        encoded(transition)->Ok_0.len() <= MAX_CONTEXT_PAYLOAD_BYTES,
    ensures
        decoded(CONTEXT_TRANSITION_VERSION, encoded(transition)->Ok_0) == Ok::<
            ContextTransitionView,
            ContextErrorView,
        >(transition),
{
    let empty = Seq::<u8>::empty();
    assert(encoded(transition)->Ok_0 + empty =~= encoded(transition)->Ok_0);
    transition_reads_back(transition, empty);
}

/// Whatever follows an encoded transition, it is refused.
pub proof fn trailing_bytes_are_refused(transition: ContextTransitionView, more: Seq<u8>)
    requires
        transition_readable(transition),
        encoded(transition) is Ok,
        more.len() > 0,
    ensures
        decoded(CONTEXT_TRANSITION_VERSION, encoded(transition)->Ok_0 + more) matches Err(
            ContextErrorView::InvalidEncoding(_),
        ),
{
    transition_reads_back(transition, more);
}

/// Another version is refused, whatever the bytes.
pub proof fn other_versions_are_refused(version: u16, bytes: Seq<u8>)
    requires
        version != CONTEXT_TRANSITION_VERSION,
    ensures
        decoded(version, bytes) matches Err(ContextErrorView::InvalidEncoding(_)),
{
}

} // verus!
