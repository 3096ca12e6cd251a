use orynth::ids::{AgentId, EventId, IdSource, RunId, TaskId};
use orynth::ipc::{
    BoundedMailbox, IpcEnvelope, IpcError, IpcMessage, IpcProvenance, IPC_SCHEMA_VERSION,
    LEGACY_IPC_SCHEMA_VERSION,
};
use orynth::kernel::TrustOrigin;

fn envelope(ids: &mut IdSource) -> IpcEnvelope {
    let run_id = RunId::new(ids);
    let task_id = TaskId::new(ids);
    let sender = AgentId::new(ids);
    let recipient = AgentId::new(ids);
    let cause = EventId::new(ids);
    IpcEnvelope::new(
        ids,
        run_id,
        Some(task_id),
        sender,
        recipient,
        IpcMessage::Question {
            subject: "schema.users.id".to_string(),
            why: "JWT subject depends on this contract".to_string(),
        },
    )
    .with_causal_events(vec![cause])
    .with_provenance(IpcProvenance::User)
}

#[test]
fn envelope_round_trips_with_scope_causality_and_provenance() {
    let original = envelope(&mut IdSource::with_prefix(5));
    let encoded = original.encode().expect("IPC should encode");
    let decoded = IpcEnvelope::decode(IPC_SCHEMA_VERSION, &encoded).expect("IPC should decode");
    assert_eq!(decoded, original);
}

#[test]
fn external_provenance_round_trips_without_trust_upgrade() {
    let original = envelope(&mut IdSource::with_prefix(5))
        .with_provenance(IpcProvenance::WebUntrusted {
            source: "docs.example".to_owned(),
        })
        .with_input_origin(TrustOrigin::TrustedProject);
    let encoded = original.encode().expect("IPC should encode");
    let decoded = IpcEnvelope::decode(IPC_SCHEMA_VERSION, &encoded).expect("IPC should decode");
    assert_eq!(decoded, original);
    assert_eq!(decoded.provenance.trust_origin(), TrustOrigin::WebUntrusted);
    assert_eq!(decoded.effective_trust_origin(), TrustOrigin::WebUntrusted);
    assert!(!decoded.provenance.trust_origin().is_trusted());
}

#[test]
fn legacy_envelopes_decode_without_material_origins() {
    let original = envelope(&mut IdSource::with_prefix(5));
    let mut encoded = original.encode().expect("IPC should encode");
    let input_origin_offset: usize = 8 + 8 + 1 + 8 + 8 + 8 + 2 + 8 + 1;
    encoded.drain(input_origin_offset..input_origin_offset + 2);
    let decoded = IpcEnvelope::decode(LEGACY_IPC_SCHEMA_VERSION, &encoded)
        .expect("legacy IPC should decode");
    assert!(decoded.input_origins.is_empty());
    assert_eq!(decoded.payload, original.payload);
}

#[test]
fn malformed_and_unsupported_payloads_are_rejected() {
    assert!(matches!(
        IpcEnvelope::decode(99, &[]),
        Err(IpcError::UnsupportedVersion(99))
    ));
    assert!(matches!(
        IpcEnvelope::decode(IPC_SCHEMA_VERSION, &[0]),
        Err(IpcError::InvalidEncoding(_))
    ));
}

#[test]
fn mailbox_is_bounded_and_fifo() {
    let mut ids = IdSource::with_prefix(5);
    let first = envelope(&mut ids);
    let second = envelope(&mut ids);
    let recipient = first.recipient;
    let mut mailbox = BoundedMailbox::new(1).expect("capacity should be valid");
    mailbox.try_send(first.clone()).expect("first message fits");
    assert_eq!(mailbox.receive(), Some(first));
    mailbox
        .try_send(second.clone())
        .expect("mailbox is reusable");
    let mut third = envelope(&mut ids);
    third.recipient = recipient;
    assert_eq!(
        mailbox.try_send(third),
        Err(IpcError::MailboxFull { recipient })
    );
    assert_eq!(mailbox.receive(), Some(second));
    assert!(mailbox.is_empty());
}

#[test]
fn invalid_messages_are_rejected_before_enqueue() {
    let mut ids = IdSource::with_prefix(5);
    let mut mailbox = BoundedMailbox::new(2).expect("capacity should be valid");
    let run_id = RunId::new(&mut ids);
    let sender = AgentId::new(&mut ids);
    let recipient = AgentId::new(&mut ids);
    let invalid = IpcEnvelope::new(
        &mut ids,
        run_id,
        None,
        sender,
        recipient,
        IpcMessage::Blocked {
            reason: "  ".to_string(),
        },
    );
    assert!(matches!(
        mailbox.try_send(invalid),
        Err(IpcError::Invalid(_))
    ));
    assert!(mailbox.is_empty());
}

#[test]
fn mailboxes_need_room_and_keep_their_order() {
    assert!(BoundedMailbox::new(0).is_err());
    let mut ids = IdSource::with_prefix(5);
    let mut mailbox = BoundedMailbox::new(3).expect("capacity should be valid");
    assert_eq!(mailbox.capacity(), 3);
    let sent: Vec<IpcEnvelope> = (0..3).map(|_| envelope(&mut ids)).collect();
    for one in &sent {
        mailbox.try_send(one.clone()).expect("message fits");
    }
    assert!(mailbox.is_full());
    assert_eq!(mailbox.len(), 3);
    for one in sent {
        assert_eq!(mailbox.receive(), Some(one));
    }
    assert_eq!(mailbox.receive(), None);
}

#[test]
fn every_truncation_of_an_envelope_is_refused() {
    let encoded = envelope(&mut IdSource::with_prefix(5))
        .encode()
        .expect("IPC should encode");
    for length in 0..encoded.len() {
        assert!(IpcEnvelope::decode(IPC_SCHEMA_VERSION, &encoded[..length]).is_err());
    }
    let mut longer = encoded.clone();
    longer.push(0);
    assert!(IpcEnvelope::decode(IPC_SCHEMA_VERSION, &longer).is_err());
}

#[test]
fn other_versions_and_trailing_bytes_of_envelopes_are_refused() {
    let mut encoded = envelope(&mut IdSource::with_prefix(5)).encode().unwrap();
    assert!(encoded.len() <= 1024 * 1024);
    assert_eq!(
        IpcEnvelope::decode(IPC_SCHEMA_VERSION + 1, &encoded),
        Err(IpcError::UnsupportedVersion(IPC_SCHEMA_VERSION + 1))
    );
    for extra in 0..=255 {
        encoded.push(extra);
        assert!(IpcEnvelope::decode(IPC_SCHEMA_VERSION, &encoded).is_err());
        encoded.pop();
    }
}
