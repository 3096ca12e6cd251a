use orynth::artifact::{
    describe_artifact, ArtifactError, ContentHash, DeterministicContentHasher, ContentHasher,
};
use orynth::event_store::{BranchMetadata, EventStore, ReplayMode};
use orynth::ids::{BranchId, IdSource, RunId};
use orynth::kernel::{Event, EventKind, TrustOrigin};
use orynth::memory_store::InMemoryEventStore;
use orynth::rows::{
    artifact_row, branch_row, check_branch_columns, check_existing_snapshot, check_fork_parent,
    checksum_of_schema, decode_artifact_trust, decode_branch, event_row, merge_artifact_row,
    plan_migration, position_column, read_artifact_row, read_event_row, read_snapshot_row,
    row_count, snapshot_limit, snapshot_row, stage_events, MigrationPlan, SCHEMA_V1, SCHEMA_V2,
};
use orynth::state::StoreError;

fn event(ids: &mut IdSource, run_id: RunId) -> Event {
    Event::new(ids, 99, run_id, EventKind::RunCreated { run_id })
}

#[test]
fn events_read_back_from_their_rows() {
    let mut ids = IdSource::with_prefix(5);
    let run_id = RunId::from_u64(31);
    let event = event(&mut ids, run_id);
    let mut payloads = stage_events(&[event.clone()]).unwrap();
    let row = event_row(&event, payloads.remove(0), 4, 2).unwrap();
    assert_eq!(row.sequence, 6);
    assert_eq!(row.run_id, "run-000000000000001f");
    assert_eq!(row.occurred_at_ms, "99");
    assert_eq!(row.event_kind, 0);
    let read = |payload: &[u8], checksum: &[u8], id: &str, sequence: i64| {
        read_event_row(sequence, id, &row.run_id, payload, checksum)
    };
    let stored = read(&row.payload, &row.checksum, &row.event_id, 6).unwrap();
    assert_eq!(stored.sequence, 6);
    assert_eq!(stored.event, event);
    assert_eq!(
        read(&row.payload, b"x", &row.event_id, -6).unwrap_err().to_text(),
        "corrupt event store: SQLite event checksum mismatch at sequence -6"
    );
    assert_eq!(
        read(&row.payload, &row.checksum, "event-0", 6).unwrap_err().to_text(),
        "corrupt event store: SQLite event identity mismatch at sequence 6"
    );
    assert_eq!(
        read(&row.payload, &row.checksum, &row.event_id, -1),
        Err(StoreError::Corrupt("negative event sequence".to_owned()))
    );
    let overflow = event_row(&event, row.payload.clone(), i64::MAX, 1);
    assert_eq!(
        overflow,
        Err(StoreError::Corrupt("event sequence overflow".to_owned()))
    );
}

#[test]
fn batches_are_staged_without_duplicates() {
    let mut ids = IdSource::with_prefix(5);
    let run_id = RunId::from_u64(31);
    let first = event(&mut ids, run_id);
    let second = event(&mut ids, run_id);
    assert_eq!(stage_events(&[first.clone(), second.clone()]).unwrap().len(), 2);
    assert_eq!(
        stage_events(&[first.clone(), second, first.clone()]),
        Err(StoreError::DuplicateEvent(first.id))
    );
    assert_eq!(stage_events(&[]), Ok(vec![]));
}

#[test]
fn branches_read_back_from_their_rows() {
    let branch = BranchMetadata {
        branch_id: BranchId::from_u64(0xab),
        parent_run_id: RunId::from_u64(7),
        fork_sequence: 12,
        replay_mode: ReplayMode::ReexecuteLive,
        created_at_ms: 1234,
    };
    check_branch_columns(12, 1234).unwrap();
    let row = branch_row(&branch);
    assert_eq!(row.branch_id, "branch-00000000000000ab");
    assert_eq!(row.created_at_ms, "1234");
    assert_eq!(decode_branch(&row), Ok(branch));
    let mut bad = row.clone();
    bad.branch_id = "run-1".to_owned();
    assert_eq!(
        decode_branch(&bad),
        Err(StoreError::Corrupt("invalid persisted ID run-1".to_owned()))
    );
    let mut bad = row.clone();
    bad.parent_run_id = "run-xyz".to_owned();
    assert!(decode_branch(&bad).is_err());
    let mut bad = row.clone();
    bad.fork_sequence = -1;
    assert_eq!(
        decode_branch(&bad),
        Err(StoreError::Corrupt("negative fork sequence".to_owned()))
    );
    let mut bad = row;
    bad.created_at_ms = "soon".to_owned();
    assert_eq!(
        decode_branch(&bad),
        Err(StoreError::Corrupt("invalid branch timestamp".to_owned()))
    );
    assert!(check_branch_columns(u64::MAX, 1).is_err());
    assert!(check_branch_columns(1, u64::MAX).is_err());
}

#[test]
fn forks_need_their_parent() {
    let parent = RunId::from_u64(7);
    assert_eq!(check_fork_parent(parent, 2, true, false), Ok(()));
    assert_eq!(
        check_fork_parent(parent, 2, false, false),
        Err(StoreError::UnknownRun(parent))
    );
    assert_eq!(
        check_fork_parent(parent, 2, false, true),
        Err(StoreError::InvalidTransition(
            "fork sequence 2 is not present in run run-0000000000000007".to_owned()
        ))
    );
}

#[test]
fn snapshots_read_back_and_never_change() {
    let mut ids = IdSource::with_prefix(5);
    let run_id = RunId::from_u64(31);
    let mut store = InMemoryEventStore::new();
    store.append(event(&mut ids, run_id)).unwrap();
    let snapshot = store.snapshot(run_id).unwrap();
    let row = snapshot_row(&snapshot).unwrap();
    assert_eq!(read_snapshot_row(run_id, &row), Ok(snapshot.clone()));
    assert_eq!(
        check_existing_snapshot(&snapshot, &row, &row.state_blob, &row.checksum),
        Ok(())
    );
    let other = DeterministicContentHasher.hash(b"other").as_bytes();
    assert!(matches!(
        check_existing_snapshot(&snapshot, &row, b"other", &other),
        Err(StoreError::InvalidTransition(_))
    ));
    assert!(matches!(
        check_existing_snapshot(&snapshot, &row, b"other", b"x"),
        Err(StoreError::Corrupt(_))
    ));
    let mut broken = row.clone();
    broken.checksum[0] ^= 1;
    assert!(read_snapshot_row(run_id, &broken).is_err());
    let mut broken = row;
    broken.at_sequence = -1;
    assert_eq!(
        read_snapshot_row(run_id, &broken),
        Err(StoreError::Corrupt("negative snapshot sequence".to_owned()))
    );
}

#[test]
fn artifacts_read_back_from_their_rows_and_keep_low_trust() {
    let bytes = b"bytes".to_vec();
    let hasher = DeterministicContentHasher;
    let reference =
        describe_artifact(&hasher, "text/plain", &bytes, TrustOrigin::TrustedProject).unwrap();
    let row = artifact_row(&reference, bytes.clone()).unwrap();
    let stored = read_artifact_row(reference.content_hash, &row).unwrap();
    assert_eq!(stored.bytes(), b"bytes");
    assert_eq!(stored.reference(), &reference);
    let (same, update) = merge_artifact_row(&row, &reference, &bytes).unwrap();
    assert_eq!((same, update), (reference.clone(), None));
    let lower = describe_artifact(&hasher, "text/plain", &bytes, TrustOrigin::External).unwrap();
    let (merged, update) = merge_artifact_row(&row, &lower, &bytes).unwrap();
    assert_eq!(merged.trust, TrustOrigin::External);
    assert_eq!(update, Some(5));
    let html = describe_artifact(&hasher, "text/html", &bytes, TrustOrigin::External).unwrap();
    assert_eq!(
        merge_artifact_row(&row, &html, &bytes),
        Err(ArtifactError::MetadataMismatch(html.content_hash))
    );
    assert_eq!(
        merge_artifact_row(&row, &reference, b"other"),
        Err(ArtifactError::HashCollision(reference.content_hash))
    );
    let mut broken = row.clone();
    broken.size_bytes = 4;
    assert!(read_artifact_row(reference.content_hash, &broken).is_err());
    assert!(read_artifact_row(ContentHash::from_digest([0; 32]), &row).is_err());
    assert_eq!(
        decode_artifact_trust(-3),
        Err(ArtifactError::Corrupt("unknown artifact trust tag -3".to_owned()))
    );
    assert_eq!(decode_artifact_trust(8), Ok(TrustOrigin::McpResult));
}

#[test]
fn migrations_follow_the_noted_version() {
    assert!(SCHEMA_V1.starts_with("\nCREATE TABLE IF NOT EXISTS events ("));
    assert!(SCHEMA_V2.starts_with("ALTER TABLE artifacts"));
    assert_eq!(plan_migration(None, &[]), Ok(MigrationPlan::Create));
    let first = checksum_of_schema(1).as_bytes();
    let second = checksum_of_schema(2).as_bytes();
    assert_ne!(first, second);
    assert_eq!(plan_migration(Some(1), &first), Ok(MigrationPlan::Upgrade));
    assert_eq!(plan_migration(Some(2), &second), Ok(MigrationPlan::Keep));
    assert_eq!(
        plan_migration(Some(2), &first),
        Err("schema migration checksum mismatch".to_owned())
    );
    assert_eq!(
        plan_migration(Some(3), &[]),
        Err("database schema is newer than this runtime".to_owned())
    );
    assert_eq!(
        plan_migration(Some(-1), &[]),
        Err("unsupported schema version -1".to_owned())
    );
}

#[test]
fn numbers_fit_their_columns() {
    assert_eq!(row_count(3), Ok(3));
    assert!(row_count(-1).is_err());
    assert_eq!(position_column(9), Ok(9));
    assert!(position_column(u64::MAX).is_err());
    assert_eq!(snapshot_limit(None), Ok(i64::MAX));
    assert_eq!(snapshot_limit(Some(3)), Ok(3));
    assert_eq!(
        snapshot_limit(Some(u64::MAX)),
        Err(StoreError::Corrupt("snapshot sequence overflow".to_owned()))
    );
}
