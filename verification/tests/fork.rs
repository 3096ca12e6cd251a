use orynth::event_store::{BranchMetadata, EventStore, ReplayMode, StoredEvent};
use orynth::fork::{check_new_child, forkable_branch, forked_run, plan_fork};
use orynth::ids::{BranchId, IdSource, RunId};
use orynth::kernel::{Event, EventKind};
use orynth::log::{new_log_header, EventLog};
use orynth::memory_store::InMemoryEventStore;
use orynth::state::StoreError;
use orynth::table::Table;

fn branch(parent: u64) -> BranchMetadata {
    BranchMetadata {
        branch_id: BranchId::from_u64(5),
        parent_run_id: RunId::from_u64(parent),
        fork_sequence: 1,
        replay_mode: ReplayMode::Recorded,
        created_at_ms: 9,
    }
}

fn created(ids: &mut IdSource, run_id: RunId) -> Event {
    Event::new(ids, 1, run_id, EventKind::RunCreated { run_id })
}

#[test]
fn forks_need_a_new_child_and_another_parent() {
    let mut ids = IdSource::with_prefix(3);
    let child = RunId::from_u64(2);
    let event = created(&mut ids, child);
    assert_eq!(check_new_child(&vec![], child), Ok(()));
    assert_eq!(
        check_new_child(&vec![StoredEvent { sequence: 1, event }], child),
        Err(StoreError::InvalidTransition(
            "child run run-0000000000000002 already has events".to_owned()
        ))
    );
    let id = BranchId::from_u64(5);
    assert_eq!(forkable_branch(Some(branch(1)), id, child), Ok(branch(1)));
    assert_eq!(
        forkable_branch(None, id, child),
        Err(StoreError::UnknownBranch(id))
    );
    assert_eq!(
        forkable_branch(Some(branch(2)), id, child),
        Err(StoreError::InvalidTransition(
            "child run must differ from parent run".to_owned()
        ))
    );
}

#[test]
fn forks_copy_the_prefix_into_the_child() {
    let mut ids = IdSource::with_prefix(3);
    let parent = RunId::from_u64(1);
    let child = RunId::from_u64(2);
    let mut store = InMemoryEventStore::new();
    let first = created(&mut ids, parent);
    let second = Event::new(&mut ids, 2, parent, EventKind::RunCompleted { run_id: parent });
    store.append_batch(&[first, second]).unwrap();
    let events = store.events(parent).unwrap();
    let prefix = plan_fork(&mut ids, &events, &branch(1), child, &Table::new()).unwrap();
    assert_eq!(prefix.len(), 1);
    assert_eq!(prefix[0].kind, EventKind::RunCreated { run_id: child });
    let sequences = store.append_batch(&prefix).unwrap();
    let forked = forked_run(&branch(1), child, sequences, prefix.clone());
    assert_eq!(forked.copied_event_count, 1);
    assert_eq!(forked.child_sequences, vec![3]);
    assert_eq!(forked.child_prefix.events(), prefix.as_slice());
    let late = BranchMetadata { fork_sequence: 2, replay_mode: ReplayMode::ForkLive, ..branch(1) };
    assert_eq!(
        plan_fork(&mut ids, &events, &late, child, &Table::new()),
        Err(StoreError::InvalidTransition(
            "live fork cannot begin after a terminal parent event".to_owned()
        ))
    );
}

#[test]
fn logs_list_their_branches_and_find_their_snapshots() {
    let mut ids = IdSource::with_prefix(3);
    let parent = RunId::from_u64(1);
    let (mut log, _) = EventLog::recover(&new_log_header()).unwrap();
    log.commit_batch(&[created(&mut ids, parent)]).unwrap();
    for _ in 0..3 {
        let (branch, metadata) = log
            .prepare_branch(&mut ids, parent, 1, ReplayMode::Recorded, 7)
            .unwrap();
        log.set_metadata(metadata);
        assert_eq!(log.metadata().branch(branch.branch_id), Some(branch));
    }
    let branches = log.metadata().branches_for_run(parent);
    assert_eq!(branches.len(), 3);
    assert!(branches.windows(2).all(|pair| pair[0].branch_id < pair[1].branch_id));
    assert!(log.metadata().branches_for_run(RunId::from_u64(9)).is_empty());
    assert_eq!(log.metadata().branch(BranchId::from_u64(0)), None);

    let snapshot = log.events().snapshot(parent).unwrap();
    let metadata = log.prepare_snapshot(&snapshot).unwrap();
    log.set_metadata(metadata);
    assert_eq!(log.metadata().load_snapshot(parent, None), Some(snapshot.clone()));
    assert_eq!(log.metadata().load_snapshot(parent, Some(1)), Some(snapshot));
    assert_eq!(log.metadata().load_snapshot(parent, Some(0)), None);
    assert_eq!(log.metadata().load_snapshot(RunId::from_u64(9), None), None);
}
