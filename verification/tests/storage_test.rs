use openraft::entry::Entry;
use openraft::storage::defensive::DefensiveStore;
use openraft::storage::helper::StorageHelper;
use openraft::storage::mem_store::MemStore;
use openraft::storage::LogIndexRange;
use openraft::storage::LogState;
use openraft::storage::RaftStorage;
use openraft::storage::SnapshotData;
use openraft::storage::SnapshotMeta;
use openraft::storage_error::ErrorSubject;
use openraft::storage_error::ErrorVerb;
use openraft::storage_error::StorageError;
use openraft::storage_error::Violation;
use openraft::testing::blank_ent;
use openraft::testing::id_set;
use openraft::testing::log_id;
use openraft::testing::membership_ent;
use openraft::testing::membership_of;
use openraft::vote::Vote;

fn ids_of(entries: &[Entry]) -> Vec<u64> {
    entries.iter().map(|e| e.log_id.index).collect()
}

fn fed() -> MemStore {
    let mut store = MemStore::new();
    store.append_to_log(&[blank_ent(0, 0)]).unwrap();
    for i in 1..=10 {
        store.append_to_log(&[blank_ent(1, i)]).unwrap();
    }
    store
}

fn violation<T: std::fmt::Debug>(r: Result<T, StorageError>) -> (ErrorSubject, Violation) {
    let e = r.unwrap_err().into_defensive().unwrap();
    (e.subject, e.violation)
}

/// append + read-back: the entries are read as they were appended.
#[test]
fn test_append_then_read_back() {
    let mut store = MemStore::new();
    let entries = vec![
        blank_ent(1, 3),
        membership_ent(1, 4, id_set(&[1, 2])),
        Entry::new_normal(log_id(2, 5), vec![7, 8, 9]),
    ];
    store.append_to_log(&entries).unwrap();
    let got = store.try_get_log_entries(LogIndexRange::new(3, 6)).unwrap();
    assert_eq!(entries, got);
}

/// vote persistence: the vote that is read is the one that was saved last.
#[test]
fn test_vote_round_trip() {
    let mut store = MemStore::new();
    assert_eq!(None, store.read_vote().unwrap());
    store.save_vote(&Vote::new(3, 1)).unwrap();
    assert_eq!(Some(Vote::new(3, 1)), store.read_vote().unwrap());
    store.save_vote(&Vote::new_committed(5, 2)).unwrap();
    assert_eq!(Some(Vote::new_committed(5, 2)), store.read_vote().unwrap());
}

/// snapshot build + meta read: the current snapshot is the one that was built.
#[test]
fn test_snapshot_meta_round_trip() {
    let mut store = MemStore::new();
    assert!(store.get_current_snapshot().unwrap().is_none());
    store
        .apply_to_state_machine(&[
            membership_ent(1, 0, id_set(&[0, 1])),
            Entry::new_normal(log_id(1, 1), vec![1, 2, 3]),
        ])
        .unwrap();
    let built = store.build_snapshot().unwrap();
    assert_eq!(Some(log_id(1, 1)), built.meta.last_log_id);
    assert_eq!(&Some(log_id(1, 0)), built.meta.last_membership.log_id());
    assert_eq!(&membership_of(&[0, 1]), built.meta.last_membership.membership());
    assert_eq!(&vec![1, 2, 3], built.snapshot.get_ref());

    let current = store.get_current_snapshot().unwrap().unwrap();
    assert_eq!(built.meta, current.meta);
    assert_eq!(built.snapshot.get_ref(), current.snapshot.get_ref());

    // a later snapshot has another id
    store.apply_to_state_machine(&[blank_ent(1, 2)]).unwrap();
    let later = store.build_snapshot().unwrap();
    assert_ne!(built.meta.snapshot_id, later.meta.snapshot_id);
    assert_eq!(later.meta, store.get_current_snapshot().unwrap().unwrap().meta);
}

/// A read of `x..x` gives nothing; a defensive store rejects it.
#[test]
fn test_read_of_empty_range() {
    let mut store = fed();
    assert!(store.try_get_log_entries(LogIndexRange::new(3, 3)).unwrap().is_empty());
    assert!(StorageHelper::new(&mut store).get_log_entries(LogIndexRange::new(3, 3)).unwrap().is_empty());
    assert!(store.try_get_log_entries(LogIndexRange::new(5, 2)).unwrap().is_empty());

    let mut store = DefensiveStore::new(fed());
    assert_eq!(
        (ErrorSubject::Logs, Violation::RangeEmpty { start: Some(3), end: Some(2) }),
        violation(store.try_get_log_entries(LogIndexRange::new(3, 3)))
    );
    assert_eq!(
        (ErrorSubject::Logs, Violation::RangeEmpty { start: Some(5), end: Some(1) }),
        violation(store.try_get_log_entries(LogIndexRange::new(5, 2)))
    );
    assert_eq!(
        (ErrorSubject::Logs, Violation::RangeEmpty { start: Some(0), end: Some(0) }),
        violation(store.try_get_log_entries(LogIndexRange::new(0, 0)))
    );
}

#[test]
fn test_read_of_ranges() {
    let mut store = fed();
    assert_eq!(vec![5, 6], ids_of(&store.try_get_log_entries(LogIndexRange::new(5, 7)).unwrap()));
    assert_eq!(vec![9, 10], ids_of(&store.try_get_log_entries(LogIndexRange::from(9)).unwrap()));
    assert_eq!(vec![0, 1], ids_of(&store.try_get_log_entries(LogIndexRange::to(2)).unwrap()));
    assert_eq!(11, store.try_get_log_entries(LogIndexRange::full()).unwrap().len());
    assert!(LogIndexRange::new(5, 7).has(6));
    assert!(!LogIndexRange::new(5, 7).has(7));
    assert!(LogIndexRange::full().has(u64::MAX));
}

/// A purge up to a log id that is purged already is a no-op, and a purge is
/// idempotent.
#[test]
fn test_purge_is_idempotent() {
    let mut store = fed();
    store.purge_logs_upto(log_id(1, 5)).unwrap();
    let state = store.get_log_state().unwrap();
    let logs = ids_of(&store.try_get_log_entries(LogIndexRange::full()).unwrap());
    assert_eq!(
        LogState { last_purged_log_id: Some(log_id(1, 5)), last_log_id: Some(log_id(1, 10)) },
        state
    );
    assert_eq!(vec![6, 7, 8, 9, 10], logs);

    // the same purge again
    store.purge_logs_upto(log_id(1, 5)).unwrap();
    assert_eq!(state, store.get_log_state().unwrap());
    assert_eq!(logs, ids_of(&store.try_get_log_entries(LogIndexRange::full()).unwrap()));

    // a purge below the last purged log id
    store.purge_logs_upto(log_id(1, 2)).unwrap();
    store.purge_logs_upto(log_id(0, 0)).unwrap();
    assert_eq!(state, store.get_log_state().unwrap());
    assert_eq!(logs, ids_of(&store.try_get_log_entries(LogIndexRange::full()).unwrap()));
}

#[test]
fn test_delete_conflict_logs() {
    let mut store = fed();
    store.delete_conflict_logs_since(log_id(1, 4)).unwrap();
    assert_eq!(vec![0, 1, 2, 3], ids_of(&store.try_get_log_entries(LogIndexRange::full()).unwrap()));
    assert_eq!(
        LogState { last_purged_log_id: None, last_log_id: Some(log_id(1, 3)) },
        store.get_log_state().unwrap()
    );
}

#[test]
fn test_apply_returns_a_response_for_each_entry() {
    let mut store = MemStore::new();
    let responses = store
        .apply_to_state_machine(&[
            blank_ent(1, 0),
            Entry::new_normal(log_id(1, 1), vec![1]),
            Entry::new_normal(log_id(1, 2), vec![2, 2]),
        ])
        .unwrap();
    // the response to a request is the state that it replaces
    assert_eq!(vec![vec![], vec![], vec![1]], responses);
    let (applied, membership) = store.last_applied_state().unwrap();
    assert_eq!(Some(log_id(1, 2)), applied);
    assert_eq!(&None, membership.log_id());
}

#[test]
fn test_install_snapshot_replaces_state_machine() {
    let mut store = fed();
    let meta = SnapshotMeta {
        last_log_id: Some(log_id(3, 20)),
        last_membership: openraft::membership::stored_membership::StoredMembership::new(
            Some(log_id(2, 15)),
            membership_of(&[4, 5]),
        ),
        snapshot_id: "s-1".to_string(),
    };
    let mut data = store.begin_receiving_snapshot().unwrap();
    assert_eq!(0, data.len());
    data.write_all(&[9, 9, 9]);
    store.install_snapshot(&meta, data).unwrap();

    let (applied, membership) = store.last_applied_state().unwrap();
    assert_eq!(Some(log_id(3, 20)), applied);
    assert_eq!(meta.last_membership, membership);
    let current = store.get_current_snapshot().unwrap().unwrap();
    assert_eq!(meta, current.meta);
    assert_eq!(&vec![9, 9, 9], current.snapshot.get_ref());
    // the log is left to the engine
    assert_eq!(Some(log_id(1, 10)), store.get_log_state().unwrap().last_log_id);
}

#[test]
fn test_defensive_violations() {
    let mut store = DefensiveStore::new(MemStore::new());

    assert_eq!((ErrorSubject::Logs, Violation::LogsEmpty), violation(store.append_to_log(&[])));
    assert_eq!(
        (ErrorSubject::Logs, Violation::LogsEmpty),
        violation(store.apply_to_state_machine(&[]))
    );

    store.save_vote(&Vote::new(2, 1)).unwrap();
    assert_eq!(
        (
            ErrorSubject::Vote,
            Violation::VoteNotAscending { curr: Vote::new(2, 1), to: Vote::new(2, 0) }
        ),
        violation(store.save_vote(&Vote::new(2, 0)))
    );
    // the same vote, and a greater one, are fine
    store.save_vote(&Vote::new(2, 1)).unwrap();
    store.save_vote(&Vote::new_committed(2, 1)).unwrap();

    store.append_to_log(&[blank_ent(0, 0), blank_ent(1, 1), blank_ent(1, 2)]).unwrap();
    assert_eq!(
        (
            ErrorSubject::Logs,
            Violation::LogsNonConsecutive { prev: Some(log_id(1, 4)), next: log_id(1, 6) }
        ),
        violation(store.append_to_log(&[blank_ent(1, 3), blank_ent(1, 4), blank_ent(1, 6)]))
    );
    assert_eq!(
        (
            ErrorSubject::Log(log_id(1, 2)),
            Violation::LogsNonConsecutive { prev: Some(log_id(1, 2)), next: log_id(1, 2) }
        ),
        violation(store.append_to_log(&[blank_ent(1, 2)]))
    );

    store.apply_to_state_machine(&[blank_ent(0, 0), blank_ent(1, 1)]).unwrap();
    // entries to apply follow one another
    assert_eq!(
        (
            ErrorSubject::Logs,
            Violation::LogsNonConsecutive { prev: Some(log_id(1, 2)), next: log_id(1, 4) }
        ),
        violation(store.apply_to_state_machine(&[blank_ent(1, 2), blank_ent(1, 4)]))
    );
    assert_eq!(
        (
            ErrorSubject::Apply(log_id(1, 3)),
            Violation::ApplyNonConsecutive { prev: Some(log_id(1, 1)), next: log_id(1, 3) }
        ),
        violation(store.apply_to_state_machine(&[blank_ent(1, 3)]))
    );
    assert_eq!(
        (
            ErrorSubject::Log(log_id(1, 2)),
            Violation::PurgeNonApplied { last_applied: Some(log_id(1, 1)), purge_upto: log_id(1, 2) }
        ),
        violation(store.purge_logs_upto(log_id(1, 2)))
    );
    assert_eq!(
        (
            ErrorSubject::Log(log_id(1, 1)),
            Violation::AppliedWontConflict {
                last_applied: Some(log_id(1, 1)),
                first_conflict_log_id: log_id(1, 1)
            }
        ),
        violation(store.delete_conflict_logs_since(log_id(1, 1)))
    );
    // what is allowed goes through to the store underneath
    store.purge_logs_upto(log_id(1, 1)).unwrap();
    store.delete_conflict_logs_since(log_id(1, 2)).unwrap();
    let mut inner = store.into_inner();
    assert_eq!(
        LogState { last_purged_log_id: Some(log_id(1, 1)), last_log_id: Some(log_id(1, 1)) },
        inner.get_log_state().unwrap()
    );
}

#[test]
fn test_defensive_dirty_log() {
    let mut store = DefensiveStore::new(MemStore::new());
    store.append_to_log(&[blank_ent(0, 0), blank_ent(1, 1), blank_ent(1, 2)]).unwrap();
    store.apply_to_state_machine(&[blank_ent(0, 0), blank_ent(2, 1)]).unwrap();
    assert_eq!(
        (
            ErrorSubject::Log(log_id(1, 2)),
            Violation::DirtyLog {
                higher_index_log_id: log_id(1, 2),
                lower_index_log_id: log_id(2, 1)
            }
        ),
        violation(store.get_log_state())
    );
}

#[test]
fn test_helper_log_index_not_found() {
    let mut store = fed();
    store.purge_logs_upto(log_id(1, 3)).unwrap();
    let mut helper = StorageHelper::new(&mut store);
    assert_eq!(
        (ErrorSubject::LogIndex(2), Violation::LogIndexNotFound { want: 2, got: Some(4) }),
        violation(helper.get_log_entries(LogIndexRange::new(2, 6)))
    );
    assert_eq!(
        (ErrorSubject::LogIndex(12), Violation::LogIndexNotFound { want: 12, got: Some(10) }),
        violation(helper.get_log_entries(LogIndexRange::new(9, 13)))
    );
    assert_eq!(log_id(1, 3), helper.get_log_id(3).unwrap());
    assert_eq!(log_id(1, 7), helper.get_log_id(7).unwrap());
    assert!(helper.try_get_log_entry(3).unwrap().is_none());
    assert_eq!(Some(blank_ent(1, 4)), helper.try_get_log_entry(4).unwrap());
}

#[test]
fn test_io_error_is_no_defensive_error() {
    let e = StorageError::from_io_error(ErrorSubject::Vote, ErrorVerb::Write, "disk full".to_string());
    assert_eq!(None, e.clone().into_defensive());
    match e {
        StorageError::IO { source } => {
            assert_eq!(ErrorVerb::Write, source.verb);
            assert_eq!("disk full", source.cause);
        }
        StorageError::Defensive { .. } => unreachable!(),
    }
}

#[test]
fn test_snapshot_data_seek_read_write() {
    let mut data = SnapshotData::from_bytes(vec![1, 2, 3, 4, 5]);
    assert_eq!(vec![1, 2], data.read(2));
    assert_eq!(2, data.position());
    assert_eq!(vec![3, 4, 5], data.read(10));
    assert_eq!(Vec::<u8>::new(), data.read(10));

    // a write inside overwrites, a write over the end grows
    data.seek(3);
    data.write_all(&[9, 9, 9]);
    assert_eq!(&vec![1, 2, 3, 9, 9, 9], data.get_ref());
    assert_eq!(6, data.position());

    // a write beyond the end fills the gap with zeros
    data.seek(8);
    data.write_all(&[7]);
    assert_eq!(vec![1, 2, 3, 9, 9, 9, 0, 0, 7], data.into_inner());

    let mut data = SnapshotData::new();
    assert_eq!(0, data.seek_end());
    data.write_all(&[]);
    assert_eq!(0, data.len());
}
