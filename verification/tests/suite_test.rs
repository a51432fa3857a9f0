use openraft::storage::defensive::DefensiveStore;
use openraft::storage::defensive::DefensiveStoreBuilder;
use openraft::storage::mem_store::MemStore;
use openraft::storage::mem_store::MemStoreBuilder;
use openraft::log_id::LogId;
use openraft::storage::StoreBuilder;
use openraft::storage_error::DefensiveError;
use openraft::storage_error::ErrorSubject;
use openraft::storage_error::StorageError;
use openraft::storage_error::Violation;
use openraft::testing::log_id;
use openraft::testing::suite::Scenario;
use openraft::testing::suite::SuiteError;
use openraft::testing::Suite;

type Plain = Suite<MemStore, MemStoreBuilder>;
type Defensive = Suite<DefensiveStore<MemStore>, DefensiveStoreBuilder<MemStore, MemStoreBuilder>>;

#[test]
fn test_mem_store_passes_all() {
    assert_eq!(Ok(()), Plain::test_all(MemStoreBuilder::new()));
}

#[test]
fn test_mem_store_passes_store_scenarios() {
    assert_eq!(Ok(()), Plain::test_store(&MemStoreBuilder::new()));
}

#[test]
fn test_defensive_store_passes_defensive_scenarios() {
    let builder = DefensiveStoreBuilder::new(MemStoreBuilder::new());
    assert_eq!(Ok(()), Defensive::test_store_defensive(&builder));
}

#[test]
fn test_each_scenario_on_mem_store() {
    let store = || MemStoreBuilder::new().build().unwrap();
    assert_eq!(Ok(()), Plain::save_vote(store()));
    assert_eq!(Ok(()), Plain::get_log_entries(store()));
    assert_eq!(Ok(()), Plain::get_initial_state_log_ids(store()));
    assert_eq!(Ok(()), Plain::last_membership_in_log_multi_step(store()));
    assert_eq!(Ok(()), Plain::snapshot_meta(store()));
}

/// A plain store does not object to what a defensive store rejects, so it
/// does not pass a scenario that expects the objection.
#[test]
fn test_plain_store_fails_defensive_scenario() {
    let store = MemStoreBuilder::new().build().unwrap();
    assert_eq!(
        Err(SuiteError::Mismatch(Scenario::DfAppendToLogNonemptyInput)),
        Plain::df_append_to_log_nonempty_input(store)
    );
    let store = MemStoreBuilder::new().build().unwrap();
    assert_eq!(
        Err(SuiteError::Mismatch(Scenario::DfSaveVoteAscending)),
        Plain::df_save_vote_ascending(store)
    );
}

/// A defensive store rejects what the scenarios for plain stores do on
/// purpose, so it fails there with the violation that it has found.
#[test]
fn test_defensive_store_fails_plain_scenario() {
    let builder = DefensiveStoreBuilder::new(MemStoreBuilder::new());
    let store = builder.build().unwrap();
    match Defensive::purge_logs_upto_20(store) {
        Err(SuiteError::Storage(e)) => assert!(e.into_defensive().is_some()),
        other => panic!("{:?}", other),
    }
}

fn objection(subject: ErrorSubject, violation: Violation) -> Result<(), SuiteError> {
    Err(SuiteError::Storage(StorageError::Defensive { source: DefensiveError { subject, violation } }))
}

fn purge_objection(id: LogId) -> Result<(), SuiteError> {
    objection(ErrorSubject::Log(id), Violation::PurgeNonApplied { last_applied: None, purge_upto: id })
}

fn apply_objection(id: LogId) -> Result<(), SuiteError> {
    objection(ErrorSubject::Apply(id), Violation::ApplyNonConsecutive { prev: None, next: id })
}

fn repeat_objection(id: LogId) -> Result<(), SuiteError> {
    objection(ErrorSubject::Logs, Violation::LogsNonConsecutive { prev: Some(id), next: id })
}

fn append_objection(id: LogId) -> Result<(), SuiteError> {
    objection(ErrorSubject::Log(id), Violation::LogsNonConsecutive { prev: None, next: id })
}

/// Every scenario for plain stores passes on a plain store.
#[test]
fn test_every_plain_scenario_passes_on_a_plain_store() {
    let store = || MemStoreBuilder::new().build().unwrap();
    assert_eq!(Ok(()), Plain::last_membership_in_log_initial(store()));
    assert_eq!(Ok(()), Plain::last_membership_in_log(store()));
    assert_eq!(Ok(()), Plain::get_membership_initial(store()));
    assert_eq!(Ok(()), Plain::get_membership_from_log_and_empty_sm(store()));
    assert_eq!(Ok(()), Plain::get_membership_from_log_and_sm(store()));
    assert_eq!(Ok(()), Plain::get_initial_state_without_init(store()));
    assert_eq!(Ok(()), Plain::get_initial_state_membership_from_log_and_sm(store()));
    assert_eq!(Ok(()), Plain::get_initial_state_with_state(store()));
    assert_eq!(Ok(()), Plain::get_initial_state_last_log_gt_sm(store()));
    assert_eq!(Ok(()), Plain::get_initial_state_last_log_lt_sm(store()));
    assert_eq!(Ok(()), Plain::try_get_log_entry(store()));
    assert_eq!(Ok(()), Plain::initial_logs(store()));
    assert_eq!(Ok(()), Plain::get_log_state(store()));
    assert_eq!(Ok(()), Plain::get_log_id(store()));
    assert_eq!(Ok(()), Plain::last_id_in_log(store()));
    assert_eq!(Ok(()), Plain::last_applied_state(store()));
    assert_eq!(Ok(()), Plain::purge_logs_upto_0(store()));
    assert_eq!(Ok(()), Plain::purge_logs_upto_5(store()));
    assert_eq!(Ok(()), Plain::purge_logs_upto_20(store()));
    assert_eq!(Ok(()), Plain::delete_logs_since_11(store()));
    assert_eq!(Ok(()), Plain::delete_logs_since_0(store()));
    assert_eq!(Ok(()), Plain::append_to_log(store()));
}

/// A scenario for plain stores ends on a defensive store with the objection
/// to the first thing that only a plain store allows; it passes where it does
/// nothing of the kind.
#[test]
fn test_every_plain_scenario_on_a_defensive_store() {
    let store = || DefensiveStoreBuilder::new(MemStoreBuilder::new()).build().unwrap();
    assert_eq!(Ok(()), Defensive::save_vote(store()));
    assert_eq!(Ok(()), Defensive::initial_logs(store()));
    assert_eq!(Ok(()), Defensive::delete_logs_since_11(store()));
    assert_eq!(Ok(()), Defensive::delete_logs_since_0(store()));
    assert_eq!(Ok(()), Defensive::snapshot_meta(store()));
    assert_eq!(Ok(()), Defensive::last_membership_in_log_initial(store()));
    assert_eq!(Ok(()), Defensive::get_membership_initial(store()));
    assert_eq!(Ok(()), Defensive::get_initial_state_without_init(store()));

    assert_eq!(
        objection(ErrorSubject::Logs, Violation::RangeEmpty { start: Some(3), end: Some(2) }),
        Defensive::get_log_entries(store())
    );
    assert_eq!(purge_objection(log_id(0, 0)), Defensive::try_get_log_entry(store()));
    assert_eq!(purge_objection(log_id(0, 0)), Defensive::get_log_state(store()));
    assert_eq!(purge_objection(log_id(1, 3)), Defensive::get_log_id(store()));
    assert_eq!(purge_objection(log_id(0, 0)), Defensive::purge_logs_upto_0(store()));
    assert_eq!(purge_objection(log_id(1, 5)), Defensive::purge_logs_upto_5(store()));
    assert_eq!(purge_objection(log_id(1, 20)), Defensive::purge_logs_upto_20(store()));
    assert_eq!(purge_objection(log_id(0, 0)), Defensive::append_to_log(store()));
    assert_eq!(purge_objection(log_id(0, 0)), Defensive::get_initial_state_log_ids(store()));

    assert_eq!(apply_objection(log_id(1, 3)), Defensive::last_id_in_log(store()));
    assert_eq!(apply_objection(log_id(1, 3)), Defensive::last_applied_state(store()));
    // the scenario applies two entries with one index
    assert_eq!(repeat_objection(log_id(1, 1)), Defensive::last_membership_in_log(store()));
    assert_eq!(apply_objection(log_id(1, 1)), Defensive::get_membership_from_log_and_sm(store()));
    assert_eq!(apply_objection(log_id(3, 1)), Defensive::get_initial_state_with_state(store()));
    assert_eq!(
        apply_objection(log_id(1, 1)),
        Defensive::get_initial_state_membership_from_log_and_sm(store())
    );
    assert_eq!(apply_objection(log_id(1, 1)), Defensive::get_initial_state_last_log_gt_sm(store()));

    assert_eq!(append_objection(log_id(1, 1)), Defensive::last_membership_in_log_multi_step(store()));
    assert_eq!(append_objection(log_id(1, 1)), Defensive::get_membership_from_log_and_empty_sm(store()));
    assert_eq!(append_objection(log_id(1, 2)), Defensive::get_initial_state_last_log_lt_sm(store()));
}

/// Every scenario for defensive stores passes on a defensive store, and
/// ends with its mismatch on a plain store.
#[test]
fn test_every_defensive_scenario_on_either_store() {
    let df = || DefensiveStoreBuilder::new(MemStoreBuilder::new()).build().unwrap();
    let plain = || MemStoreBuilder::new().build().unwrap();
    let mismatch = |scenario: Scenario| -> Result<(), SuiteError> { Err(SuiteError::Mismatch(scenario)) };

    assert_eq!(Ok(()), Defensive::df_get_membership_config_dirty_log(df()));
    assert_eq!(
        mismatch(Scenario::DfGetMembershipConfigDirtyLog),
        Plain::df_get_membership_config_dirty_log(plain())
    );
    assert_eq!(Ok(()), Defensive::df_get_initial_state_dirty_log(df()));
    assert_eq!(mismatch(Scenario::DfGetInitialStateDirtyLog), Plain::df_get_initial_state_dirty_log(plain()));
    assert_eq!(Ok(()), Defensive::df_save_vote_ascending(df()));
    assert_eq!(Ok(()), Defensive::df_get_log_entries(df()));
    assert_eq!(mismatch(Scenario::DfGetLogEntries), Plain::df_get_log_entries(plain()));
    assert_eq!(Ok(()), Defensive::df_append_to_log_nonempty_input(df()));
    assert_eq!(Ok(()), Defensive::df_append_to_log_nonconsecutive_input(df()));
    assert_eq!(
        mismatch(Scenario::DfAppendToLogNonconsecutiveInput),
        Plain::df_append_to_log_nonconsecutive_input(plain())
    );
    assert_eq!(Ok(()), Defensive::df_append_to_log_eq_last_plus_one(df()));
    assert_eq!(mismatch(Scenario::DfAppendToLogEqLastPlusOne), Plain::df_append_to_log_eq_last_plus_one(plain()));
    assert_eq!(Ok(()), Defensive::df_append_to_log_eq_last_applied_plus_one(df()));
    assert_eq!(
        mismatch(Scenario::DfAppendToLogEqLastAppliedPlusOne),
        Plain::df_append_to_log_eq_last_applied_plus_one(plain())
    );
    assert_eq!(Ok(()), Defensive::df_append_to_log_gt_last_log_id(df()));
    assert_eq!(mismatch(Scenario::DfAppendToLogGtLastLogId), Plain::df_append_to_log_gt_last_log_id(plain()));
    assert_eq!(Ok(()), Defensive::df_append_to_log_gt_last_applied_id(df()));
    assert_eq!(
        mismatch(Scenario::DfAppendToLogGtLastAppliedId),
        Plain::df_append_to_log_gt_last_applied_id(plain())
    );
    assert_eq!(Ok(()), Defensive::df_apply_nonempty_input(df()));
    assert_eq!(mismatch(Scenario::DfApplyNonemptyInput), Plain::df_apply_nonempty_input(plain()));
    assert_eq!(Ok(()), Defensive::df_apply_index_eq_last_applied_plus_one(df()));
    assert_eq!(
        mismatch(Scenario::DfApplyIndexEqLastAppliedPlusOne),
        Plain::df_apply_index_eq_last_applied_plus_one(plain())
    );
    assert_eq!(Ok(()), Defensive::df_apply_gt_last_applied_id(df()));
    assert_eq!(mismatch(Scenario::DfApplyGtLastAppliedId), Plain::df_apply_gt_last_applied_id(plain()));
    assert_eq!(Ok(()), Defensive::df_purge_applied_le_last_applied(df()));
    assert_eq!(mismatch(Scenario::DfPurgeAppliedLeLastApplied), Plain::df_purge_applied_le_last_applied(plain()));
    assert_eq!(Ok(()), Defensive::df_delete_conflict_gt_last_applied(df()));
    assert_eq!(
        mismatch(Scenario::DfDeleteConflictGtLastApplied),
        Plain::df_delete_conflict_gt_last_applied(plain())
    );
}

/// The whole suite on the wrong kind of store ends where its first scenario
/// of the other kind ends.
#[test]
fn test_suite_on_the_other_kind_of_store() {
    let df_builder = DefensiveStoreBuilder::new(MemStoreBuilder::new());
    assert_eq!(repeat_objection(log_id(1, 1)), Defensive::test_store(&df_builder));
    assert_eq!(repeat_objection(log_id(1, 1)), Defensive::test_all(df_builder));
    assert_eq!(
        Err(SuiteError::Mismatch(Scenario::DfGetMembershipConfigDirtyLog)),
        Plain::test_store_defensive(&MemStoreBuilder::new())
    );
}
