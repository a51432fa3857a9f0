//! A suite of scenarios that a store passes if it meets the storage
//! contract.
//!
//! Each scenario takes a store that holds nothing, drives it, and compares
//! what it reads back with what the contract says. A store that meets the
//! contract passes every scenario for its kind, unless its I/O fails.
//!
//! There are scenarios for plain stores and scenarios for defensive stores.
//! The scenarios for plain stores use a store as only a plain store allows: a
//! defensive store objects, and the scenario ends with its objection. The
//! scenarios for defensive stores expect objections: a plain store does not
//! object, and the scenario ends with a mismatch. The contract of each
//! scenario says how it ends on either kind of store.

use std::marker::PhantomData;

use vstd::prelude::*;

use crate::entry::entry_views;
use crate::entry::Entry;
use crate::entry::EntryPayloadView;
use crate::entry::EntryView;
use crate::log_id::LogId;
use crate::storage::defensive::DefensiveStore;
use crate::storage::defensive::DefensiveStoreBuilder;
use crate::storage::helper::lemma_slice_contiguous;
use crate::storage::helper::StorageHelper;
use crate::storage::helper_membership::lemma_memberships_first;
use crate::storage::helper_membership::lemma_memberships_none;
use crate::storage::helper_membership::last_two;
use crate::storage::helper_membership::membership_at;
use crate::storage::helper_membership::memberships_in;
use crate::storage::helper_membership::stored_views;
use crate::storage::helper_state::id_at;
use crate::storage::helper_state::key_log_ids;
use crate::storage::helper_state::leader_starts;
use crate::storage::helper_state::lemma_key_log_ids_valid;
use crate::storage::helper_state::sound;
use crate::membership::effective_membership::EffectiveMembership;
use crate::membership::membership::Membership;
use crate::raft_state::RaftState;
use crate::storage::snapshot_meta::SnapshotMeta;
use crate::storage::helper::range_mismatch;
use crate::storage::model::first_gap;
use crate::storage::model::is_last_index;
use crate::storage::model::is_log_slice;
use crate::storage::model::lemma_appended_2;
use crate::storage::model::lemma_appended_3;
use crate::storage::model::lemma_appended_4;
use crate::storage::model::lemma_appended_one;
use crate::storage::model::lemma_applied_blanks;
use crate::storage::model::lemma_applied_last;
use crate::storage::model::lemma_applied_one;
use crate::storage::model::purged;
use crate::storage::model::LogState;
use crate::storage::helper::lemma_slice_ends;
use crate::membership::stored_membership::StoredMembership;
use crate::membership::stored_membership::StoredMembershipView;
use crate::testing::membership_ent;
use crate::testing::membership_of;
use crate::testing::id_set;
use crate::testing::spec_membership;
use crate::storage::model::lemma_last_log_id;
use crate::storage::model::lemma_last_log_id_empty;
use crate::storage::model::lemma_no_gap;
use crate::storage::model::LogIndexRange;
use crate::storage::model::StoreModel;
use crate::storage::raft_storage::RaftStorage;
use crate::storage::raft_storage::StoreBuilder;
use crate::storage_error::DefensiveError;
use crate::storage_error::ErrorSubject;
use crate::storage_error::StorageError;
use crate::storage_error::Violation;
use crate::testing::blank_ent;
use crate::testing::log_id;
use crate::vote::LeaderId;
use crate::vote::Vote;

verus! {

/// The id of the node that the scenarios speak for.
pub const NODE_ID: u64 = 0;

/// The scenarios of the suite.
#[derive(Clone, Copy, Debug, PartialEq, Eq, Structural)]
pub enum Scenario {
    LastMembershipInLogInitial,
    LastMembershipInLog,
    LastMembershipInLogMultiStep,
    GetMembershipInitial,
    GetMembershipFromLogAndEmptySm,
    GetMembershipFromLogAndSm,
    GetInitialStateWithoutInit,
    GetInitialStateWithState,
    GetInitialStateMembershipFromLogAndSm,
    GetInitialStateLastLogGtSm,
    GetInitialStateLastLogLtSm,
    GetInitialStateLogIds,
    SaveVote,
    GetLogEntries,
    TryGetLogEntry,
    InitialLogs,
    GetLogState,
    GetLogId,
    LastIdInLog,
    LastAppliedState,
    PurgeLogsUpto0,
    PurgeLogsUpto5,
    PurgeLogsUpto20,
    DeleteLogsSince11,
    DeleteLogsSince0,
    AppendToLog,
    SnapshotMeta,
    DfGetMembershipConfigDirtyLog,
    DfGetInitialStateDirtyLog,
    DfSaveVoteAscending,
    DfGetLogEntries,
    DfAppendToLogNonemptyInput,
    DfAppendToLogNonconsecutiveInput,
    DfAppendToLogEqLastPlusOne,
    DfAppendToLogEqLastAppliedPlusOne,
    DfAppendToLogGtLastLogId,
    DfAppendToLogGtLastAppliedId,
    DfApplyNonemptyInput,
    DfApplyIndexEqLastAppliedPlusOne,
    DfApplyGtLastAppliedId,
    DfPurgeAppliedLeLastApplied,
    DfDeleteConflictGtLastApplied,
}

/// Why a scenario did not pass.
#[derive(Debug, Clone, PartialEq, Eq)]
pub enum SuiteError {
    /// The store failed where the scenario expects no failure.
    Storage(StorageError),
    /// The store answered otherwise than the storage contract says.
    Mismatch(Scenario),
}

/// A scenario passed, or the I/O of a store that is not reliable failed.
pub open spec fn passed(r: Result<(), SuiteError>, reliable: bool) -> bool {
    match r {
        Ok(()) => true,
        Err(SuiteError::Storage(StorageError::IO { .. })) => !reliable,
        Err(_) => false,
    }
}

/// A scenario has ended with `expected`, or the I/O of a store that is not
/// reliable has failed.
pub open spec fn ends_with(
    r: Result<(), SuiteError>,
    reliable: bool,
    expected: Result<(), SuiteError>,
) -> bool {
    r == expected || (!reliable && r matches Err(SuiteError::Storage(StorageError::IO { .. })))
}

/// The end of a scenario at which a defensive store has objected.
pub open spec fn objection(subject: ErrorSubject, violation: Violation) -> Result<(), SuiteError> {
    Err(
        SuiteError::Storage(
            StorageError::Defensive { source: DefensiveError { subject, violation } },
        ),
    )
}

/// The objection of a defensive store that has applied nothing to a purge
/// up to the log id with the given term and index.
pub open spec fn purge_objection(term: u64, index: u64) -> Result<(), SuiteError> {
    objection(
        ErrorSubject::Log(spec_log_id(term, index)),
        Violation::PurgeNonApplied { last_applied: None, purge_upto: spec_log_id(term, index) },
    )
}

/// The objection of a defensive store that has applied nothing to the
/// application of an entry with the given term and index, which is not 0.
pub open spec fn apply_objection(term: u64, index: u64) -> Result<(), SuiteError> {
    objection(
        ErrorSubject::Apply(spec_log_id(term, index)),
        Violation::ApplyNonConsecutive { prev: None, next: spec_log_id(term, index) },
    )
}

/// The objection of a defensive store to entries of which the one with the
/// log id `(term, index)` stands twice, one right behind the other.
pub open spec fn repeat_objection(term: u64, index: u64) -> Result<(), SuiteError> {
    objection(
        ErrorSubject::Logs,
        Violation::LogsNonConsecutive {
            prev: Some(spec_log_id(term, index)),
            next: spec_log_id(term, index),
        },
    )
}

/// The objection of a defensive store with an empty log to an entry with
/// the given term and index, which is not 0.
pub open spec fn append_objection(term: u64, index: u64) -> Result<(), SuiteError> {
    objection(
        ErrorSubject::Log(spec_log_id(term, index)),
        Violation::LogsNonConsecutive { prev: None, next: spec_log_id(term, index) },
    )
}

/// The store holds nothing yet.
pub open spec fn fresh<S: RaftStorage>(store: &S) -> bool {
    store.inv() && store.model() == StoreModel::initial(
        store.model().defensive,
        store.model().reliable,
    )
}

/// The log id with the given term and index, proposed by node 0.
pub open spec fn spec_log_id(term: u64, index: u64) -> LogId {
    LogId { leader_id: LeaderId { term, node_id: 0 }, index }
}

/// The vote for `node_id` in `term` that is not committed.
pub open spec fn spec_vote(term: u64, node_id: u64) -> Vote {
    Vote { leader_id: LeaderId { term, node_id }, committed: false }
}

/// The blank entry with the given term and index.
pub open spec fn spec_blank(term: u64, index: u64) -> EntryView {
    EntryView { log_id: spec_log_id(term, index), payload: EntryPayloadView::Blank }
}

/// The log that `feed_10_logs_vote_self` leaves: a blank entry of term 0
/// at index 0, and blank entries of term 1 at the indices from 1 up to
/// `n`, exclusive.
pub open spec fn fed_log(n: u64) -> Map<u64, EntryView> {
    Map::new(
        |i: u64| i < n,
        |i: u64|
            if i == 0 {
                spec_blank(0, 0)
            } else {
                spec_blank(1, i)
            },
    )
}

/// What the store wanted of a call: the answer, or the error as that of
/// the scenario.
pub fn wanted<T>(r: Result<T, StorageError>) -> (res: Result<T, SuiteError>)
    ensures
        match (r, res) {
            (Ok(a), Ok(b)) => a == b,
            (Err(e), Err(SuiteError::Storage(f))) => e == f,
            _ => false,
        },
{
    match r {
        Ok(v) => Ok(v),
        Err(e) => Err(SuiteError::Storage(e)),
    }
}

/// Fails the scenario unless `ok`.
pub fn check(ok: bool, scenario: Scenario) -> (r: Result<(), SuiteError>)
    ensures
        ok ==> r is Ok,
        !ok ==> r == Err::<(), SuiteError>(SuiteError::Mismatch(scenario)),
{
    if ok {
        Ok(())
    } else {
        Err(SuiteError::Mismatch(scenario))
    }
}

/// The violation that a store objected with. A store that did not object
/// fails the scenario.
pub fn violation_of<T>(r: Result<T, StorageError>, scenario: Scenario) -> (res: Result<
    DefensiveError,
    SuiteError,
>)
    ensures
        match r {
            Ok(_) => res == Err::<DefensiveError, SuiteError>(SuiteError::Mismatch(scenario)),
            Err(StorageError::Defensive { source }) => res == Ok::<DefensiveError, SuiteError>(
                source,
            ),
            Err(e) => res == Err::<DefensiveError, SuiteError>(SuiteError::Storage(e)),
        },
{
    match r {
        Ok(_) => Err(SuiteError::Mismatch(scenario)),
        Err(StorageError::Defensive { source }) => Ok(source),
        Err(e) => Err(SuiteError::Storage(e)),
    }
}

/// The suite of scenarios for the stores `S` that a builder `B` builds.
pub struct Suite<S: RaftStorage, B: StoreBuilder<S>> {
    p: PhantomData<S>,
    f: PhantomData<B>,
}

impl<S: RaftStorage, B: StoreBuilder<S>> Suite<S, B> {
    /// A vote that is saved is the vote that is read.
    pub fn save_vote(store: S) -> (r: Result<(), SuiteError>)
        requires
            fresh(&store),
        ensures
            ends_with(r, store.model().reliable, Ok(())),
    {
        let mut store = store;
        wanted(store.save_vote(&Vote::new(100, NODE_ID)))?;
        let got = wanted(store.read_vote())?;
        if got != Some(Vote::new(100, NODE_ID)) {
            return Err(SuiteError::Mismatch(Scenario::SaveVote));
        }
        Ok(())
    }

    /// A store that holds nothing has no entry at index 0.
    pub fn initial_logs(store: S) -> (r: Result<(), SuiteError>)
        requires
            fresh(&store),
        ensures
            ends_with(r, store.model().reliable, Ok(())),
    {
        let mut store = store;
        let mut sh = StorageHelper::new(&mut store);
        let ent = wanted(sh.try_get_log_entry(0))?;
        if ent.is_some() {
            return Err(SuiteError::Mismatch(Scenario::InitialLogs));
        }
        Ok(())
    }

    /// Saves the vote for node 0 in term 1.
    pub fn default_vote(sto: &mut S) -> (r: Result<(), SuiteError>)
        requires
            old(sto).inv(),
            old(sto).model().save_vote_violation(spec_vote(1, NODE_ID)) is None,
        ensures
            final(sto).inv(),
            final(sto).model().defensive == old(sto).model().defensive,
            final(sto).model().reliable == old(sto).model().reliable,
            passed(r, old(sto).model().reliable),
            r is Ok ==> final(sto).model() == old(sto).model().save_vote(spec_vote(1, NODE_ID)),
    {
        wanted(sto.save_vote(&Vote::new(1, NODE_ID)))?;
        Ok(())
    }

    /// Feeds a store that holds nothing a blank entry of term 0 at index 0
    /// and ten blank entries of term 1 at the indices 1 to 10, and saves
    /// the vote for node 0 in term 1.
    pub fn feed_10_logs_vote_self(sto: &mut S) -> (r: Result<(), SuiteError>)
        requires
            fresh(old(sto)),
        ensures
            final(sto).inv(),
            final(sto).model().defensive == old(sto).model().defensive,
            final(sto).model().reliable == old(sto).model().reliable,
            passed(r, old(sto).model().reliable),
            r is Ok ==> final(sto).model() == (StoreModel {
                log: fed_log(11),
                vote: Some(spec_vote(1, NODE_ID)),
                ..old(sto).model()
            }),
    {
        let first = vec![blank_ent(0, 0)];
        proof {
            assert(entry_views(first@) =~= seq![spec_blank(0, 0)]);
            lemma_appended_one(sto.model().log, spec_blank(0, 0));
            lemma_last_log_id_empty(sto.model());
            lemma_no_gap(seq![spec_blank(0, 0)]);
        }
        wanted(sto.append_to_log(first.as_slice()))?;
        assert(sto.model().log =~= fed_log(1));
        let mut i: u64 = 1;
        while i <= 10
            invariant
                1 <= i <= 11,
                sto.inv(),
                sto.model() == (StoreModel { log: fed_log(i), ..old(sto).model() }),
                fresh(old(sto)),
            decreases 11 - i,
        {
            let next = vec![blank_ent(1, i)];
            proof {
                let m = sto.model();
                assert(entry_views(next@) =~= seq![spec_blank(1, i)]);
                lemma_appended_one(m.log, spec_blank(1, i));
                assert(is_last_index(m.log, (i - 1) as u64));
                lemma_last_log_id(m, (i - 1) as u64);
                lemma_no_gap(seq![spec_blank(1, i)]);
                assert(m.log.insert(i, spec_blank(1, i)) =~= fed_log((i + 1) as u64));
            }
            wanted(sto.append_to_log(next.as_slice()))?;
            i += 1;
        }
        Self::default_vote(sto)?;
        Ok(())
    }

    /// A read of a range gives the entries in it; a range without an index
    /// gives none.
    pub fn get_log_entries(store: S) -> (r: Result<(), SuiteError>)
        requires
            fresh(&store),
        ensures
            ends_with(
                r,
                store.model().reliable,
                if store.model().defensive {
                    objection(ErrorSubject::Logs, Violation::RangeEmpty { start: Some(3u64), end: Some(2u64) })
                } else {
                    Ok(())
                },
            ),
    {
        let mut store = store;
        Self::feed_10_logs_vote_self(&mut store)?;
        let ghost log = store.model().log;

        // get start == stop
        {
            let range = LogIndexRange::new(3, 3);
            let logs = wanted(StorageHelper::new(&mut store).get_log_entries(range))?;
            proof {
                lemma_slice_contiguous(log, range, entry_views(logs@), 0, 11);
            }
            if logs.len() != 0 {
                return Err(SuiteError::Mismatch(Scenario::GetLogEntries));
            }
        }

        // get start < stop
        {
            let range = LogIndexRange::new(5, 7);
            let logs = match StorageHelper::new(&mut store).get_log_entries(range) {
                Ok(logs) => logs,
                Err(e) => {
                    proof {
                        if e is Defensive {
                            let s = choose|s: Seq<EntryView>|
                                is_log_slice(log, range, s) && range_mismatch(range, s) == Some(
                                    e->Defensive_source,
                                );
                            lemma_slice_contiguous(log, range, s, 0, 11);
                        }
                    }
                    return Err(SuiteError::Storage(e));
                },
            };
            proof {
                let views = entry_views(logs@);
                lemma_slice_contiguous(log, range, views, 0, 11);
                assert(views[0] == logs@[0]@);
                assert(views[1] == logs@[1]@);
            }
            if logs.len() != 2 || logs[0].log_id != log_id(1, 5) || logs[1].log_id != log_id(1, 6) {
                return Err(SuiteError::Mismatch(Scenario::GetLogEntries));
            }
        }
        Ok(())
    }
}

/// The membership entry with the given term and index, of a single config
/// of the voters `ids`.
pub open spec fn spec_member(term: u64, index: u64, ids: Set<u64>) -> EntryView {
    EntryView {
        log_id: spec_log_id(term, index),
        payload: EntryPayloadView::Membership(spec_membership(ids)),
    }
}

impl<S: RaftStorage, B: StoreBuilder<S>> Suite<S, B> {
    /// An entry that is in the log is read; one that is purged or beyond
    /// the log is not.
    pub fn try_get_log_entry(store: S) -> (r: Result<(), SuiteError>)
        requires
            fresh(&store),
        ensures
            ends_with(
                r,
                store.model().reliable,
                if store.model().defensive {
                    purge_objection(0, 0)
                } else {
                    Ok(())
                },
            ),
    {
        let mut store = store;
        Self::feed_10_logs_vote_self(&mut store)?;
        wanted(store.purge_logs_upto(log_id(0, 0)))?;
        assert(store.model().log =~= purged(fed_log(11), 0));

        let mut sh = StorageHelper::new(&mut store);

        let ent = wanted(sh.try_get_log_entry(3))?;
        check(ent.is_some() && ent.unwrap().log_id == log_id(1, 3), Scenario::TryGetLogEntry)?;

        let ent = wanted(sh.try_get_log_entry(0))?;
        check(ent.is_none(), Scenario::TryGetLogEntry)?;

        let ent = wanted(sh.try_get_log_entry(11))?;
        check(ent.is_none(), Scenario::TryGetLogEntry)?;

        Ok(())
    }

    /// The state of the log follows appends and purges; a purge beyond the
    /// log moves its end.
    pub fn get_log_state(store: S) -> (r: Result<(), SuiteError>)
        requires
            fresh(&store),
        ensures
            ends_with(
                r,
                store.model().reliable,
                if store.model().defensive {
                    purge_objection(0, 0)
                } else {
                    Ok(())
                },
            ),
    {
        let mut store = store;
        proof {
            lemma_last_log_id_empty(store.model());
        }
        let st = wanted(store.get_log_state())?;
        check(st.last_purged_log_id.is_none() && st.last_log_id.is_none(), Scenario::GetLogState)?;

        // only logs
        {
            let entries = vec![blank_ent(0, 0), blank_ent(1, 1), blank_ent(1, 2)];
            proof {
                assert(entry_views(entries@) =~= seq![
                    spec_blank(0, 0),
                    spec_blank(1, 1),
                    spec_blank(1, 2),
                ]);
                lemma_appended_3(
                    store.model().log,
                    spec_blank(0, 0),
                    spec_blank(1, 1),
                    spec_blank(1, 2),
                );
                lemma_no_gap(seq![spec_blank(0, 0), spec_blank(1, 1), spec_blank(1, 2)]);
                lemma_last_log_id_empty(store.model());
            }
            wanted(store.append_to_log(entries.as_slice()))?;
            proof {
                assert(store.model().log =~= fed_log(3));
                lemma_last_log_id(store.model(), 2);
            }
            let st = wanted(store.get_log_state())?;
            check(
                st.last_purged_log_id.is_none() && st.last_log_id == Some(log_id(1, 2)),
                Scenario::GetLogState,
            )?;
        }

        // delete log 0-0
        {
            wanted(store.purge_logs_upto(log_id(0, 0)))?;
            proof {
                assert(store.model().log =~= purged(fed_log(3), 0));
                assert(is_last_index(store.model().log, 2));
                lemma_last_log_id(store.model(), 2);
            }
            let st = wanted(store.get_log_state())?;
            check(
                st.last_purged_log_id == Some(LogId::new(LeaderId::new(0, 0), 0)) && st.last_log_id
                    == Some(log_id(1, 2)),
                Scenario::GetLogState,
            )?;
        }

        // delete all log
        {
            wanted(store.purge_logs_upto(log_id(1, 2)))?;
            proof {
                assert(store.model().log =~= Map::<u64, EntryView>::empty());
                lemma_last_log_id_empty(store.model());
            }
            let st = wanted(store.get_log_state())?;
            check(
                st.last_purged_log_id == Some(log_id(1, 2)) && st.last_log_id == Some(log_id(1, 2)),
                Scenario::GetLogState,
            )?;
        }

        // delete advance last present logs
        {
            wanted(store.purge_logs_upto(log_id(2, 3)))?;
            proof {
                assert(store.model().log =~= Map::<u64, EntryView>::empty());
                lemma_last_log_id_empty(store.model());
            }
            let st = wanted(store.get_log_state())?;
            check(
                st.last_purged_log_id == Some(log_id(2, 3)) && st.last_log_id == Some(log_id(2, 3)),
                Scenario::GetLogState,
            )?;
        }

        Ok(())
    }

    /// The log id at an index is the last purged log id or that of the
    /// entry there; an index below or beyond has none.
    pub fn get_log_id(store: S) -> (r: Result<(), SuiteError>)
        requires
            fresh(&store),
        ensures
            ends_with(
                r,
                store.model().reliable,
                if store.model().defensive {
                    purge_objection(1, 3)
                } else {
                    Ok(())
                },
            ),
    {
        let mut store = store;
        Self::feed_10_logs_vote_self(&mut store)?;
        wanted(store.purge_logs_upto(log_id(1, 3)))?;
        assert(store.model().log =~= purged(fed_log(11), 3));

        let res = StorageHelper::new(&mut store).get_log_id(0);
        violation_of(res, Scenario::GetLogId)?;

        let res = StorageHelper::new(&mut store).get_log_id(11);
        violation_of(res, Scenario::GetLogId)?;

        let res = wanted(StorageHelper::new(&mut store).get_log_id(3))?;
        check(res == log_id(1, 3), Scenario::GetLogId)?;

        let res = wanted(StorageHelper::new(&mut store).get_log_id(4))?;
        check(res == log_id(1, 4), Scenario::GetLogId)?;

        Ok(())
    }

    /// The last log id is that of the log, whatever is applied; after a
    /// purge of the whole log it is the last purged log id.
    pub fn last_id_in_log(store: S) -> (r: Result<(), SuiteError>)
        requires
            fresh(&store),
        ensures
            ends_with(
                r,
                store.model().reliable,
                if store.model().defensive {
                    apply_objection(1, 3)
                } else {
                    Ok(())
                },
            ),
    {
        let mut store = store;
        proof {
            lemma_last_log_id_empty(store.model());
        }
        let last_log_id = wanted(store.get_log_state())?.last_log_id;
        check(last_log_id.is_none(), Scenario::LastIdInLog)?;

        // only logs
        {
            let entries = vec![blank_ent(0, 0), blank_ent(1, 1), blank_ent(1, 2)];
            proof {
                assert(entry_views(entries@) =~= seq![
                    spec_blank(0, 0),
                    spec_blank(1, 1),
                    spec_blank(1, 2),
                ]);
                lemma_appended_3(
                    store.model().log,
                    spec_blank(0, 0),
                    spec_blank(1, 1),
                    spec_blank(1, 2),
                );
                lemma_no_gap(seq![spec_blank(0, 0), spec_blank(1, 1), spec_blank(1, 2)]);
                lemma_last_log_id_empty(store.model());
            }
            wanted(store.append_to_log(entries.as_slice()))?;
            proof {
                assert(store.model().log =~= fed_log(3));
                lemma_last_log_id(store.model(), 2);
            }
            let last_log_id = wanted(store.get_log_state())?.last_log_id;
            check(last_log_id == Some(log_id(1, 2)), Scenario::LastIdInLog)?;
        }

        // last id in logs < last applied id in sm, only return the id in logs
        {
            let entries = vec![blank_ent(1, 3)];
            wanted(store.apply_to_state_machine(entries.as_slice()))?;
            proof {
                assert(store.model().log =~= fed_log(3));
                lemma_last_log_id(store.model(), 2);
            }
            let last_log_id = wanted(store.get_log_state())?.last_log_id;
            check(last_log_id == Some(log_id(1, 2)), Scenario::LastIdInLog)?;
        }

        // no logs, return default
        {
            wanted(store.purge_logs_upto(log_id(1, 2)))?;
            proof {
                assert(store.model().log =~= Map::<u64, EntryView>::empty());
                lemma_last_log_id_empty(store.model());
            }
            let last_log_id = wanted(store.get_log_state())?.last_log_id;
            check(last_log_id == Some(log_id(1, 2)), Scenario::LastIdInLog)?;
        }

        Ok(())
    }

    /// The state machine knows the last applied log id and the last
    /// applied membership.
    pub fn last_applied_state(store: S) -> (r: Result<(), SuiteError>)
        requires
            fresh(&store),
        ensures
            ends_with(
                r,
                store.model().reliable,
                if store.model().defensive {
                    apply_objection(1, 3)
                } else {
                    Ok(())
                },
            ),
    {
        let mut store = store;
        let (applied, mem) = wanted(store.last_applied_state())?;
        check(applied.is_none() && mem == StoredMembership::default(), Scenario::LastAppliedState)?;

        // with last_applied and last_membership
        {
            let entries = vec![membership_ent(1, 3, id_set(&[1, 2]))];
            proof {
                let e = spec_member(1, 3, seq![1u64, 2u64].to_set());
                assert(entry_views(entries@) =~= seq![e]);
                lemma_applied_one(store.model().last_membership, e);
            }
            wanted(store.apply_to_state_machine(entries.as_slice()))?;

            let (applied, mem) = wanted(store.last_applied_state())?;
            check(
                applied == Some(log_id(1, 3)) && mem == StoredMembership::new(
                    Some(log_id(1, 3)),
                    membership_of(&[1, 2]),
                ),
                Scenario::LastAppliedState,
            )?;
        }

        // no logs, return default
        {
            let entries = vec![blank_ent(1, 5)];
            proof {
                assert(entry_views(entries@) =~= seq![spec_blank(1, 5)]);
                lemma_applied_one(store.model().last_membership, spec_blank(1, 5));
            }
            wanted(store.apply_to_state_machine(entries.as_slice()))?;

            let (applied, mem) = wanted(store.last_applied_state())?;
            check(
                applied == Some(log_id(1, 5)) && mem == StoredMembership::new(
                    Some(log_id(1, 3)),
                    membership_of(&[1, 2]),
                ),
                Scenario::LastAppliedState,
            )?;
        }

        Ok(())
    }

    /// A purge up to index 0 removes the entry at index 0 alone.
    pub fn purge_logs_upto_0(store: S) -> (r: Result<(), SuiteError>)
        requires
            fresh(&store),
        ensures
            ends_with(
                r,
                store.model().reliable,
                if store.model().defensive {
                    purge_objection(0, 0)
                } else {
                    Ok(())
                },
            ),
    {
        let mut store = store;
        Self::feed_10_logs_vote_self(&mut store)?;
        wanted(store.purge_logs_upto(log_id(0, 0)))?;
        let ghost log = store.model().log;
        assert(log =~= purged(fed_log(11), 0));

        let range = LogIndexRange::new(0, 100);
        let logs = wanted(store.try_get_log_entries(range))?;
        proof {
            lemma_slice_contiguous(log, range, entry_views(logs@), 1, 11);
            assert(entry_views(logs@)[0] == logs@[0]@);
        }
        check(logs.len() == 10 && logs[0].log_id.index == 1, Scenario::PurgeLogsUpto0)?;

        proof {
            assert(is_last_index(log, 10));
            lemma_last_log_id(store.model(), 10);
        }
        let st = wanted(store.get_log_state())?;
        check(
            st == (LogState {
                last_purged_log_id: Some(log_id(0, 0)),
                last_log_id: Some(log_id(1, 10)),
            }),
            Scenario::PurgeLogsUpto0,
        )?;
        Ok(())
    }

    /// A purge up to index 5 leaves the entries from index 6 on.
    pub fn purge_logs_upto_5(store: S) -> (r: Result<(), SuiteError>)
        requires
            fresh(&store),
        ensures
            ends_with(
                r,
                store.model().reliable,
                if store.model().defensive {
                    purge_objection(1, 5)
                } else {
                    Ok(())
                },
            ),
    {
        let mut store = store;
        Self::feed_10_logs_vote_self(&mut store)?;
        wanted(store.purge_logs_upto(log_id(1, 5)))?;
        let ghost log = store.model().log;
        assert(log =~= purged(fed_log(11), 5));

        let range = LogIndexRange::new(0, 100);
        let logs = wanted(store.try_get_log_entries(range))?;
        proof {
            lemma_slice_contiguous(log, range, entry_views(logs@), 6, 11);
            assert(entry_views(logs@)[0] == logs@[0]@);
        }
        check(logs.len() == 5 && logs[0].log_id.index == 6, Scenario::PurgeLogsUpto5)?;

        proof {
            assert(is_last_index(log, 10));
            lemma_last_log_id(store.model(), 10);
        }
        let st = wanted(store.get_log_state())?;
        check(
            st == (LogState {
                last_purged_log_id: Some(log_id(1, 5)),
                last_log_id: Some(log_id(1, 10)),
            }),
            Scenario::PurgeLogsUpto5,
        )?;
        Ok(())
    }

    /// A purge beyond the log leaves no entry, and moves the end of the
    /// log.
    pub fn purge_logs_upto_20(store: S) -> (r: Result<(), SuiteError>)
        requires
            fresh(&store),
        ensures
            ends_with(
                r,
                store.model().reliable,
                if store.model().defensive {
                    purge_objection(1, 20)
                } else {
                    Ok(())
                },
            ),
    {
        let mut store = store;
        Self::feed_10_logs_vote_self(&mut store)?;
        wanted(store.purge_logs_upto(log_id(1, 20)))?;
        let ghost log = store.model().log;
        assert(log =~= Map::<u64, EntryView>::empty());

        let range = LogIndexRange::new(0, 100);
        let logs = wanted(store.try_get_log_entries(range))?;
        proof {
            lemma_slice_contiguous(log, range, entry_views(logs@), 0, 0);
        }
        check(logs.len() == 0, Scenario::PurgeLogsUpto20)?;

        proof {
            lemma_last_log_id_empty(store.model());
        }
        let st = wanted(store.get_log_state())?;
        check(
            st == (LogState {
                last_purged_log_id: Some(log_id(1, 20)),
                last_log_id: Some(log_id(1, 20)),
            }),
            Scenario::PurgeLogsUpto20,
        )?;
        Ok(())
    }

    /// A delete from beyond the log removes nothing.
    pub fn delete_logs_since_11(store: S) -> (r: Result<(), SuiteError>)
        requires
            fresh(&store),
        ensures
            ends_with(r, store.model().reliable, Ok(())),
    {
        let mut store = store;
        Self::feed_10_logs_vote_self(&mut store)?;
        wanted(store.delete_conflict_logs_since(log_id(1, 11)))?;
        let ghost log = store.model().log;
        assert(log =~= fed_log(11));

        let range = LogIndexRange::new(0, 100);
        let logs = wanted(store.try_get_log_entries(range))?;
        proof {
            lemma_slice_contiguous(log, range, entry_views(logs@), 0, 11);
        }
        check(logs.len() == 11, Scenario::DeleteLogsSince11)?;

        proof {
            lemma_last_log_id(store.model(), 10);
        }
        let st = wanted(store.get_log_state())?;
        check(
            st == (LogState { last_purged_log_id: None, last_log_id: Some(log_id(1, 10)) }),
            Scenario::DeleteLogsSince11,
        )?;
        Ok(())
    }

    /// A delete from index 0 on removes every entry.
    pub fn delete_logs_since_0(store: S) -> (r: Result<(), SuiteError>)
        requires
            fresh(&store),
        ensures
            ends_with(r, store.model().reliable, Ok(())),
    {
        let mut store = store;
        Self::feed_10_logs_vote_self(&mut store)?;
        wanted(store.delete_conflict_logs_since(log_id(0, 0)))?;
        let ghost log = store.model().log;
        assert(log =~= Map::<u64, EntryView>::empty());

        let range = LogIndexRange::new(0, 100);
        let logs = wanted(store.try_get_log_entries(range))?;
        proof {
            lemma_slice_contiguous(log, range, entry_views(logs@), 0, 0);
        }
        check(logs.len() == 0, Scenario::DeleteLogsSince0)?;

        proof {
            lemma_last_log_id_empty(store.model());
        }
        let st = wanted(store.get_log_state())?;
        check(
            st == (LogState { last_purged_log_id: None, last_log_id: None }),
            Scenario::DeleteLogsSince0,
        )?;
        Ok(())
    }

    /// An entry that is appended at an index that is taken replaces the
    /// entry there.
    pub fn append_to_log(store: S) -> (r: Result<(), SuiteError>)
        requires
            fresh(&store),
        ensures
            ends_with(
                r,
                store.model().reliable,
                if store.model().defensive {
                    purge_objection(0, 0)
                } else {
                    Ok(())
                },
            ),
    {
        let mut store = store;
        Self::feed_10_logs_vote_self(&mut store)?;
        wanted(store.purge_logs_upto(log_id(0, 0)))?;
        assert(store.model().log =~= purged(fed_log(11), 0));

        let entries = vec![blank_ent(2, 10)];
        proof {
            assert(entry_views(entries@) =~= seq![spec_blank(2, 10)]);
            lemma_appended_one(store.model().log, spec_blank(2, 10));
        }
        wanted(store.append_to_log(entries.as_slice()))?;
        let ghost log = store.model().log;
        assert(forall|k: u64| log.contains_key(k) <==> 1 <= k < 11);

        let range = LogIndexRange::from(0);
        let logs = wanted(store.try_get_log_entries(range))?;
        proof {
            lemma_slice_contiguous(log, range, entry_views(logs@), 1, 11);
            assert(entry_views(logs@)[9] == logs@[9]@);
        }
        let l = logs.len();
        check(l == 10, Scenario::AppendToLog)?;
        check(logs[l - 1].log_id == log_id(2, 10), Scenario::AppendToLog)?;
        Ok(())
    }

    /// The metadata of a snapshot that is built says what the state machine
    /// has applied.
    pub fn snapshot_meta(store: S) -> (r: Result<(), SuiteError>)
        requires
            fresh(&store),
        ensures
            ends_with(r, store.model().reliable, Ok(())),
    {
        let mut store = store;
        // just initialized
        {
            let entries = vec![membership_ent(0, 0, id_set(&[1, 2]))];
            proof {
                let e = spec_member(0, 0, seq![1u64, 2u64].to_set());
                assert(entry_views(entries@) =~= seq![e]);
                lemma_applied_one(store.model().last_membership, e);
            }
            wanted(store.apply_to_state_machine(entries.as_slice()))?;

            let snap = wanted(store.build_snapshot())?;
            let meta = snap.meta;
            check(
                meta.last_log_id == Some(log_id(0, 0)) && *meta.last_membership.log_id() == Some(
                    log_id(0, 0),
                ) && *meta.last_membership.membership() == membership_of(&[1, 2]),
                Scenario::SnapshotMeta,
            )?;
        }

        // one app log, one membership log
        {
            let entries = vec![blank_ent(1, 1), membership_ent(2, 2, id_set(&[3, 4]))];
            proof {
                let e = spec_member(2, 2, seq![3u64, 4u64].to_set());
                assert(entry_views(entries@) =~= seq![spec_blank(1, 1), e]);
                lemma_applied_last(store.model().last_membership, seq![spec_blank(1, 1), e]);
            }
            proof {
                lemma_no_gap(entry_views(entries@));
            }
            wanted(store.apply_to_state_machine(entries.as_slice()))?;

            let snap = wanted(store.build_snapshot())?;
            let meta = snap.meta;
            check(
                meta.last_log_id == Some(log_id(2, 2)) && *meta.last_membership.log_id() == Some(
                    log_id(2, 2),
                ) && *meta.last_membership.membership() == membership_of(&[3, 4]),
                Scenario::SnapshotMeta,
            )?;
        }

        Ok(())
    }
}

/// The scenarios for defensive stores: a store with defensive checks
/// reports what is wrong with its input, and so shows bugs of the core.
impl<S: RaftStorage, B: StoreBuilder<S>> Suite<S, B> {
    /// A vote below the saved one is rejected, and the saved vote stays.
    pub fn df_save_vote_ascending(store: S) -> (r: Result<(), SuiteError>)
        requires
            fresh(&store),
        ensures
            ends_with(
                r,
                store.model().reliable,
                if store.model().defensive {
                    Ok(())
                } else {
                    Err(SuiteError::Mismatch(Scenario::DfSaveVoteAscending))
                },
            ),
    {
        let mut store = store;
        wanted(store.save_vote(&Vote::new(10, 10)))?;

        // lower term is rejected
        {
            let res = store.save_vote(&Vote::new(9, 10));
            let e = violation_of(res, Scenario::DfSaveVoteAscending)?;
            check(
                e.subject.is_vote() && e.violation == (Violation::VoteNotAscending {
                    curr: Vote::new(10, 10),
                    to: Vote::new(9, 10),
                }),
                Scenario::DfSaveVoteAscending,
            )?;

            let vote = wanted(store.read_vote())?;
            check(vote == Some(Vote::new(10, 10)), Scenario::DfSaveVoteAscending)?;
        }

        // lower node_id is rejected
        {
            let res = store.save_vote(&Vote::new(9, 9));
            let e = violation_of(res, Scenario::DfSaveVoteAscending)?;
            check(
                e.subject.is_vote() && e.violation == (Violation::VoteNotAscending {
                    curr: Vote::new(10, 10),
                    to: Vote::new(9, 9),
                }),
                Scenario::DfSaveVoteAscending,
            )?;

            let vote = wanted(store.read_vote())?;
            check(vote == Some(Vote::new(10, 10)), Scenario::DfSaveVoteAscending)?;
        }

        Ok(())
    }

    /// A read of a range is rejected if the range holds no index, or if
    /// the entry at one of its bounds is absent.
    pub fn df_get_log_entries(store: S) -> (r: Result<(), SuiteError>)
        requires
            fresh(&store),
        ensures
            ends_with(
                r,
                store.model().reliable,
                if store.model().defensive {
                    Ok(())
                } else {
                    Err(SuiteError::Mismatch(Scenario::DfGetLogEntries))
                },
            ),
    {
        let mut store = store;
        Self::feed_10_logs_vote_self(&mut store)?;

        let entries = vec![blank_ent(0, 0)];
        proof {
            assert(entry_views(entries@) =~= seq![spec_blank(0, 0)]);
        }
        wanted(store.apply_to_state_machine(entries.as_slice()))?;
        wanted(store.purge_logs_upto(LogId::new(LeaderId::new(0, 0), 0)))?;
        let ghost log = store.model().log;
        assert(log =~= purged(fed_log(11), 0));

        let range = LogIndexRange::full();
        proof {
            lemma_slice_ends(log, range, 1, 11);
        }
        wanted(StorageHelper::new(&mut store).get_log_entries(range))?;

        let range = LogIndexRange::from(5);
        proof {
            lemma_slice_ends(log, range, 1, 11);
        }
        wanted(StorageHelper::new(&mut store).get_log_entries(range))?;

        let range = LogIndexRange::to(5);
        proof {
            lemma_slice_ends(log, range, 1, 11);
        }
        wanted(StorageHelper::new(&mut store).get_log_entries(range))?;

        let range = LogIndexRange::new(5, 7);
        proof {
            lemma_slice_ends(log, range, 1, 11);
        }
        wanted(StorageHelper::new(&mut store).get_log_entries(range))?;

        // mismatched bound.
        let range = LogIndexRange::from(11);
        proof {
            lemma_slice_ends(log, range, 1, 11);
        }
        let res = StorageHelper::new(&mut store).get_log_entries(range);
        let e = violation_of(res, Scenario::DfGetLogEntries)?;
        check(
            e.subject.is_log_index(11) && e.violation == (Violation::LogIndexNotFound {
                want: 11,
                got: None,
            }),
            Scenario::DfGetLogEntries,
        )?;

        let range = LogIndexRange::new(1, 1);
        let res = StorageHelper::new(&mut store).get_log_entries(range);
        let e = violation_of(res, Scenario::DfGetLogEntries)?;
        check(
            e.subject.is_logs() && e.violation == (Violation::RangeEmpty {
                start: Some(1),
                end: Some(0),
            }),
            Scenario::DfGetLogEntries,
        )?;

        let range = LogIndexRange::new(0, 1);
        proof {
            lemma_slice_ends(log, range, 1, 11);
        }
        let res = StorageHelper::new(&mut store).get_log_entries(range);
        let e = violation_of(res, Scenario::DfGetLogEntries)?;
        check(
            e.subject.is_log_index(0) && e.violation == (Violation::LogIndexNotFound {
                want: 0,
                got: None,
            }),
            Scenario::DfGetLogEntries,
        )?;

        let range = LogIndexRange::new(0, 2);
        proof {
            lemma_slice_ends(log, range, 1, 11);
        }
        let res = StorageHelper::new(&mut store).get_log_entries(range);
        let e = violation_of(res, Scenario::DfGetLogEntries)?;
        check(
            e.subject.is_log_index(0) && e.violation == (Violation::LogIndexNotFound {
                want: 0,
                got: Some(1),
            }),
            Scenario::DfGetLogEntries,
        )?;

        let range = LogIndexRange::new(10, 12);
        proof {
            lemma_slice_ends(log, range, 1, 11);
        }
        let res = StorageHelper::new(&mut store).get_log_entries(range);
        let e = violation_of(res, Scenario::DfGetLogEntries)?;
        check(
            e.subject.is_log_index(11) && e.violation == (Violation::LogIndexNotFound {
                want: 11,
                got: Some(10),
            }),
            Scenario::DfGetLogEntries,
        )?;

        Ok(())
    }

    /// An append of no entries is rejected.
    pub fn df_append_to_log_nonempty_input(store: S) -> (r: Result<(), SuiteError>)
        requires
            fresh(&store),
        ensures
            ends_with(
                r,
                store.model().reliable,
                if store.model().defensive {
                    Ok(())
                } else {
                    Err(SuiteError::Mismatch(Scenario::DfAppendToLogNonemptyInput))
                },
            ),
    {
        let mut store = store;
        let entries: Vec<Entry> = Vec::new();
        proof {
            assert(entry_views(entries@) =~= Seq::<EntryView>::empty());
        }
        let res = store.append_to_log(entries.as_slice());
        let e = violation_of(res, Scenario::DfAppendToLogNonemptyInput)?;
        check(
            e.subject.is_logs() && e.violation == Violation::LogsEmpty,
            Scenario::DfAppendToLogNonemptyInput,
        )?;
        Ok(())
    }

    /// An append of entries with a gap between them is rejected.
    pub fn df_append_to_log_nonconsecutive_input(store: S) -> (r: Result<(), SuiteError>)
        requires
            fresh(&store),
        ensures
            ends_with(
                r,
                store.model().reliable,
                if store.model().defensive {
                    Ok(())
                } else {
                    Err(SuiteError::Mismatch(Scenario::DfAppendToLogNonconsecutiveInput))
                },
            ),
    {
        let mut store = store;
        let entries = vec![blank_ent(1, 1), blank_ent(1, 3)];
        proof {
            let views = seq![spec_blank(1, 1), spec_blank(1, 3)];
            assert(entry_views(entries@) =~= views);
            assert(views.drop_last() =~= seq![spec_blank(1, 1)]);
            assert(first_gap(views.drop_last()) == 1);
            assert(first_gap(views) == 1);
        }
        let res = store.append_to_log(entries.as_slice());
        let e = violation_of(res, Scenario::DfAppendToLogNonconsecutiveInput)?;
        check(
            e.subject.is_logs() && e.violation == (Violation::LogsNonConsecutive {
                prev: Some(log_id(1, 1)),
                next: log_id(1, 3),
            }),
            Scenario::DfAppendToLogNonconsecutiveInput,
        )?;
        Ok(())
    }

    /// Appends three entries with the given terms at the indices 0, 1 and
    /// 2 to a store that holds nothing.
    fn df_feed_3(store: &mut S, t0: u64, t1: u64, t2: u64) -> (r: Result<(), SuiteError>)
        requires
            fresh(old(store)),
        ensures
            final(store).inv(),
            final(store).model().defensive == old(store).model().defensive,
            final(store).model().reliable == old(store).model().reliable,
            passed(r, old(store).model().reliable),
            r is Ok ==> final(store).model() == (StoreModel {
                log: three_log(t0, t1, t2),
                ..old(store).model()
            }),
    {
        let entries = vec![blank_ent(t0, 0), blank_ent(t1, 1), blank_ent(t2, 2)];
        proof {
            let views = seq![spec_blank(t0, 0), spec_blank(t1, 1), spec_blank(t2, 2)];
            assert(entry_views(entries@) =~= views);
            lemma_appended_3(
                store.model().log,
                spec_blank(t0, 0),
                spec_blank(t1, 1),
                spec_blank(t2, 2),
            );
            lemma_no_gap(views);
            lemma_last_log_id_empty(store.model());
            assert(store.model().log.insert(0, spec_blank(t0, 0)).insert(
                1,
                spec_blank(t1, 1),
            ).insert(2, spec_blank(t2, 2)) =~= three_log(t0, t1, t2));
        }
        wanted(store.append_to_log(entries.as_slice()))?;
        Ok(())
    }

    /// An append that leaves a gap behind the last log id is rejected.
    pub fn df_append_to_log_eq_last_plus_one(store: S) -> (r: Result<(), SuiteError>)
        requires
            fresh(&store),
        ensures
            ends_with(
                r,
                store.model().reliable,
                if store.model().defensive {
                    Ok(())
                } else {
                    Err(SuiteError::Mismatch(Scenario::DfAppendToLogEqLastPlusOne))
                },
            ),
    {
        let mut store = store;
        Self::df_feed_3(&mut store, 0, 1, 1)?;

        let applied = vec![blank_ent(0, 0), blank_ent(1, 1)];
        proof {
            assert(entry_views(applied@) =~= seq![spec_blank(0, 0), spec_blank(1, 1)]);
        }
        proof {
            lemma_no_gap(entry_views(applied@));
        }
        wanted(store.apply_to_state_machine(applied.as_slice()))?;

        let entries = vec![blank_ent(3, 4)];
        proof {
            assert(entry_views(entries@) =~= seq![spec_blank(3, 4)]);
            assert(first_gap(seq![spec_blank(3, 4)]) == 1);
            lemma_last_log_id(store.model(), 2);
        }
        let res = store.append_to_log(entries.as_slice());
        let e = violation_of(res, Scenario::DfAppendToLogEqLastPlusOne)?;
        check(
            e.subject.is_log(log_id(3, 4)) && e.violation == (Violation::LogsNonConsecutive {
                prev: Some(log_id(1, 2)),
                next: log_id(3, 4),
            }),
            Scenario::DfAppendToLogEqLastPlusOne,
        )?;
        Ok(())
    }

    /// An append that leaves a gap behind the last log id is rejected, also
    /// where the whole log is applied.
    pub fn df_append_to_log_eq_last_applied_plus_one(store: S) -> (r: Result<(), SuiteError>)
        requires
            fresh(&store),
        ensures
            ends_with(
                r,
                store.model().reliable,
                if store.model().defensive {
                    Ok(())
                } else {
                    Err(SuiteError::Mismatch(Scenario::DfAppendToLogEqLastAppliedPlusOne))
                },
            ),
    {
        let mut store = store;
        Self::df_feed_3(&mut store, 0, 1, 1)?;

        let applied = vec![blank_ent(0, 0), blank_ent(1, 1), blank_ent(1, 2)];
        proof {
            assert(entry_views(applied@) =~= seq![
                spec_blank(0, 0),
                spec_blank(1, 1),
                spec_blank(1, 2),
            ]);
        }
        proof {
            lemma_no_gap(entry_views(applied@));
        }
        wanted(store.apply_to_state_machine(applied.as_slice()))?;

        let entries = vec![blank_ent(1, 4)];
        proof {
            assert(entry_views(entries@) =~= seq![spec_blank(1, 4)]);
            assert(first_gap(seq![spec_blank(1, 4)]) == 1);
            lemma_last_log_id(store.model(), 2);
        }
        let res = store.append_to_log(entries.as_slice());
        let e = violation_of(res, Scenario::DfAppendToLogEqLastAppliedPlusOne)?;
        check(
            e.subject.is_log(log_id(1, 4)) && e.violation == (Violation::LogsNonConsecutive {
                prev: Some(log_id(1, 2)),
                next: log_id(1, 4),
            }),
            Scenario::DfAppendToLogEqLastAppliedPlusOne,
        )?;
        Ok(())
    }

    /// An append at the next index with a lower term is rejected.
    pub fn df_append_to_log_gt_last_log_id(store: S) -> (r: Result<(), SuiteError>)
        requires
            fresh(&store),
        ensures
            ends_with(
                r,
                store.model().reliable,
                if store.model().defensive {
                    Ok(())
                } else {
                    Err(SuiteError::Mismatch(Scenario::DfAppendToLogGtLastLogId))
                },
            ),
    {
        let mut store = store;
        Self::df_feed_3(&mut store, 0, 2, 2)?;

        let entries = vec![blank_ent(1, 3)];
        proof {
            assert(entry_views(entries@) =~= seq![spec_blank(1, 3)]);
            assert(first_gap(seq![spec_blank(1, 3)]) == 1);
            lemma_last_log_id(store.model(), 2);
        }
        let res = store.append_to_log(entries.as_slice());
        let e = violation_of(res, Scenario::DfAppendToLogGtLastLogId)?;
        check(
            e.subject.is_log(log_id(1, 3)) && e.violation == (Violation::LogsNonConsecutive {
                prev: Some(log_id(2, 2)),
                next: log_id(1, 3),
            }),
            Scenario::DfAppendToLogGtLastLogId,
        )?;
        Ok(())
    }

    /// An append at the next index with a lower term is rejected, also
    /// where the whole log is applied and purged.
    pub fn df_append_to_log_gt_last_applied_id(store: S) -> (r: Result<(), SuiteError>)
        requires
            fresh(&store),
        ensures
            ends_with(
                r,
                store.model().reliable,
                if store.model().defensive {
                    Ok(())
                } else {
                    Err(SuiteError::Mismatch(Scenario::DfAppendToLogGtLastAppliedId))
                },
            ),
    {
        let mut store = store;
        Self::df_feed_3(&mut store, 0, 2, 2)?;

        let applied = vec![blank_ent(0, 0), blank_ent(2, 1), blank_ent(2, 2)];
        proof {
            assert(entry_views(applied@) =~= seq![
                spec_blank(0, 0),
                spec_blank(2, 1),
                spec_blank(2, 2),
            ]);
        }
        proof {
            lemma_no_gap(entry_views(applied@));
        }
        wanted(store.apply_to_state_machine(applied.as_slice()))?;
        wanted(store.purge_logs_upto(log_id(2, 2)))?;

        let entries = vec![blank_ent(1, 3)];
        proof {
            assert(entry_views(entries@) =~= seq![spec_blank(1, 3)]);
            assert(first_gap(seq![spec_blank(1, 3)]) == 1);
            assert(store.model().log =~= Map::<u64, EntryView>::empty());
            lemma_last_log_id_empty(store.model());
        }
        let res = store.append_to_log(entries.as_slice());
        let e = violation_of(res, Scenario::DfAppendToLogGtLastAppliedId)?;
        check(
            e.subject.is_log(log_id(1, 3)) && e.violation == (Violation::LogsNonConsecutive {
                prev: Some(log_id(2, 2)),
                next: log_id(1, 3),
            }),
            Scenario::DfAppendToLogGtLastAppliedId,
        )?;
        Ok(())
    }

    /// An application of no entries is rejected.
    pub fn df_apply_nonempty_input(store: S) -> (r: Result<(), SuiteError>)
        requires
            fresh(&store),
        ensures
            ends_with(
                r,
                store.model().reliable,
                if store.model().defensive {
                    Ok(())
                } else {
                    Err(SuiteError::Mismatch(Scenario::DfApplyNonemptyInput))
                },
            ),
    {
        let mut store = store;
        let entries: Vec<Entry> = Vec::new();
        proof {
            assert(entry_views(entries@) =~= Seq::<EntryView>::empty());
        }
        let res = store.apply_to_state_machine(entries.as_slice());
        let e = violation_of(res, Scenario::DfApplyNonemptyInput)?;
        check(
            e.subject.is_logs() && e.violation == Violation::LogsEmpty,
            Scenario::DfApplyNonemptyInput,
        )?;
        Ok(())
    }

    /// An application of an entry that does not follow the last applied
    /// one by index is rejected.
    pub fn df_apply_index_eq_last_applied_plus_one(store: S) -> (r: Result<(), SuiteError>)
        requires
            fresh(&store),
        ensures
            ends_with(
                r,
                store.model().reliable,
                if store.model().defensive {
                    Ok(())
                } else {
                    Err(SuiteError::Mismatch(Scenario::DfApplyIndexEqLastAppliedPlusOne))
                },
            ),
    {
        let mut store = store;
        let entries = vec![blank_ent(0, 0), blank_ent(3, 1)];
        proof {
            assert(entry_views(entries@) =~= seq![spec_blank(0, 0), spec_blank(3, 1)]);
        }
        proof {
            lemma_no_gap(entry_views(entries@));
        }
        wanted(store.apply_to_state_machine(entries.as_slice()))?;

        // re-apply 1th
        {
            let entries = vec![blank_ent(3, 1)];
            proof {
                assert(entry_views(entries@) =~= seq![spec_blank(3, 1)]);
            }
            let res = store.apply_to_state_machine(entries.as_slice());
            let e = violation_of(res, Scenario::DfApplyIndexEqLastAppliedPlusOne)?;
            check(
                e.subject.is_apply(log_id(3, 1)) && e.violation == (Violation::ApplyNonConsecutive {
                    prev: Some(log_id(3, 1)),
                    next: log_id(3, 1),
                }),
                Scenario::DfApplyIndexEqLastAppliedPlusOne,
            )?;
        }

        // apply 3rd when there is only 1st
        {
            let entries = vec![blank_ent(3, 3)];
            proof {
                assert(entry_views(entries@) =~= seq![spec_blank(3, 3)]);
            }
            let res = store.apply_to_state_machine(entries.as_slice());
            let e = violation_of(res, Scenario::DfApplyIndexEqLastAppliedPlusOne)?;
            check(
                e.subject.is_apply(log_id(3, 3)) && e.violation == (Violation::ApplyNonConsecutive {
                    prev: Some(log_id(3, 1)),
                    next: log_id(3, 3),
                }),
                Scenario::DfApplyIndexEqLastAppliedPlusOne,
            )?;
        }

        Ok(())
    }

    /// An application at the next index with a lower term is rejected.
    pub fn df_apply_gt_last_applied_id(store: S) -> (r: Result<(), SuiteError>)
        requires
            fresh(&store),
        ensures
            ends_with(
                r,
                store.model().reliable,
                if store.model().defensive {
                    Ok(())
                } else {
                    Err(SuiteError::Mismatch(Scenario::DfApplyGtLastAppliedId))
                },
            ),
    {
        let mut store = store;
        let entries = vec![blank_ent(0, 0), blank_ent(3, 1)];
        proof {
            assert(entry_views(entries@) =~= seq![spec_blank(0, 0), spec_blank(3, 1)]);
        }
        proof {
            lemma_no_gap(entry_views(entries@));
        }
        wanted(store.apply_to_state_machine(entries.as_slice()))?;

        // next apply with last_index+1 but lower term
        {
            let entries = vec![blank_ent(2, 2)];
            proof {
                assert(entry_views(entries@) =~= seq![spec_blank(2, 2)]);
            }
            let res = store.apply_to_state_machine(entries.as_slice());
            let e = violation_of(res, Scenario::DfApplyGtLastAppliedId)?;
            check(
                e.subject.is_apply(log_id(2, 2)) && e.violation == (Violation::ApplyNonConsecutive {
                    prev: Some(log_id(3, 1)),
                    next: log_id(2, 2),
                }),
                Scenario::DfApplyGtLastAppliedId,
            )?;
        }

        Ok(())
    }

    /// A purge beyond the last applied index is rejected.
    pub fn df_purge_applied_le_last_applied(store: S) -> (r: Result<(), SuiteError>)
        requires
            fresh(&store),
        ensures
            ends_with(
                r,
                store.model().reliable,
                if store.model().defensive {
                    Ok(())
                } else {
                    Err(SuiteError::Mismatch(Scenario::DfPurgeAppliedLeLastApplied))
                },
            ),
    {
        let mut store = store;
        let entries = vec![blank_ent(0, 0), blank_ent(3, 1)];
        proof {
            assert(entry_views(entries@) =~= seq![spec_blank(0, 0), spec_blank(3, 1)]);
        }
        proof {
            lemma_no_gap(entry_views(entries@));
        }
        wanted(store.apply_to_state_machine(entries.as_slice()))?;

        {
            let res = store.purge_logs_upto(log_id(5, 2));
            let e = violation_of(res, Scenario::DfPurgeAppliedLeLastApplied)?;
            check(
                e.subject.is_log(log_id(5, 2)) && e.violation == (Violation::PurgeNonApplied {
                    last_applied: Some(log_id(3, 1)),
                    purge_upto: log_id(5, 2),
                }),
                Scenario::DfPurgeAppliedLeLastApplied,
            )?;
        }

        Ok(())
    }

    /// A delete of entries that are applied is rejected.
    pub fn df_delete_conflict_gt_last_applied(store: S) -> (r: Result<(), SuiteError>)
        requires
            fresh(&store),
        ensures
            ends_with(
                r,
                store.model().reliable,
                if store.model().defensive {
                    Ok(())
                } else {
                    Err(SuiteError::Mismatch(Scenario::DfDeleteConflictGtLastApplied))
                },
            ),
    {
        let mut store = store;
        let entries = vec![blank_ent(0, 0), blank_ent(3, 1)];
        proof {
            assert(entry_views(entries@) =~= seq![spec_blank(0, 0), spec_blank(3, 1)]);
        }
        proof {
            lemma_no_gap(entry_views(entries@));
        }
        wanted(store.apply_to_state_machine(entries.as_slice()))?;

        {
            let res = store.delete_conflict_logs_since(log_id(5, 1));
            let e = violation_of(res, Scenario::DfDeleteConflictGtLastApplied)?;
            check(
                e.subject.is_log(log_id(5, 1)) && e.violation == (Violation::AppliedWontConflict {
                    last_applied: Some(log_id(3, 1)),
                    first_conflict_log_id: log_id(5, 1),
                }),
                Scenario::DfDeleteConflictGtLastApplied,
            )?;
        }

        Ok(())
    }
}

/// The log of three blank entries with the given terms at the indices 0,
/// 1 and 2.
pub open spec fn three_log(t0: u64, t1: u64, t2: u64) -> Map<u64, EntryView> {
    Map::new(
        |i: u64| i < 3,
        |i: u64|
            if i == 0 {
                spec_blank(t0, 0)
            } else if i == 1 {
                spec_blank(t1, 1)
            } else {
                spec_blank(t2, 2)
            },
    )
}

/// The membership of the voters `ids`, stored at the log id with the given
/// term and index.
pub open spec fn spec_stored(term: u64, index: u64, ids: Set<u64>) -> StoredMembershipView {
    StoredMembershipView { log_id: Some(spec_log_id(term, index)), membership: spec_membership(ids) }
}

/// The log of the scenario `last_membership_in_log`, up to index `n`,
/// exclusive: entries of term 1 from index 1 on, of which those at 1, 3
/// and 5 hold a membership.
pub open spec fn mem_log(n: u64) -> Map<u64, EntryView> {
    Map::new(
        |i: u64| 1 <= i < n,
        |i: u64|
            if i == 1 {
                spec_member(1, 1, seq![1u64, 2u64, 3u64].to_set())
            } else if i == 3 {
                spec_member(1, 3, seq![7u64, 8u64, 9u64].to_set())
            } else if i == 5 {
                spec_member(1, 5, seq![10u64, 11u64].to_set())
            } else {
                spec_blank(1, i)
            },
    )
}

/// The memberships that the log of the scenario `last_membership_in_log`
/// holds.
pub proof fn lemma_mem_log(n: u64)
    requires
        2 <= n <= 6,
    ensures
        memberships_in(mem_log(n), 0, n) == if n <= 3 {
            seq![spec_stored(1, 1, seq![1u64, 2u64, 3u64].to_set())]
        } else if n <= 5 {
            seq![
                spec_stored(1, 1, seq![1u64, 2u64, 3u64].to_set()),
                spec_stored(1, 3, seq![7u64, 8u64, 9u64].to_set()),
            ]
        } else {
            seq![
                spec_stored(1, 1, seq![1u64, 2u64, 3u64].to_set()),
                spec_stored(1, 3, seq![7u64, 8u64, 9u64].to_set()),
                spec_stored(1, 5, seq![10u64, 11u64].to_set()),
            ]
        },
        memberships_in(mem_log(n), 1, n) == memberships_in(mem_log(n), 0, n),
        n == 5 ==> memberships_in(mem_log(n), 4, n) == Seq::<StoredMembershipView>::empty(),
        n == 4 ==> memberships_in(mem_log(n), 3, n) == seq![
            spec_stored(1, 3, seq![7u64, 8u64, 9u64].to_set()),
        ],
        n == 6 ==> memberships_in(mem_log(n), 3, n) == seq![
            spec_stored(1, 3, seq![7u64, 8u64, 9u64].to_set()),
            spec_stored(1, 5, seq![10u64, 11u64].to_set()),
        ],
{
    let log = mem_log(n);
    let s1 = spec_stored(1, 1, seq![1u64, 2u64, 3u64].to_set());
    let s3 = spec_stored(1, 3, seq![7u64, 8u64, 9u64].to_set());
    let s5 = spec_stored(1, 5, seq![10u64, 11u64].to_set());
    assert(membership_at(log, 0) =~= Seq::empty());
    assert(membership_at(log, 1) =~= seq![s1]);
    assert(membership_at(log, 2) =~= Seq::empty());
    assert(membership_at(log, 3) =~= if n > 3 {
        seq![s3]
    } else {
        Seq::empty()
    });
    assert(membership_at(log, 4) =~= Seq::empty());
    assert(membership_at(log, 5) =~= if n > 5 {
        seq![s5]
    } else {
        Seq::empty()
    });
    lemma_memberships_first(log, 0, n);
    lemma_memberships_first(log, 1, n);
    if n > 2 {
        lemma_memberships_first(log, 2, n);
    }
    if n > 3 {
        lemma_memberships_first(log, 3, n);
    }
    if n > 4 {
        lemma_memberships_first(log, 4, n);
    }
    if n > 5 {
        lemma_memberships_first(log, 5, n);
    }
    assert(memberships_in(log, n, n) =~= Seq::empty());
    if n == 6 {
        assert(memberships_in(log, 5, n) =~= seq![s5]);
        assert(memberships_in(log, 4, n) =~= seq![s5]);
        assert(memberships_in(log, 3, n) =~= seq![s3, s5]);
        assert(memberships_in(log, 2, n) =~= seq![s3, s5]);
        assert(memberships_in(log, 1, n) =~= seq![s1, s3, s5]);
    } else if n == 5 {
        assert(memberships_in(log, 4, n) =~= Seq::empty());
        assert(memberships_in(log, 3, n) =~= seq![s3]);
        assert(memberships_in(log, 2, n) =~= seq![s3]);
        assert(memberships_in(log, 1, n) =~= seq![s1, s3]);
    } else if n == 4 {
        assert(memberships_in(log, 3, n) =~= seq![s3]);
        assert(memberships_in(log, 2, n) =~= seq![s3]);
        assert(memberships_in(log, 1, n) =~= seq![s1, s3]);
    } else if n == 3 {
        assert(memberships_in(log, 2, n) =~= Seq::empty());
        assert(memberships_in(log, 1, n) =~= seq![s1]);
    } else {
        assert(memberships_in(log, 1, n) =~= seq![s1]);
    }
    assert(memberships_in(log, 0, n) =~= memberships_in(log, 1, n));
}

/// The log of the scenario `last_membership_in_log_multi_step`, up to index
/// `n`, exclusive: entries of term 1 from index 1 on, of which those at 1,
/// 2 and 100 hold a membership.
pub open spec fn multi_log(n: u64) -> Map<u64, EntryView> {
    Map::new(
        |i: u64| 1 <= i < n,
        |i: u64|
            if i == 1 {
                spec_member(1, 1, seq![1u64, 2u64, 3u64].to_set())
            } else if i == 2 {
                spec_member(1, 2, seq![3u64, 4u64, 5u64].to_set())
            } else if i == 100 {
                spec_member(1, 100, seq![5u64, 6u64, 7u64].to_set())
            } else {
                spec_blank(1, i)
            },
    )
}

/// The memberships that the log of the scenario
/// `last_membership_in_log_multi_step` holds.
pub proof fn lemma_multi_log()
    ensures
        memberships_in(multi_log(101), 0, 101) == seq![
            spec_stored(1, 1, seq![1u64, 2u64, 3u64].to_set()),
            spec_stored(1, 2, seq![3u64, 4u64, 5u64].to_set()),
            spec_stored(1, 100, seq![5u64, 6u64, 7u64].to_set()),
        ],
{
    let log = multi_log(101);
    let s1 = spec_stored(1, 1, seq![1u64, 2u64, 3u64].to_set());
    let s2 = spec_stored(1, 2, seq![3u64, 4u64, 5u64].to_set());
    let s100 = spec_stored(1, 100, seq![5u64, 6u64, 7u64].to_set());
    assert(membership_at(log, 0) =~= Seq::empty());
    assert(membership_at(log, 1) =~= seq![s1]);
    assert(membership_at(log, 2) =~= seq![s2]);
    assert(membership_at(log, 100) =~= seq![s100]);
    assert forall|k: u64| 3 <= k < 100 implies (#[trigger] membership_at(log, k)).len() == 0 by {}
    lemma_memberships_first(log, 100, 101);
    lemma_memberships_first(log, 101, 102);
    assert(memberships_in(log, 101, 101) =~= Seq::empty());
    assert(memberships_in(log, 100, 101) =~= seq![s100]);
    lemma_memberships_none(log, 3, 100, 101);
    lemma_memberships_first(log, 2, 101);
    lemma_memberships_first(log, 1, 101);
    lemma_memberships_first(log, 0, 101);
    assert(memberships_in(log, 2, 101) =~= seq![s2, s100]);
    assert(memberships_in(log, 1, 101) =~= seq![s1, s2, s100]);
    assert(memberships_in(log, 0, 101) =~= seq![s1, s2, s100]);
}

/// Decides whether a stored membership holds the single config of the
/// voters `ids`.
pub fn holds(mem: &StoredMembership, ids: &[u64]) -> (r: bool)
    ensures
        r == (mem@.membership == spec_membership(ids@.to_set())),
{
    *mem.membership() == membership_of(ids)
}

impl<S: RaftStorage, B: StoreBuilder<S>> Suite<S, B> {
    /// A store that holds nothing has no membership in its log.
    pub fn last_membership_in_log_initial(store: S) -> (r: Result<(), SuiteError>)
        requires
            fresh(&store),
        ensures
            ends_with(r, store.model().reliable, Ok(())),
    {
        let mut store = store;
        proof {
            lemma_last_log_id_empty(store.model());
        }
        let membership = wanted(StorageHelper::new(&mut store).last_membership_in_log(0))?;
        check(membership.len() == 0, Scenario::LastMembershipInLogInitial)?;
        Ok(())
    }

    /// The last two memberships of the log are found, whatever the state
    /// machine has applied.
    pub fn last_membership_in_log(store: S) -> (r: Result<(), SuiteError>)
        requires
            fresh(&store),
        ensures
            ends_with(
                r,
                store.model().reliable,
                if store.model().defensive {
                    repeat_objection(1, 1)
                } else {
                    Ok(())
                },
            ),
    {
        let mut store = store;
        // no log, do not read membership from state machine
        {
            let entries = vec![blank_ent(1, 1), membership_ent(1, 1, id_set(&[3, 4, 5]))];
            proof {
                let e = spec_member(1, 1, seq![3u64, 4u64, 5u64].to_set());
                let views = seq![spec_blank(1, 1), e];
                assert(entry_views(entries@) =~= views);
                assert(views.drop_last() =~= seq![spec_blank(1, 1)]);
                assert(first_gap(views.drop_last()) == 1);
                assert(first_gap(views) == 1);
            }
            wanted(store.apply_to_state_machine(entries.as_slice()))?;
            proof {
                lemma_last_log_id_empty(store.model());
            }
            let mem = wanted(StorageHelper::new(&mut store).last_membership_in_log(0))?;
            check(mem.len() == 0, Scenario::LastMembershipInLog)?;
        }

        // membership presents in log, smaller than last_applied, read from log
        {
            let entries = vec![membership_ent(1, 1, id_set(&[1, 2, 3]))];
            proof {
                let e = spec_member(1, 1, seq![1u64, 2u64, 3u64].to_set());
                assert(entry_views(entries@) =~= seq![e]);
                lemma_appended_one(store.model().log, e);
            }
            wanted(store.append_to_log(entries.as_slice()))?;
            proof {
                assert(store.model().log =~= mem_log(2));
                assert(is_last_index(mem_log(2), 1));
                lemma_last_log_id(store.model(), 1);
                lemma_mem_log(2);
            }
            let mem = wanted(StorageHelper::new(&mut store).last_membership_in_log(0))?;
            proof {
                if mem@.len() > 0 {
                    assert(stored_views(mem@)[0] == mem@[0]@);
                }
            }
            check(mem.len() == 1 && holds(&mem[0], &[1, 2, 3]), Scenario::LastMembershipInLog)?;

            let mem = wanted(StorageHelper::new(&mut store).last_membership_in_log(1))?;
            proof {
                if mem@.len() > 0 {
                    assert(stored_views(mem@)[0] == mem@[0]@);
                }
            }
            check(mem.len() == 1 && holds(&mem[0], &[1, 2, 3]), Scenario::LastMembershipInLog)?;

            let mem = wanted(StorageHelper::new(&mut store).last_membership_in_log(2))?;
            check(mem.len() == 0, Scenario::LastMembershipInLog)?;
        }

        // membership presents in log and > sm.last_applied, read 2 membership entries from log
        {
            let entries = vec![
                blank_ent(1, 2),
                membership_ent(1, 3, id_set(&[7, 8, 9])),
                blank_ent(1, 4),
            ];
            proof {
                let e = spec_member(1, 3, seq![7u64, 8u64, 9u64].to_set());
                assert(entry_views(entries@) =~= seq![spec_blank(1, 2), e, spec_blank(1, 4)]);
                lemma_appended_3(store.model().log, spec_blank(1, 2), e, spec_blank(1, 4));
            }
            wanted(store.append_to_log(entries.as_slice()))?;
            proof {
                assert(store.model().log =~= mem_log(5));
                assert(is_last_index(mem_log(5), 4));
                lemma_last_log_id(store.model(), 4);
                lemma_mem_log(5);
            }
            let mems = wanted(StorageHelper::new(&mut store).last_membership_in_log(0))?;
            proof {
                if mems@.len() > 1 {
                    assert(stored_views(mems@)[0] == mems@[0]@);
                    assert(stored_views(mems@)[1] == mems@[1]@);
                }
            }
            check(
                mems.len() == 2 && holds(&mems[0], &[1, 2, 3]) && holds(&mems[1], &[7, 8, 9]),
                Scenario::LastMembershipInLog,
            )?;
        }

        // membership presents in log and > sm.last_applied, read from log but since_index is
        // greater than the last
        {
            let mem = wanted(StorageHelper::new(&mut store).last_membership_in_log(4))?;
            check(mem.len() == 0, Scenario::LastMembershipInLog)?;
        }

        // 3 memberships in log, only return the last 2 of them
        {
            let entries = vec![membership_ent(1, 5, id_set(&[10, 11]))];
            proof {
                let e = spec_member(1, 5, seq![10u64, 11u64].to_set());
                assert(entry_views(entries@) =~= seq![e]);
                lemma_appended_one(store.model().log, e);
            }
            wanted(store.append_to_log(entries.as_slice()))?;
            proof {
                assert(store.model().log =~= mem_log(6));
                assert(is_last_index(mem_log(6), 5));
                lemma_last_log_id(store.model(), 5);
                lemma_mem_log(6);
                assert(last_two(memberships_in(mem_log(6), 0, 6)) =~= seq![
                    spec_stored(1, 3, seq![7u64, 8u64, 9u64].to_set()),
                    spec_stored(1, 5, seq![10u64, 11u64].to_set()),
                ]);
            }
            let mems = wanted(StorageHelper::new(&mut store).last_membership_in_log(0))?;
            proof {
                if mems@.len() > 1 {
                    assert(stored_views(mems@)[0] == mems@[0]@);
                    assert(stored_views(mems@)[1] == mems@[1]@);
                }
            }
            check(
                mems.len() == 2 && holds(&mems[0], &[7, 8, 9]) && holds(&mems[1], &[10, 11]),
                Scenario::LastMembershipInLog,
            )?;
        }

        Ok(())
    }

    /// The last two memberships are found also where the search goes
    /// through the log in several steps.
    pub fn last_membership_in_log_multi_step(store: S) -> (r: Result<(), SuiteError>)
        requires
            fresh(&store),
        ensures
            ends_with(
                r,
                store.model().reliable,
                if store.model().defensive {
                    append_objection(1, 1)
                } else {
                    Ok(())
                },
            ),
    {
        let mut sto = store;
        // find membership log entry backwards, multiple steps
        {
            let entries = vec![
                membership_ent(1, 1, id_set(&[1, 2, 3])),
                membership_ent(1, 2, id_set(&[3, 4, 5])),
            ];
            proof {
                let a = spec_member(1, 1, seq![1u64, 2u64, 3u64].to_set());
                let b = spec_member(1, 2, seq![3u64, 4u64, 5u64].to_set());
                assert(entry_views(entries@) =~= seq![a, b]);
                lemma_appended_2(sto.model().log, a, b);
                lemma_no_gap(seq![a, b]);
                lemma_last_log_id_empty(sto.model());
            }
            wanted(sto.append_to_log(entries.as_slice()))?;
            assert(sto.model().log =~= multi_log(3));

            let mut i: u64 = 3;
            while i < 100
                invariant
                    3 <= i <= 100,
                    sto.inv(),
                    sto.model() == (StoreModel {
                        log: multi_log(i),
                        ..StoreModel::initial(false, store.model().reliable)
                    }),
                decreases 100 - i,
            {
                let next = vec![blank_ent(1, i)];
                proof {
                    assert(entry_views(next@) =~= seq![spec_blank(1, i)]);
                    lemma_appended_one(sto.model().log, spec_blank(1, i));
                    assert(multi_log(i).insert(i, spec_blank(1, i)) =~= multi_log((i + 1) as u64));
                }
                wanted(sto.append_to_log(next.as_slice()))?;
                i += 1;
            }

            let entries = vec![membership_ent(1, 100, id_set(&[5, 6, 7]))];
            proof {
                let e = spec_member(1, 100, seq![5u64, 6u64, 7u64].to_set());
                assert(entry_views(entries@) =~= seq![e]);
                lemma_appended_one(sto.model().log, e);
                assert(multi_log(100).insert(100, e) =~= multi_log(101));
            }
            wanted(sto.append_to_log(entries.as_slice()))?;
            proof {
                assert(is_last_index(multi_log(101), 100));
                lemma_last_log_id(sto.model(), 100);
                lemma_multi_log();
                assert(last_two(memberships_in(multi_log(101), 0, 101)) =~= seq![
                    spec_stored(1, 2, seq![3u64, 4u64, 5u64].to_set()),
                    spec_stored(1, 100, seq![5u64, 6u64, 7u64].to_set()),
                ]);
            }

            let mems = wanted(StorageHelper::new(&mut sto).last_membership_in_log(0))?;
            proof {
                if mems@.len() > 1 {
                    assert(stored_views(mems@)[0] == mems@[0]@);
                    assert(stored_views(mems@)[1] == mems@[1]@);
                }
            }
            check(
                mems.len() == 2 && holds(&mems[0], &[3, 4, 5]) && holds(&mems[1], &[5, 6, 7]),
                Scenario::LastMembershipInLogMultiStep,
            )?;
        }

        Ok(())
    }

    /// A store that holds nothing gives the membership state of an
    /// uninitialized cluster.
    pub fn get_membership_initial(store: S) -> (r: Result<(), SuiteError>)
        requires
            fresh(&store),
        ensures
            ends_with(r, store.model().reliable, Ok(())),
    {
        let mut store = store;
        proof {
            lemma_last_log_id_empty(store.model());
        }
        let mem_state = wanted(StorageHelper::new(&mut store).get_membership())?;
        check(
            *mem_state.committed() == EffectiveMembership::default() && *mem_state.effective()
                == EffectiveMembership::default(),
            Scenario::GetMembershipInitial,
        )?;
        Ok(())
    }

    /// A membership in the log is effective, and not committed, while the
    /// state machine has applied nothing.
    pub fn get_membership_from_log_and_empty_sm(store: S) -> (r: Result<(), SuiteError>)
        requires
            fresh(&store),
        ensures
            ends_with(
                r,
                store.model().reliable,
                if store.model().defensive {
                    append_objection(1, 1)
                } else {
                    Ok(())
                },
            ),
    {
        let mut store = store;
        // no log, read membership from state machine
        {
            // There is an empty membership config in an empty state machine.
            let entries = vec![membership_ent(1, 1, id_set(&[1, 2, 3]))];
            proof {
                let e = spec_member(1, 1, seq![1u64, 2u64, 3u64].to_set());
                assert(entry_views(entries@) =~= seq![e]);
                lemma_appended_one(store.model().log, e);
            }
            wanted(store.append_to_log(entries.as_slice()))?;
            proof {
                assert(store.model().log =~= mem_log(2));
                assert(is_last_index(mem_log(2), 1));
                lemma_last_log_id(store.model(), 1);
                lemma_mem_log(2);
            }
            let mem_state = wanted(StorageHelper::new(&mut store).get_membership())?;
            check(
                *mem_state.committed() == EffectiveMembership::default() && holds(
                    mem_state.effective().stored_membership(),
                    &[1, 2, 3],
                ),
                Scenario::GetMembershipFromLogAndEmptySm,
            )?;
        }
        Ok(())
    }
}

/// The term of the entry at index `i` in the log of the scenario
/// `get_initial_state_log_ids`: the terms are 0, 1, 1, 2, 2, 3, 3.
pub open spec fn term_of(i: u64) -> u64 {
    if i == 0 {
        0
    } else if i <= 2 {
        1
    } else if i <= 4 {
        2
    } else {
        3
    }
}

/// The log of the scenario `get_initial_state_log_ids` up to index `n`,
/// exclusive.
pub open spec fn ids_log(n: u64) -> Map<u64, EntryView> {
    Map::new(|i: u64| i < n, |i: u64| spec_blank(term_of(i), i))
}

/// The key log ids of the log of the scenario `get_initial_state_log_ids`,
/// where the log starts at index `p` and ends before index `n`.
pub open spec fn ids_keys(p: u64, n: u64) -> Seq<LogId> {
    if n == 1 {
        seq![spec_log_id(0, 0)]
    } else if n == 4 {
        seq![spec_log_id(0, 0), spec_log_id(1, 1), spec_log_id(2, 3)]
    } else if p == 0 {
        seq![
            spec_log_id(0, 0),
            spec_log_id(1, 1),
            spec_log_id(2, 3),
            spec_log_id(3, 5),
            spec_log_id(3, 6),
        ]
    } else if p == 1 {
        seq![spec_log_id(1, 1), spec_log_id(2, 3), spec_log_id(3, 5), spec_log_id(3, 6)]
    } else if p == 2 {
        seq![spec_log_id(1, 2), spec_log_id(2, 3), spec_log_id(3, 5), spec_log_id(3, 6)]
    } else {
        seq![spec_log_id(2, 3), spec_log_id(3, 5), spec_log_id(3, 6)]
    }
}

/// The log of the scenario `get_initial_state_log_ids` is sound, and has
/// the key log ids that the scenario expects.
pub proof fn lemma_ids_keys(log: Map<u64, EntryView>, p: u64, n: u64)
    requires
        (p == 0 && (n == 1 || n == 4)) || (p <= 3 && n == 7),
        forall|k: u64| p < k < n ==> #[trigger] log.contains_key(k) && log[k] == spec_blank(term_of(k), k),
    ensures
        sound(log, spec_log_id(term_of(p), p), spec_log_id(term_of((n - 1) as u64), (n - 1) as u64)),
        key_log_ids(
            log,
            spec_log_id(term_of(p), p),
            spec_log_id(term_of((n - 1) as u64), (n - 1) as u64),
        ) == ids_keys(p, n),
{
    let first = spec_log_id(term_of(p), p);
    let last = spec_log_id(term_of((n - 1) as u64), (n - 1) as u64);
    assert forall|k: u64| p <= k < n implies #[trigger] id_at(log, first, k) == spec_log_id(term_of(k), k) by {
        if k > p {
            assert(log.contains_key(k));
        }
    }
    assert(sound(log, first, last)) by {
        assert forall|i: u64, j: u64| first.index <= i <= j <= last.index implies (#[trigger] id_at(
            log,
            first,
            i,
        )).leader_id.le_spec((#[trigger] id_at(log, first, j)).leader_id) by {
            assert(id_at(log, first, i) == spec_log_id(term_of(i), i));
            assert(id_at(log, first, j) == spec_log_id(term_of(j), j));
        }
    }
    assert(leader_starts(log, first, p) =~= seq![first]);
    if n > 1 {
        if p == 0 {
            assert(id_at(log, first, 1) == spec_log_id(1, 1));
            assert(leader_starts(log, first, 1) =~= seq![first, spec_log_id(1, 1)]);
        }
        if p <= 1 {
            assert(id_at(log, first, 2) == spec_log_id(1, 2));
            assert(id_at(log, first, 1) == spec_log_id(1, 1));
            assert(leader_starts(log, first, 2) =~= leader_starts(log, first, 1));
        }
        if p <= 2 {
            assert(id_at(log, first, 2) == spec_log_id(1, 2));
            assert(id_at(log, first, 3) == spec_log_id(2, 3));
            assert(leader_starts(log, first, 3) =~= leader_starts(log, first, 2).push(
                spec_log_id(2, 3),
            ));
        }
        if n == 7 {
            assert(id_at(log, first, 3) == spec_log_id(2, 3));
            assert(id_at(log, first, 4) == spec_log_id(2, 4));
            assert(id_at(log, first, 5) == spec_log_id(3, 5));
            assert(id_at(log, first, 6) == spec_log_id(3, 6));
            assert(leader_starts(log, first, 4) =~= leader_starts(log, first, 3));
            assert(leader_starts(log, first, 5) =~= leader_starts(log, first, 4).push(
                spec_log_id(3, 5),
            ));
            assert(leader_starts(log, first, 6) =~= leader_starts(log, first, 5));
        }
    }
    assert(key_log_ids(log, first, last) =~= ids_keys(p, n));
}

/// Decides whether two sequences of log ids are the same.
pub fn same_ids(a: &[LogId], b: &Vec<LogId>) -> (r: bool)
    ensures
        r == (a@ == b@),
{
    if a.len() != b.len() {
        return false;
    }
    let mut i: usize = 0;
    while i < a.len()
        invariant
            0 <= i <= a@.len(),
            a@.len() == b@.len(),
            forall|k: int| 0 <= k < i ==> a@[k] == b@[k],
        decreases a.len() - i,
    {
        if a[i] != b[i] {
            return false;
        }
        i += 1;
    }
    assert(a@ =~= b@);
    true
}

impl<S: RaftStorage, B: StoreBuilder<S>> Suite<S, B> {
    /// The state machine holds the committed membership; the log holds
    /// the effective one, if it holds one behind that of the state machine.
    pub fn get_membership_from_log_and_sm(store: S) -> (r: Result<(), SuiteError>)
        requires
            fresh(&store),
        ensures
            ends_with(
                r,
                store.model().reliable,
                if store.model().defensive {
                    apply_objection(1, 1)
                } else {
                    Ok(())
                },
            ),
    {
        let mut store = store;
        // no log, read membership from state machine
        {
            let entries = vec![blank_ent(1, 1), membership_ent(1, 2, id_set(&[3, 4, 5]))];
            proof {
                let e = spec_member(1, 2, seq![3u64, 4u64, 5u64].to_set());
                assert(entry_views(entries@) =~= seq![spec_blank(1, 1), e]);
                lemma_applied_last(store.model().last_membership, seq![spec_blank(1, 1), e]);
            }
            proof {
                lemma_no_gap(entry_views(entries@));
            }
            wanted(store.apply_to_state_machine(entries.as_slice()))?;
            proof {
                lemma_last_log_id_empty(store.model());
            }
            let mem_state = wanted(StorageHelper::new(&mut store).get_membership())?;
            check(
                holds(mem_state.committed().stored_membership(), &[3, 4, 5]) && holds(
                    mem_state.effective().stored_membership(),
                    &[3, 4, 5],
                ),
                Scenario::GetMembershipFromLogAndSm,
            )?;
        }

        // membership presents in log, but smaller than last_applied, read from state machine
        {
            let entries = vec![membership_ent(1, 1, id_set(&[1, 2, 3]))];
            proof {
                let e = spec_member(1, 1, seq![1u64, 2u64, 3u64].to_set());
                assert(entry_views(entries@) =~= seq![e]);
                lemma_appended_one(store.model().log, e);
            }
            wanted(store.append_to_log(entries.as_slice()))?;
            proof {
                assert(store.model().log =~= mem_log(2));
                assert(is_last_index(mem_log(2), 1));
                lemma_last_log_id(store.model(), 1);
            }
            let mem_state = wanted(StorageHelper::new(&mut store).get_membership())?;
            check(
                holds(mem_state.committed().stored_membership(), &[3, 4, 5]) && holds(
                    mem_state.effective().stored_membership(),
                    &[3, 4, 5],
                ),
                Scenario::GetMembershipFromLogAndSm,
            )?;
        }

        // membership presents in log and > sm.last_applied, read from log
        {
            let entries = vec![blank_ent(1, 2), membership_ent(1, 3, id_set(&[7, 8, 9]))];
            proof {
                let e = spec_member(1, 3, seq![7u64, 8u64, 9u64].to_set());
                assert(entry_views(entries@) =~= seq![spec_blank(1, 2), e]);
                lemma_appended_2(store.model().log, spec_blank(1, 2), e);
            }
            wanted(store.append_to_log(entries.as_slice()))?;
            proof {
                assert(store.model().log =~= mem_log(4));
                assert(is_last_index(mem_log(4), 3));
                lemma_last_log_id(store.model(), 3);
                lemma_mem_log(4);
            }
            let mem_state = wanted(StorageHelper::new(&mut store).get_membership())?;
            check(
                holds(mem_state.committed().stored_membership(), &[3, 4, 5]) && holds(
                    mem_state.effective().stored_membership(),
                    &[7, 8, 9],
                ),
                Scenario::GetMembershipFromLogAndSm,
            )?;
        }

        // two membership present in log and > sm.last_applied, read 2 from log
        {
            let entries = vec![blank_ent(1, 4), membership_ent(1, 5, id_set(&[10, 11]))];
            proof {
                let e = spec_member(1, 5, seq![10u64, 11u64].to_set());
                assert(entry_views(entries@) =~= seq![spec_blank(1, 4), e]);
                lemma_appended_2(store.model().log, spec_blank(1, 4), e);
            }
            wanted(store.append_to_log(entries.as_slice()))?;
            proof {
                assert(store.model().log =~= mem_log(6));
                assert(is_last_index(mem_log(6), 5));
                lemma_last_log_id(store.model(), 5);
                lemma_mem_log(6);
            }
            let mem_state = wanted(StorageHelper::new(&mut store).get_membership())?;
            check(
                holds(mem_state.committed().stored_membership(), &[7, 8, 9]) && holds(
                    mem_state.effective().stored_membership(),
                    &[10, 11],
                ),
                Scenario::GetMembershipFromLogAndSm,
            )?;
        }

        Ok(())
    }

    /// A store that holds nothing gives the state of a node that has
    /// stored nothing.
    pub fn get_initial_state_without_init(store: S) -> (r: Result<(), SuiteError>)
        requires
            fresh(&store),
        ensures
            ends_with(r, store.model().reliable, Ok(())),
    {
        let mut store = store;
        proof {
            lemma_last_log_id_empty(store.model());
        }
        let initial = wanted(StorageHelper::new(&mut store).get_initial_state())?;
        let want = RaftState::default();
        check(
            want.vote == initial.vote && want.committed == initial.committed && want.last_applied
                == initial.last_applied && want.purged_next == initial.purged_next
                && initial.log_ids.key_log_ids().len() == 0 && want.membership_state
                == initial.membership_state && want.snapshot_meta == initial.snapshot_meta
                && want.server_state == initial.server_state && want.purge_upto
                == initial.purge_upto,
            Scenario::GetInitialStateWithoutInit,
        )?;
        Ok(())
    }

    /// The initial state has the vote, the last log id and the last
    /// applied log id of the store.
    pub fn get_initial_state_with_state(store: S) -> (r: Result<(), SuiteError>)
        requires
            fresh(&store),
        ensures
            ends_with(
                r,
                store.model().reliable,
                if store.model().defensive {
                    apply_objection(3, 1)
                } else {
                    Ok(())
                },
            ),
    {
        let mut store = store;
        Self::default_vote(&mut store)?;

        let entries = vec![blank_ent(0, 0), blank_ent(1, 1), blank_ent(3, 2)];
        proof {
            assert(entry_views(entries@) =~= seq![
                spec_blank(0, 0),
                spec_blank(1, 1),
                spec_blank(3, 2),
            ]);
            lemma_appended_3(store.model().log, spec_blank(0, 0), spec_blank(1, 1), spec_blank(3, 2));
            lemma_no_gap(seq![spec_blank(0, 0), spec_blank(1, 1), spec_blank(3, 2)]);
            lemma_last_log_id_empty(store.model());
        }
        wanted(store.append_to_log(entries.as_slice()))?;

        let applied = vec![blank_ent(3, 1)];
        proof {
            assert(entry_views(applied@) =~= seq![spec_blank(3, 1)]);
            lemma_applied_one(store.model().last_membership, spec_blank(3, 1));
        }
        wanted(store.apply_to_state_machine(applied.as_slice()))?;
        proof {
            let m = store.model();
            assert(m.log =~= three_log(0, 1, 3));
            assert(is_last_index(m.log, 2));
            lemma_last_log_id(m, 2);
            let first = spec_log_id(0, 0);
            let last = spec_log_id(3, 2);
            assert(sound(m.log, first, last));
            lemma_key_log_ids_valid(m.log, first, last);
        }
        let initial = wanted(StorageHelper::new(&mut store).get_initial_state())?;
        check(initial.last_log_id() == Some(&log_id(3, 2)), Scenario::GetInitialStateWithState)?;
        check(initial.committed() == Some(&log_id(3, 1)), Scenario::GetInitialStateWithState)?;
        check(*initial.vote_ref() == Vote::new(1, NODE_ID), Scenario::GetInitialStateWithState)?;
        Ok(())
    }

    /// The initial state never takes a membership from a log entry that
    /// the state machine has applied already.
    pub fn get_initial_state_membership_from_log_and_sm(store: S) -> (r: Result<(), SuiteError>)
        requires
            fresh(&store),
        ensures
            ends_with(
                r,
                store.model().reliable,
                if store.model().defensive {
                    apply_objection(1, 1)
                } else {
                    Ok(())
                },
            ),
    {
        let mut store = store;
        Self::default_vote(&mut store)?;

        // no log, read membership from state machine
        {
            let entries = vec![blank_ent(1, 1), membership_ent(1, 2, id_set(&[3, 4, 5]))];
            proof {
                let e = spec_member(1, 2, seq![3u64, 4u64, 5u64].to_set());
                assert(entry_views(entries@) =~= seq![spec_blank(1, 1), e]);
                lemma_applied_last(store.model().last_membership, seq![spec_blank(1, 1), e]);
            }
            proof {
                lemma_no_gap(entry_views(entries@));
            }
            wanted(store.apply_to_state_machine(entries.as_slice()))?;
            proof {
                lemma_last_log_id_empty(store.model());
            }
            let initial = wanted(StorageHelper::new(&mut store).get_initial_state())?;
            check(
                holds(initial.membership_state.effective().stored_membership(), &[3, 4, 5]),
                Scenario::GetInitialStateMembershipFromLogAndSm,
            )?;
        }

        // membership presents in log, but smaller than last_applied, read from state machine
        {
            let entries = vec![membership_ent(1, 1, id_set(&[1, 2, 3]))];
            proof {
                let e = spec_member(1, 1, seq![1u64, 2u64, 3u64].to_set());
                assert(entry_views(entries@) =~= seq![e]);
                lemma_appended_one(store.model().log, e);
            }
            wanted(store.append_to_log(entries.as_slice()))?;
            proof {
                assert(store.model().log =~= mem_log(2));
                assert(is_last_index(mem_log(2), 1));
                lemma_last_log_id(store.model(), 1);
            }
            let initial = wanted(StorageHelper::new(&mut store).get_initial_state())?;
            check(
                holds(initial.membership_state.effective().stored_membership(), &[3, 4, 5]),
                Scenario::GetInitialStateMembershipFromLogAndSm,
            )?;
        }

        // membership presents in log and > sm.last_applied, read from log
        {
            let entries = vec![membership_ent(1, 3, id_set(&[1, 2, 3]))];
            let ghost e = spec_member(1, 3, seq![1u64, 2u64, 3u64].to_set());
            proof {
                assert(entry_views(entries@) =~= seq![e]);
                lemma_appended_one(store.model().log, e);
            }
            wanted(store.append_to_log(entries.as_slice()))?;
            proof {
                let m = store.model();
                assert(m.log =~= mem_log(2).insert(3, e));
                assert(is_last_index(m.log, 3));
                lemma_last_log_id(m, 3);
                assert(membership_at(m.log, 3) =~= seq![
                    spec_stored(1, 3, seq![1u64, 2u64, 3u64].to_set()),
                ]);
                lemma_memberships_first(m.log, 3, 4);
                lemma_memberships_first(m.log, 4, 5);
                assert(memberships_in(m.log, 3, 4) =~= seq![
                    spec_stored(1, 3, seq![1u64, 2u64, 3u64].to_set()),
                ]);
            }
            let initial = wanted(StorageHelper::new(&mut store).get_initial_state())?;
            check(
                holds(initial.membership_state.effective().stored_membership(), &[1, 2, 3]),
                Scenario::GetInitialStateMembershipFromLogAndSm,
            )?;
        }

        Ok(())
    }

    /// The initial state has the last log id of the log where the log is
    /// ahead of the state machine.
    pub fn get_initial_state_last_log_gt_sm(store: S) -> (r: Result<(), SuiteError>)
        requires
            fresh(&store),
        ensures
            ends_with(
                r,
                store.model().reliable,
                if store.model().defensive {
                    apply_objection(1, 1)
                } else {
                    Ok(())
                },
            ),
    {
        let mut store = store;
        Self::default_vote(&mut store)?;

        let entries = vec![blank_ent(0, 0), blank_ent(2, 1)];
        let ghost log = store.model().log.insert(0, spec_blank(0, 0)).insert(1, spec_blank(2, 1));
        proof {
            assert(entry_views(entries@) =~= seq![spec_blank(0, 0), spec_blank(2, 1)]);
            lemma_appended_2(store.model().log, spec_blank(0, 0), spec_blank(2, 1));
            lemma_no_gap(seq![spec_blank(0, 0), spec_blank(2, 1)]);
            lemma_last_log_id_empty(store.model());
        }
        wanted(store.append_to_log(entries.as_slice()))?;

        let applied = vec![blank_ent(1, 1), blank_ent(1, 2)];
        proof {
            let views = seq![spec_blank(1, 1), spec_blank(1, 2)];
            assert(entry_views(applied@) =~= views);
            lemma_applied_blanks(store.model().last_membership, views);
        }
        proof {
            lemma_no_gap(entry_views(applied@));
        }
        wanted(store.apply_to_state_machine(applied.as_slice()))?;
        proof {
            let m = store.model();
            assert(m.log == log);
            assert(is_last_index(m.log, 1));
            lemma_last_log_id(m, 1);
            let first = spec_log_id(0, 0);
            let last = spec_log_id(2, 1);
            assert(sound(m.log, first, last));
            lemma_key_log_ids_valid(m.log, first, last);
        }
        let initial = wanted(StorageHelper::new(&mut store).get_initial_state())?;
        check(initial.last_log_id() == Some(&log_id(2, 1)), Scenario::GetInitialStateLastLogGtSm)?;
        Ok(())
    }

    /// The initial state has the last applied log id as its last log id
    /// and as its last purged log id where the state machine is ahead of the
    /// log.
    pub fn get_initial_state_last_log_lt_sm(store: S) -> (r: Result<(), SuiteError>)
        requires
            fresh(&store),
        ensures
            ends_with(
                r,
                store.model().reliable,
                if store.model().defensive {
                    append_objection(1, 2)
                } else {
                    Ok(())
                },
            ),
    {
        let mut store = store;
        Self::default_vote(&mut store)?;

        let entries = vec![blank_ent(1, 2)];
        proof {
            assert(entry_views(entries@) =~= seq![spec_blank(1, 2)]);
            lemma_appended_one(store.model().log, spec_blank(1, 2));
        }
        wanted(store.append_to_log(entries.as_slice()))?;

        let applied = vec![blank_ent(3, 1)];
        proof {
            assert(entry_views(applied@) =~= seq![spec_blank(3, 1)]);
            lemma_applied_one(store.model().last_membership, spec_blank(3, 1));
        }
        wanted(store.apply_to_state_machine(applied.as_slice()))?;
        proof {
            let m = store.model();
            assert(is_last_index(m.log, 2));
            lemma_last_log_id(m, 2);
            assert(membership_at(m.log, 2) =~= Seq::empty());
            lemma_memberships_first(m.log, 2, 3);
            lemma_memberships_first(m.log, 1, 3);
            lemma_memberships_first(m.log, 0, 3);
            lemma_memberships_first(m.log, 3, 4);
        }
        let initial = wanted(StorageHelper::new(&mut store).get_initial_state())?;
        check(initial.last_log_id() == Some(&log_id(3, 1)), Scenario::GetInitialStateLastLogLtSm)?;
        check(
            initial.last_purged_log_id() == Some(&log_id(3, 1)),
            Scenario::GetInitialStateLastLogLtSm,
        )?;
        Ok(())
    }

    /// Reads the initial state of a store whose log is that of the
    /// scenario `get_initial_state_log_ids`, and compares its key log ids
    /// with `want`: a mismatch unless `want` holds the first log id of each
    /// term that is left in the log, and the last log id.
    fn check_log_ids(store: &mut S, want: Vec<LogId>, Ghost(p): Ghost<u64>, Ghost(n): Ghost<u64>) -> (r:
        Result<(), SuiteError>)
        requires
            old(store).inv(),
            (p == 0 && (n == 1 || n == 4)) || (p <= 3 && n == 7),
            old(store).model() == (StoreModel {
                log: purged(ids_log(n), p),
                last_purged: Some(spec_log_id(term_of(p), p)),
                ..StoreModel::initial(old(store).model().defensive, old(store).model().reliable)
            }) || (p == 0 && old(store).model() == (StoreModel {
                log: ids_log(n),
                ..StoreModel::initial(old(store).model().defensive, old(store).model().reliable)
            })),
        ensures
            final(store).inv(),
            ends_with(
                r,
                old(store).model().reliable,
                if want@ == ids_keys(p, n) {
                    Ok(())
                } else {
                    Err(SuiteError::Mismatch(Scenario::GetInitialStateLogIds))
                },
            ),
            r is Ok ==> final(store).model() == old(store).model(),
    {
        proof {
            let m = store.model();
            assert(is_last_index(m.log, (n - 1) as u64) || n == 1 && m.last_purged is Some);
            if is_last_index(m.log, (n - 1) as u64) {
                lemma_last_log_id(m, (n - 1) as u64);
            } else {
                assert(m.log =~= Map::<u64, EntryView>::empty());
                lemma_last_log_id_empty(m);
            }
            lemma_ids_keys(m.log, p, n);
            assert(forall|k: u64| !m.log.contains_key(k) || (#[trigger] membership_at(m.log, k)).len() == 0);
            lemma_memberships_none(m.log, 0, n, n);
            if m.last_purged is Some {
                lemma_memberships_none(m.log, (p + 1) as u64, n, n);
            }
            lemma_memberships_first(m.log, n, (n + 1) as u64);
        }
        let initial = wanted(StorageHelper::new(store).get_initial_state())?;
        check(same_ids(initial.log_ids.key_log_ids(), &want), Scenario::GetInitialStateLogIds)?;
        Ok(())
    }

    /// The initial state has the key log ids of the log: the first log id
    /// of every leader, the last log id, and the last purged log id as the
    /// first of all.
    pub fn get_initial_state_log_ids(store: S) -> (r: Result<(), SuiteError>)
        requires
            fresh(&store),
        ensures
            ends_with(
                r,
                store.model().reliable,
                if store.model().defensive {
                    purge_objection(0, 0)
                } else {
                    Ok(())
                },
            ),
    {
        let mut store = store;

        // empty store, expect []
        {
            proof {
                lemma_last_log_id_empty(store.model());
            }
            let initial = wanted(StorageHelper::new(&mut store).get_initial_state())?;
            check(initial.log_ids.key_log_ids().len() == 0, Scenario::GetInitialStateLogIds)?;
        }

        // log terms: [0], last_purged_log_id is None, expect [(0,0)]
        {
            let entries = vec![blank_ent(0, 0)];
            proof {
                assert(entry_views(entries@) =~= seq![spec_blank(0, 0)]);
                lemma_appended_one(store.model().log, spec_blank(0, 0));
            }
            wanted(store.append_to_log(entries.as_slice()))?;
            assert(store.model().log =~= ids_log(1));
            let want = vec![log_id(0, 0)];
            assert(want@ =~= ids_keys(0, 1));
            Self::check_log_ids(&mut store, want, Ghost(0), Ghost(1))?;
        }

        // log terms: [0,1,1,2], last_purged_log_id is None, expect [(0,0),(1,1),(2,3)]
        {
            let entries = vec![blank_ent(1, 1), blank_ent(1, 2), blank_ent(2, 3)];
            proof {
                assert(entry_views(entries@) =~= seq![
                    spec_blank(1, 1),
                    spec_blank(1, 2),
                    spec_blank(2, 3),
                ]);
                lemma_appended_3(
                    store.model().log,
                    spec_blank(1, 1),
                    spec_blank(1, 2),
                    spec_blank(2, 3),
                );
                lemma_no_gap(seq![spec_blank(1, 1), spec_blank(1, 2), spec_blank(2, 3)]);
                assert(is_last_index(store.model().log, 0));
                lemma_last_log_id(store.model(), 0);
            }
            wanted(store.append_to_log(entries.as_slice()))?;
            assert(store.model().log =~= ids_log(4));
            let want = vec![log_id(0, 0), log_id(1, 1), log_id(2, 3)];
            assert(want@ =~= ids_keys(0, 4));
            Self::check_log_ids(&mut store, want, Ghost(0), Ghost(4))?;
        }

        // log terms: [0,1,1,2,2,3,3], last_purged_log_id is None,
        // expect [(0,0),(1,1),(2,3),(3,5),(3,6)]
        {
            let entries = vec![blank_ent(2, 4), blank_ent(3, 5), blank_ent(3, 6)];
            proof {
                assert(entry_views(entries@) =~= seq![
                    spec_blank(2, 4),
                    spec_blank(3, 5),
                    spec_blank(3, 6),
                ]);
                lemma_appended_3(
                    store.model().log,
                    spec_blank(2, 4),
                    spec_blank(3, 5),
                    spec_blank(3, 6),
                );
                lemma_no_gap(seq![spec_blank(2, 4), spec_blank(3, 5), spec_blank(3, 6)]);
                assert(is_last_index(store.model().log, 3));
                lemma_last_log_id(store.model(), 3);
            }
            wanted(store.append_to_log(entries.as_slice()))?;
            assert(store.model().log =~= ids_log(7));
            let want = vec![log_id(0, 0), log_id(1, 1), log_id(2, 3), log_id(3, 5), log_id(3, 6)];
            assert(want@ =~= ids_keys(0, 7));
            Self::check_log_ids(&mut store, want, Ghost(0), Ghost(7))?;
        }

        // log terms: [x,1,1,2,2,3,3], last_purged_log_id: (0,0),
        // expect [(0,0),(1,1),(2,3),(3,5),(3,6)]
        {
            wanted(store.purge_logs_upto(log_id(0, 0)))?;
            assert(store.model().log =~= purged(ids_log(7), 0));
            let want = vec![log_id(0, 0), log_id(1, 1), log_id(2, 3), log_id(3, 5), log_id(3, 6)];
            assert(want@ =~= ids_keys(0, 7));
            Self::check_log_ids(&mut store, want, Ghost(0), Ghost(7))?;
        }

        // log terms: [x,x,1,2,2,3,3], last_purged_log_id: (1,1), expect [(1,1),(2,3),(3,5),(3,6)]
        {
            wanted(store.purge_logs_upto(log_id(1, 1)))?;
            assert(store.model().log =~= purged(ids_log(7), 1));
            let want = vec![log_id(1, 1), log_id(2, 3), log_id(3, 5), log_id(3, 6)];
            assert(want@ =~= ids_keys(1, 7));
            Self::check_log_ids(&mut store, want, Ghost(1), Ghost(7))?;
        }

        // log terms: [x,x,x,2,2,3,3], last_purged_log_id: (1,2), expect [(1,2),(2,3),(3,5),(3,6)]
        {
            wanted(store.purge_logs_upto(log_id(1, 2)))?;
            assert(store.model().log =~= purged(ids_log(7), 2));
            let want = vec![log_id(1, 2), log_id(2, 3), log_id(3, 5), log_id(3, 6)];
            assert(want@ =~= ids_keys(2, 7));
            Self::check_log_ids(&mut store, want, Ghost(2), Ghost(7))?;
        }

        // log terms: [x,x,x,x,2,3,3], last_purged_log_id: (2,3), expect [(2,3),(3,5),(3,6)]
        {
            wanted(store.purge_logs_upto(log_id(2, 3)))?;
            assert(store.model().log =~= purged(ids_log(7), 3));
            let want = vec![log_id(2, 3), log_id(3, 5), log_id(3, 6)];
            assert(want@ =~= ids_keys(3, 7));
            Self::check_log_ids(&mut store, want, Ghost(3), Ghost(7))?;
        }

        // log terms: [x,x,x,x,x,x,x], last_purged_log_id: (3,6), e.g., all purged expect [(3,6)]
        {
            wanted(store.purge_logs_upto(log_id(3, 6)))?;
            proof {
                let m = store.model();
                assert(m.log =~= Map::<u64, EntryView>::empty());
                lemma_last_log_id_empty(m);
                let only = spec_log_id(3, 6);
                assert(sound(m.log, only, only));
                assert(key_log_ids(m.log, only, only) =~= seq![only]);
            }
            let initial = wanted(StorageHelper::new(&mut store).get_initial_state())?;
            let want = vec![log_id(3, 6)];
            assert(want@ =~= seq![spec_log_id(3, 6)]);
            check(
                same_ids(initial.log_ids.key_log_ids(), &want),
                Scenario::GetInitialStateLogIds,
            )?;
        }

        Ok(())
    }

    /// A log that goes beyond the last applied index with a smaller log id
    /// is reported when the membership is read.
    pub fn df_get_membership_config_dirty_log(store: S) -> (r: Result<(), SuiteError>)
        requires
            fresh(&store),
        ensures
            ends_with(
                r,
                store.model().reliable,
                if store.model().defensive {
                    Ok(())
                } else {
                    Err(SuiteError::Mismatch(Scenario::DfGetMembershipConfigDirtyLog))
                },
            ),
    {
        let mut store = store;
        // dirty log: log.index > last_applied.index && log < last_applied
        {
            Self::df_feed_dirty(&mut store)?;
            let res = StorageHelper::new(&mut store).get_membership();
            let e = violation_of(res, Scenario::DfGetMembershipConfigDirtyLog)?;
            check(
                e.subject.is_log(log_id(1, 3)) && e.violation == (Violation::DirtyLog {
                    higher_index_log_id: log_id(1, 3),
                    lower_index_log_id: log_id(2, 2),
                }),
                Scenario::DfGetMembershipConfigDirtyLog,
            )?;
        }
        Ok(())
    }

    /// A log that goes beyond the last applied index with a smaller log id
    /// is reported when the initial state is read.
    pub fn df_get_initial_state_dirty_log(store: S) -> (r: Result<(), SuiteError>)
        requires
            fresh(&store),
        ensures
            ends_with(
                r,
                store.model().reliable,
                if store.model().defensive {
                    Ok(())
                } else {
                    Err(SuiteError::Mismatch(Scenario::DfGetInitialStateDirtyLog))
                },
            ),
    {
        let mut store = store;
        // dirty log: log.index > last_applied.index && log < last_applied
        {
            Self::df_feed_dirty(&mut store)?;
            proof {
                let m = store.model();
                assert(sound(m.log, spec_log_id(0, 0), spec_log_id(1, 3)));
            }
            let res = StorageHelper::new(&mut store).get_initial_state();
            let e = violation_of(res, Scenario::DfGetInitialStateDirtyLog)?;
            check(
                e.subject.is_log(log_id(1, 3)) && e.violation == (Violation::DirtyLog {
                    higher_index_log_id: log_id(1, 3),
                    lower_index_log_id: log_id(2, 2),
                }),
                Scenario::DfGetInitialStateDirtyLog,
            )?;
        }
        Ok(())
    }

    /// Makes the log of a store that holds nothing dirty: the log goes up
    /// to (1,3), and the state machine has applied up to (2,2).
    fn df_feed_dirty(store: &mut S) -> (r: Result<(), SuiteError>)
        requires
            fresh(old(store)),
        ensures
            final(store).inv(),
            final(store).model().defensive == old(store).model().defensive,
            final(store).model().reliable == old(store).model().reliable,
            passed(r, old(store).model().reliable),
            r is Ok ==> final(store).model().log == dirty_log() && final(store).model().last_applied
                == Some(spec_log_id(2, 2)) && final(store).model().last_purged is None
                && final(store).model().last_log_id() == Some(spec_log_id(1, 3))
                && final(store).model().last_membership.log_id == Some(spec_log_id(2, 2)),
    {
        let entries = vec![
            blank_ent(0, 0),
            blank_ent(1, 1),
            blank_ent(1, 2),
            membership_ent(1, 3, id_set(&[1, 2, 3])),
        ];
        proof {
            let e = spec_member(1, 3, seq![1u64, 2u64, 3u64].to_set());
            let views = seq![spec_blank(0, 0), spec_blank(1, 1), spec_blank(1, 2), e];
            assert(entry_views(entries@) =~= views);
            lemma_appended_4(
                store.model().log,
                spec_blank(0, 0),
                spec_blank(1, 1),
                spec_blank(1, 2),
                e,
            );
            lemma_no_gap(views);
            lemma_last_log_id_empty(store.model());
            assert(store.model().log.insert(0, spec_blank(0, 0)).insert(1, spec_blank(1, 1)).insert(
                2,
                spec_blank(1, 2),
            ).insert(3, e) =~= dirty_log());
        }
        wanted(store.append_to_log(entries.as_slice()))?;

        let applied = vec![
            blank_ent(0, 0),
            blank_ent(2, 1),
            membership_ent(2, 2, id_set(&[3, 4, 5])),
        ];
        proof {
            let e = spec_member(2, 2, seq![3u64, 4u64, 5u64].to_set());
            let views = seq![spec_blank(0, 0), spec_blank(2, 1), e];
            assert(entry_views(applied@) =~= views);
            lemma_applied_last(store.model().last_membership, views);
        }
        proof {
            lemma_no_gap(entry_views(applied@));
        }
        wanted(store.apply_to_state_machine(applied.as_slice()))?;
        proof {
            assert(is_last_index(dirty_log(), 3));
            lemma_last_log_id(store.model(), 3);
        }
        Ok(())
    }

    /// Builds a store that holds nothing.
    fn new_store(builder: &B) -> (r: Result<S, SuiteError>)
        requires
            builder.can_build(),
        ensures
            match r {
                Ok(store) => fresh(&store) && store.model().defensive == builder.defensive()
                    && store.model().reliable == builder.reliable(),
                Err(e) => e matches SuiteError::Storage(StorageError::IO { .. })
                    && !builder.reliable(),
            },
    {
        wanted(builder.build())
    }

    /// Runs every scenario for plain stores, each on a store of its own.
    /// Plain stores that meet the storage contract pass, unless their I/O
    /// fails. Defensive stores end with the objection of the first scenario
    /// that does what only a plain store allows.
    pub fn test_store(builder: &B) -> (r: Result<(), SuiteError>)
        requires
            builder.can_build(),
        ensures
            ends_with(
                r,
                builder.reliable(),
                if builder.defensive() {
                    repeat_objection(1, 1)
                } else {
                    Ok(())
                },
            ),
    {
        Self::last_membership_in_log_initial(Self::new_store(builder)?)?;
        Self::last_membership_in_log(Self::new_store(builder)?)?;
        Self::last_membership_in_log_multi_step(Self::new_store(builder)?)?;
        Self::get_membership_initial(Self::new_store(builder)?)?;
        Self::get_membership_from_log_and_empty_sm(Self::new_store(builder)?)?;
        Self::get_membership_from_log_and_sm(Self::new_store(builder)?)?;
        Self::get_initial_state_without_init(Self::new_store(builder)?)?;
        Self::get_initial_state_membership_from_log_and_sm(Self::new_store(builder)?)?;
        Self::get_initial_state_with_state(Self::new_store(builder)?)?;
        Self::get_initial_state_last_log_gt_sm(Self::new_store(builder)?)?;
        Self::get_initial_state_last_log_lt_sm(Self::new_store(builder)?)?;
        Self::get_initial_state_log_ids(Self::new_store(builder)?)?;
        Self::save_vote(Self::new_store(builder)?)?;
        Self::get_log_entries(Self::new_store(builder)?)?;
        Self::try_get_log_entry(Self::new_store(builder)?)?;
        Self::initial_logs(Self::new_store(builder)?)?;
        Self::get_log_state(Self::new_store(builder)?)?;
        Self::get_log_id(Self::new_store(builder)?)?;
        Self::last_id_in_log(Self::new_store(builder)?)?;
        Self::last_applied_state(Self::new_store(builder)?)?;
        Self::purge_logs_upto_0(Self::new_store(builder)?)?;
        Self::purge_logs_upto_5(Self::new_store(builder)?)?;
        Self::purge_logs_upto_20(Self::new_store(builder)?)?;
        Self::delete_logs_since_11(Self::new_store(builder)?)?;
        Self::delete_logs_since_0(Self::new_store(builder)?)?;
        Self::append_to_log(Self::new_store(builder)?)?;
        Self::snapshot_meta(Self::new_store(builder)?)?;
        Ok(())
    }

    /// Runs every scenario for defensive stores, each on a store of its
    /// own. A store with defensive checks reports what is wrong with its
    /// input. Defensive stores that meet the storage contract pass, unless
    /// their I/O fails. Plain stores end with the mismatch of the first
    /// scenario.
    pub fn test_store_defensive(builder: &B) -> (r: Result<(), SuiteError>)
        requires
            builder.can_build(),
        ensures
            ends_with(
                r,
                builder.reliable(),
                if builder.defensive() {
                    Ok(())
                } else {
                    Err(SuiteError::Mismatch(Scenario::DfGetMembershipConfigDirtyLog))
                },
            ),
    {
        Self::df_get_membership_config_dirty_log(Self::new_store(builder)?)?;
        Self::df_get_initial_state_dirty_log(Self::new_store(builder)?)?;
        Self::df_save_vote_ascending(Self::new_store(builder)?)?;
        Self::df_get_log_entries(Self::new_store(builder)?)?;
        Self::df_append_to_log_nonempty_input(Self::new_store(builder)?)?;
        Self::df_append_to_log_nonconsecutive_input(Self::new_store(builder)?)?;
        Self::df_append_to_log_eq_last_plus_one(Self::new_store(builder)?)?;
        Self::df_append_to_log_eq_last_applied_plus_one(Self::new_store(builder)?)?;
        Self::df_append_to_log_gt_last_log_id(Self::new_store(builder)?)?;
        Self::df_append_to_log_gt_last_applied_id(Self::new_store(builder)?)?;
        Self::df_apply_nonempty_input(Self::new_store(builder)?)?;
        Self::df_apply_index_eq_last_applied_plus_one(Self::new_store(builder)?)?;
        Self::df_apply_gt_last_applied_id(Self::new_store(builder)?)?;
        Self::df_purge_applied_le_last_applied(Self::new_store(builder)?)?;
        Self::df_delete_conflict_gt_last_applied(Self::new_store(builder)?)?;
        Ok(())
    }

    /// Runs every scenario: those for plain stores on the stores of
    /// `builder`, and those for defensive stores on defensive stores on top
    /// of them. A builder of defensive stores ends where the scenarios for
    /// plain stores end on its stores.
    pub fn test_all(builder: B) -> (r: Result<(), SuiteError>)
        requires
            builder.can_build(),
        ensures
            ends_with(
                r,
                builder.reliable(),
                if builder.defensive() {
                    repeat_objection(1, 1)
                } else {
                    Ok(())
                },
            ),
    {
        Self::test_store(&builder)?;
        let df_builder = DefensiveStoreBuilder::new(builder);
        Suite::<DefensiveStore<S>, DefensiveStoreBuilder<S, B>>::test_store_defensive(&df_builder)?;
        Ok(())
    }
}

/// The log of the scenarios for a dirty log: blank entries with the log
/// ids (0,0), (1,1) and (1,2), and a membership entry with the log id (1,3).
pub open spec fn dirty_log() -> Map<u64, EntryView> {
    Map::new(
        |i: u64| i < 4,
        |i: u64|
            if i == 0 {
                spec_blank(0, 0)
            } else if i == 3 {
                spec_member(1, 3, seq![1u64, 2u64, 3u64].to_set())
            } else {
                spec_blank(1, i)
            },
    )
}

} // verus!
