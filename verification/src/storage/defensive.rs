//! A store that checks the invariants of the storage contract at its
//! boundary.
//!
//! The checks find bugs of the caller, and corrupted stores. A violation is
//! reported as a `DefensiveError`, and the store is left as it was.

use std::marker::PhantomData;

use vstd::prelude::*;

use crate::entry::entry_views;
use crate::entry::Entry;
use crate::entry::EntryView;
use crate::log_id::opt_is_le;
use crate::log_id::LogId;
use crate::membership::stored_membership::StoredMembership;
use crate::storage::model::first_gap;
use crate::storage::model::LogIndexRange;
use crate::storage::model::LogState;
use crate::storage::model::StoreModel;
use crate::storage::raft_storage::RaftStorage;
use crate::storage::raft_storage::Snapshot;
use crate::storage::raft_storage::StoreBuilder;
use crate::storage::snapshot_data::SnapshotData;
use crate::storage::snapshot_meta::SnapshotMeta;
use crate::storage_error::DefensiveError;
use crate::storage_error::ErrorSubject;
use crate::storage_error::StorageError;
use crate::storage_error::Violation;
use crate::vote::Vote;

verus! {

/// A gap among the first `n` entries is the first gap of all.
pub proof fn lemma_first_gap_prefix(entries: Seq<EntryView>, n: int)
    requires
        0 <= n <= entries.len(),
        first_gap(entries.take(n)) < n,
    ensures
        first_gap(entries) == first_gap(entries.take(n)),
    decreases entries.len(),
{
    if n == entries.len() {
        assert(entries.take(n) == entries);
    } else {
        assert(entries.drop_last().take(n) == entries.take(n));
        lemma_first_gap_prefix(entries.drop_last(), n);
    }
}

/// The position of the first entry that does not follow the one before it
/// by index; the number of entries if there is none.
pub fn find_gap(entries: &[Entry]) -> (r: usize)
    ensures
        r == first_gap(entry_views(entries@)),
{
    let ghost views = entry_views(entries@);
    if entries.len() <= 1 {
        return entries.len();
    }
    let mut k: usize = 1;
    assert(first_gap(views.take(1)) == 1);
    while k < entries.len()
        invariant
            1 <= k <= entries@.len(),
            views == entry_views(entries@),
            first_gap(views.take(k as int)) == k,
        decreases entries.len() - k,
    {
        let prev = entries[k - 1].log_id.index;
        let next = entries[k].log_id.index;
        proof {
            let upto = views.take(k + 1);
            assert(upto.drop_last() == views.take(k as int));
            assert(upto[upto.len() - 2] == views[k - 1]);
            assert(upto.last() == views[k as int]);
            assert(views[k - 1] == entries@[k - 1]@);
            assert(views[k as int] == entries@[k as int]@);
        }
        if prev == u64::MAX || prev + 1 != next {
            proof {
                assert(first_gap(views.take(k + 1)) == k);
                lemma_first_gap_prefix(views, k + 1);
            }
            return k;
        }
        k += 1;
    }
    proof {
        assert(views.take(views.len() as int) == views);
    }
    entries.len()
}

/// A store that checks what it is asked to do, on top of a store that does
/// not.
#[derive(Debug)]
pub struct DefensiveStore<S: RaftStorage> {
    inner: S,
}

impl<S: RaftStorage> DefensiveStore<S> {
    /// The defensive store on top of `inner`.
    pub fn new(inner: S) -> (r: Self)
        requires
            inner.inv(),
            !inner.model().defensive,
        ensures
            r.inv(),
            r.model() == (StoreModel { defensive: true, ..inner.model() }),
    {
        DefensiveStore { inner }
    }

    /// The store underneath.
    pub fn into_inner(self) -> (r: S)
        requires
            self.inv(),
        ensures
            r.inv(),
            self.model() == (StoreModel { defensive: true, ..r.model() }),
            !r.model().defensive,
    {
        self.inner
    }
}

impl<S: RaftStorage> RaftStorage for DefensiveStore<S> {
    closed spec fn model(&self) -> StoreModel {
        StoreModel { defensive: true, ..self.inner.model() }
    }

    closed spec fn inv(&self) -> bool {
        self.inner.inv() && !self.inner.model().defensive
    }

    proof fn lemma_inv(&self) {
        self.inner.lemma_inv();
    }

    fn save_vote(&mut self, vote: &Vote) -> (r: Result<(), StorageError>) {
        let curr = match self.inner.read_vote() {
            Ok(Some(v)) => v,
            Ok(None) => Vote::default(),
            Err(e) => {
                return Err(e);
            },
        };
        if !curr.is_le(vote) {
            return Err(
                StorageError::defensive(
                    ErrorSubject::Vote,
                    Violation::VoteNotAscending { curr, to: *vote },
                ),
            );
        }
        self.inner.save_vote(vote)
    }

    fn read_vote(&mut self) -> (r: Result<Option<Vote>, StorageError>) {
        self.inner.read_vote()
    }

    fn get_log_state(&mut self) -> (r: Result<LogState, StorageError>) {
        let st = match self.inner.get_log_state() {
            Ok(st) => st,
            Err(e) => {
                return Err(e);
            },
        };
        let last_applied = match self.inner.last_applied_state() {
            Ok(applied) => applied.0,
            Err(e) => {
                return Err(e);
            },
        };
        match (st.last_log_id, last_applied) {
            (Some(last), Some(applied)) => {
                if last.index > applied.index && last.is_lt(&applied) {
                    return Err(
                        StorageError::defensive(
                            ErrorSubject::Log(last),
                            Violation::DirtyLog {
                                higher_index_log_id: last,
                                lower_index_log_id: applied,
                            },
                        ),
                    );
                }
            },
            _ => {},
        }
        Ok(st)
    }

    fn try_get_log_entries(&mut self, range: LogIndexRange) -> (r: Result<Vec<Entry>, StorageError>) {
        match (range.start, range.end) {
            (Some(s), Some(e)) => {
                if s >= e {
                    let last: u64 = if e == 0 {
                        0
                    } else {
                        e - 1
                    };
                    return Err(
                        StorageError::defensive(
                            ErrorSubject::Logs,
                            Violation::RangeEmpty { start: Some(s), end: Some(last) },
                        ),
                    );
                }
            },
            _ => {},
        }
        self.inner.try_get_log_entries(range)
    }

    fn append_to_log(&mut self, entries: &[Entry]) -> (r: Result<(), StorageError>) {
        let ghost views = entry_views(entries@);
        if entries.len() == 0 {
            return Err(StorageError::defensive(ErrorSubject::Logs, Violation::LogsEmpty));
        }
        let gap = find_gap(entries);
        if gap < entries.len() {
            assert(gap >= 1) by {
                if entries@.len() > 1 {
                    lemma_first_gap_positive(views);
                }
            }
            assert(views[gap - 1] == entries@[gap - 1]@);
            assert(views[gap as int] == entries@[gap as int]@);
            return Err(
                StorageError::defensive(
                    ErrorSubject::Logs,
                    Violation::LogsNonConsecutive {
                        prev: Some(entries[gap - 1].log_id),
                        next: entries[gap].log_id,
                    },
                ),
            );
        }
        let last = match self.inner.get_log_state() {
            Ok(st) => st.last_log_id,
            Err(e) => {
                return Err(e);
            },
        };
        let first = entries[0].log_id;
        assert(views[0] == entries@[0]@);
        let follows = match last {
            None => first.index == 0,
            Some(l) => l.index < u64::MAX && l.index + 1 == first.index,
        };
        if !follows || (last.is_some() && opt_is_le(&Some(first), &last)) {
            return Err(
                StorageError::defensive(
                    ErrorSubject::Log(first),
                    Violation::LogsNonConsecutive { prev: last, next: first },
                ),
            );
        }
        self.inner.append_to_log(entries)
    }

    fn delete_conflict_logs_since(&mut self, log_id: LogId) -> (r: Result<(), StorageError>) {
        let last_applied = match self.inner.last_applied_state() {
            Ok(applied) => applied.0,
            Err(e) => {
                return Err(e);
            },
        };
        let applied = match last_applied {
            None => false,
            Some(a) => log_id.index <= a.index,
        };
        if applied {
            return Err(
                StorageError::defensive(
                    ErrorSubject::Log(log_id),
                    Violation::AppliedWontConflict { last_applied, first_conflict_log_id: log_id },
                ),
            );
        }
        self.inner.delete_conflict_logs_since(log_id)
    }

    fn purge_logs_upto(&mut self, log_id: LogId) -> (r: Result<(), StorageError>) {
        let last_applied = match self.inner.last_applied_state() {
            Ok(applied) => applied.0,
            Err(e) => {
                return Err(e);
            },
        };
        let applied = match last_applied {
            None => false,
            Some(a) => log_id.index <= a.index,
        };
        if !applied {
            return Err(
                StorageError::defensive(
                    ErrorSubject::Log(log_id),
                    Violation::PurgeNonApplied { last_applied, purge_upto: log_id },
                ),
            );
        }
        self.inner.purge_logs_upto(log_id)
    }

    fn last_applied_state(&mut self) -> (r: Result<(Option<LogId>, StoredMembership), StorageError>) {
        self.inner.last_applied_state()
    }

    fn apply_to_state_machine(&mut self, entries: &[Entry]) -> (r: Result<
        Vec<Vec<u8>>,
        StorageError,
    >) {
        let ghost views = entry_views(entries@);
        if entries.len() == 0 {
            return Err(StorageError::defensive(ErrorSubject::Logs, Violation::LogsEmpty));
        }
        let gap = find_gap(entries);
        if gap < entries.len() {
            assert(gap >= 1) by {
                if entries@.len() > 1 {
                    lemma_first_gap_positive(views);
                }
            }
            assert(views[gap - 1] == entries@[gap - 1]@);
            assert(views[gap as int] == entries@[gap as int]@);
            return Err(
                StorageError::defensive(
                    ErrorSubject::Logs,
                    Violation::LogsNonConsecutive {
                        prev: Some(entries[gap - 1].log_id),
                        next: entries[gap].log_id,
                    },
                ),
            );
        }
        let last_applied = match self.inner.last_applied_state() {
            Ok(applied) => applied.0,
            Err(e) => {
                return Err(e);
            },
        };
        let first = entries[0].log_id;
        assert(views[0] == entries@[0]@);
        let follows = match last_applied {
            None => first.index == 0,
            Some(l) => l.index < u64::MAX && l.index + 1 == first.index,
        };
        if !follows || (last_applied.is_some() && opt_is_le(&Some(first), &last_applied)) {
            return Err(
                StorageError::defensive(
                    ErrorSubject::Apply(first),
                    Violation::ApplyNonConsecutive { prev: last_applied, next: first },
                ),
            );
        }
        self.inner.apply_to_state_machine(entries)
    }

    fn build_snapshot(&mut self) -> (r: Result<Snapshot, StorageError>) {
        self.inner.build_snapshot()
    }

    fn begin_receiving_snapshot(&mut self) -> (r: Result<SnapshotData, StorageError>) {
        self.inner.begin_receiving_snapshot()
    }

    fn install_snapshot(&mut self, meta: &SnapshotMeta, snapshot: SnapshotData) -> (r: Result<
        (),
        StorageError,
    >) {
        self.inner.install_snapshot(meta, snapshot)
    }

    fn get_current_snapshot(&mut self) -> (r: Result<Option<Snapshot>, StorageError>) {
        self.inner.get_current_snapshot()
    }
}

/// A gap is never at the first entry.
pub proof fn lemma_first_gap_positive(entries: Seq<EntryView>)
    requires
        entries.len() >= 1,
    ensures
        first_gap(entries) >= 1,
    decreases entries.len(),
{
    if entries.len() > 1 {
        lemma_first_gap_positive(entries.drop_last());
    }
}

/// Builds defensive stores, on top of the stores of another builder.
#[derive(Debug)]
pub struct DefensiveStoreBuilder<S: RaftStorage, B: StoreBuilder<S>> {
    pub base_builder: B,
    pub s: PhantomData<S>,
}

impl<S: RaftStorage, B: StoreBuilder<S>> DefensiveStoreBuilder<S, B> {
    /// The builder of defensive stores on top of those of `base_builder`.
    pub fn new(base_builder: B) -> (r: Self)
        ensures
            r.base_builder == base_builder,
    {
        DefensiveStoreBuilder { base_builder, s: PhantomData }
    }
}

impl<S: RaftStorage, B: StoreBuilder<S>> StoreBuilder<DefensiveStore<S>> for DefensiveStoreBuilder<
    S,
    B,
> {
    open spec fn defensive(&self) -> bool {
        true
    }

    open spec fn reliable(&self) -> bool {
        self.base_builder.reliable()
    }

    open spec fn can_build(&self) -> bool {
        self.base_builder.can_build() && !self.base_builder.defensive()
    }

    /// Builds a defensive store, if the base builder builds plain stores.
    fn build(&self) -> (r: Result<DefensiveStore<S>, StorageError>) {
        match self.base_builder.build() {
            Ok(inner) => Ok(DefensiveStore::new(inner)),
            Err(e) => Err(e),
        }
    }
}

} // verus!
