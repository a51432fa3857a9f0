//! The storage that the core consumes: a log store, a vote store and a
//! state machine with its snapshots.

use vstd::prelude::*;

use crate::entry::entry_views;
use crate::entry::Entry;
use crate::log_id::LogId;
use crate::membership::stored_membership::StoredMembership;
use crate::storage::model::answers;
use crate::storage::model::is_log_slice;
use crate::storage::model::LogIndexRange;
use crate::storage::model::LogState;
use crate::storage::model::SnapshotView;
use crate::storage::model::StoreModel;
use crate::storage::snapshot_data::SnapshotData;
use crate::storage::snapshot_data::SnapshotDataView;
use crate::storage::snapshot_meta::SnapshotMeta;
use crate::storage_error::DefensiveError;
use crate::storage_error::StorageError;
use crate::vote::Vote;

verus! {

/// A snapshot: its metadata, and its bytes in a seekable buffer.
#[derive(Debug)]
pub struct Snapshot {
    pub meta: SnapshotMeta,
    pub snapshot: SnapshotData,
}

impl Snapshot {
    pub fn new(meta: SnapshotMeta, snapshot: SnapshotData) -> (r: Self)
        ensures
            r.meta == meta,
            r.snapshot == snapshot,
    {
        Snapshot { meta, snapshot }
    }

    /// What the snapshot is for a store: its metadata and all of its bytes.
    pub open spec fn stored(&self) -> SnapshotView {
        SnapshotView { meta: self.meta@, data: self.snapshot@.bytes }
    }
}

/// A call of a store went from `before` to `after` and answered `r`, where
/// a defensive store objects with `violation`, and the call, once accepted,
/// leads to `next`.
///
/// The store answers as `answers` says. Where it answers `Ok`, it is in the
/// state `next`. Where it objects, nothing has changed. It stays defensive
/// or plain, and reliable or not, whatever happens.
pub open spec fn step<T>(
    before: StoreModel,
    after: StoreModel,
    r: Result<T, StorageError>,
    violation: Option<DefensiveError>,
    next: StoreModel,
) -> bool {
    &&& answers(before, r, violation)
    &&& after.defensive == before.defensive
    &&& after.reliable == before.reliable
    &&& r is Ok ==> after == next
    &&& r matches Err(StorageError::Defensive { .. }) ==> after == before
}

/// The storage of a raft node.
///
/// The contract of every operation is stated over the model of the store.
/// An implementation says what its model is.
pub trait RaftStorage: Sized {
    /// What the store holds.
    spec fn model(&self) -> StoreModel;

    /// The invariant of the implementation.
    spec fn inv(&self) -> bool;

    /// The invariant of the implementation makes the model well-formed.
    proof fn lemma_inv(&self)
        requires
            self.inv(),
        ensures
            self.model().wf(),
    ;

    /// Saves the vote durably. A defensive store rejects a vote below the
    /// saved one.
    fn save_vote(&mut self, vote: &Vote) -> (r: Result<(), StorageError>)
        requires
            old(self).inv(),
        ensures
            final(self).inv(),
            step(
                old(self).model(),
                final(self).model(),
                r,
                old(self).model().save_vote_violation(*vote),
                old(self).model().save_vote(*vote),
            ),
    ;

    /// Reads the saved vote.
    fn read_vote(&mut self) -> (r: Result<Option<Vote>, StorageError>)
        requires
            old(self).inv(),
        ensures
            final(self).inv(),
            step(old(self).model(), final(self).model(), r, None, old(self).model()),
            r matches Ok(v) ==> v == old(self).model().vote,
    ;

    /// Reads the state of the log. A defensive store rejects a log that
    /// goes beyond the last applied index with a smaller log id.
    fn get_log_state(&mut self) -> (r: Result<LogState, StorageError>)
        requires
            old(self).inv(),
        ensures
            final(self).inv(),
            step(
                old(self).model(),
                final(self).model(),
                r,
                old(self).model().dirty_log_violation(),
                old(self).model(),
            ),
            r matches Ok(st) ==> st == old(self).model().log_state(),
    ;

    /// Reads the log entries with an index in `range`, by increasing index.
    /// Entries that are absent are left out. A defensive store rejects a
    /// range with both bounds and nothing between them.
    fn try_get_log_entries(&mut self, range: LogIndexRange) -> (r: Result<Vec<Entry>, StorageError>)
        requires
            old(self).inv(),
        ensures
            final(self).inv(),
            step(
                old(self).model(),
                final(self).model(),
                r,
                old(self).model().range_violation(range),
                old(self).model(),
            ),
            r matches Ok(entries) ==> is_log_slice(old(self).model().log, range, entry_views(entries@)),
    ;

    /// Appends entries to the log, each at its index. A defensive store
    /// rejects no entries, entries that do not follow one another, and
    /// entries that do not follow the last log id.
    fn append_to_log(&mut self, entries: &[Entry]) -> (r: Result<(), StorageError>)
        requires
            old(self).inv(),
        ensures
            final(self).inv(),
            step(
                old(self).model(),
                final(self).model(),
                r,
                old(self).model().append_violation(entry_views(entries@)),
                old(self).model().append(entry_views(entries@)),
            ),
    ;

    /// Deletes the log entries from `log_id` on, inclusive: they conflict
    /// with the leader's. A defensive store rejects an index that is applied
    /// already.
    fn delete_conflict_logs_since(&mut self, log_id: LogId) -> (r: Result<(), StorageError>)
        requires
            old(self).inv(),
        ensures
            final(self).inv(),
            step(
                old(self).model(),
                final(self).model(),
                r,
                old(self).model().delete_violation(log_id),
                old(self).model().delete_since(log_id),
            ),
    ;

    /// Purges the log up to `log_id`, inclusive. A defensive store rejects
    /// an index beyond the last applied one.
    fn purge_logs_upto(&mut self, log_id: LogId) -> (r: Result<(), StorageError>)
        requires
            old(self).inv(),
        ensures
            final(self).inv(),
            step(
                old(self).model(),
                final(self).model(),
                r,
                old(self).model().purge_violation(log_id),
                old(self).model().purge(log_id),
            ),
    ;

    /// Reads what the state machine has applied: the last applied log id
    /// and the last applied membership.
    fn last_applied_state(&mut self) -> (r: Result<(Option<LogId>, StoredMembership), StorageError>)
        requires
            old(self).inv(),
        ensures
            final(self).inv(),
            step(old(self).model(), final(self).model(), r, None, old(self).model()),
            r matches Ok(st) ==> st.0 == old(self).model().last_applied && st.1@
                == old(self).model().last_membership,
    ;

    /// Applies entries to the state machine, and returns the response of
    /// the application to each. A defensive store rejects no entries, and
    /// entries that do not follow the last applied one.
    fn apply_to_state_machine(&mut self, entries: &[Entry]) -> (r: Result<
        Vec<Vec<u8>>,
        StorageError,
    >)
        requires
            old(self).inv(),
        ensures
            final(self).inv(),
            step(
                old(self).model(),
                final(self).model(),
                r,
                old(self).model().apply_violation(entry_views(entries@)),
                old(self).model().apply(entry_views(entries@)),
            ),
            r matches Ok(responses) ==> responses@.len() == entries@.len(),
    ;

    /// Builds a snapshot of the state machine. It becomes the last
    /// snapshot of the store.
    fn build_snapshot(&mut self) -> (r: Result<Snapshot, StorageError>)
        requires
            old(self).inv(),
        ensures
            final(self).inv(),
            r matches Ok(s) ==> old(self).model().is_snapshot_meta(s.meta@) && s.snapshot@.pos == 0
                && step(
                old(self).model(),
                final(self).model(),
                r,
                None,
                StoreModel { snapshot: Some(s.stored()), ..old(self).model() },
            ),
            r is Err ==> step(old(self).model(), final(self).model(), r, None, old(self).model()),
    ;

    /// Makes an empty buffer to receive a snapshot into.
    fn begin_receiving_snapshot(&mut self) -> (r: Result<SnapshotData, StorageError>)
        requires
            old(self).inv(),
        ensures
            final(self).inv(),
            step(old(self).model(), final(self).model(), r, None, old(self).model()),
            r matches Ok(d) ==> d@ == (SnapshotDataView { bytes: Seq::empty(), pos: 0 }),
    ;

    /// Installs a snapshot that was received: it replaces the state machine
    /// and the last snapshot.
    fn install_snapshot(&mut self, meta: &SnapshotMeta, snapshot: SnapshotData) -> (r: Result<
        (),
        StorageError,
    >)
        requires
            old(self).inv(),
        ensures
            final(self).inv(),
            step(
                old(self).model(),
                final(self).model(),
                r,
                None,
                old(self).model().install(SnapshotView { meta: meta@, data: snapshot@.bytes }),
            ),
    ;

    /// Reads the last snapshot, at position 0.
    fn get_current_snapshot(&mut self) -> (r: Result<Option<Snapshot>, StorageError>)
        requires
            old(self).inv(),
        ensures
            final(self).inv(),
            step(old(self).model(), final(self).model(), r, None, old(self).model()),
            r matches Ok(s) ==> match old(self).model().snapshot {
                Some(v) => s matches Some(got) && got.stored() == v && got.snapshot@.pos == 0,
                None => s is None,
            },
    ;
}

/// Builds stores that hold nothing yet.
pub trait StoreBuilder<S: RaftStorage>: Sized {
    /// Whether the stores that are built are defensive.
    spec fn defensive(&self) -> bool;

    /// Whether the I/O of the stores that are built never fails.
    spec fn reliable(&self) -> bool;

    /// Whether the builder can build: a builder of defensive stores needs
    /// plain stores to build on.
    spec fn can_build(&self) -> bool;

    /// Builds a store that holds nothing yet.
    fn build(&self) -> (r: Result<S, StorageError>)
        requires
            self.can_build(),
        ensures
            match r {
                Ok(store) => store.inv() && store.model() == StoreModel::initial(
                    self.defensive(),
                    self.reliable(),
                ),
                Err(e) => e is IO && !self.reliable(),
            },
    ;
}

} // verus!
