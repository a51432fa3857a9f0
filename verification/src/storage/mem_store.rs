//! A store in memory.

use std::collections::BTreeMap;

use vstd::prelude::*;

use crate::entry::bytes_clone;
use crate::entry::entry_views;
use crate::entry::Entry;
use crate::entry::EntryPayload;
use crate::entry::EntryView;
use crate::log_id::opt_is_le;
use crate::log_id::LogId;
use crate::membership::into_nodes::ids_increasing;
use crate::membership::into_nodes::map_keys;
use crate::membership::stored_membership::StoredMembership;
use crate::storage::model::appended;
use crate::storage::model::applied_log_id;
use crate::storage::model::applied_membership;
use crate::storage::model::is_last_index;
use crate::storage::model::purged;
use crate::storage::model::truncated;
use crate::storage::model::LogIndexRange;
use crate::storage::model::LogState;
use crate::storage::model::SnapshotView;
use crate::storage::model::StoreModel;
use crate::storage::raft_storage::RaftStorage;
use crate::storage::raft_storage::Snapshot;
use crate::storage::raft_storage::StoreBuilder;
use crate::storage::snapshot_data::SnapshotData;
use crate::storage::snapshot_meta::SnapshotMeta;
use crate::storage_error::StorageError;
use crate::vote::Vote;

verus! {

broadcast use vstd::std_specs::btree::group_btree_axioms;

/// The views of the entries of a log, by index.
pub open spec fn log_views(log: Map<u64, Entry>) -> Map<u64, EntryView> {
    Map::new(|i: u64| log.contains_key(i), |i: u64| log[i]@)
}

/// A store in memory. It does not check what it is asked to do, and its
/// I/O never fails.
///
/// Its state machine keeps the request that it applied last, as the state
/// of the application; a snapshot holds that state.
#[derive(Debug)]
pub struct MemStore {
    vote: Option<Vote>,
    log: BTreeMap<u64, Entry>,
    last_purged: Option<LogId>,
    last_applied: Option<LogId>,
    last_membership: StoredMembership,
    app_state: Vec<u8>,
    snapshot: Option<(SnapshotMeta, Vec<u8>)>,
    snapshot_count: u64,
}

impl MemStore {
    /// A store that holds nothing yet.
    pub fn new() -> (r: Self)
        ensures
            r.inv(),
            r.model() == StoreModel::initial(false, true),
    {
        let r = MemStore {
            vote: None,
            log: BTreeMap::new(),
            last_purged: None,
            last_applied: None,
            last_membership: StoredMembership::default(),
            app_state: Vec::new(),
            snapshot: None,
            snapshot_count: 0,
        };
        assert(log_views(r.log@) =~= Map::<u64, EntryView>::empty());
        assert(r.last_membership@ == crate::storage::model::initial_membership());
        r
    }

    /// The model of the last snapshot.
    pub closed spec fn snapshot_view(&self) -> Option<SnapshotView> {
        match self.snapshot {
            Some((meta, data)) => Some(SnapshotView { meta: meta@, data: data@ }),
            None => None,
        }
    }

    /// The state of the application: the request that was applied last.
    pub closed spec fn app_state(&self) -> Seq<u8> {
        self.app_state@
    }

    /// The index of the last entry in the log.
    fn last_index(&self) -> (r: Option<u64>)
        requires
            self.inv(),
        ensures
            match r {
                Some(i) => is_last_index(self.model().log, i),
                None => self.model().log.dom() =~= Set::<u64>::empty(),
            },
    {
        let keys = map_keys(&self.log);
        let n = keys.len();
        if n == 0 {
            proof {
                assert forall|i: u64| !self.log@.dom().contains(i) by {
                    if self.log@.dom().contains(i) {
                        assert(keys@.to_set().contains(i));
                    }
                }
            }
            return None;
        }
        let last = keys[n - 1];
        proof {
            assert(keys@.to_set().contains(keys@[n - 1]));
            assert forall|j: u64| self.model().log.contains_key(j) implies j <= last by {
                assert(keys@.to_set().contains(j));
                let p = choose|p: int| 0 <= p < keys@.len() && keys@[p] == j;
                if p < n - 1 {
                    assert(keys@[p] < keys@[n - 1]);
                }
            }
        }
        Some(last)
    }

    /// Keeps the entries with an index below `bound`, if `below`, and else
    /// those with an index above it.
    fn retain(&mut self, bound: u64, below: bool)
        requires
            old(self).inv(),
        ensures
            final(self).inv(),
            final(self).model() == (StoreModel {
                log: if below {
                    truncated(old(self).model().log, bound)
                } else {
                    purged(old(self).model().log, bound)
                },
                ..old(self).model()
            }),
            final(self).app_state() == old(self).app_state(),
    {
        let keys = map_keys(&self.log);
        let ghost before = self.log@;
        let mut k: usize = 0;
        while k < keys.len()
            invariant
                0 <= k <= keys.len(),
                keys@.to_set() == before.dom(),
                ids_increasing(keys@),
                old(self).inv(),
                forall|i: u64|
                    #![trigger self.log@.contains_key(i)]
                    self.log@.contains_key(i) <==> before.contains_key(i) && (is_kept(bound, below, i)
                        || is_pending(keys@, k as int, i)),
                forall|i: u64| self.log@.contains_key(i) ==> self.log@[i] == before[i],
                self.vote == old(self).vote,
                self.last_purged == old(self).last_purged,
                self.last_applied == old(self).last_applied,
                self.last_membership == old(self).last_membership,
                self.app_state == old(self).app_state,
                self.snapshot == old(self).snapshot,
                self.snapshot_count == old(self).snapshot_count,
                before == old(self).log@,
            decreases keys.len() - k,
        {
            let key = keys[k];
            let keep = if below {
                key < bound
            } else {
                key > bound
            };
            let ghost map_before = self.log@;
            proof {
                assert(keys@.to_set().contains(keys@[k as int]));
                assert forall|i: u64| is_pending(keys@, k as int, i) <==> (i == key || is_pending(
                    keys@,
                    k + 1,
                    i,
                )) by {
                    if is_pending(keys@, k as int, i) {
                        let p = choose|p: int| k <= p < keys@.len() && keys@[p] == i;
                        if p > k {
                            assert(is_pending(keys@, k + 1, i));
                        }
                    }
                    if is_pending(keys@, k + 1, i) {
                        let p = choose|p: int| k + 1 <= p < keys@.len() && keys@[p] == i;
                        assert(k <= p < keys@.len() && keys@[p] == i);
                    }
                    if i == key {
                        assert(k <= k < keys@.len() && keys@[k as int] == i);
                    }
                }
                assert(!is_pending(keys@, k + 1, key)) by {
                    if is_pending(keys@, k + 1, key) {
                        let p = choose|p: int| k + 1 <= p < keys@.len() && keys@[p] == key;
                        assert(keys@[k as int] < keys@[p]);
                    }
                }
            }
            if !keep {
                self.log.remove(&key);
                assert(self.log@ == map_before.remove(key));
            }
            proof {
                assert forall|i: u64| #![trigger self.log@.contains_key(i)] self.log@.contains_key(i) <==> before.contains_key(i) && (is_kept(bound, below, i) || is_pending(keys@, k + 1, i)) by {
                    assert(map_before.contains_key(i) <==> before.contains_key(i) && (is_kept(
                        bound,
                        below,
                        i,
                    ) || is_pending(keys@, k as int, i)));
                }
            }
            k += 1;
        }
        proof {
            assert forall|i: u64| !is_pending(keys@, keys@.len() as int, i) by {}
            assert forall|i: u64| self.log@.contains_key(i) implies (
            #[trigger] self.log@[i]).log_id.index == i by {
                assert(before.contains_key(i));
                assert(self.log@[i] == before[i]);
                assert(old(self).log@[i].log_id.index == i);
            }
            assert(self.log@.dom() =~= before.dom().intersect(Set::new(|i: u64| is_kept(bound, below, i))));
            if below {
                assert(self.model().log =~= truncated(old(self).model().log, bound));
            } else {
                assert(self.model().log =~= purged(old(self).model().log, bound));
            }
        }
    }
}

/// Whether an entry at index `i` stays when the log is cut at `bound`: the
/// entries below `bound` stay, if `below`, and else those above it.
pub open spec fn is_kept(bound: u64, below: bool, i: u64) -> bool {
    if below {
        i < bound
    } else {
        i > bound
    }
}

/// Whether the index `i` is among the keys from position `k` on.
pub open spec fn is_pending(keys: Seq<u64>, k: int, i: u64) -> bool {
    exists|p: int| k <= p < keys.len() && keys[p] == i
}

impl RaftStorage for MemStore {
    closed spec fn model(&self) -> StoreModel {
        StoreModel {
            defensive: false,
            reliable: true,
            vote: self.vote,
            log: log_views(self.log@),
            last_purged: self.last_purged,
            last_applied: self.last_applied,
            last_membership: self.last_membership@,
            snapshot: self.snapshot_view(),
        }
    }

    closed spec fn inv(&self) -> bool {
        forall|i: u64| self.log@.contains_key(i) ==> (#[trigger] self.log@[i]).log_id.index == i
    }

    proof fn lemma_inv(&self) {
        assert(self.model().log.dom() =~= self.log@.dom());
    }

    fn save_vote(&mut self, vote: &Vote) -> (r: Result<(), StorageError>) {
        self.vote = Some(*vote);
        Ok(())
    }

    fn read_vote(&mut self) -> (r: Result<Option<Vote>, StorageError>) {
        Ok(self.vote)
    }

    fn get_log_state(&mut self) -> (r: Result<LogState, StorageError>) {
        let last_log_id = match self.last_index() {
            Some(i) => {
                let e = self.log.get(&i).unwrap();
                proof {
                    let chosen = choose|j: u64| is_last_index(self.model().log, j);
                    assert(is_last_index(self.model().log, chosen));
                    assert(chosen == i);
                }
                Some(e.log_id)
            },
            None => {
                proof {
                    assert forall|j: u64| !is_last_index(self.model().log, j) by {
                        assert(!self.model().log.dom().contains(j));
                    }
                }
                self.last_purged
            },
        };
        Ok(LogState { last_purged_log_id: self.last_purged, last_log_id })
    }

    fn try_get_log_entries(&mut self, range: LogIndexRange) -> (r: Result<Vec<Entry>, StorageError>) {
        let keys = map_keys(&self.log);
        let mut out: Vec<Entry> = Vec::new();
        let ghost log = self.model().log;
        let mut k: usize = 0;
        while k < keys.len()
            invariant
                0 <= k <= keys.len(),
                self.inv(),
                log == self.model().log,
                *self == *old(self),
                keys@.to_set() == self.log@.dom(),
                ids_increasing(keys@),
                forall|i: int|
                    0 <= i < out@.len() ==> range.contains((#[trigger] out@[i]).log_id.index)
                        && log.contains_key(out@[i].log_id.index) && log[out@[i].log_id.index]
                        == out@[i]@,
                forall|i: int, j: int|
                    0 <= i < j < out@.len() ==> (#[trigger] out@[i]).log_id.index < (
                    #[trigger] out@[j]).log_id.index,
                forall|i: int, p: int|
                    0 <= i < out@.len() && k <= p < keys@.len() ==> (#[trigger] out@[i]).log_id.index
                        < #[trigger] keys@[p],
                forall|p: int|
                    0 <= p < k && range.contains(#[trigger] keys@[p]) ==> exists|i: int|
                        0 <= i < out@.len() && (#[trigger] out@[i]).log_id.index == keys@[p],
            decreases keys.len() - k,
        {
            let key = keys[k];
            proof {
                assert(keys@.to_set().contains(keys@[k as int]));
            }
            if range.has(key) {
                let e = self.log.get(&key).unwrap().clone();
                let ghost before = out@;
                out.push(e);
                proof {
                    let n = before.len() as int;
                    assert(out@[n].log_id.index == key);
                    assert forall|i: int, j: int| 0 <= i < j < out@.len() implies (
                    #[trigger] out@[i]).log_id.index < (#[trigger] out@[j]).log_id.index by {
                        if j == n {
                            assert(out@[i] == before[i]);
                            assert(before[i].log_id.index < keys@[k as int]);
                        } else {
                            assert(out@[i] == before[i] && out@[j] == before[j]);
                        }
                    }
                    assert forall|i: int, p: int|
                        0 <= i < out@.len() && k + 1 <= p < keys@.len() implies (
                    #[trigger] out@[i]).log_id.index < #[trigger] keys@[p] by {
                        if i == n {
                            assert(keys@[k as int] < keys@[p]);
                        } else {
                            assert(out@[i] == before[i]);
                        }
                    }
                    assert forall|p: int| 0 <= p < k + 1 && range.contains(#[trigger] keys@[p]) implies exists|
                        i: int,
                    |
                        0 <= i < out@.len() && (#[trigger] out@[i]).log_id.index == keys@[p] by {
                        if p == k {
                            assert(out@[n].log_id.index == keys@[p]);
                        } else {
                            let i = choose|i: int|
                                0 <= i < before.len() && (#[trigger] before[i]).log_id.index
                                    == keys@[p];
                            assert(out@[i] == before[i]);
                        }
                    }
                    assert forall|i: int| 0 <= i < out@.len() implies range.contains(
                        (#[trigger] out@[i]).log_id.index,
                    ) && log.contains_key(out@[i].log_id.index) && log[out@[i].log_id.index]
                        == out@[i]@ by {
                        if i < n {
                            assert(out@[i] == before[i]);
                        }
                    }
                }
            }
            k += 1;
        }
        proof {
            let views = entry_views(out@);
            assert forall|i: u64| #![trigger log.contains_key(i)] log.contains_key(i) && range.contains(i) implies exists|
                p: int,
            |
                0 <= p < views.len() && (#[trigger] views[p]).log_id.index == i by {
                assert(keys@.to_set().contains(i));
                let q = choose|q: int| 0 <= q < keys@.len() && keys@[q] == i;
                assert(range.contains(keys@[q]));
                let p = choose|p: int| 0 <= p < out@.len() && (#[trigger] out@[p]).log_id.index == keys@[q];
                assert(views[p].log_id.index == i);
            }
            assert forall|i: int| 0 <= i < views.len() implies range.contains(
                (#[trigger] views[i]).log_id.index,
            ) && log.contains_key(views[i].log_id.index) && log[views[i].log_id.index] == views[i] by {
                assert(views[i] == out@[i]@);
                assert(range.contains(out@[i].log_id.index));
            }
            assert forall|i: int, j: int| 0 <= i < j < views.len() implies (
            #[trigger] views[i]).log_id.index < (#[trigger] views[j]).log_id.index by {
                assert(out@[i].log_id.index < out@[j].log_id.index);
            }
        }
        Ok(out)
    }

    fn append_to_log(&mut self, entries: &[Entry]) -> (r: Result<(), StorageError>) {
        let ghost views = entry_views(entries@);
        let mut k: usize = 0;
        while k < entries.len()
            invariant
                0 <= k <= entries@.len(),
                self.inv(),
                views == entry_views(entries@),
                self.model() == (StoreModel {
                    log: appended(old(self).model().log, views.take(k as int)),
                    ..old(self).model()
                }),
                self.app_state == old(self).app_state,
            decreases entries.len() - k,
        {
            let e = entries[k].clone();
            let ghost before = self.model().log;
            proof {
                assert(views.take(k + 1).drop_last() == views.take(k as int));
                assert(views.take(k + 1).last() == views[k as int]);
                assert(views[k as int] == entries@[k as int]@);
            }
            self.log.insert(e.log_id.index, e);
            proof {
                assert(self.model().log =~= before.insert(
                    views[k as int].log_id.index,
                    views[k as int],
                ));
            }
            k += 1;
        }
        proof {
            assert(views.take(views.len() as int) == views);
        }
        Ok(())
    }

    fn delete_conflict_logs_since(&mut self, log_id: LogId) -> (r: Result<(), StorageError>) {
        self.retain(log_id.index, true);
        Ok(())
    }

    fn purge_logs_upto(&mut self, log_id: LogId) -> (r: Result<(), StorageError>) {
        if opt_is_le(&Some(log_id), &self.last_purged) {
            return Ok(());
        }
        self.last_purged = Some(log_id);
        self.retain(log_id.index, false);
        Ok(())
    }

    fn last_applied_state(&mut self) -> (r: Result<(Option<LogId>, StoredMembership), StorageError>) {
        Ok((self.last_applied, self.last_membership.clone()))
    }

    fn apply_to_state_machine(&mut self, entries: &[Entry]) -> (r: Result<
        Vec<Vec<u8>>,
        StorageError,
    >) {
        let ghost views = entry_views(entries@);
        let mut responses: Vec<Vec<u8>> = Vec::new();
        let mut k: usize = 0;
        while k < entries.len()
            invariant
                0 <= k <= entries@.len(),
                self.inv(),
                views == entry_views(entries@),
                responses@.len() == k,
                self.model() == (StoreModel {
                    last_applied: applied_log_id(old(self).model().last_applied, views.take(k as int)),
                    last_membership: applied_membership(
                        old(self).model().last_membership,
                        views.take(k as int),
                    ),
                    ..old(self).model()
                }),
            decreases entries.len() - k,
        {
            let e = &entries[k];
            proof {
                assert(views.take(k + 1).drop_last() == views.take(k as int));
                assert(views.take(k + 1).last() == views[k as int]);
                assert(views[k as int] == entries@[k as int]@);
            }
            self.last_applied = Some(e.log_id);
            match &e.payload {
                EntryPayload::Blank => {
                    responses.push(Vec::new());
                },
                EntryPayload::Normal(data) => {
                    // The response to a request is the state that it replaces.
                    let mut previous = bytes_clone(data);
                    std::mem::swap(&mut self.app_state, &mut previous);
                    responses.push(previous);
                },
                EntryPayload::Membership(m) => {
                    self.last_membership = StoredMembership::new(Some(e.log_id), m.clone());
                    responses.push(Vec::new());
                },
            }
            k += 1;
        }
        proof {
            assert(views.take(views.len() as int) == views);
        }
        Ok(responses)
    }

    fn build_snapshot(&mut self) -> (r: Result<Snapshot, StorageError>) {
        if self.snapshot_count < u64::MAX {
            self.snapshot_count = self.snapshot_count + 1;
        }
        let mut snapshot_id = match self.last_applied {
            Some(l) => {
                let mut id = l.leader_id.term.to_string();
                id.append("-");
                id.append(l.leader_id.node_id.to_string().as_str());
                id.append("-");
                id.append(l.index.to_string().as_str());
                id
            },
            None => String::new(),
        };
        snapshot_id.append("-");
        snapshot_id.append(self.snapshot_count.to_string().as_str());
        let meta = SnapshotMeta {
            last_log_id: self.last_applied,
            last_membership: self.last_membership.clone(),
            snapshot_id,
        };
        let data = bytes_clone(&self.app_state);
        self.snapshot = Some((meta.clone(), bytes_clone(&data)));
        Ok(Snapshot { meta, snapshot: SnapshotData::from_bytes(data) })
    }

    fn begin_receiving_snapshot(&mut self) -> (r: Result<SnapshotData, StorageError>) {
        Ok(SnapshotData::new())
    }

    fn install_snapshot(&mut self, meta: &SnapshotMeta, snapshot: SnapshotData) -> (r: Result<
        (),
        StorageError,
    >) {
        let data = snapshot.into_inner();
        self.last_applied = meta.last_log_id;
        self.last_membership = meta.last_membership.clone();
        self.app_state = bytes_clone(&data);
        self.snapshot = Some((meta.clone(), data));
        Ok(())
    }

    fn get_current_snapshot(&mut self) -> (r: Result<Option<Snapshot>, StorageError>) {
        match &self.snapshot {
            Some((meta, data)) => Ok(
                Some(
                    Snapshot {
                        meta: meta.clone(),
                        snapshot: SnapshotData::from_bytes(bytes_clone(data)),
                    },
                ),
            ),
            None => Ok(None),
        }
    }
}

/// Builds stores in memory.
#[derive(Clone, Copy, Debug)]
pub struct MemStoreBuilder {}

impl MemStoreBuilder {
    pub fn new() -> (r: Self) {
        MemStoreBuilder {  }
    }
}

impl StoreBuilder<MemStore> for MemStoreBuilder {
    open spec fn defensive(&self) -> bool {
        false
    }

    open spec fn reliable(&self) -> bool {
        true
    }

    open spec fn can_build(&self) -> bool {
        true
    }

    fn build(&self) -> (r: Result<MemStore, StorageError>) {
        Ok(MemStore::new())
    }
}

} // verus!
