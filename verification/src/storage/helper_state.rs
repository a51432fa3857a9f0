//! The state a raft node starts with: read from its store.

use vstd::prelude::*;

use crate::entry::EntryView;
use crate::log_id::opt_is_lt;
use crate::log_id::opt_lt;
use crate::log_id::spec_next_index;
use crate::log_id::LogId;
use crate::log_id_list::valid_keys;
use crate::log_id_list::LogIdList;
use crate::raft_core::server_state::ServerState;
use crate::raft_state::RaftState;
use crate::storage::helper::StorageHelper;
use crate::storage::helper_membership::spec_membership_state;
use crate::storage::model::StoreModel;
use crate::storage::raft_storage::RaftStorage;
use crate::storage::snapshot_meta::SnapshotMeta;
use crate::storage::snapshot_meta::SnapshotMetaView;
use crate::storage_error::StorageError;
use crate::vote::LeaderId;
use crate::vote::Vote;

verus! {

/// The log id at index `k` of a log that starts with the log id `first`:
/// `first` itself at its index, and above it the id of the entry there.
pub open spec fn id_at(log: Map<u64, EntryView>, first: LogId, k: u64) -> LogId {
    if k == first.index {
        first
    } else {
        log[k].log_id
    }
}

/// The log from `first` up to `last` is sound: it has an entry at every
/// index above `first`, it ends with `last`, and the leaders of its log ids
/// never decrease.
pub open spec fn sound(log: Map<u64, EntryView>, first: LogId, last: LogId) -> bool {
    &&& first.index <= last.index
    &&& forall|k: u64|
        first.index < k <= last.index ==> #[trigger] log.contains_key(k) && log[k].log_id.index == k
    &&& id_at(log, first, last.index) == last
    &&& forall|i: u64, j: u64|
        first.index <= i <= j <= last.index ==> (#[trigger] id_at(log, first, i)).leader_id.le_spec(
            (#[trigger] id_at(log, first, j)).leader_id,
        )
}

/// The log ids from `first` up to index `upto` with which a leader starts:
/// `first`, and every log id whose leader is not that of the log id before
/// it.
pub open spec fn leader_starts(log: Map<u64, EntryView>, first: LogId, upto: u64) -> Seq<LogId>
    decreases upto,
{
    if upto <= first.index {
        seq![first]
    } else {
        let before = leader_starts(log, first, (upto - 1) as u64);
        if id_at(log, first, upto).leader_id != id_at(log, first, (upto - 1) as u64).leader_id {
            before.push(id_at(log, first, upto))
        } else {
            before
        }
    }
}

/// The key log ids of a sound log from `first` up to `last`: the log ids
/// with which a leader starts, and the last log id.
pub open spec fn key_log_ids(log: Map<u64, EntryView>, first: LogId, last: LogId) -> Seq<LogId> {
    let starts = leader_starts(log, first, last.index);
    if starts.last() != last {
        starts.push(last)
    } else {
        starts
    }
}

/// The log id with which the log of a store starts: the last purged log
/// id, or else the id of the entry at index 0.
pub open spec fn origin_of(model: StoreModel) -> Option<LogId> {
    match model.last_purged {
        Some(p) => Some(p),
        None => if model.log.contains_key(0) {
            Some(model.log[0].log_id)
        } else {
            None
        },
    }
}

/// The log of a store is sound from its start up to its last log id.
pub open spec fn log_sound(model: StoreModel) -> bool {
    match (origin_of(model), model.last_log_id()) {
        (Some(first), Some(last)) => sound(model.log, first, last),
        (_, None) => true,
        (None, Some(_)) => false,
    }
}

/// What the log ids that start a leader are like: they begin with `first`,
/// each is the log id at its index, their indices increase, their leaders
/// never decrease, and the last of them has the leader of the log id at
/// `upto`.
pub proof fn lemma_leader_starts(log: Map<u64, EntryView>, first: LogId, last: LogId, upto: u64)
    requires
        sound(log, first, last),
        first.index <= upto <= last.index,
    ensures
        ({
            let s = leader_starts(log, first, upto);
            &&& s.len() >= 1
            &&& s[0] == first
            &&& s.last().leader_id == id_at(log, first, upto).leader_id
            &&& s.last().index <= upto
            &&& forall|i: int|
                0 <= i < s.len() ==> first.index <= (#[trigger] s[i]).index <= upto && id_at(
                    log,
                    first,
                    s[i].index,
                ) == s[i]
            &&& valid_keys(s)
        }),
    decreases upto,
{
    if upto > first.index {
        let prev = (upto - 1) as u64;
        lemma_leader_starts(log, first, last, prev);
        let before = leader_starts(log, first, prev);
        let s = leader_starts(log, first, upto);
        let id = id_at(log, first, upto);
        assert(log.contains_key(upto));
        if id.leader_id != id_at(log, first, prev).leader_id {
            assert(s == before.push(id));
            assert forall|i: int, j: int| 0 <= i < j < s.len() implies (#[trigger] s[i]).index < (
            #[trigger] s[j]).index && s[i].leader_id.le_spec(s[j].leader_id) by {
                if j == s.len() - 1 {
                    assert(s[i] == before[i]);
                    assert(id_at(log, first, s[i].index) == s[i]);
                    assert(id_at(log, first, s[i].index).leader_id.le_spec(
                        id_at(log, first, upto).leader_id,
                    ));
                } else {
                    assert(s[i] == before[i] && s[j] == before[j]);
                }
            }
            assert forall|i: int| 0 <= i < s.len() implies first.index <= (#[trigger] s[i]).index
                <= upto && id_at(log, first, s[i].index) == s[i] by {
                if i < s.len() - 1 {
                    assert(s[i] == before[i]);
                }
            }
        }
    }
}

/// Where the leader is the same at two indices of a sound log, no leader
/// starts between them.
pub proof fn lemma_leader_starts_same(
    log: Map<u64, EntryView>,
    first: LogId,
    last: LogId,
    a: u64,
    b: u64,
)
    requires
        sound(log, first, last),
        first.index <= a <= b <= last.index,
        id_at(log, first, a).leader_id == id_at(log, first, b).leader_id,
    ensures
        leader_starts(log, first, b) == leader_starts(log, first, a),
    decreases b - a,
{
    if a < b {
        let prev = (b - 1) as u64;
        let la = id_at(log, first, a).leader_id;
        let lp = id_at(log, first, prev).leader_id;
        let lb = id_at(log, first, b).leader_id;
        assert(la.le_spec(lp) && lp.le_spec(lb));
        assert(lp == lb);
        lemma_leader_starts_same(log, first, last, a, prev);
    }
}

/// The key log ids of a sound log are valid.
pub proof fn lemma_key_log_ids_valid(log: Map<u64, EntryView>, first: LogId, last: LogId)
    requires
        sound(log, first, last),
    ensures
        valid_keys(key_log_ids(log, first, last)),
        key_log_ids(log, first, last).len() >= 1,
        key_log_ids(log, first, last)[0] == first,
        key_log_ids(log, first, last).last() == last,
{
    lemma_leader_starts(log, first, last, last.index);
    let starts = leader_starts(log, first, last.index);
    let keys = key_log_ids(log, first, last);
    if starts.last() != last {
        let top = starts.last();
        assert(id_at(log, first, top.index) == top);
        assert(top.index < last.index);
        assert forall|i: int, j: int| 0 <= i < j < keys.len() implies (#[trigger] keys[i]).index < (
        #[trigger] keys[j]).index && keys[i].leader_id.le_spec(keys[j].leader_id) by {
            if j == keys.len() - 1 {
                assert(keys[i] == starts[i]);
                assert(id_at(log, first, starts[i].index) == starts[i]);
                if i < starts.len() - 1 {
                    assert(starts[i].index < starts[starts.len() - 1].index);
                }
                assert(id_at(log, first, starts[i].index).leader_id.le_spec(
                    id_at(log, first, last.index).leader_id,
                ));
            } else {
                assert(keys[i] == starts[i] && keys[j] == starts[j]);
            }
        }
    }
}

/// Appends `first` unless the log ids end with its leader already.
fn push_first(res: &mut Vec<LogId>, first: LogId)
    ensures
        final(res)@ == if old(res)@.len() == 0 || old(res)@.last().leader_id.lt_spec(first.leader_id) {
            old(res)@.push(first)
        } else {
            old(res)@
        },
{
    let n = res.len();
    if n == 0 || res[n - 1].leader_id.is_lt(&first.leader_id) {
        res.push(first);
    }
}

impl<'a, S: RaftStorage> StorageHelper<'a, S> {
    /// Finds the log ids with which a leader starts between `first` and
    /// `last`, by bisection, and appends them to `res`.
    fn collect_log_ids(
        &mut self,
        first: LogId,
        last: LogId,
        res: &mut Vec<LogId>,
        Ghost(origin): Ghost<LogId>,
        Ghost(end): Ghost<LogId>,
    ) -> (r: Result<(), StorageError>)
        requires
            old(self).sto.inv(),
        ensures
            final(self).sto.inv(),
            final(self).sto.model().defensive == old(self).sto.model().defensive,
            final(self).sto.model().reliable == old(self).sto.model().reliable,
            !(r matches Err(StorageError::IO { .. })) ==> final(self).sto.model()
                == old(self).sto.model(),
            r matches Err(StorageError::IO { .. }) ==> !old(self).sto.model().reliable,
            first.leader_id == last.leader_id ==> r is Ok && final(res)@ == if old(res)@.len() == 0
                || old(res)@.last().leader_id.lt_spec(first.leader_id) {
                old(res)@.push(first)
            } else {
                old(res)@
            },
            ({
                let m = old(self).sto.model();
                sound(m.log, origin, end) && origin.index <= first.index <= last.index <= end.index
                    && first == id_at(m.log, origin, first.index) && last == id_at(
                    m.log,
                    origin,
                    last.index,
                ) && (m.last_purged is Some ==> m.last_purged == Some(origin)) && (old(res)@
                    == leader_starts(m.log, origin, first.index) || (old(res)@.len() == 0 && first
                    == origin)) ==> match r {
                    Ok(()) => final(res)@ == leader_starts(m.log, origin, last.index),
                    Err(StorageError::Defensive { source }) => m.defensive
                        && m.dirty_log_violation() == Some(source),
                    Err(StorageError::IO { .. }) => true,
                }
            }),
            *final(final(self).sto) == *final(old(self).sto),
        decreases
                (if last.index > first.index {
                    last.index - first.index
                } else {
                    0
                }),
    {
        let ghost m = self.sto.model();
        let ghost pre = sound(m.log, origin, end) && origin.index <= first.index <= last.index
            <= end.index && first == id_at(m.log, origin, first.index) && last == id_at(
            m.log,
            origin,
            last.index,
        ) && (m.last_purged is Some ==> m.last_purged == Some(origin)) && (res@ == leader_starts(
            m.log,
            origin,
            first.index,
        ) || (res@.len() == 0 && first == origin));
        proof {
            if pre {
                lemma_leader_starts(m.log, origin, end, first.index);
            }
        }
        if first.leader_id == last.leader_id {
            push_first(res, first);
            proof {
                if pre {
                    lemma_leader_starts_same(m.log, origin, end, first.index, last.index);
                }
            }
            return Ok(());
        }
        if first.index >= last.index || first.index + 1 == last.index {
            push_first(res, first);
            res.push(last);
            return Ok(());
        }
        let mid_index = first.index + (last.index - first.index) / 2;
        let mid = match self.get_log_id(mid_index) {
            Ok(mid) => mid,
            Err(e) => {
                return Err(e);
            },
        };
        proof {
            self.sto.lemma_inv();
            assert(mid.index == mid_index);
            if pre {
                assert(m.log.contains_key(mid_index));
                assert(mid == id_at(m.log, origin, mid_index));
                assert(id_at(m.log, origin, first.index).leader_id.le_spec(
                    id_at(m.log, origin, mid_index).leader_id,
                ));
            }
        }
        if first.leader_id == mid.leader_id {
            push_first(res, first);
            proof {
                if pre {
                    lemma_leader_starts_same(m.log, origin, end, first.index, mid_index);
                    assert(res@ == leader_starts(m.log, origin, mid.index));
                }
            }
            let r = self.collect_log_ids(mid, last, res, Ghost(origin), Ghost(end));
            return r;
        } else if mid.leader_id == last.leader_id {
            let r = self.collect_log_ids(first, mid, res, Ghost(origin), Ghost(end));
            proof {
                if pre && r is Ok {
                    assert(res@ == leader_starts(m.log, origin, mid.index));
                    lemma_leader_starts_same(m.log, origin, end, mid_index, last.index);
                }
            }
            return r;
        } else {
            match self.collect_log_ids(first, mid, res, Ghost(origin), Ghost(end)) {
                Ok(()) => {},
                Err(e) => {
                    return Err(e);
                },
            }
            proof {
                if pre {
                    assert(res@ == leader_starts(m.log, origin, mid.index));
                }
            }
            let r = self.collect_log_ids(mid, last, res, Ghost(origin), Ghost(end));
            return r;
        }
    }

    /// Loads the key log ids of the log from `last_purged_log_id` up to
    /// `last_log_id`: the first log id of every leader, and the last log
    /// id. A log without a last log id has none.
    pub fn load_log_ids(&mut self, last_purged_log_id: Option<LogId>, last_log_id: Option<LogId>) -> (r:
        Result<LogIdList, StorageError>)
        requires
            old(self).sto.inv(),
        ensures
            final(self).sto.inv(),
            final(self).sto.model().defensive == old(self).sto.model().defensive,
            final(self).sto.model().reliable == old(self).sto.model().reliable,
            !(r matches Err(StorageError::IO { .. })) ==> final(self).sto.model()
                == old(self).sto.model(),
            r matches Err(StorageError::IO { .. }) ==> !old(self).sto.model().reliable,
            last_log_id is None ==> (r matches Ok(ids) && ids@ == Seq::<LogId>::empty()),
            last_purged_log_id is Some && last_purged_log_id == last_log_id ==> (r matches Ok(ids)
                && ids@ == seq![last_log_id.unwrap()]),
            ({
                let m = old(self).sto.model();
                last_log_id is Some && last_purged_log_id == m.last_purged && origin_of(m) is Some
                    && sound(m.log, origin_of(m).unwrap(), last_log_id.unwrap()) ==> match r {
                    Ok(ids) => ids@ == key_log_ids(
                        m.log,
                        origin_of(m).unwrap(),
                        last_log_id.unwrap(),
                    ) && ids.wf(),
                    Err(StorageError::Defensive { source }) => m.defensive
                        && m.dirty_log_violation() == Some(source),
                    Err(StorageError::IO { .. }) => true,
                }
            }),
            *final(final(self).sto) == *final(old(self).sto),
    {
        let ghost m = self.sto.model();
        let last = match last_log_id {
            None => {
                return Ok(LogIdList::new(Vec::new()));
            },
            Some(x) => x,
        };
        let first = match last_purged_log_id {
            None => match self.get_log_id(0) {
                Ok(id) => id,
                Err(e) => {
                    return Err(e);
                },
            },
            Some(x) => x,
        };
        let mut res: Vec<LogId> = Vec::new();
        let ghost whole = last_purged_log_id == m.last_purged && origin_of(m) == Some(first)
            && sound(m.log, first, last);
        match self.collect_log_ids(first, last, &mut res, Ghost(first), Ghost(last)) {
            Ok(()) => {},
            Err(e) => {
                return Err(e);
            },
        }
        let n = res.len();
        if n == 0 || res[n - 1] != last {
            res.push(last);
        }
        proof {
            if whole {
                lemma_leader_starts(m.log, first, last, last.index);
                lemma_key_log_ids_valid(m.log, first, last);
            }
        }
        Ok(LogIdList::new(res))
    }

    /// Reads the state that a raft node starts with from its store.
    ///
    /// Where the state machine has applied more than the log holds, as
    /// after the installation of a snapshot, the log is purged up to the
    /// last applied log id first.
    pub fn get_initial_state(&mut self) -> (r: Result<RaftState, StorageError>)
        requires
            old(self).sto.inv(),
            spec_next_index(old(self).sto.model().last_log_id()) <= u64::MAX,
            spec_next_index(old(self).sto.model().last_purged) <= u64::MAX,
            spec_next_index(old(self).sto.model().last_applied) <= u64::MAX,
            spec_next_index(old(self).sto.model().last_membership.log_id) <= u64::MAX,
        ensures
            final(self).sto.inv(),
            final(self).sto.model().defensive == old(self).sto.model().defensive,
            final(self).sto.model().reliable == old(self).sto.model().reliable,
            ({
                let m = old(self).sto.model();
                let behind = opt_lt(m.last_log_id(), m.last_applied);
                match r {
                    Ok(state) => {
                        &&& !(m.defensive && m.dirty_log_violation() is Some)
                        &&& final(self).sto.model() == if behind {
                            m.purge(m.last_applied.unwrap())
                        } else {
                            m
                        }
                        &&& state.vote == match m.vote {
                            Some(v) => v,
                            None => Vote {
                                leader_id: LeaderId { term: 0, node_id: 0 },
                                committed: false,
                            },
                        }
                        &&& state.committed == m.last_applied
                        &&& state.last_applied == m.last_applied
                        &&& state.purge_upto == if behind {
                            m.last_applied
                        } else {
                            m.last_purged
                        }
                        &&& state.purged_next == spec_next_index(state.purge_upto)
                        &&& state.membership_state.spec_committed() == spec_membership_state(m).0
                        &&& state.membership_state.spec_effective() == spec_membership_state(m).1
                        &&& state.snapshot_meta@ == initial_snapshot_meta(m)
                        &&& state.server_state == ServerState::Learner
                        &&& if behind {
                            state.log_ids@ == seq![m.last_applied.unwrap()]
                        } else if m.last_log_id() is None {
                            state.log_ids@ == Seq::<LogId>::empty()
                        } else {
                            log_sound(m) ==> state.log_ids@ == key_log_ids(
                                m.log,
                                origin_of(m).unwrap(),
                                m.last_log_id().unwrap(),
                            ) && state.log_ids.wf()
                        }
                    },
                    Err(StorageError::Defensive { source }) => !behind && !log_sound(m) || (
                    m.defensive && m.dirty_log_violation() == Some(source)),
                    Err(StorageError::IO { .. }) => !m.reliable,
                }
            }),
            *final(final(self).sto) == *final(old(self).sto),
    {
        let ghost m = self.sto.model();
        let vote = match self.sto.read_vote() {
            Ok(v) => v,
            Err(e) => {
                return Err(e);
            },
        };
        let st = match self.sto.get_log_state() {
            Ok(st) => st,
            Err(e) => {
                return Err(e);
            },
        };
        let mut last_purged_log_id = st.last_purged_log_id;
        let mut last_log_id = st.last_log_id;
        let last_applied = match self.sto.last_applied_state() {
            Ok(applied) => applied.0,
            Err(e) => {
                return Err(e);
            },
        };
        let mem_state = match self.get_membership() {
            Ok(s) => s,
            Err(e) => {
                return Err(e);
            },
        };

        // Clean up dirty state: snapshot is installed but logs are not cleaned.
        if opt_is_lt(&last_log_id, &last_applied) {
            match self.sto.purge_logs_upto(last_applied.unwrap()) {
                Ok(()) => {},
                Err(e) => {
                    return Err(e);
                },
            }
            last_log_id = last_applied;
            last_purged_log_id = last_applied;
        }
        let log_ids = match self.load_log_ids(last_purged_log_id, last_log_id) {
            Ok(ids) => ids,
            Err(e) => {
                return Err(e);
            },
        };
        let snapshot = match self.sto.get_current_snapshot() {
            Ok(s) => s,
            Err(e) => {
                return Err(e);
            },
        };
        let snapshot_meta = match snapshot {
            Some(s) => s.meta,
            None => SnapshotMeta::default(),
        };
        let purged_next: u64 = match last_purged_log_id {
            Some(l) => l.index + 1,
            None => 0,
        };
        Ok(
            RaftState {
                vote: match vote {
                    Some(v) => v,
                    None => Vote::default(),
                },
                committed: last_applied,
                last_applied,
                purged_next,
                log_ids,
                membership_state: mem_state,
                snapshot_meta,
                server_state: ServerState::default(),
                purge_upto: last_purged_log_id,
            },
        )
    }
}

/// The metadata of the snapshot that a node starts with: that of the last
/// snapshot of its store, or that of no snapshot.
pub open spec fn initial_snapshot_meta(model: StoreModel) -> SnapshotMetaView {
    match model.snapshot {
        Some(s) => s.meta,
        None => SnapshotMetaView {
            last_log_id: None,
            last_membership: crate::storage::model::initial_membership(),
            snapshot_id: Seq::empty(),
        },
    }
}

} // verus!
