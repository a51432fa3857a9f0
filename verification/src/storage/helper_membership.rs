//! The membership state that a store gives: read from the state machine and
//! from the log.

use vstd::prelude::*;

use crate::entry::entry_views;
use crate::entry::EntryPayloadView;
use crate::entry::EntryView;
use crate::log_id::spec_next_index;
use crate::membership::effective_membership::EffectiveMembership;
use crate::membership::membership_state::MembershipState;
use crate::membership::stored_membership::StoredMembership;
use crate::membership::stored_membership::StoredMembershipView;
use crate::storage::helper::StorageHelper;
use crate::storage::model::is_log_slice;
use crate::storage::model::LogIndexRange;
use crate::storage::model::StoreModel;
use crate::storage::raft_storage::step;
use crate::storage::raft_storage::RaftStorage;
use crate::storage_error::StorageError;

verus! {

/// The membership that the log holds at `index`, if the entry there is a
/// membership entry.
pub open spec fn membership_at(log: Map<u64, EntryView>, index: u64) -> Seq<StoredMembershipView> {
    if log.contains_key(index) {
        match log[index].payload {
            EntryPayloadView::Membership(m) => seq![
                StoredMembershipView { log_id: Some(log[index].log_id), membership: m },
            ],
            _ => Seq::empty(),
        }
    } else {
        Seq::empty()
    }
}

/// The memberships that the log holds at the indices from `start` up to
/// `end`, exclusive, by increasing index.
pub open spec fn memberships_in(log: Map<u64, EntryView>, start: u64, end: u64) -> Seq<
    StoredMembershipView,
>
    decreases end - start,
{
    if start >= end {
        Seq::empty()
    } else {
        membership_at(log, start) + memberships_in(log, (start + 1) as u64, end)
    }
}

/// The last two of a sequence; all of it if it is shorter.
pub open spec fn last_two<T>(s: Seq<T>) -> Seq<T> {
    if s.len() <= 2 {
        s
    } else {
        s.subrange(s.len() - 2, s.len() as int)
    }
}

/// The greater of two indices.
pub open spec fn max_index(a: int, b: int) -> int {
    if a >= b {
        a
    } else {
        b
    }
}

/// The last two memberships that the log of a store holds at an index from
/// `since_index` on, by increasing index. The purged part of the log holds
/// none.
pub open spec fn spec_last_membership_in_log(model: StoreModel, since_index: u64) -> Seq<
    StoredMembershipView,
> {
    let end = spec_next_index(model.last_log_id());
    let start = max_index(spec_next_index(model.last_purged), since_index as int);
    if start < end {
        last_two(memberships_in(model.log, start as u64, end as u64))
    } else {
        Seq::empty()
    }
}

/// The membership state that a store gives. The state machine holds the
/// committed membership. Where the log holds a membership behind it, that
/// one is effective. Where the log holds two, the first of them is taken as
/// committed.
pub open spec fn spec_membership_state(model: StoreModel) -> (StoredMembershipView, StoredMembershipView) {
    let since = spec_next_index(model.last_membership.log_id);
    let in_log = spec_last_membership_in_log(model, since as u64);
    if in_log.len() == 2 {
        (in_log[0], in_log[1])
    } else if in_log.len() == 0 {
        (model.last_membership, model.last_membership)
    } else {
        (model.last_membership, in_log[0])
    }
}

/// The memberships that a log holds in a range of indices have log ids in
/// that range, at increasing indices, where every entry of the log is at its
/// own index.
pub proof fn lemma_memberships_indices(log: Map<u64, EntryView>, start: u64, end: u64)
    requires
        forall|i: u64| log.contains_key(i) ==> (#[trigger] log[i]).log_id.index == i,
    ensures
        forall|i: int|
            0 <= i < memberships_in(log, start, end).len() ==> ((#[trigger] memberships_in(
                log,
                start,
                end,
            )[i]).log_id matches Some(id) && start <= id.index < end),
        forall|i: int, j: int|
            0 <= i < j < memberships_in(log, start, end).len() ==> spec_next_index(
                (#[trigger] memberships_in(log, start, end)[i]).log_id,
            ) < spec_next_index((#[trigger] memberships_in(log, start, end)[j]).log_id),
    decreases end - start,
{
    if start < end {
        let head = membership_at(log, start);
        let tail = memberships_in(log, (start + 1) as u64, end);
        let all = memberships_in(log, start, end);
        lemma_memberships_indices(log, (start + 1) as u64, end);
        assert(all =~= head + tail);
        assert forall|i: int| 0 <= i < all.len() implies ((#[trigger] all[i]).log_id matches Some(
            id,
        ) && start <= id.index < end) by {
            if i >= head.len() {
                assert(all[i] == tail[i - head.len()]);
            }
        }
        assert forall|i: int, j: int| 0 <= i < j < all.len() implies spec_next_index(
            (#[trigger] all[i]).log_id,
        ) < spec_next_index((#[trigger] all[j]).log_id) by {
            assert(all[j] == tail[j - head.len()]);
            if i >= head.len() {
                assert(all[i] == tail[i - head.len()]);
            }
        }
    }
}

/// The committed membership is not behind the effective one: in the
/// membership state that a store gives, the two are the same membership, or
/// the committed one stands at a lower index than the effective one.
pub proof fn lemma_committed_before_effective(model: StoreModel)
    requires
        model.wf(),
        spec_next_index(model.last_membership.log_id) <= u64::MAX,
    ensures
        spec_membership_state(model).0 == spec_membership_state(model).1 || spec_next_index(
            spec_membership_state(model).0.log_id,
        ) < spec_next_index(spec_membership_state(model).1.log_id),
{
    let since = spec_next_index(model.last_membership.log_id) as u64;
    let end = spec_next_index(model.last_log_id());
    let start = max_index(spec_next_index(model.last_purged), since as int);
    if start < end {
        let all = memberships_in(model.log, start as u64, end as u64);
        lemma_memberships_indices(model.log, start as u64, end as u64);
        let two = last_two(all);
        if all.len() > 2 {
            assert(two[0] == all[all.len() - 2]);
            assert(two[1] == all[all.len() - 1]);
        }
        if two.len() == 1 {
            assert(two[0] == all[0]);
        }
    }
}

/// Indices without an entry hold no membership.
pub proof fn lemma_memberships_skip(log: Map<u64, EntryView>, a: u64, b: u64, end: u64)
    requires
        a <= b <= end,
        forall|k: u64| a <= k < b ==> !log.contains_key(k),
    ensures
        memberships_in(log, a, end) == memberships_in(log, b, end),
    decreases b - a,
{
    if a < b {
        lemma_memberships_skip(log, (a + 1) as u64, b, end);
        assert(membership_at(log, a) =~= Seq::empty());
        assert(memberships_in(log, a, end) =~= memberships_in(log, (a + 1) as u64, end));
    }
}

/// Indices without a membership entry add nothing.
pub proof fn lemma_memberships_none(log: Map<u64, EntryView>, a: u64, b: u64, end: u64)
    requires
        a <= b <= end,
        forall|k: u64| a <= k < b ==> (#[trigger] membership_at(log, k)).len() == 0,
    ensures
        memberships_in(log, a, end) == memberships_in(log, b, end),
    decreases b - a,
{
    if a < b {
        lemma_memberships_none(log, (a + 1) as u64, b, end);
        assert(membership_at(log, a) =~= Seq::empty());
        assert(memberships_in(log, a, end) =~= memberships_in(log, (a + 1) as u64, end));
    }
}

/// The memberships of a range are that at its first index and then those
/// of the rest.
pub proof fn lemma_memberships_first(log: Map<u64, EntryView>, a: u64, end: u64)
    requires
        a < end,
    ensures
        memberships_in(log, a, end) == membership_at(log, a) + memberships_in(
            log,
            (a + 1) as u64,
            end,
        ),
        memberships_in(log, end, end) == Seq::<StoredMembershipView>::empty(),
{
}

/// The memberships of a range are those of its lower part and then those
/// of its upper part.
pub proof fn lemma_memberships_split(log: Map<u64, EntryView>, start: u64, mid: u64, end: u64)
    requires
        start <= mid <= end,
    ensures
        memberships_in(log, start, end) == memberships_in(log, start, mid) + memberships_in(
            log,
            mid,
            end,
        ),
    decreases mid - start,
{
    if start < mid {
        lemma_memberships_split(log, (start + 1) as u64, mid, end);
        assert(memberships_in(log, start, end) =~= memberships_in(log, start, mid)
            + memberships_in(log, mid, end));
    } else {
        assert(memberships_in(log, start, mid) =~= Seq::empty());
        assert(memberships_in(log, start, end) =~= memberships_in(log, start, mid)
            + memberships_in(log, mid, end));
    }
}

/// How many log entries are read at once in the search for memberships.
pub const MEMBERSHIP_SCAN_STEP: u64 = 64;

/// The views of stored memberships.
pub open spec fn stored_views(s: Seq<StoredMembership>) -> Seq<StoredMembershipView> {
    Seq::new(s.len(), |i: int| s[i]@)
}

impl<'a, S: RaftStorage> StorageHelper<'a, S> {
    /// Reads the last two memberships that the log holds at an index from
    /// `since_index` on, by increasing index. There are none where the log
    /// is purged already.
    pub fn last_membership_in_log(&mut self, since_index: u64) -> (r: Result<
        Vec<StoredMembership>,
        StorageError,
    >)
        requires
            old(self).sto.inv(),
            spec_next_index(old(self).sto.model().last_log_id()) <= u64::MAX,
            spec_next_index(old(self).sto.model().last_purged) <= u64::MAX,
        ensures
            final(self).sto.inv(),
            step(
                old(self).sto.model(),
                final(self).sto.model(),
                r,
                old(self).sto.model().dirty_log_violation(),
                old(self).sto.model(),
            ),
            r matches Ok(found) ==> stored_views(found@) == spec_last_membership_in_log(
                old(self).sto.model(),
                since_index,
            ) && found@.len() == spec_last_membership_in_log(old(self).sto.model(), since_index).len(),
            *final(final(self).sto) == *final(old(self).sto),
    {
        let ghost model = self.sto.model();
        let st = match self.sto.get_log_state() {
            Ok(st) => st,
            Err(e) => {
                return Err(e);
            },
        };
        let end0: u64 = match st.last_log_id {
            Some(l) => l.index + 1,
            None => 0,
        };
        let purged_next: u64 = match st.last_purged_log_id {
            Some(l) => l.index + 1,
            None => 0,
        };
        let start: u64 = if purged_next > since_index {
            purged_next
        } else {
            since_index
        };
        let step: u64 = MEMBERSHIP_SCAN_STEP;
        let mut end: u64 = end0;
        let mut res: Vec<StoredMembership> = Vec::new();
        proof {
            assert(memberships_in(model.log, end0, end0) =~= Seq::empty());
            assert(stored_views(res@) =~= Seq::empty());
        }
        while start < end
            invariant
                self.sto.inv(),
                self.sto.model() == model,
                model == old(self).sto.model(),
                model.defensive ==> model.dirty_log_violation() is None,
                step == 64,
                start == max_index(spec_next_index(model.last_purged), since_index as int),
                end0 == spec_next_index(model.last_log_id()),
                end <= end0,
                res@.len() < 2,
                start < end0 ==> stored_views(res@) == memberships_in(
                    model.log,
                    if end >= start {
                        end
                    } else {
                        start
                    },
                    end0,
                ),
                start >= end0 ==> res@.len() == 0,
                *final(self.sto) == *final(old(self).sto),
            decreases end,
        {
            let step_start: u64 = if end >= step && end - step > start {
                end - step
            } else {
                start
            };
            let range = LogIndexRange::new(step_start, end);
            let entries = match self.sto.try_get_log_entries(range) {
                Ok(entries) => entries,
                Err(e) => {
                    return Err(e);
                },
            };
            let ghost views = entry_views(entries@);
            let mut j: usize = entries.len();
            while j > 0
                invariant
                    self.sto.inv(),
                    self.sto.model() == model,
                    model == old(self).sto.model(),
                    model.defensive ==> model.dirty_log_violation() is None,
                    start == max_index(spec_next_index(model.last_purged), since_index as int),
                    end0 == spec_next_index(model.last_log_id()),
                    *final(self.sto) == *final(old(self).sto),
                    0 <= j <= entries@.len(),
                    views == entry_views(entries@),
                    is_log_slice(model.log, range, views),
                    range == (LogIndexRange { start: Some(step_start), end: Some(end) }),
                    start <= step_start < end <= end0,
                    res@.len() < 2,
                    stored_views(res@) == memberships_in(
                        model.log,
                        if j == entries@.len() {
                            end
                        } else {
                            views[j as int].log_id.index
                        },
                        end0,
                    ),
                decreases j,
            {
                let ent = &entries[j - 1];
                let ghost upper: u64 = if j == entries@.len() {
                    end
                } else {
                    views[j as int].log_id.index
                };
                let ghost idx = views[j - 1].log_id.index;
                proof {
                    assert(views[j - 1] == entries@[j - 1]@);
                    assert(range.contains(idx));
                    assert(model.log.contains_key(idx) && model.log[idx] == views[j - 1]);
                    if j < entries@.len() {
                        assert(views[j - 1].log_id.index < views[j as int].log_id.index);
                        assert(range.contains(views[j as int].log_id.index));
                    }
                    // Nothing is in the log between this entry and the one
                    // that was looked at before.
                    assert forall|k: u64| idx < k < upper implies !model.log.contains_key(k) by {
                        if model.log.contains_key(k) {
                            assert(range.contains(k));
                            let p = choose|p: int|
                                0 <= p < views.len() && (#[trigger] views[p]).log_id.index == k;
                            if p < j - 1 {
                                assert(views[p].log_id.index < views[j - 1].log_id.index);
                            } else if p > j - 1 {
                                if p > j {
                                    assert(views[j as int].log_id.index < views[p].log_id.index);
                                }
                            }
                        }
                    }
                    lemma_memberships_skip(model.log, (idx + 1) as u64, upper, end0);
                    assert(memberships_in(model.log, idx, end0) =~= membership_at(model.log, idx)
                        + memberships_in(model.log, (idx + 1) as u64, end0));
                }
                if let Some(mem) = ent.get_membership() {
                    let em = StoredMembership::new(Some(ent.log_id), mem.clone());
                    let ghost before = res@;
                    res.insert(0, em);
                    proof {
                        assert(stored_views(res@) =~= seq![em@] + stored_views(before));
                        assert(membership_at(model.log, idx) =~= seq![em@]);
                    }
                    if res.len() == 2 {
                        proof {
                            let found = stored_views(res@);
                            lemma_memberships_split(model.log, start, idx, end0);
                            let all = memberships_in(model.log, start, end0);
                            assert(all == memberships_in(model.log, start, idx) + found);
                            assert(last_two(all) =~= found);
                        }
                        return Ok(res);
                    }
                } else {
                    proof {
                        assert(membership_at(model.log, idx) =~= Seq::empty());
                        assert(memberships_in(model.log, idx, end0) =~= memberships_in(
                            model.log,
                            (idx + 1) as u64,
                            end0,
                        ));
                    }
                }
                j -= 1;
            }
            proof {
                let lowest: u64 = if entries@.len() == 0 {
                    end
                } else {
                    views[0].log_id.index
                };
                if entries@.len() > 0 {
                    assert(range.contains(views[0].log_id.index));
                }
                assert forall|k: u64| step_start <= k < lowest implies !model.log.contains_key(k) by {
                    if model.log.contains_key(k) {
                        assert(range.contains(k));
                        let p = choose|p: int|
                            0 <= p < views.len() && (#[trigger] views[p]).log_id.index == k;
                        if p > 0 {
                            assert(views[0].log_id.index < views[p].log_id.index);
                        }
                    }
                }
                lemma_memberships_skip(model.log, step_start, lowest, end0);
            }
            end = if end >= step {
                end - step
            } else {
                0
            };
        }
        proof {
            if start < end0 {
                assert(last_two(stored_views(res@)) == stored_views(res@));
            }
        }
        Ok(res)
    }

    /// Reads the membership state of the store: the committed membership
    /// from the state machine, and the effective one from the log, if the
    /// log holds one behind that of the state machine.
    pub fn get_membership(&mut self) -> (r: Result<MembershipState, StorageError>)
        requires
            old(self).sto.inv(),
            spec_next_index(old(self).sto.model().last_log_id()) <= u64::MAX,
            spec_next_index(old(self).sto.model().last_purged) <= u64::MAX,
            spec_next_index(old(self).sto.model().last_membership.log_id) <= u64::MAX,
        ensures
            final(self).sto.inv(),
            step(
                old(self).sto.model(),
                final(self).sto.model(),
                r,
                old(self).sto.model().dirty_log_violation(),
                old(self).sto.model(),
            ),
            r matches Ok(state) ==> state.spec_committed() == spec_membership_state(
                old(self).sto.model(),
            ).0 && state.spec_effective() == spec_membership_state(old(self).sto.model()).1,
            *final(final(self).sto) == *final(old(self).sto),
    {
        let sm_mem = match self.sto.last_applied_state() {
            Ok(applied) => applied.1,
            Err(e) => {
                return Err(e);
            },
        };
        let sm_mem_next_index: u64 = match sm_mem.log_id() {
            Some(l) => l.index + 1,
            None => 0,
        };
        let log_mem = match self.last_membership_in_log(sm_mem_next_index) {
            Ok(found) => found,
            Err(e) => {
                return Err(e);
            },
        };
        proof {
            let views = stored_views(log_mem@);
            if log_mem@.len() > 0 {
                assert(views[0] == log_mem@[0]@);
            }
            if log_mem@.len() > 1 {
                assert(views[1] == log_mem@[1]@);
            }
        }
        if log_mem.len() == 2 {
            return Ok(
                MembershipState::new(
                    EffectiveMembership::new_from_stored_membership(log_mem[0].clone()),
                    EffectiveMembership::new_from_stored_membership(log_mem[1].clone()),
                ),
            );
        }
        let effective = if log_mem.len() == 0 {
            sm_mem.clone()
        } else {
            log_mem[0].clone()
        };
        Ok(
            MembershipState::new(
                EffectiveMembership::new_from_stored_membership(sm_mem),
                EffectiveMembership::new_from_stored_membership(effective),
            ),
        )
    }
}

} // verus!
