//! What a node does with the log entries that a leader sends.

use vstd::prelude::*;

use crate::engine::command::Command;
use crate::engine::engine_impl::Engine;
use crate::engine::model::entries_follow;
use crate::engine::model::log_ids_of;
use crate::engine::model::memberships_appended;
use crate::engine::model::EngineModel;
use crate::entry::entry_views;
use crate::entry::Entry;
use crate::entry::EntryView;
use crate::log_id::opt_is_le;
use crate::log_id::opt_is_lt;
use crate::log_id::opt_le;
use crate::log_id::spec_next_index;
use crate::log_id::LogId;
use crate::log_id_list::beyond;
use crate::log_id_list::follow_on;
use crate::log_id_list::lemma_log_id_at_range;
use crate::log_id_list::lemma_log_ids_ordered;
use crate::log_id_list::lemma_truncated_keys;
use crate::log_id_list::log_id_at;
use crate::log_id_list::truncated_keys;
use crate::log_id_list::LogIdList;
use crate::membership::effective_membership::EffectiveMembership;
use crate::raft::AppendEntriesResponse;
use crate::storage::snapshot_meta::SnapshotMeta;
use crate::vote::LeaderId;
use crate::vote::Vote;

verus! {

/// Decides whether the entries follow `prev`, one index after the other,
/// with leaders that never decrease, are not below that of `prev`, and are
/// not beyond `leader`.
pub fn check_entries_follow(prev: &Option<LogId>, entries: &[Entry], leader: &LeaderId) -> (r: bool)
    ensures
        r == entries_follow(*prev, entry_views(entries@), *leader),
{
    let ghost views = entry_views(entries@);
    let n = entries.len();
    if n == 0 {
        return true;
    }
    assert(views[0] == entries@[0]@);
    let first = entries[0].log_id;
    match prev {
        Some(p) => {
            if p.index == u64::MAX || first.index != p.index + 1 || !p.leader_id.is_le(
                &first.leader_id,
            ) {
                return false;
            }
        },
        None => {
            if first.index != 0 {
                return false;
            }
        },
    }
    let mut k: usize = 0;
    while k < n
        invariant
            0 <= k <= n,
            n == entries@.len(),
            views == entry_views(entries@),
            first == views[0].log_id,
            first.index == spec_next_index(*prev),
            forall|i: int| 0 <= i < k ==> (#[trigger] views[i]).log_id.index == first.index + i,
            forall|i: int| 0 <= i < k ==> (#[trigger] views[i]).log_id.leader_id.le_spec(*leader),
            forall|i: int|
                0 < i < k ==> views[i - 1].log_id.leader_id.le_spec(
                    (#[trigger] views[i]).log_id.leader_id,
                ),
        decreases n - k,
    {
        let id = entries[k].log_id;
        assert(views[k as int] == entries@[k as int]@);
        if !id.leader_id.is_le(leader) {
            return false;
        }
        if k > 0 {
            let before = entries[k - 1].log_id;
            assert(views[k - 1] == entries@[k - 1]@);
            if before.index == u64::MAX || id.index != before.index + 1 || !before.leader_id.is_le(
                &id.leader_id,
            ) {
                return false;
            }
        }
        k += 1;
    }
    true
}

/// The leaders of entries that follow one another never decrease, from any
/// entry to any later one.
pub proof fn lemma_entries_monotonic(
    prev: Option<LogId>,
    entries: Seq<EntryView>,
    leader: LeaderId,
    i: int,
    j: int,
)
    requires
        entries_follow(prev, entries, leader),
        0 <= i <= j < entries.len(),
    ensures
        entries[i].log_id.leader_id.le_spec(entries[j].log_id.leader_id),
    decreases j - i,
{
    if i < j {
        lemma_entries_monotonic(prev, entries, leader, i, j - 1);
        assert(entries[j - 1].log_id.leader_id.le_spec(entries[j].log_id.leader_id));
    }
}

/// The leaders of entries that follow `prev` are not below that of `prev`.
pub proof fn lemma_entries_follow(
    prev: Option<LogId>,
    entries: Seq<EntryView>,
    leader: LeaderId,
    i: int,
    j: int,
)
    requires
        entries_follow(prev, entries, leader),
        0 <= i <= j < entries.len(),
    ensures
        entries[i].log_id.leader_id.le_spec(entries[j].log_id.leader_id),
        prev is Some ==> prev.unwrap().leader_id.le_spec(entries[i].log_id.leader_id),
{
    lemma_entries_monotonic(prev, entries, leader, i, j);
    lemma_entries_monotonic(prev, entries, leader, 0, i);
}

impl Engine {
    /// Finds the first of `entries` that the log does not hold.
    pub fn first_conflicting_index(&self, entries: &[Entry]) -> (r: usize)
        requires
            self.state.log_ids.wf(),
        ensures
            r == self.model().first_conflicting(entry_views(entries@)),
            r <= entries@.len(),
    {
        let ghost views = entry_views(entries@);
        let ghost m = self.model();
        let mut k: usize = 0;
        assert(views.skip(0) == views);
        while k < entries.len()
            invariant
                0 <= k <= entries@.len(),
                views == entry_views(entries@),
                m == self.model(),
                self.state.log_ids.wf(),
                m.first_conflicting(views) == k + m.first_conflicting(views.skip(k as int)),
            decreases entries.len() - k,
        {
            assert(views.skip(k as int)[0] == entries@[k as int]@);
            assert(views.skip(k as int).drop_first() == views.skip(k + 1));
            if !self.state.has_log_id(&entries[k].log_id) {
                return k;
            }
            k += 1;
        }
        k
    }

    /// Truncates the log from index `at` on, which is above the committed
    /// index: the entries there conflict with those of the leader.
    pub fn truncate_logs(&mut self, at: u64)
        requires
            old(self).state.wf(),
            spec_next_index(old(self).state.committed) <= at,
        ensures
            final(self).state.wf(),
            final(self).config == old(self).config,
            final(self).vote_granted_by == old(self).vote_granted_by,
            final(self).progress == old(self).progress,
            final(self).timer == old(self).timer,
            final(self).model() == old(self).model().truncate_logs(at),
            old(self).state.log_ids.spec_get(at) is Some ==> spec_next_index(
                final(self).state.spec_last_log_id(),
            ) == at,
            forall|i: u64|
                i < at ==> #[trigger] log_id_at(final(self).state.log_ids@, i) == log_id_at(
                    old(self).state.log_ids@,
                    i,
                ),
    {
        let existing = match self.state.get_log_id(at) {
            None => {
                return;
            },
            Some(x) => x,
        };
        let ghost keys = self.state.log_ids@;
        proof {
            lemma_log_id_at_range(keys, at);
            if self.state.committed is Some {
                lemma_log_id_at_range(keys, self.state.committed.unwrap().index);
            }
            if self.state.purge_upto is Some {
                lemma_log_id_at_range(keys, self.state.purge_upto.unwrap().index);
            }
            if keys[0].index < at {
                lemma_truncated_keys(keys, at, 0);
                if self.state.committed is Some {
                    lemma_truncated_keys(keys, at, self.state.committed.unwrap().index);
                }
                if self.state.purge_upto is Some {
                    lemma_truncated_keys(keys, at, self.state.purge_upto.unwrap().index);
                }
                assert forall|i: u64| i < at implies #[trigger] log_id_at(
                    truncated_keys(keys, at),
                    i,
                ) == log_id_at(keys, i) by {
                    lemma_truncated_keys(keys, at, i);
                }
            } else {
                assert forall|i: u64| i < at implies #[trigger] log_id_at(Seq::<LogId>::empty(), i)
                    == log_id_at(keys, i) by {
                    lemma_log_id_at_range(keys, i);
                }
            }
        }
        let first_index = match self.state.log_ids.first() {
            Some(f) => f.index,
            None => 0,
        };
        if first_index >= at {
            self.state.log_ids = LogIdList::new(Vec::new());
        } else {
            self.state.log_ids.truncate(at);
            proof {
                let cut = self.state.log_ids@;
                let below = (at - 1) as u64;
                lemma_log_id_at_range(cut, 0);
                lemma_log_id_at_range(cut, below);
                lemma_truncated_keys(keys, at, below);
                lemma_log_id_at_range(keys, below);
                assert(cut.len() > 0 && cut.last().index == below);
                assert(Some(cut.last()) == log_id_at(keys, below));
                if below < keys.last().index {
                    lemma_log_ids_ordered(keys, below, keys.last().index);
                }
                assert(cut.last().leader_id.le_spec(keys.last().leader_id));
                if self.state.committed is Some {
                    let c = self.state.committed.unwrap();
                    lemma_log_id_at_range(cut, c.index);
                    if c.index < cut.last().index {
                        lemma_log_ids_ordered(cut, c.index, cut.last().index);
                    }
                }
            }
        }
        self.output.push_command(Command::DeleteConflictLog { since: existing });
        let changed = self.state.membership_state.truncate(at);
        if changed.is_some() {
            self.server_state_handler().update_server_state_if_changed();
        }
    }

    /// Appends the entries from position `since` on, which follow the last
    /// log id: their log ids are put into the log, a command appends the
    /// entries, the memberships among them take effect at once, and the
    /// server state follows.
    pub fn do_append_entries(&mut self, entries: &[Entry], since: usize)
        requires
            old(self).state.wf(),
            since < entries@.len(),
            entries@.len() <= u64::MAX,
            follow_on(old(self).state.log_ids@, log_ids_of(entry_views(entries@).skip(since as int))),
            entries@[since as int].log_id.index == spec_next_index(
                old(self).state.spec_last_log_id(),
            ),
            forall|k: int|
                since <= k < entries@.len() ==> (#[trigger] entries@[k]).log_id.leader_id.le_spec(
                    old(self).state.vote.leader_id,
                ),
        ensures
            final(self).state.wf(),
            final(self).config == old(self).config,
            final(self).vote_granted_by == old(self).vote_granted_by,
            final(self).progress == old(self).progress,
            final(self).timer == old(self).timer,
            final(self).model() == old(self).model().append_entries(
                entry_views(entries@),
                since as int,
            ),
            final(self).state.spec_last_log_id() == Some(entries@.last().log_id),
            forall|i: u64|
                old(self).state.log_ids@.len() > 0 && i <= old(self).state.log_ids@.last().index
                    ==> #[trigger] log_id_at(final(self).state.log_ids@, i) == log_id_at(
                    old(self).state.log_ids@,
                    i,
                ),
            forall|k: int|
                since <= k < entries@.len() ==> log_id_at(
                    final(self).state.log_ids@,
                    (#[trigger] entries@[k]).log_id.index,
                ) == Some(entries@[k].log_id),
    {
        let ghost views = entry_views(entries@);
        let ghost new = views.skip(since as int);
        let ghost before = *self;
        let mut ids: Vec<LogId> = Vec::new();
        let mut k: usize = since;
        assert(new.take(0) =~= Seq::<EntryView>::empty());
        while k < entries.len()
            invariant
                since <= k <= entries@.len(),
                views == entry_views(entries@),
                new == views.skip(since as int),
                ids@ == log_ids_of(new.take(k - since)),
                self.state.membership_state.spec_committed() == memberships_appended(
                    before.state.membership_state.spec_committed(),
                    before.state.membership_state.spec_effective(),
                    new.take(k - since),
                ).0,
                self.state.membership_state.spec_effective() == memberships_appended(
                    before.state.membership_state.spec_committed(),
                    before.state.membership_state.spec_effective(),
                    new.take(k - since),
                ).1,
                self.state == (crate::raft_state::RaftState {
                    membership_state: self.state.membership_state,
                    ..before.state
                }),
                self.config == before.config,
                self.output == before.output,
                self.vote_granted_by == before.vote_granted_by,
                self.progress == before.progress,
                self.timer == before.timer,
            decreases entries.len() - k,
        {
            let e = &entries[k];
            proof {
                assert(views[k as int] == entries@[k as int]@);
                assert(new[k - since] == views[k as int]);
                assert(new.take(k - since + 1).drop_last() == new.take(k - since));
                assert(new.take(k - since + 1).last() == new[k - since]);
                assert(log_ids_of(new.take(k - since + 1)) =~= log_ids_of(new.take(k - since)).push(
                    e.log_id,
                ));
            }
            ids.push(e.log_id);
            if let Some(m) = e.get_membership() {
                self.state.membership_state.append(
                    EffectiveMembership::new(Some(e.log_id), m.clone()),
                );
            }
            k += 1;
        }
        proof {
            assert(new.take(new.len() as int) == new);
            let keys = self.state.log_ids@;
            assert(ids@.last() == entries@.last().log_id) by {
                assert(new.last() == views.last());
                assert(views.last() == entries@.last()@);
            }
            assert(ids@[0] == entries@[since as int].log_id) by {
                assert(new[0] == views[since as int]);
                assert(views[since as int] == entries@[since as int]@);
            }
            if self.state.committed is Some {
                lemma_log_id_at_range(keys, self.state.committed.unwrap().index);
            }
            if self.state.purge_upto is Some {
                lemma_log_id_at_range(keys, self.state.purge_upto.unwrap().index);
            }
            assert forall|j: int| since <= j < entries@.len() implies (#[trigger] entries@[j]).log_id
                == ids@[j - since] by {
                assert(new[j - since] == views[j]);
                assert(views[j] == entries@[j]@);
            }
        }
        self.state.log_ids.extend(&ids);
        proof {
            let res = self.state.log_ids@;
            lemma_log_id_at_range(res, 0);
            if self.state.committed is Some {
                let c = self.state.committed.unwrap();
                lemma_log_id_at_range(res, c.index);
                if c.index < res.last().index {
                    lemma_log_ids_ordered(res, c.index, res.last().index);
                }
            }
            assert(beyond(before.state.log_ids@, ids@[ids@.len() - 1]));
        }
        self.output.push_command(
            Command::AppendInputEntries { start: since as u64, end: entries.len() as u64 },
        );
        self.server_state_handler().update_server_state_if_changed();
    }

    /// Moves the committed log id up to `upto`, if that is a greater log id
    /// of the log; the effective membership is committed if its entry is
    /// among the committed ones. Returns whether the committed log id has
    /// moved.
    pub fn advance_committed(&mut self, upto: Option<LogId>) -> (r: bool)
        requires
            old(self).state.wf(),
        ensures
            final(self).state.wf(),
            r == old(self).model().can_commit(upto),
            final(self).model() == if r {
                old(self).model().committed_to(upto)
            } else {
                old(self).model()
            },
            r ==> final(self).state.committed == upto,
            opt_le(old(self).state.committed, final(self).state.committed),
            final(self).state.log_ids == old(self).state.log_ids,
            final(self).state.vote == old(self).state.vote,
            final(self).output == old(self).output,
            final(self).config == old(self).config,
            final(self).vote_granted_by == old(self).vote_granted_by,
            final(self).progress == old(self).progress,
            final(self).timer == old(self).timer,
    {
        proof {
            crate::log_id::lemma_opt_log_id_order(self.state.committed, self.state.committed, None);
        }
        let target = match upto {
            Some(t) => t,
            None => {
                return false;
            },
        };
        if !opt_is_lt(&self.state.committed, &upto) {
            return false;
        }
        let below = match self.state.committed {
            Some(c) => c.index <= target.index,
            None => true,
        };
        if !below {
            return false;
        }
        match self.state.get_log_id(target.index) {
            Some(local) => {
                if local != target {
                    return false;
                }
            },
            None => {
                return false;
            },
        }
        proof {
            let keys = self.state.log_ids@;
            lemma_log_id_at_range(keys, target.index);
            if target.index < keys.last().index {
                lemma_log_ids_ordered(keys, target.index, keys.last().index);
            }
            crate::log_id::lemma_opt_log_id_order(
                self.state.last_applied,
                self.state.committed,
                upto,
            );
        }
        self.state.committed = upto;
        self.state.membership_state.commit(&upto);
        true
    }

    /// Takes note that the log is committed up to `upto`, as a follower.
    ///
    /// The committed log id moves up to `upto` if that is a greater log id
    /// of the log. Then a command applies the entries up to there, and the
    /// effective membership is committed if its entry is among them. The
    /// committed log id never decreases.
    pub fn commit_entries(&mut self, upto: Option<LogId>)
        requires
            old(self).state.wf(),
        ensures
            final(self).state.wf(),
            final(self).config == old(self).config,
            final(self).vote_granted_by == old(self).vote_granted_by,
            final(self).progress == old(self).progress,
            final(self).timer == old(self).timer,
            final(self).model() == old(self).model().commit(upto),
            opt_le(old(self).state.committed, final(self).state.committed),
            final(self).state.log_ids == old(self).state.log_ids,
            final(self).state.vote == old(self).state.vote,
    {
        let already = self.state.committed;
        if self.advance_committed(upto) {
            self.output.push_command(
                Command::Apply { already_applied: already, upto: upto.unwrap() },
            );
        }
    }

    /// Decides whether an entry with the log id `id` can be put behind the
    /// log id below it.
    pub fn joins(&self, id: &LogId) -> (r: bool)
        requires
            self.state.log_ids.wf(),
        ensures
            r == self.model().joins(*id),
    {
        if id.index == 0 {
            return true;
        }
        match self.state.get_log_id(id.index - 1) {
            Some(below) => below.leader_id.is_le(&id.leader_id),
            None => false,
        }
    }

    /// Puts the entries from position `since` on into the log: the first of
    /// them is the first that the log does not hold. The log is truncated
    /// where it differs, and the entries are appended.
    fn accept_entries(
        &mut self,
        prev_log_id: Option<LogId>,
        entries: &[Entry],
        since: usize,
        Ghost(leader): Ghost<LeaderId>,
    )
        requires
            old(self).state.wf(),
            entries@.len() <= u64::MAX,
            since < entries@.len(),
            since == old(self).model().first_conflicting(entry_views(entries@)),
            entries_follow(prev_log_id, entry_views(entries@), leader),
            leader.le_spec(old(self).state.vote.leader_id),
            old(self).model().joins(entries@[since as int].log_id),
        ensures
            final(self).state.wf(),
            final(self).config == old(self).config,
            final(self).vote_granted_by == old(self).vote_granted_by,
            final(self).progress == old(self).progress,
            final(self).timer == old(self).timer,
            final(self).state.vote == old(self).state.vote,
            final(self).state.committed == old(self).state.committed,
            final(self).state.spec_last_log_id() == Some(entries@.last().log_id),
            final(self).model() == old(self).model().truncate_logs(
                entries@[since as int].log_id.index,
            ).append_entries(entry_views(entries@), since as int),
    {
        let ghost views = entry_views(entries@);
        let first_new = entries[since].log_id;
        let at = first_new.index;
        proof {
            assert(views[since as int] == entries@[since as int]@);
            let m = self.model();
            lemma_first_conflicting(m, views);
            assert(!m.has_log_id(first_new));
            let keys = self.state.log_ids@;
            lemma_log_id_at_range(keys, at);
            if at > 0 {
                lemma_log_id_at_range(keys, (at - 1) as u64);
            }
        }
        let ghost before = self.state.log_ids@;
        self.truncate_logs(at);
        proof {
            let keys = self.state.log_ids@;
            let ids = log_ids_of(views.skip(since as int));
            lemma_log_id_at_range(keys, 0);
            if at > 0 {
                lemma_log_id_at_range(keys, (at - 1) as u64);
                lemma_log_id_at_range(before, (at - 1) as u64);
                lemma_log_id_at_range(before, at);
                assert(log_id_at(keys, (at - 1) as u64) == log_id_at(before, (at - 1) as u64));
                assert(keys.len() > 0);
                assert(keys.last().index == at - 1);
            } else {
                assert(keys.len() == 0);
            }
            assert forall|i: int, j: int| 0 <= i < j < ids.len() implies (#[trigger] ids[i]).index < (
            #[trigger] ids[j]).index && ids[i].leader_id.le_spec(ids[j].leader_id) by {
                assert(views.skip(since as int)[i] == views[since + i]);
                assert(views.skip(since as int)[j] == views[since + j]);
                lemma_entries_follow(prev_log_id, views, leader, since + i, since + j);
            }
            assert forall|i: int| 0 <= i < ids.len() implies beyond(keys, #[trigger] ids[i]) by {
                assert(views.skip(since as int)[i] == views[since + i]);
                lemma_entries_follow(prev_log_id, views, leader, since as int, since + i);
                if keys.len() > 0 {
                    assert(keys.last().leader_id.le_spec(first_new.leader_id));
                }
            }
            assert forall|k: int| since <= k < entries@.len() implies (
            #[trigger] entries@[k]).log_id.leader_id.le_spec(self.state.vote.leader_id) by {
                assert(views[k] == entries@[k]@);
            }
        }
        self.do_append_entries(entries, since);
    }

    /// Takes note that the runtime has applied the log up to `upto` to the
    /// state machine. The last applied log id never decreases, and never goes
    /// beyond what is committed.
    pub fn finish_applying(&mut self, upto: LogId)
        requires
            old(self).state.wf(),
        ensures
            final(self).state.wf(),
            final(self).model() == old(self).model().applied(upto),
            final(self).state.vote == old(self).state.vote,
            final(self).output == old(self).output,
            spec_next_index(old(self).state.last_applied) <= spec_next_index(
                final(self).state.last_applied,
            ),
    {
        let beyond = match self.state.last_applied {
            Some(a) => a.index < upto.index,
            None => true,
        };
        let within = match self.state.committed {
            Some(c) => upto.index <= c.index,
            None => false,
        };
        if beyond && within && self.state.is_in_log(&Some(upto)) {
            self.state.last_applied = Some(upto);
        }
    }

    /// Installs a snapshot that a leader has sent, once all of it is
    /// received.
    ///
    /// A snapshot is installed if it reaches beyond what is committed and
    /// beyond the snapshot that the node has. Then it replaces the state
    /// machine: the log is committed and applied up to its last log id, its
    /// membership is committed, and the log is purged up to it. Where the log
    /// differs from the snapshot, the entries that are not committed are
    /// deleted first. Returns whether the snapshot is installed.
    pub fn install_snapshot(&mut self, meta: SnapshotMeta) -> (r: bool)
        requires
            old(self).state.wf(),
            spec_next_index(meta.last_log_id) <= u64::MAX,
        ensures
            final(self).state.wf(),
            final(self).state.vote == old(self).state.vote,
            r == old(self).model().installs(meta),
            final(self).model() == old(self).model().install_snapshot(meta),
            r ==> final(self).state.committed == meta.last_log_id && final(self).state.last_applied
                == meta.last_log_id && final(self).state.spec_last_purged_log_id()
                == meta.last_log_id,
    {
        let last = match meta.last_log_id {
            Some(l) => l,
            None => {
                return false;
            },
        };
        let beyond_committed = match self.state.committed {
            Some(c) => c.index < last.index,
            None => true,
        };
        if !beyond_committed || opt_is_le(&meta.last_log_id, &self.state.snapshot_meta.last_log_id)
            || !last.leader_id.is_le(&self.state.vote.leader_id) {
            return false;
        }
        let copy = meta.clone();
        self.snapshot_handler().update_snapshot(copy);
        let local = self.state.get_log_id(last.index);
        let differs = match local {
            Some(l) => l != last,
            None => false,
        };
        proof {
            let keys = self.state.log_ids@;
            lemma_log_id_at_range(keys, last.index);
            lemma_log_id_at_range(keys, 0);
        }
        if differs {
            let at: u64 = match self.state.committed {
                Some(c) => c.index + 1,
                None => 0,
            };
            proof {
                lemma_log_id_at_range(self.state.log_ids@, at);
            }
            // The snapshot is ahead of the state for a moment: the
            // invariants hold again once the snapshot is installed.
            self.truncate_conflict(at);
            proof {
                lemma_log_id_at_range(self.state.log_ids@, last.index);
                lemma_log_id_at_range(self.state.log_ids@, 0);
            }
        }
        self.complete_install(meta);
        true
    }

    /// Makes the snapshot with the metadata `meta` the state of the node,
    /// once the log does not differ from it: the log is committed and applied
    /// up to the last log id of the snapshot, the membership of the snapshot
    /// is committed, and the log is purged up to the snapshot.
    fn complete_install(&mut self, meta: SnapshotMeta)
        requires
            old(self).state.log_ids.wf(),
            meta.last_log_id is Some,
            meta.last_log_id.unwrap().index < u64::MAX,
            meta.last_log_id.unwrap().leader_id.le_spec(old(self).state.vote.leader_id),
            old(self).state.snapshot_meta@ == meta@,
            old(self).state.log_ids.spec_get(meta.last_log_id.unwrap().index) is None || old(self).state.log_ids.spec_get(meta.last_log_id.unwrap().index) == meta.last_log_id,
            old(self).state.log_ids@.len() > 0 ==> old(self).state.log_ids@[0].index
                <= meta.last_log_id.unwrap().index && old(self).state.log_ids@.last().leader_id.le_spec(old(self).state.vote.leader_id),
        ensures
            final(self).state.wf(),
            final(self).state.vote == old(self).state.vote,
            final(self).model() == old(self).model().complete_install(meta),
            final(self).state.committed == meta.last_log_id,
            final(self).state.last_applied == meta.last_log_id,
            final(self).state.spec_last_purged_log_id() == meta.last_log_id,
    {
        let last = meta.last_log_id.unwrap();
        let membership = EffectiveMembership::new_from_stored_membership(
            meta.last_membership.clone(),
        );
        proof {
            let keys = self.state.log_ids@;
            let res = crate::log_id_list::purged_keys(keys, last);
            crate::log_id_list::lemma_purged_keys_valid(keys, last);
            crate::log_id_list::lemma_keys_upto_bounds(keys, last.index);
            lemma_log_id_at_range(keys, last.index);
            lemma_log_id_at_range(res, last.index);
            lemma_log_id_at_range(res, 0);
            if keys.len() > 0 && last.index <= keys.last().index {
                let n = crate::log_id_list::keys_upto(keys, last.index) as int;
                assert(n > 0) by {
                    if n == 0 {
                        assert(keys[0].index > last.index);
                    }
                }
                assert(res[0] == last);
                if n < keys.len() {
                    assert(res.last() == keys.last());
                } else {
                    assert(res =~= seq![last]);
                }
            } else {
                assert(res =~= seq![last]);
            }
        }
        self.state.committed = Some(last);
        self.state.last_applied = Some(last);
        self.state.purge_upto = Some(last);
        self.state.membership_state.update_committed(membership);
        self.state.purge_log(&last);
        self.output.push_command(Command::InstallSnapshot { snapshot_meta: meta });
        self.output.push_command(Command::PurgeLog { upto: last });
        self.server_state_handler().update_server_state_if_changed();
    }

    /// Deletes the log from index `at` on, where the log differs from a
    /// snapshot that is about to be installed. The invariants that concern the
    /// snapshot are not asked for here: the snapshot is ahead of the state
    /// until it is installed.
    fn truncate_conflict(&mut self, at: u64)
        requires
            old(self).state.log_ids.wf(),
            at == spec_next_index(old(self).state.committed),
            old(self).state.in_log(old(self).state.committed),
            if old(self).state.purged_next == 0 {
                old(self).state.log_ids@.len() > 0 ==> old(self).state.log_ids@[0].index == 0
            } else {
                old(self).state.log_ids@.len() > 0 && old(self).state.purged_next == old(self).state.log_ids@[0].index + 1
            },
            spec_next_index(old(self).state.spec_last_purged_log_id()) <= spec_next_index(
                old(self).state.committed,
            ),
            old(self).state.spec_last_log_id() matches Some(l) ==> l.leader_id.le_spec(
                old(self).state.vote.leader_id,
            ),
        ensures
            final(self).state.log_ids.wf(),
            final(self).model() == old(self).model().truncate_logs(at),
            final(self).state.vote == old(self).state.vote,
            final(self).state.committed == old(self).state.committed,
            final(self).state.last_applied == old(self).state.last_applied,
            final(self).state.purged_next == old(self).state.purged_next,
            final(self).state.purge_upto == old(self).state.purge_upto,
            final(self).state.snapshot_meta == old(self).state.snapshot_meta,
            old(self).state.log_ids@.len() > 0 ==> final(self).state.log_ids@.len() > 0 || old(self).state.purged_next == 0,
            final(self).state.log_ids@.len() > 0 ==> old(self).state.log_ids@.len() > 0 && final(self).state.log_ids@[0] == old(self).state.log_ids@[0] && final(self).state.log_ids@.last().leader_id.le_spec(old(self).state.vote.leader_id),
            final(self).state.in_log(final(self).state.committed),
            forall|i: u64|
                i >= at && old(self).state.log_ids.spec_get(at) is Some ==> #[trigger] log_id_at(
                    final(self).state.log_ids@,
                    i,
                ) is None,
    {
        let existing = match self.state.get_log_id(at) {
            None => {
                return;
            },
            Some(x) => x,
        };
        let ghost keys = self.state.log_ids@;
        proof {
            let cut = if keys[0].index >= at {
                Seq::<LogId>::empty()
            } else {
                truncated_keys(keys, at)
            };
            assert forall|i: u64| i >= at implies #[trigger] log_id_at(cut, i) is None by {
                lemma_log_id_at_range(keys, at);
                if keys[0].index < at {
                    lemma_truncated_keys(keys, at, i);
                }
            }
            lemma_log_id_at_range(keys, at);
            lemma_log_id_at_range(keys, 0);
            if self.state.committed is Some {
                lemma_log_id_at_range(keys, self.state.committed.unwrap().index);
            }
            if keys[0].index < at {
                lemma_truncated_keys(keys, at, 0);
                lemma_truncated_keys(keys, at, (at - 1) as u64);
                lemma_log_id_at_range(keys, (at - 1) as u64);
                if (at - 1) < keys.last().index {
                    lemma_log_ids_ordered(keys, (at - 1) as u64, keys.last().index);
                }
                lemma_log_id_at_range(truncated_keys(keys, at), (at - 1) as u64);
            }
        }
        let first_index = match self.state.log_ids.first() {
            Some(f) => f.index,
            None => 0,
        };
        if first_index >= at {
            self.state.log_ids = LogIdList::new(Vec::new());
        } else {
            self.state.log_ids.truncate(at);
        }
        self.output.push_command(Command::DeleteConflictLog { since: existing });
        let changed = self.state.membership_state.truncate(at);
        if changed.is_some() {
            self.server_state_handler().update_server_state_if_changed();
        }
    }

    /// Handles an append-entries request of a leader.
    ///
    /// A request with a vote below that of the node is rejected with the
    /// vote of the node. Else the vote of the leader is taken, as committed.
    /// A request whose entries do not follow `prev_log_id`, or whose
    /// `prev_log_id` the log does not hold, is answered with a conflict; the
    /// start of the log always matches. Else the entries that the log lacks
    /// are appended, after the log is truncated where it differs, and the log
    /// is committed up to the lesser of what the leader has committed and the
    /// last of the entries. The vote of the node never decreases.
    #[verifier::rlimit(60)]
    pub fn handle_append_entries_req(
        &mut self,
        vote: &Vote,
        prev_log_id: Option<LogId>,
        entries: &[Entry],
        leader_commit: Option<LogId>,
    ) -> (resp: AppendEntriesResponse)
        requires
            old(self).state.wf(),
            entries@.len() <= u64::MAX,
        ensures
            final(self).state.wf(),
            final(self).config == old(self).config,
            final(self).vote_granted_by == old(self).vote_granted_by,
            final(self).progress == old(self).progress,
            final(self).timer == old(self).timer,
            old(self).state.vote.le_spec(final(self).state.vote),
            opt_le(old(self).state.committed, final(self).state.committed),
            (final(self).model(), resp) == old(self).model().handle_append_entries(
                *vote,
                prev_log_id,
                entry_views(entries@),
                leader_commit,
            ),
    {
        let ghost views = entry_views(entries@);
        proof {
            crate::log_id::lemma_opt_log_id_order(self.state.committed, self.state.committed, None);
            crate::vote::lemma_vote_order(self.state.vote, *vote, Vote { leader_id: vote.leader_id, committed: true });
        }
        if vote.is_lt(&self.state.vote) {
            return AppendEntriesResponse::HigherVote(self.state.vote);
        }
        let leader_vote = Vote { leader_id: vote.leader_id, committed: true };
        if leader_vote != self.state.vote {
            self.take_vote(leader_vote);
        }
        let since = self.first_conflicting_index(entries);
        if !check_entries_follow(&prev_log_id, entries, &vote.leader_id) {
            return AppendEntriesResponse::Conflict;
        }
        if let Some(prev) = prev_log_id {
            if !self.state.has_log_id(&prev) {
                return AppendEntriesResponse::Conflict;
            }
        }
        if since < entries.len() {
            assert(views[since as int] == entries@[since as int]@);
            if !self.joins(&entries[since].log_id) {
                return AppendEntriesResponse::Conflict;
            }
            self.accept_entries(prev_log_id, entries, since, Ghost(vote.leader_id));
        }
        let last_new = if entries.len() > 0 {
            assert(views.last() == entries@.last()@);
            Some(entries[entries.len() - 1].log_id)
        } else {
            prev_log_id
        };
        let upto = if opt_is_le(&leader_commit, &last_new) {
            leader_commit
        } else {
            last_new
        };
        self.commit_entries(upto);
        AppendEntriesResponse::Success
    }
}

/// The entries before the first that the log does not hold are in the log,
/// and that one is not.
pub proof fn lemma_first_conflicting(m: EngineModel, entries: Seq<EntryView>)
    ensures
        m.first_conflicting(entries) <= entries.len(),
        forall|k: int|
            0 <= k < m.first_conflicting(entries) ==> m.has_log_id((#[trigger] entries[k]).log_id),
        m.first_conflicting(entries) < entries.len() ==> !m.has_log_id(
            entries[m.first_conflicting(entries) as int].log_id,
        ),
    decreases entries.len(),
{
    if entries.len() > 0 && m.has_log_id(entries[0].log_id) {
        let rest = entries.drop_first();
        lemma_first_conflicting(m, rest);
        assert forall|k: int| 0 <= k < m.first_conflicting(entries) implies m.has_log_id(
            (#[trigger] entries[k]).log_id,
        ) by {
            if k > 0 {
                assert(entries[k] == rest[k - 1]);
            }
        }
        if m.first_conflicting(entries) < entries.len() {
            assert(entries[m.first_conflicting(entries) as int] == rest[m.first_conflicting(rest) as int]);
        }
    }
}

} // verus!
