//! What a leader does: it takes writes of clients, follows the progress of
//! replication, and commits what a quorum has.

use std::collections::BTreeSet;

use vstd::prelude::*;

use crate::engine::progress::ProgressEntry;
use crate::engine::command::Command;
use crate::engine::engine_impl::Engine;
use crate::engine::model::log_ids_of;
use crate::engine::model::granted;
use crate::engine::model::is_candidate;
use crate::engine::model::EngineModel;
use crate::engine::model::ChangeMembershipError;
use crate::engine::model::ForwardToLeader;
use crate::engine::model::InitializeError;
use crate::membership::membership::Membership;
use crate::vote::Vote;
use crate::entry::entry_views;
use crate::entry::Entry;
use crate::entry::EntryPayload;
use crate::entry::EntryView;
use crate::log_id::opt_is_le;
use crate::log_id::opt_is_lt;
use crate::log_id::opt_le;
use crate::log_id::spec_next_index;
use crate::log_id::LogId;
use crate::log_id::LogIdRange;
use crate::log_id_list::beyond;
use crate::membership::into_nodes::ids_increasing;
use crate::membership::into_nodes::map_keys;
use crate::membership::membership::is_quorum;
use crate::node::NodeId;
use crate::replication::replication_core::ReplicationResult;

verus! {

broadcast use vstd::std_specs::btree::group_btree_axioms;

/// Whether the node `n` is among the first `k` of `keys`.
pub open spec fn is_seen(keys: Seq<NodeId>, k: int, n: NodeId) -> bool {
    exists|j: int| 0 <= j < k && keys[j] == n
}

impl Engine {
    /// Whether `best` is at least the log id `c`, if the leader can commit
    /// `c`.
    pub open spec fn covered(&self, c: Option<LogId>, best: Option<LogId>) -> bool {
        c is Some ==> (self.model().committable(c.unwrap()) ==> opt_le(c, best))
    }

    /// The nodes that have the log up to `c`.
    fn granted_by(&self, c: &LogId) -> (r: BTreeSet<NodeId>)
        ensures
            r@ == granted(self.progress@, self.config.id, self.state.spec_last_log_id(), *c),
    {
        let last = match self.state.last_log_id() {
            Some(l) => Some(*l),
            None => None,
        };
        let mut r: BTreeSet<NodeId> = BTreeSet::new();
        if opt_is_le(&Some(*c), &last) {
            r.insert(self.config.id);
        }
        let keys = map_keys(&self.progress);
        let ghost own = r@;
        let ghost progress = self.progress@;
        let mut k: usize = 0;
        assert forall|n: NodeId| !is_seen(keys@, 0, n) by {}
        while k < keys.len()
            invariant
                0 <= k <= keys@.len(),
                progress == self.progress@,
                keys@.to_set() == progress.dom(),
                forall|n: NodeId|
                    #![trigger r@.contains(n)]
                    r@.contains(n) <==> own.contains(n) || (is_seen(keys@, k as int, n) && opt_le(
                        Some(*c),
                        progress[n].matching,
                    )),
            decreases keys.len() - k,
        {
            let n = keys[k];
            proof {
                assert(keys@.to_set().contains(keys@[k as int]));
                assert forall|x: NodeId| is_seen(keys@, k + 1, x) <==> (is_seen(keys@, k as int, x) || x
                    == n) by {
                    if is_seen(keys@, k + 1, x) {
                        let j = choose|j: int| 0 <= j < k + 1 && keys@[j] == x;
                        if j < k {
                            assert(is_seen(keys@, k as int, x));
                        }
                    }
                    if is_seen(keys@, k as int, x) {
                        let j = choose|j: int| 0 <= j < k && keys@[j] == x;
                        assert(0 <= j < k + 1 && keys@[j] == x);
                    }
                    if x == n {
                        assert(0 <= k < k + 1 && keys@[k as int] == x);
                    }
                }
            }
            let entry = self.progress.get(&n).unwrap();
            let ghost before = r@;
            if opt_is_le(&Some(*c), &entry.matching) {
                r.insert(n);
            }
            proof {
                assert forall|x: NodeId|
                    #![trigger r@.contains(x)]
                    r@.contains(x) <==> own.contains(x) || (is_seen(keys@, k + 1, x) && opt_le(
                        Some(*c),
                        progress[x].matching,
                    )) by {
                    assert(before.contains(x) <==> own.contains(x) || (is_seen(keys@, k as int, x)
                        && opt_le(Some(*c), progress[x].matching)));
                }
            }
            k += 1;
        }
        proof {
            let want = granted(progress, self.config.id, last, *c);
            assert forall|x: NodeId| r@.contains(x) <==> want.contains(x) by {
                if progress.contains_key(x) {
                    assert(keys@.to_set().contains(x));
                    let j = choose|j: int| 0 <= j < keys@.len() && keys@[j] == x;
                    assert(is_seen(keys@, keys@.len() as int, x));
                }
                if is_seen(keys@, keys@.len() as int, x) {
                    let j = choose|j: int| 0 <= j < keys@.len() && keys@[j] == x;
                    assert(keys@.to_set().contains(keys@[j]));
                }
            }
            assert(r@ =~= want);
        }
        r
    }

    /// Decides whether the leader can commit the log id `c`, which is its
    /// last log id or one that matches on a target.
    fn can_commit(&self, c: &LogId) -> (r: bool)
        requires
            is_candidate(self.progress@, self.state.spec_last_log_id(), *c),
        ensures
            r == self.model().committable(*c),
    {
        if c.leader_id != self.state.vote.leader_id {
            return false;
        }
        let by = self.granted_by(c);
        self.state.membership_state.effective().membership().is_quorum(&by)
    }

    /// Calculates the greatest log id that the leader can commit: the
    /// greatest log id of its own that a quorum of the effective membership
    /// has.
    pub fn calc_committed(&self) -> (r: Option<LogId>)
        ensures
            r matches Some(c) ==> self.model().committable(c),
            forall|c: LogId| self.model().committable(c) ==> opt_le(Some(c), r),
    {
        let mut best: Option<LogId> = None;
        if let Some(l) = self.state.last_log_id() {
            if self.can_commit(l) {
                best = Some(*l);
            }
        }
        let keys = map_keys(&self.progress);
        let mut k: usize = 0;
        while k < keys.len()
            invariant
                0 <= k <= keys@.len(),
                keys@.to_set() == self.progress@.dom(),
                best matches Some(c) ==> self.model().committable(c),
                self.covered(self.state.spec_last_log_id(), best),
                forall|j: int|
                    0 <= j < k ==> self.covered((#[trigger] self.progress@[keys@[j]]).matching, best),
            decreases keys.len() - k,
        {
            let n = keys[k];
            proof {
                assert(keys@.to_set().contains(keys@[k as int]));
            }
            let entry = self.progress.get(&n).unwrap();
            let ghost before = best;
            if let Some(c) = entry.matching {
                if opt_is_lt(&best, &Some(c)) && self.can_commit(&c) {
                    best = Some(c);
                }
            }
            proof {
                crate::log_id::lemma_opt_log_id_order(before, best, None);
                assert forall|j: int| 0 <= j < k + 1 implies self.covered(
                    (#[trigger] self.progress@[keys@[j]]).matching,
                    best,
                ) by {
                    if self.progress@[keys@[j]].matching is Some {
                        let c = self.progress@[keys@[j]].matching.unwrap();
                        crate::log_id::lemma_opt_log_id_order(Some(c), before, best);
                    }
                }
                if self.state.spec_last_log_id() is Some {
                    crate::log_id::lemma_opt_log_id_order(
                        self.state.spec_last_log_id(),
                        before,
                        best,
                    );
                }
            }
            k += 1;
        }
        proof {
            assert forall|c: LogId| self.model().committable(c) implies opt_le(Some(c), best) by {
                if self.state.spec_last_log_id() != Some(c) {
                    let n = choose|n: NodeId|
                        self.progress@.contains_key(n) && #[trigger] self.progress@[n].matching
                            == Some(c);
                    assert(keys@.to_set().contains(n));
                    let j = choose|j: int| 0 <= j < keys@.len() && keys@[j] == n;
                    assert(self.progress@[keys@[j]].matching == Some(c));
                }
            }
        }
        best
    }

    /// Commits what a quorum has: the committed log id moves up to the
    /// greatest log id that the leader can commit, if that is beyond it. Then
    /// a command applies the entries up to there, and a command tells the
    /// targets. The committed log id never decreases.
    pub fn leader_commit(&mut self)
        requires
            old(self).state.wf(),
        ensures
            final(self).state.wf(),
            final(self).config == old(self).config,
            final(self).vote_granted_by == old(self).vote_granted_by,
            final(self).progress == old(self).progress,
            final(self).timer == old(self).timer,
            final(self).state.vote == old(self).state.vote,
            final(self).state.log_ids == old(self).state.log_ids,
            opt_le(old(self).state.committed, final(self).state.committed),
            final(self).model() == old(self).model().leader_commit(),
    {
        let best = self.calc_committed();
        proof {
            self.lemma_calc_committed(best);
        }
        let already = self.state.committed;
        if self.advance_committed(best) {
            self.output.push_command(
                Command::LeaderCommit { already_committed: already, upto: best.unwrap() },
            );
            self.output.push_command(Command::ReplicateCommitted { committed: best });
        }
    }

    /// What `calc_committed` calculates is the greatest log id that the
    /// leader can commit.
    pub proof fn lemma_calc_committed(&self, best: Option<LogId>)
        requires
            best matches Some(c) ==> self.model().committable(c),
            forall|c: LogId| self.model().committable(c) ==> opt_le(Some(c), best),
        ensures
            best == self.model().calc_committed(),
    {
        match best {
            Some(b) => {
                assert(self.model().is_greatest_committable(b)) by {
                    assert forall|d: LogId| self.model().committable(d) implies #[trigger] d.le_spec(b) by {
                        assert(opt_le(Some(d), best));
                    }
                }
                let c = choose|c: LogId| self.model().is_greatest_committable(c);
                assert(c.le_spec(b) && b.le_spec(c));
                crate::log_id::lemma_log_id_order(b, c, b);
            },
            None => {
                assert forall|c: LogId| !self.model().is_greatest_committable(c) by {
                    if self.model().committable(c) {
                        assert(opt_le(Some(c), best));
                    }
                }
            },
        }
    }

    /// Takes note of what a replication action to `target` has found out.
    ///
    /// Where the log of the target matches further than was known, the
    /// leader commits what a quorum has now. Where the log of the target does
    /// not hold a log id, the search for the first such log id ends there.
    /// What is found out about a node that is no target changes nothing.
    pub fn update_progress(&mut self, target: NodeId, result: ReplicationResult)
        requires
            old(self).state.wf(),
            forall|n: NodeId| old(self).progress@.contains_key(n) ==> (#[trigger] old(self).progress@[n]).wf(),
            result matches ReplicationResult::Matching(m) ==> spec_next_index(m) <= u64::MAX,
        ensures
            final(self).state.wf(),
            final(self).state.vote == old(self).state.vote,
            final(self).state.log_ids == old(self).state.log_ids,
            opt_le(old(self).state.committed, final(self).state.committed),
            final(self).model() == old(self).model().update_progress(target, result),
            forall|n: NodeId|
                final(self).progress@.contains_key(n) ==> (#[trigger] final(self).progress@[n]).wf()
                    && opt_le(old(self).progress@[n].matching, final(self).progress@[n].matching),
    {
        proof {
            crate::log_id::lemma_opt_log_id_order(self.state.committed, self.state.committed, None);
            assert forall|n: NodeId| self.progress@.contains_key(n) implies opt_le(
                (#[trigger] self.progress@[n]).matching,
                self.progress@[n].matching,
            ) by {}
        }
        let mut entry = match self.progress.get(&target) {
            Some(e) => *e,
            None => {
                return;
            },
        };
        match result {
            ReplicationResult::Matching(m) => {
                entry.update_matching(m);
                self.progress.insert(target, entry);
                assert(self.progress@.dom() =~= old(self).progress@.dom());
                self.leader_commit();
            },
            ReplicationResult::Conflict(c) => {
                let before = entry;
                entry.update_conflicting(c.index);
                if entry != before {
                    self.progress.insert(target, entry);
                    assert(self.progress@.dom() =~= old(self).progress@.dom());
                    let cmd = self.replication_command(target, &entry);
                    self.output.push_command(cmd);
                }
            },
        }
    }

    /// What the runtime is told to send to the target that `entry` is
    /// about: the log entries from the middle of the search on, or the
    /// snapshot where those entries are purged already.
    pub fn replication_command(&self, target: NodeId, entry: &ProgressEntry) -> (r: Command)
        requires
            self.state.wf(),
            self.progress@.contains_key(target),
            self.progress@[target] == *entry,
        ensures
            r == self.model().replication_of(target),
    {
        let last_log_id = match self.state.last_log_id() {
            Some(l) => Some(*l),
            None => None,
        };
        let fits = match entry.matching {
            Some(m) => m.index < u64::MAX,
            None => true,
        };
        if !fits {
            // Nothing is behind what matches.
            let range = LogIdRange::new(entry.matching, last_log_id);
            return Command::ReplicateEntries { target, range };
        }
        let start = entry.mid();
        if start < self.state.purged_next {
            return Command::ReplicateSnapshot { target };
        }
        let next = crate::log_id::next_index(&entry.matching);
        let prev = if start == next {
            entry.matching
        } else {
            match self.state.log_ids.get(start - 1) {
                Some(id) => Some(id),
                None => entry.matching,
            }
        };
        Command::ReplicateEntries { target, range: LogIdRange::new(prev, last_log_id) }
    }
}

/// The views of payloads.
pub open spec fn payload_views(payloads: Seq<EntryPayload>) -> Seq<crate::entry::EntryPayloadView> {
    Seq::new(payloads.len(), |i: int| payloads[i]@)
}

impl Engine {
    /// Sets up a cluster with the membership `membership`, of which this
    /// node is a voter: the membership becomes the first entry of the log, and
    /// the node stands for election. Returns that entry, for the runtime to
    /// append it.
    ///
    /// A node that is initialized already rejects this: one that has a log,
    /// or that has voted.
    pub fn initialize(&mut self, membership: Membership) -> (r: Result<Entry, InitializeError>)
        requires
            old(self).state.wf(),
        ensures
            final(self).state.wf(),
            old(self).state.vote.le_spec(final(self).state.vote),
            final(self).model() == old(self).model().initialize(membership@),
            match r {
                Ok(entry) => old(self).model().initialize_error(membership@) is None && entry@
                    == EngineModel::first_entry(membership@),
                Err(e) => old(self).model().initialize_error(membership@) == Some(e),
            },
    {
        let last_log_id = match self.state.last_log_id() {
            Some(l) => Some(*l),
            None => None,
        };
        if last_log_id.is_some() || self.state.vote != Vote::default() {
            return Err(InitializeError::NotAllowed { last_log_id, vote: self.state.vote });
        }
        if !membership.is_voter(&self.config.id) {
            return Err(InitializeError::NotInMembers { node_id: self.config.id });
        }
        let entry = Entry::new_membership(LogId::default(), membership);
        let entries = vec![entry.clone()];
        proof {
            let views = entry_views(entries@);
            assert(views =~= seq![EngineModel::first_entry(membership@)]);
            assert(views.skip(0) == views);
            let ids = log_ids_of(views);
            assert forall|i: int, j: int| 0 <= i < j < ids.len() implies (#[trigger] ids[i]).index < (
            #[trigger] ids[j]).index && ids[i].leader_id.le_spec(ids[j].leader_id) by {}
            assert forall|i: int| 0 <= i < ids.len() implies beyond(
                self.state.log_ids@,
                #[trigger] ids[i],
            ) by {}
            assert(entries@[0]@ == views[0]);
        }
        self.do_append_entries(entries.as_slice(), 0);
        self.elect();
        Ok(entry)
    }

    /// Where this node, which is not the leader, sends a client: to the
    /// leader that its vote names, if that vote is committed.
    pub fn forward_to_leader(&self) -> (r: ForwardToLeader)
        ensures
            r == self.model().forward_to_leader(),
    {
        if !self.state.vote.is_committed() {
            return ForwardToLeader { leader_id: None, leader_node: None };
        }
        let leader = self.state.vote.leader_id.node_id;
        let leader_node = match self.state.membership_state.effective().membership().nodes().get(
            &leader,
        ) {
            Some(node) => Some(*node),
            None => None,
        };
        ForwardToLeader { leader_id: Some(leader), leader_node }
    }

    /// Tells the runtime to replicate the log up to its end to every
    /// target, by increasing id: to each goes what is behind the log id that
    /// matches on it, or what is behind the middle of the search for the
    /// first log id that does not match.
    pub fn replicate_to_all(&mut self)
        requires
            old(self).state.wf(),
        ensures
            final(self).state == old(self).state,
            final(self).model() == old(self).model().replicate_to(old(self).model().targets()),
    {
        let keys = map_keys(&self.progress);
        let ghost base = self.model();
        proof {
            let chosen = base.targets();
            assert(ids_increasing(keys@) && keys@.to_set() == base.progress.dom());
            crate::membership::into_nodes::lemma_increasing_unique(keys@, chosen);
            assert(keys@.take(0) =~= Seq::<NodeId>::empty());
        }
        let mut k: usize = 0;
        while k < keys.len()
            invariant
                0 <= k <= keys@.len(),
                keys@.to_set() == base.progress.dom(),
                base == old(self).model(),
                self.state == old(self).state,
                self.state.wf(),
                self.progress == old(self).progress,
                self.model() == base.replicate_to(keys@.take(k as int)),
            decreases keys.len() - k,
        {
            let target = keys[k];
            proof {
                assert(keys@.to_set().contains(keys@[k as int]));
                assert(keys@.take(k + 1).drop_last() == keys@.take(k as int));
                assert(keys@.take(k + 1).last() == target);
            }
            let entry = *self.progress.get(&target).unwrap();
            let cmd = self.replication_command(target, &entry);
            self.output.push_command(cmd);
            k += 1;
        }
        proof {
            assert(keys@.take(keys@.len() as int) == keys@);
        }
    }

    /// Handles a write of a client.
    ///
    /// A node that is not the leader sends the client to the leader. A
    /// leader gives each payload the next log id, appends the entries to its
    /// log, tells the runtime to replicate them to every target, and commits
    /// what a quorum has. Returns the entries with their log ids.
    pub fn client_write(&mut self, payloads: Vec<EntryPayload>) -> (r: Result<
        Vec<Entry>,
        ForwardToLeader,
    >)
        requires
            old(self).state.wf(),
            spec_next_index(old(self).state.spec_last_log_id()) + payloads@.len() < u64::MAX,
        ensures
            final(self).state.wf(),
            final(self).state.vote == old(self).state.vote,
            final(self).model() == old(self).model().client_write(payload_views(payloads@)).0,
            match (r, old(self).model().client_write(payload_views(payloads@)).1) {
                (Ok(entries), Ok(views)) => entry_views(entries@) == views,
                (Err(e), Err(f)) => e == f,
                _ => false,
            },
    {
        if !self.state.server_state.is_leader() {
            return Err(self.forward_to_leader());
        }
        let n = payloads.len();
        let mut entries: Vec<Entry> = Vec::new();
        if n == 0 {
            assert(entry_views(entries@) =~= Seq::<EntryView>::empty());
            return Ok(entries);
        }
        let start: u64 = match self.state.last_log_id() {
            Some(l) => l.index + 1,
            None => 0,
        };
        let leader_id = self.state.vote.leader_id;
        let ghost views = self.model().written(payload_views(payloads@));
        let mut k: usize = 0;
        while k < n
            invariant
                0 <= k <= n,
                n == payloads@.len(),
                start + n < u64::MAX,
                start == spec_next_index(self.state.spec_last_log_id()),
                leader_id == self.state.vote.leader_id,
                views == self.model().written(payload_views(payloads@)),
                entries@.len() == k,
                forall|i: int| 0 <= i < k ==> (#[trigger] entries@[i])@ == views[i],
                *self == *old(self),
            decreases n - k,
        {
            let payload = payloads[k].clone();
            let log_id = LogId::new(leader_id, start + k as u64);
            assert(payload_views(payloads@)[k as int] == payloads@[k as int]@);
            entries.push(Entry { log_id, payload });
            k += 1;
        }
        proof {
            assert(entry_views(entries@) =~= views);
            let keys = self.state.log_ids@;
            let ids = log_ids_of(views.skip(0));
            assert(views.skip(0) == views);
            assert forall|i: int, j: int| 0 <= i < j < ids.len() implies (#[trigger] ids[i]).index < (
            #[trigger] ids[j]).index && ids[i].leader_id.le_spec(ids[j].leader_id) by {}
            assert forall|i: int| 0 <= i < ids.len() implies beyond(keys, #[trigger] ids[i]) by {}
            assert forall|i: int| 0 <= i < entries@.len() implies (
            #[trigger] entries@[i]).log_id.leader_id.le_spec(self.state.vote.leader_id) by {
                assert(entries@[i]@ == views[i]);
            }
            assert(entries@[0]@ == views[0]);
        }
        self.do_append_entries(entries.as_slice(), 0);
        self.output.push_command(Command::MoveInputLogId { count: n as u64 });
        self.replicate_to_all();
        self.leader_commit();
        Ok(entries)
    }

    /// Handles a request to change the membership to the config `goal`.
    ///
    /// A leader whose effective membership is committed writes the
    /// membership to go through on the way to `goal`: the joint config of the
    /// effective config and `goal`, or `goal` alone where the effective
    /// membership holds it already. The new membership is effective at once.
    /// A change that is under way is not stacked: the request is rejected until
    /// the effective membership is committed.
    pub fn change_membership(&mut self, goal: BTreeSet<NodeId>) -> (r: Result<
        Vec<Entry>,
        ChangeMembershipError,
    >)
        requires
            old(self).state.wf(),
            spec_next_index(old(self).state.spec_last_log_id()) + 1 < u64::MAX,
        ensures
            final(self).state.wf(),
            final(self).state.vote == old(self).state.vote,
            final(self).model() == old(self).model().change_membership(goal@).0,
            match (r, old(self).model().change_membership(goal@).1) {
                (Ok(entries), Ok(views)) => entry_views(entries@) == views,
                (Err(e), Err(f)) => e == f,
                _ => false,
            },
    {
        if !self.state.server_state.is_leader() {
            return Err(ChangeMembershipError::ForwardToLeader(self.forward_to_leader()));
        }
        let committed = *self.state.membership_state.committed().log_id();
        let effective = *self.state.membership_state.effective().log_id();
        if committed != effective {
            return Err(
                ChangeMembershipError::InProgress { committed, membership_log_id: effective },
            );
        }
        let next = self.state.membership_state.effective().membership().next_coherent(goal);
        let payloads = vec![EntryPayload::Membership(next)];
        proof {
            assert(payload_views(payloads@) =~= seq![
                crate::entry::EntryPayloadView::Membership(self.model().next_membership(goal@)),
            ]);
        }
        match self.client_write(payloads) {
            Ok(entries) => Ok(entries),
            Err(e) => Err(ChangeMembershipError::ForwardToLeader(e)),
        }
    }
}

} // verus!
