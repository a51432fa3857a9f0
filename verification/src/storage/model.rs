//! The storage contract, as a mathematical model of a store.
//!
//! A store holds a vote, a log, the position up to which the log was purged,
//! a state machine that knows the last applied log id and the last applied
//! membership, and the last snapshot. Every operation of a store is a
//! function on this model. A defensive store rejects an operation that
//! violates an invariant of the contract, and changes nothing then.

use vstd::prelude::*;

use crate::entry::EntryPayloadView;
use crate::entry::EntryView;
use crate::log_id::opt_le;
use crate::log_id::spec_next_index;
use crate::log_id::LogId;
use crate::membership::membership::MembershipView;
use crate::membership::stored_membership::StoredMembershipView;
use crate::storage::snapshot_meta::SnapshotMetaView;
use crate::storage_error::DefensiveError;
use crate::storage_error::ErrorSubject;
use crate::storage_error::StorageError;
use crate::storage_error::Violation;
use crate::vote::LeaderId;
use crate::vote::Vote;

verus! {

/// What a snapshot in a store is: its metadata and its bytes.
pub struct SnapshotView {
    pub meta: SnapshotMetaView,
    pub data: Seq<u8>,
}

/// A range of log indices: from `start` on, inclusive, up to `end`,
/// exclusive. A bound that is `None` is no bound.
#[derive(Clone, Copy, Debug, PartialEq, Eq, Structural)]
pub struct LogIndexRange {
    pub start: Option<u64>,
    pub end: Option<u64>,
}

impl LogIndexRange {
    /// Whether the index `i` is in the range.
    pub open spec fn contains(self, i: u64) -> bool {
        &&& self.start matches Some(s) ==> s <= i
        &&& self.end matches Some(e) ==> i < e
    }

    /// The last index that a bounded range asks for. Where the range ends
    /// before index 0 this is 0.
    pub open spec fn want_last(self) -> Option<u64> {
        match self.end {
            Some(e) => Some(
                if e == 0 {
                    0
                } else {
                    (e - 1) as u64
                },
            ),
            None => None,
        }
    }

    /// Whether both bounds are given and no index is between them.
    pub open spec fn is_inverted(self) -> bool {
        self.start matches Some(s) && self.end matches Some(e) && s >= e
    }

    /// The range `start..end`.
    pub fn new(start: u64, end: u64) -> (r: Self)
        ensures
            r == (LogIndexRange { start: Some(start), end: Some(end) }),
    {
        LogIndexRange { start: Some(start), end: Some(end) }
    }

    /// The range `start..`.
    pub fn from(start: u64) -> (r: Self)
        ensures
            r == (LogIndexRange { start: Some(start), end: None }),
    {
        LogIndexRange { start: Some(start), end: None }
    }

    /// The range `..end`.
    pub fn to(end: u64) -> (r: Self)
        ensures
            r == (LogIndexRange { start: None, end: Some(end) }),
    {
        LogIndexRange { start: None, end: Some(end) }
    }

    /// The range `..`: every index.
    pub fn full() -> (r: Self)
        ensures
            r == (LogIndexRange { start: None, end: None }),
    {
        LogIndexRange { start: None, end: None }
    }

    /// Decides whether the index `i` is in the range.
    pub fn has(&self, i: u64) -> (r: bool)
        ensures
            r == self.contains(i),
    {
        let above = match self.start {
            Some(s) => s <= i,
            None => true,
        };
        let below = match self.end {
            Some(e) => i < e,
            None => true,
        };
        above && below
    }
}

/// The state of the log of a store: what was purged, and where it ends.
#[derive(Clone, Copy, Debug, PartialEq, Eq, Structural)]
pub struct LogState {
    /// The greatest log id that was purged, inclusive.
    pub last_purged_log_id: Option<LogId>,
    /// The log id of the last entry in the log; the last purged log id if
    /// the log is empty.
    pub last_log_id: Option<LogId>,
}

/// The model of a store.
pub struct StoreModel {
    /// Whether the store checks the invariants of the contract at its
    /// boundary.
    pub defensive: bool,
    /// Whether the I/O of the store never fails.
    pub reliable: bool,
    /// The saved vote.
    pub vote: Option<Vote>,
    /// The log entries by index.
    pub log: Map<u64, EntryView>,
    /// The greatest log id that was purged.
    pub last_purged: Option<LogId>,
    /// The last log id that was applied to the state machine.
    pub last_applied: Option<LogId>,
    /// The last membership that was applied to the state machine.
    pub last_membership: StoredMembershipView,
    /// The last snapshot that was built or installed.
    pub snapshot: Option<SnapshotView>,
}

/// The membership of an uninitialized cluster, held by no log entry.
pub open spec fn initial_membership() -> StoredMembershipView {
    StoredMembershipView {
        log_id: None,
        membership: MembershipView { configs: Seq::empty(), nodes: Map::empty() },
    }
}

/// The index is the greatest in the log.
pub open spec fn is_last_index(log: Map<u64, EntryView>, i: u64) -> bool {
    log.contains_key(i) && forall|j: u64| log.contains_key(j) ==> j <= i
}

/// The log with `entries` put in, each at its index, one after the other.
pub open spec fn appended(log: Map<u64, EntryView>, entries: Seq<EntryView>) -> Map<u64, EntryView>
    decreases entries.len(),
{
    if entries.len() == 0 {
        log
    } else {
        appended(log, entries.drop_last()).insert(entries.last().log_id.index, entries.last())
    }
}

/// The log without the entries from index `since` on.
pub open spec fn truncated(log: Map<u64, EntryView>, since: u64) -> Map<u64, EntryView> {
    log.restrict(Set::new(|i: u64| i < since))
}

/// The log without the entries up to index `upto`, inclusive.
pub open spec fn purged(log: Map<u64, EntryView>, upto: u64) -> Map<u64, EntryView> {
    log.restrict(Set::new(|i: u64| i > upto))
}

/// The last applied log id after `entries` are applied one after the other.
pub open spec fn applied_log_id(last: Option<LogId>, entries: Seq<EntryView>) -> Option<LogId> {
    if entries.len() == 0 {
        last
    } else {
        Some(entries.last().log_id)
    }
}

/// The last applied membership after `entries` are applied one after the
/// other: that of the last membership entry among them, if there is one.
pub open spec fn applied_membership(
    last: StoredMembershipView,
    entries: Seq<EntryView>,
) -> StoredMembershipView
    decreases entries.len(),
{
    if entries.len() == 0 {
        last
    } else {
        match entries.last().payload {
            EntryPayloadView::Membership(m) => StoredMembershipView {
                log_id: Some(entries.last().log_id),
                membership: m,
            },
            _ => applied_membership(last, entries.drop_last()),
        }
    }
}

/// The sequence `s` holds exactly the entries of `log` with an index in
/// `range`, by increasing index.
pub open spec fn is_log_slice(log: Map<u64, EntryView>, range: LogIndexRange, s: Seq<EntryView>) -> bool {
    &&& forall|i: int|
        0 <= i < s.len() ==> range.contains((#[trigger] s[i]).log_id.index) && log.contains_key(
            s[i].log_id.index,
        ) && log[s[i].log_id.index] == s[i]
    &&& forall|i: int, j: int|
        0 <= i < j < s.len() ==> (#[trigger] s[i]).log_id.index < (#[trigger] s[j]).log_id.index
    &&& forall|k: u64|
        #![trigger log.contains_key(k)]
        log.contains_key(k) && range.contains(k) ==> exists|i: int|
            0 <= i < s.len() && (#[trigger] s[i]).log_id.index == k
}

impl StoreModel {
    /// The model of a store that holds nothing yet.
    pub open spec fn initial(defensive: bool, reliable: bool) -> StoreModel {
        StoreModel {
            defensive,
            reliable,
            vote: None,
            log: Map::empty(),
            last_purged: None,
            last_applied: None,
            last_membership: initial_membership(),
            snapshot: None,
        }
    }

    /// The log is finite, and every entry is at its own index.
    pub open spec fn wf(self) -> bool {
        &&& self.log.dom().finite()
        &&& forall|i: u64| self.log.contains_key(i) ==> (#[trigger] self.log[i]).log_id.index == i
    }

    /// The log id of the last entry in the log; the last purged log id if
    /// the log is empty.
    pub open spec fn last_log_id(self) -> Option<LogId> {
        if exists|i: u64| is_last_index(self.log, i) {
            Some(self.log[choose|i: u64| is_last_index(self.log, i)].log_id)
        } else {
            self.last_purged
        }
    }

    /// The state of the log.
    pub open spec fn log_state(self) -> LogState {
        LogState { last_purged_log_id: self.last_purged, last_log_id: self.last_log_id() }
    }

    /// The model after `vote` is saved.
    pub open spec fn save_vote(self, vote: Vote) -> StoreModel {
        StoreModel { vote: Some(vote), ..self }
    }

    /// The model after `entries` are appended to the log.
    pub open spec fn append(self, entries: Seq<EntryView>) -> StoreModel {
        StoreModel { log: appended(self.log, entries), ..self }
    }

    /// The model after the log entries from `since` on, inclusive, are
    /// deleted.
    pub open spec fn delete_since(self, since: LogId) -> StoreModel {
        StoreModel { log: truncated(self.log, since.index), ..self }
    }

    /// The model after the log is purged up to `upto`, inclusive: nothing
    /// changes if `upto` is purged already; else the entries up to its index
    /// go, and `upto` is the last purged log id.
    pub open spec fn purge(self, upto: LogId) -> StoreModel {
        if opt_le(Some(upto), self.last_purged) {
            self
        } else {
            StoreModel {
                log: purged(self.log, upto.index),
                last_purged: Some(upto),
                ..self
            }
        }
    }

    /// The model after `entries` are applied to the state machine.
    pub open spec fn apply(self, entries: Seq<EntryView>) -> StoreModel {
        StoreModel {
            last_applied: applied_log_id(self.last_applied, entries),
            last_membership: applied_membership(self.last_membership, entries),
            ..self
        }
    }

    /// The metadata of a snapshot of the state machine is what the state
    /// machine has applied. The id of the snapshot is free.
    pub open spec fn is_snapshot_meta(self, meta: SnapshotMetaView) -> bool {
        meta.last_log_id == self.last_applied && meta.last_membership == self.last_membership
    }

    /// The model after the snapshot `snapshot` is installed: it replaces the
    /// state machine and the last snapshot.
    pub open spec fn install(self, snapshot: SnapshotView) -> StoreModel {
        StoreModel {
            last_applied: snapshot.meta.last_log_id,
            last_membership: snapshot.meta.last_membership,
            snapshot: Some(snapshot),
            ..self
        }
    }

    /// What a defensive store objects to when `vote` is to be saved: a vote
    /// below the saved one.
    pub open spec fn save_vote_violation(self, vote: Vote) -> Option<DefensiveError> {
        let curr = match self.vote {
            Some(v) => v,
            None => Vote { leader_id: LeaderId { term: 0, node_id: 0 }, committed: false },
        };
        if curr.le_spec(vote) {
            None
        } else {
            Some(
                DefensiveError {
                    subject: ErrorSubject::Vote,
                    violation: Violation::VoteNotAscending { curr, to: vote },
                },
            )
        }
    }

    /// What a defensive store objects to when the log is read: a log that
    /// goes beyond the last applied index with a log id below the last
    /// applied one.
    pub open spec fn dirty_log_violation(self) -> Option<DefensiveError> {
        match (self.last_log_id(), self.last_applied) {
            (Some(last), Some(applied)) if last.index > applied.index && last.lt_spec(applied) => Some(
                DefensiveError {
                    subject: ErrorSubject::Log(last),
                    violation: Violation::DirtyLog {
                        higher_index_log_id: last,
                        lower_index_log_id: applied,
                    },
                },
            ),
            _ => None,
        }
    }

    /// What a defensive store objects to when the entries in `range` are
    /// read: a range with both bounds and nothing between them.
    pub open spec fn range_violation(self, range: LogIndexRange) -> Option<DefensiveError> {
        if range.is_inverted() {
            Some(
                DefensiveError {
                    subject: ErrorSubject::Logs,
                    violation: Violation::RangeEmpty { start: range.start, end: range.want_last() },
                },
            )
        } else {
            None
        }
    }

    /// What a defensive store objects to when `entries` are appended: no
    /// entries; entries that do not follow one another by index; a first
    /// entry that does not follow the last log id by index; a first entry
    /// whose log id is not above the last log id.
    pub open spec fn append_violation(self, entries: Seq<EntryView>) -> Option<DefensiveError> {
        if entries.len() == 0 {
            Some(DefensiveError { subject: ErrorSubject::Logs, violation: Violation::LogsEmpty })
        } else if first_gap(entries) < entries.len() {
            Some(
                DefensiveError {
                    subject: ErrorSubject::Logs,
                    violation: Violation::LogsNonConsecutive {
                        prev: Some(entries[first_gap(entries) - 1].log_id),
                        next: entries[first_gap(entries) as int].log_id,
                    },
                },
            )
        } else if spec_next_index(self.last_log_id()) != entries[0].log_id.index || (
        self.last_log_id() is Some && opt_le(Some(entries[0].log_id), self.last_log_id())) {
            Some(
                DefensiveError {
                    subject: ErrorSubject::Log(entries[0].log_id),
                    violation: Violation::LogsNonConsecutive {
                        prev: self.last_log_id(),
                        next: entries[0].log_id,
                    },
                },
            )
        } else {
            None
        }
    }

    /// What a defensive store objects to when `entries` are applied: no
    /// entries; entries that do not follow one another by index; a first
    /// entry that does not follow the last applied log id by index; a first
    /// entry whose log id is not above the last applied one.
    pub open spec fn apply_violation(self, entries: Seq<EntryView>) -> Option<DefensiveError> {
        if entries.len() == 0 {
            Some(DefensiveError { subject: ErrorSubject::Logs, violation: Violation::LogsEmpty })
        } else if first_gap(entries) < entries.len() {
            Some(
                DefensiveError {
                    subject: ErrorSubject::Logs,
                    violation: Violation::LogsNonConsecutive {
                        prev: Some(entries[first_gap(entries) - 1].log_id),
                        next: entries[first_gap(entries) as int].log_id,
                    },
                },
            )
        } else if spec_next_index(self.last_applied) != entries[0].log_id.index || (
        self.last_applied is Some && opt_le(Some(entries[0].log_id), self.last_applied)) {
            Some(
                DefensiveError {
                    subject: ErrorSubject::Apply(entries[0].log_id),
                    violation: Violation::ApplyNonConsecutive {
                        prev: self.last_applied,
                        next: entries[0].log_id,
                    },
                },
            )
        } else {
            None
        }
    }

    /// What a defensive store objects to when the log is purged up to
    /// `upto`: an index beyond the last applied one.
    pub open spec fn purge_violation(self, upto: LogId) -> Option<DefensiveError> {
        if upto.index >= spec_next_index(self.last_applied) {
            Some(
                DefensiveError {
                    subject: ErrorSubject::Log(upto),
                    violation: Violation::PurgeNonApplied {
                        last_applied: self.last_applied,
                        purge_upto: upto,
                    },
                },
            )
        } else {
            None
        }
    }

    /// What a defensive store objects to when the log is deleted from
    /// `since` on: an index that is applied already.
    pub open spec fn delete_violation(self, since: LogId) -> Option<DefensiveError> {
        if since.index < spec_next_index(self.last_applied) {
            Some(
                DefensiveError {
                    subject: ErrorSubject::Log(since),
                    violation: Violation::AppliedWontConflict {
                        last_applied: self.last_applied,
                        first_conflict_log_id: since,
                    },
                },
            )
        } else {
            None
        }
    }
}

/// The position of the first entry that does not follow the one before it
/// by index; the number of entries if there is none.
pub open spec fn first_gap(entries: Seq<EntryView>) -> nat
    decreases entries.len(),
{
    if entries.len() <= 1 {
        entries.len()
    } else if first_gap(entries.drop_last()) < entries.len() - 1 {
        first_gap(entries.drop_last())
    } else if entries[entries.len() - 2].log_id.index + 1 != entries.last().log_id.index {
        (entries.len() - 1) as nat
    } else {
        entries.len()
    }
}

/// What a store may answer to a call: a defensive store answers with the
/// violation if there is one, and a plain store never does; an I/O error
/// comes only from a store whose I/O can fail.
pub open spec fn answers<T>(
    model: StoreModel,
    r: Result<T, StorageError>,
    violation: Option<DefensiveError>,
) -> bool {
    match r {
        Ok(_) => !(model.defensive && violation is Some),
        Err(StorageError::Defensive { source }) => model.defensive && violation == Some(source),
        Err(StorageError::IO { .. }) => !model.reliable,
    }
}


/// Appending one entry puts it at its index.
pub proof fn lemma_appended_one(log: Map<u64, EntryView>, e: EntryView)
    ensures
        appended(log, seq![e]) == log.insert(e.log_id.index, e),
{
    let s = seq![e];
    assert(s.drop_last() =~= Seq::<EntryView>::empty());
    assert(appended(log, s.drop_last()) == log);
}

/// Appending entries one after the other is appending them all.
pub proof fn lemma_appended_push(log: Map<u64, EntryView>, entries: Seq<EntryView>, e: EntryView)
    ensures
        appended(log, entries.push(e)) == appended(log, entries).insert(e.log_id.index, e),
{
    assert(entries.push(e).drop_last() =~= entries);
}

/// Appending two entries.
pub proof fn lemma_appended_2(log: Map<u64, EntryView>, a: EntryView, b: EntryView)
    ensures
        appended(log, seq![a, b]) == log.insert(a.log_id.index, a).insert(b.log_id.index, b),
{
    assert(seq![a, b] =~= seq![a].push(b));
    lemma_appended_one(log, a);
    lemma_appended_push(log, seq![a], b);
}

/// Appending three entries.
pub proof fn lemma_appended_3(log: Map<u64, EntryView>, a: EntryView, b: EntryView, c: EntryView)
    ensures
        appended(log, seq![a, b, c]) == log.insert(a.log_id.index, a).insert(
            b.log_id.index,
            b,
        ).insert(c.log_id.index, c),
{
    assert(seq![a, b, c] =~= seq![a, b].push(c));
    lemma_appended_2(log, a, b);
    lemma_appended_push(log, seq![a, b], c);
}

/// Appending four entries.
pub proof fn lemma_appended_4(
    log: Map<u64, EntryView>,
    a: EntryView,
    b: EntryView,
    c: EntryView,
    d: EntryView,
)
    ensures
        appended(log, seq![a, b, c, d]) == log.insert(a.log_id.index, a).insert(
            b.log_id.index,
            b,
        ).insert(c.log_id.index, c).insert(d.log_id.index, d),
{
    assert(seq![a, b, c, d] =~= seq![a, b, c].push(d));
    lemma_appended_3(log, a, b, c);
    lemma_appended_push(log, seq![a, b, c], d);
}

/// Applying blank entries leaves the membership.
pub proof fn lemma_applied_blanks(last: StoredMembershipView, entries: Seq<EntryView>)
    requires
        forall|i: int| 0 <= i < entries.len() ==> !((#[trigger] entries[i]).payload is Membership),
    ensures
        applied_membership(last, entries) == last,
    decreases entries.len(),
{
    if entries.len() > 0 {
        let front = entries.drop_last();
        assert forall|i: int| 0 <= i < front.len() implies !((#[trigger] front[i]).payload is Membership) by {
            assert(front[i] == entries[i]);
        }
        lemma_applied_blanks(last, front);
        assert(!(entries[entries.len() - 1].payload is Membership));
    }
}

/// Applying entries of which the last is a membership entry gives that
/// membership.
pub proof fn lemma_applied_last(last: StoredMembershipView, entries: Seq<EntryView>)
    requires
        entries.len() > 0,
        entries.last().payload is Membership,
    ensures
        applied_membership(last, entries) == (StoredMembershipView {
            log_id: Some(entries.last().log_id),
            membership: entries.last().payload->Membership_0,
        }),
{
}

/// The last log id is that of the entry at the greatest index.
pub proof fn lemma_last_log_id(model: StoreModel, i: u64)
    requires
        is_last_index(model.log, i),
    ensures
        model.last_log_id() == Some(model.log[i].log_id),
{
    let chosen = choose|j: u64| is_last_index(model.log, j);
    assert(is_last_index(model.log, chosen));
    assert(chosen == i);
}

/// With an empty log the last log id is the last purged one.
pub proof fn lemma_last_log_id_empty(model: StoreModel)
    requires
        forall|i: u64| !model.log.contains_key(i),
    ensures
        model.last_log_id() == model.last_purged,
{
}

/// Applying one entry.
pub proof fn lemma_applied_one(last: StoredMembershipView, e: EntryView)
    ensures
        applied_membership(last, seq![e]) == match e.payload {
            EntryPayloadView::Membership(m) => StoredMembershipView {
                log_id: Some(e.log_id),
                membership: m,
            },
            _ => last,
        },
{
    let s = seq![e];
    assert(s.drop_last() =~= Seq::<EntryView>::empty());
    assert(applied_membership(last, s.drop_last()) == last);
}

/// Entries that follow one another have no gap.
pub proof fn lemma_no_gap(entries: Seq<EntryView>)
    requires
        forall|i: int|
            0 < i < entries.len() ==> entries[i - 1].log_id.index + 1 == (
            #[trigger] entries[i]).log_id.index,
    ensures
        first_gap(entries) == entries.len(),
    decreases entries.len(),
{
    if entries.len() > 1 {
        let front = entries.drop_last();
        assert forall|i: int| 0 < i < front.len() implies front[i - 1].log_id.index + 1 == (
        #[trigger] front[i]).log_id.index by {
            assert(front[i] == entries[i]);
            assert(front[i - 1] == entries[i - 1]);
        }
        lemma_no_gap(front);
    }
}

} // verus!
