//! How far replication to one target has come.

use vstd::prelude::*;

use crate::log_id::opt_is_lt;
use crate::log_id::opt_le;
use crate::log_id::opt_lt;
use crate::log_id::spec_next_index;
use crate::log_id::LogId;

verus! {

/// What a leader knows of the log of one target: the last log id that
/// matches, and the index before which the first log id that does not match
/// is searched.
#[derive(Clone, Copy, Debug, PartialEq, Eq, Structural)]
pub struct ProgressEntry {
    /// The last log id that is known to match on the target.
    pub matching: Option<LogId>,
    /// The logs from this index on are not known to match: the end of the
    /// search for the first log id that does not match.
    pub searching_end: u64,
}

impl ProgressEntry {
    /// The search starts behind what matches, and does not end before.
    pub open spec fn wf(self) -> bool {
        spec_next_index(self.matching) <= self.searching_end
    }

    /// The index in the middle of the search: the next log id to try. Where
    /// the search is over, it is the index behind what matches.
    pub open spec fn spec_mid(self) -> int {
        if spec_next_index(self.matching) < self.searching_end {
            spec_next_index(self.matching) + (self.searching_end - spec_next_index(self.matching))
                / 2
        } else {
            spec_next_index(self.matching)
        }
    }

    /// What is known once the log of the target is found to match up to
    /// `matching`: what matches never decreases, and the search does not end
    /// before it.
    pub open spec fn matched(self, matching: Option<LogId>) -> ProgressEntry {
        if opt_lt(self.matching, matching) && spec_next_index(self.matching) <= spec_next_index(
            matching,
        ) {
            ProgressEntry {
                matching,
                searching_end: if self.searching_end < spec_next_index(matching) {
                    spec_next_index(matching) as u64
                } else {
                    self.searching_end
                },
            }
        } else {
            self
        }
    }

    /// What is known once the log of the target is found not to hold the
    /// log id at index `conflict`: the search ends there. A conflict at or
    /// below what matches cannot be, and is passed over.
    pub open spec fn conflicted(self, conflict: u64) -> ProgressEntry {
        if spec_next_index(self.matching) <= conflict && conflict < self.searching_end {
            ProgressEntry { searching_end: conflict, ..self }
        } else {
            self
        }
    }

    /// Decides whether the search starts behind what matches, and does not
    /// end before. A runtime checks what it holds before it hands an engine
    /// what a replication stream has found out.
    pub fn validate(&self) -> (r: bool)
        ensures
            r == self.wf(),
    {
        match self.matching {
            Some(m) => m.index < self.searching_end,
            None => true,
        }
    }

    /// What is known of a target of which nothing matches yet, where the log
    /// of the leader ends before index `end`.
    pub fn empty(end: u64) -> (r: Self)
        ensures
            r == (ProgressEntry { matching: None, searching_end: end }),
            r.wf(),
    {
        ProgressEntry { matching: None, searching_end: end }
    }

    /// Takes note that the log of the target matches up to `matching`.
    /// What matches never decreases.
    pub fn update_matching(&mut self, matching: Option<LogId>)
        requires
            old(self).wf(),
            spec_next_index(matching) <= u64::MAX,
        ensures
            final(self).wf(),
            opt_le(old(self).matching, final(self).matching),
            *final(self) == old(self).matched(matching),
    {
        proof {
            crate::log_id::lemma_opt_log_id_order(self.matching, self.matching, None);
        }
        let ahead = match (self.matching, matching) {
            (None, _) => true,
            (Some(_), None) => false,
            (Some(a), Some(b)) => a.index <= b.index,
        };
        if opt_is_lt(&self.matching, &matching) && ahead {
            self.matching = matching;
            let next = crate::log_id::next_index(&matching);
            if self.searching_end < next {
                self.searching_end = next;
            }
        }
    }

    /// Takes note that the log of the target does not hold the log id at
    /// index `conflict`: the search ends there. A conflict at or below what
    /// matches cannot be, and is passed over.
    pub fn update_conflicting(&mut self, conflict: u64)
        requires
            old(self).wf(),
        ensures
            final(self).wf(),
            *final(self) == old(self).conflicted(conflict),
    {
        let start = match self.matching {
            Some(m) => m.index + 1,
            None => 0,
        };
        if start <= conflict && conflict < self.searching_end {
            self.searching_end = conflict;
        }
    }

    /// The index of the next log id to try: in the middle between what
    /// matches and the end of the search, so that the first log id that does
    /// not match is found in few steps. Where the search is over, it is the
    /// index behind what matches.
    pub fn mid(&self) -> (r: u64)
        requires
            spec_next_index(self.matching) <= u64::MAX,
        ensures
            r == self.spec_mid(),
            self.wf() ==> spec_next_index(self.matching) <= r <= self.searching_end,
            spec_next_index(self.matching) < self.searching_end ==> r < self.searching_end,
    {
        let start = match self.matching {
            Some(m) => m.index + 1,
            None => 0,
        };
        if start < self.searching_end {
            start + (self.searching_end - start) / 2
        } else {
            start
        }
    }
}

/// A conflict narrows the search: what matches stays, the search ends at
/// the conflict, and the next try starts no later than the last. A try from
/// the middle of a search that is on reports, as its conflict, the index
/// before the middle, which is in the search: so every such conflict ends
/// the search earlier, and the search is over after finitely many.
pub proof fn lemma_conflict_narrows(e: ProgressEntry, conflict: u64)
    requires
        e.wf(),
    ensures
        e.conflicted(conflict).wf(),
        e.conflicted(conflict).matching == e.matching,
        e.conflicted(conflict).searching_end <= e.searching_end,
        e.conflicted(conflict) != e ==> e.conflicted(conflict).searching_end == conflict && conflict
            < e.searching_end,
        e.conflicted(conflict).spec_mid() <= e.spec_mid(),
        spec_next_index(e.matching) < e.spec_mid() && conflict == e.spec_mid() - 1
            ==> e.conflicted(conflict) != e,
{
}

} // verus!
