//! Log ids and the order on them.

use vstd::prelude::*;

use crate::vote::CommittedLeaderId;
use crate::vote::LeaderId;

verus! {

/// The id of a log entry: the leader that proposed it and its index in the
/// log. Ordered by `(term, node_id, index)`.
#[derive(Clone, Copy, Debug, PartialEq, Eq, Structural, PartialOrd, Ord, Hash)]
pub struct LogId {
    pub leader_id: CommittedLeaderId,
    pub index: u64,
}

impl LogId {
    /// `self < other` in the order by `(term, node_id, index)`.
    pub open spec fn lt_spec(self, other: LogId) -> bool {
        self.leader_id.lt_spec(other.leader_id) || (self.leader_id == other.leader_id && self.index
            < other.index)
    }

    /// `self <= other` in the order by `(term, node_id, index)`.
    pub open spec fn le_spec(self, other: LogId) -> bool {
        self.lt_spec(other) || self == other
    }

    pub fn new(leader_id: CommittedLeaderId, index: u64) -> (r: Self)
        ensures
            r == (LogId { leader_id, index }),
    {
        LogId { leader_id, index }
    }

    pub fn committed_leader_id(&self) -> (r: &CommittedLeaderId)
        ensures
            *r == self.leader_id,
    {
        &self.leader_id
    }

    /// Decides `self < other`.
    pub fn is_lt(&self, other: &LogId) -> (r: bool)
        ensures
            r == self.lt_spec(*other),
    {
        self.leader_id.is_lt(&other.leader_id) || (self.leader_id == other.leader_id && self.index
            < other.index)
    }

    /// Decides `self <= other`.
    pub fn is_le(&self, other: &LogId) -> (r: bool)
        ensures
            r == self.le_spec(*other),
    {
        self.is_lt(other) || *self == *other
    }
}

impl Default for LogId {
    fn default() -> (r: Self)
        ensures
            r == (LogId { leader_id: LeaderId { term: 0, node_id: 0 }, index: 0 }),
    {
        LogId { leader_id: LeaderId { term: 0, node_id: 0 }, index: 0 }
    }
}

/// `a < b` on optional log ids: `None` is below every log id.
pub open spec fn opt_lt(a: Option<LogId>, b: Option<LogId>) -> bool {
    match (a, b) {
        (None, None) => false,
        (None, Some(_)) => true,
        (Some(_), None) => false,
        (Some(x), Some(y)) => x.lt_spec(y),
    }
}

/// `a <= b` on optional log ids: `None` is below every log id.
pub open spec fn opt_le(a: Option<LogId>, b: Option<LogId>) -> bool {
    opt_lt(a, b) || a == b
}

/// The index that follows an optional log id: 0 after `None`.
pub open spec fn spec_next_index(id: Option<LogId>) -> int {
    match id {
        None => 0,
        Some(l) => l.index + 1,
    }
}

/// Decides `a < b` on optional log ids.
pub fn opt_is_lt(a: &Option<LogId>, b: &Option<LogId>) -> (r: bool)
    ensures
        r == opt_lt(*a, *b),
{
    match (a, b) {
        (None, None) => false,
        (None, Some(_)) => true,
        (Some(_), None) => false,
        (Some(x), Some(y)) => x.is_lt(y),
    }
}

/// Decides `a <= b` on optional log ids.
pub fn opt_is_le(a: &Option<LogId>, b: &Option<LogId>) -> (r: bool)
    ensures
        r == opt_le(*a, *b),
{
    match (a, b) {
        (None, _) => true,
        (Some(_), None) => false,
        (Some(x), Some(y)) => x.is_le(y),
    }
}

/// The index of an optional log id.
pub fn index(id: &Option<LogId>) -> (r: Option<u64>)
    ensures
        r == match *id {
            None => None::<u64>,
            Some(l) => Some(l.index),
        },
{
    match id {
        None => None,
        Some(l) => Some(l.index),
    }
}

/// The index that follows an optional log id: 0 after `None`.
pub fn next_index(id: &Option<LogId>) -> (r: u64)
    requires
        spec_next_index(*id) <= u64::MAX,
    ensures
        r == spec_next_index(*id),
{
    match id {
        None => 0,
        Some(l) => l.index + 1,
    }
}

/// A range of log ids `(prev_log_id, last_log_id]` to replicate.
#[derive(Clone, Copy, Debug, PartialEq, Eq, Structural)]
pub struct LogIdRange {
    /// The log id just before the range; it is not part of the range.
    pub prev_log_id: Option<LogId>,
    /// The last log id of the range, inclusive.
    pub last_log_id: Option<LogId>,
}

impl LogIdRange {
    pub fn new(prev: Option<LogId>, last: Option<LogId>) -> (r: Self)
        ensures
            r == (LogIdRange { prev_log_id: prev, last_log_id: last }),
    {
        LogIdRange { prev_log_id: prev, last_log_id: last }
    }
}

/// The order on log ids is a strict total order.
pub proof fn lemma_log_id_order(a: LogId, b: LogId, c: LogId)
    ensures
        !a.lt_spec(a),
        a.lt_spec(b) && b.lt_spec(c) ==> a.lt_spec(c),
        a.lt_spec(b) || b.lt_spec(a) || a == b,
        a.lt_spec(b) ==> !b.lt_spec(a),
        a.le_spec(b) && b.le_spec(c) ==> a.le_spec(c),
{
}

/// The order on optional log ids is a total order with `None` as its least
/// element.
pub proof fn lemma_opt_log_id_order(a: Option<LogId>, b: Option<LogId>, c: Option<LogId>)
    ensures
        opt_le(None, a),
        opt_le(a, a),
        opt_le(a, b) && opt_le(b, c) ==> opt_le(a, c),
        opt_le(a, b) || opt_le(b, a),
        opt_le(a, b) && opt_le(b, a) ==> a == b,
        opt_lt(a, b) <==> !opt_le(b, a),
{
}

} // verus!
