//! What the core reads from a store, on top of the storage contract.

use vstd::prelude::*;

use crate::entry::entry_views;
use crate::entry::Entry;
use crate::entry::EntryView;
use crate::log_id::LogId;
use crate::storage::model::answers;
use crate::storage::model::is_log_slice;
use crate::storage::model::LogIndexRange;
use crate::storage::raft_storage::step;
use crate::storage::raft_storage::RaftStorage;
use crate::storage_error::DefensiveError;
use crate::storage_error::ErrorSubject;
use crate::storage_error::StorageError;
use crate::storage_error::Violation;

verus! {

/// The index of the first of the entries.
pub open spec fn first_index(entries: Seq<EntryView>) -> Option<u64> {
    if entries.len() == 0 {
        None
    } else {
        Some(entries[0].log_id.index)
    }
}

/// The index of the last of the entries.
pub open spec fn last_index(entries: Seq<EntryView>) -> Option<u64> {
    if entries.len() == 0 {
        None
    } else {
        Some(entries.last().log_id.index)
    }
}

/// What is wrong with `entries` as the answer to a read of `range`: the
/// first entry is not at the start of the range, or the last entry is not
/// at its end. A bound that is not given is not checked, and of a range that
/// holds no index nothing is checked.
pub open spec fn range_mismatch(range: LogIndexRange, entries: Seq<EntryView>) -> Option<
    DefensiveError,
> {
    if range.is_inverted() || range.end == Some(0u64) {
        None
    } else if range.start is Some && first_index(entries) != range.start {
        Some(
            DefensiveError {
                subject: ErrorSubject::LogIndex(range.start.unwrap()),
                violation: Violation::LogIndexNotFound {
                    want: range.start.unwrap(),
                    got: first_index(entries),
                },
            },
        )
    } else if range.end is Some && last_index(entries) != range.want_last() {
        Some(
            DefensiveError {
                subject: ErrorSubject::LogIndex(range.want_last().unwrap()),
                violation: Violation::LogIndexNotFound {
                    want: range.want_last().unwrap(),
                    got: last_index(entries),
                },
            },
        )
    } else {
        None
    }
}

/// Checks that `entries` start and end where `range` does.
pub fn check_range_matches_entries(range: LogIndexRange, entries: &Vec<Entry>) -> (r: Result<
    (),
    StorageError,
>)
    ensures
        match r {
            Ok(()) => range_mismatch(range, entry_views(entries@)) is None,
            Err(e) => e matches StorageError::Defensive { source } && range_mismatch(
                range,
                entry_views(entries@),
            ) == Some(source),
        },
{
    let ghost views = entry_views(entries@);
    let n = entries.len();
    let want_last = match range.end {
        Some(e) => {
            if e == 0 {
                return Ok(());
            }
            Some(e - 1)
        },
        None => None,
    };
    match (range.start, range.end) {
        (Some(s), Some(e)) => {
            if s >= e {
                return Ok(());
            }
        },
        _ => {},
    }
    let first = if n == 0 {
        None
    } else {
        assert(views[0] == entries@[0]@);
        Some(entries[0].log_id.index)
    };
    let last = if n == 0 {
        None
    } else {
        assert(views.last() == entries@[n - 1]@);
        Some(entries[n - 1].log_id.index)
    };
    if let Some(want) = range.start {
        if first != Some(want) {
            return Err(
                StorageError::defensive(
                    ErrorSubject::LogIndex(want),
                    Violation::LogIndexNotFound { want, got: first },
                ),
            );
        }
    }
    if let Some(want) = want_last {
        if last != Some(want) {
            return Err(
                StorageError::defensive(
                    ErrorSubject::LogIndex(want),
                    Violation::LogIndexNotFound { want, got: last },
                ),
            );
        }
    }
    Ok(())
}

/// A slice of the log has the entry at an index that is in the log and in
/// the range, at one position.
pub proof fn lemma_slice_single(log: Map<u64, EntryView>, index: u64, s: Seq<EntryView>)
    requires
        index < u64::MAX,
        is_log_slice(log, LogIndexRange { start: Some(index), end: Some((index + 1) as u64) }, s),
    ensures
        if log.contains_key(index) {
            s == seq![log[index]]
        } else {
            s.len() == 0
        },
{
    let range = LogIndexRange { start: Some(index), end: Some((index + 1) as u64) };
    if s.len() > 1 {
        assert(range.contains(s[0].log_id.index));
        assert(range.contains(s[1].log_id.index));
        assert(s[0].log_id.index < s[1].log_id.index);
    }
    if log.contains_key(index) {
        assert(range.contains(index));
        let i = choose|i: int| 0 <= i < s.len() && (#[trigger] s[i]).log_id.index == index;
        assert(s =~= seq![log[index]]);
    } else {
        if s.len() > 0 {
            assert(range.contains(s[0].log_id.index));
        }
    }
}

/// Where the log holds exactly the indices from `lo` up to `hi`, exclusive,
/// the slice for a range holds the entries from the greater of the two
/// starts up to the lesser of the two ends, one index after the other.
pub proof fn lemma_slice_contiguous(
    log: Map<u64, EntryView>,
    range: LogIndexRange,
    s: Seq<EntryView>,
    lo: u64,
    hi: u64,
)
    requires
        is_log_slice(log, range, s),
        forall|k: u64| log.contains_key(k) <==> lo <= k < hi,
    ensures
        ({
            let a = slice_start(range, lo);
            let b = slice_end(range, hi);
            &&& s.len() == if a < b {
                b - a
            } else {
                0
            }
            &&& forall|i: int| 0 <= i < s.len() ==> (#[trigger] s[i]).log_id.index == a + i
            &&& forall|i: int| 0 <= i < s.len() ==> #[trigger] s[i] == log[(a + i) as u64]
        }),
{
    let a = slice_start(range, lo);
    let b = slice_end(range, hi);
    assert forall|i: int| 0 <= i < s.len() implies a <= (#[trigger] s[i]).log_id.index < b by {
        assert(range.contains(s[i].log_id.index));
        assert(log.contains_key(s[i].log_id.index));
    }
    assert forall|k: u64| #![trigger log.contains_key(k)] a <= k < b implies log.contains_key(k)
        && range.contains(k) by {}
    lemma_slice_positions(log, range, s, a, b, s.len() as int);
    if a < b {
        let top = (b - 1) as u64;
        assert(log.contains_key(top) && range.contains(top));
        let p = choose|p: int| 0 <= p < s.len() && (#[trigger] s[p]).log_id.index == top;
        assert(s[p].log_id.index == a + p);
        if s.len() > b - a {
            assert(s[b - a].log_id.index == a + (b - a));
        }
    } else {
        if s.len() > 0 {
            assert(a <= s[0].log_id.index < b);
        }
    }
    assert forall|i: int| 0 <= i < s.len() implies #[trigger] s[i] == log[(a + i) as u64] by {
        assert(s[i].log_id.index == a + i);
        assert(log[s[i].log_id.index] == s[i]);
    }
}

/// Where the log holds exactly the indices from `lo` up to `hi`, exclusive,
/// every slice for a range starts at the greater of the two starts and ends
/// before the lesser of the two ends.
pub proof fn lemma_slice_ends(log: Map<u64, EntryView>, range: LogIndexRange, lo: u64, hi: u64)
    requires
        forall|k: u64| log.contains_key(k) <==> lo <= k < hi,
    ensures
        forall|s: Seq<EntryView>| #[trigger]
            is_log_slice(log, range, s) ==> first_index(s) == (if slice_start(range, lo)
                < slice_end(range, hi) {
                Some(slice_start(range, lo))
            } else {
                None
            }) && last_index(s) == (if slice_start(range, lo) < slice_end(range, hi) {
                Some((slice_end(range, hi) - 1) as u64)
            } else {
                None
            }),
{
    assert forall|s: Seq<EntryView>| #[trigger] is_log_slice(log, range, s) implies first_index(s)
        == (if slice_start(range, lo) < slice_end(range, hi) {
        Some(slice_start(range, lo))
    } else {
        None
    }) && last_index(s) == (if slice_start(range, lo) < slice_end(range, hi) {
        Some((slice_end(range, hi) - 1) as u64)
    } else {
        None
    }) by {
        lemma_slice_contiguous(log, range, s, lo, hi);
        if s.len() > 0 {
            assert(s[0].log_id.index == slice_start(range, lo) + 0);
            assert(s[s.len() - 1].log_id.index == slice_start(range, lo) + (s.len() - 1));
        }
    }
}

/// Where a slice starts, in a log that starts at `lo`.
pub open spec fn slice_start(range: LogIndexRange, lo: u64) -> u64 {
    match range.start {
        Some(s) if s > lo => s,
        _ => lo,
    }
}

/// Where a slice ends, exclusive, in a log that ends at `hi`, exclusive.
pub open spec fn slice_end(range: LogIndexRange, hi: u64) -> u64 {
    match range.end {
        Some(e) if e < hi => e,
        _ => hi,
    }
}

/// The first `n` entries of a slice of a log without gaps are at the first
/// `n` indices of the slice.
proof fn lemma_slice_positions(
    log: Map<u64, EntryView>,
    range: LogIndexRange,
    s: Seq<EntryView>,
    a: u64,
    b: u64,
    n: int,
)
    requires
        is_log_slice(log, range, s),
        0 <= n <= s.len(),
        forall|i: int| 0 <= i < s.len() ==> a <= (#[trigger] s[i]).log_id.index < b,
        forall|k: u64| #![trigger log.contains_key(k)] a <= k < b ==> log.contains_key(k) && range.contains(k),
    ensures
        forall|i: int| 0 <= i < n ==> (#[trigger] s[i]).log_id.index == a + i,
    decreases n,
{
    if n > 0 {
        lemma_slice_positions(log, range, s, a, b, n - 1);
        let i = n - 1;
        // The index `a + i` is in the slice, and can only be at position `i`.
        assert(s[i].log_id.index >= a + i) by {
            if i > 0 {
                assert(s[i - 1].log_id.index == a + (i - 1));
                assert(s[i - 1].log_id.index < s[i].log_id.index);
            }
        }
        if s[i].log_id.index > a + i {
            let k = (a + i) as u64;
            assert(log.contains_key(k) && range.contains(k));
            let p = choose|p: int| 0 <= p < s.len() && (#[trigger] s[p]).log_id.index == k;
            if p < i {
                assert(s[p].log_id.index == a + p);
            } else if p > i {
                assert(s[i].log_id.index < s[p].log_id.index);
            }
            assert(false);
        }
    }
}

/// Reads from a store what the core needs, and checks what it reads.
pub struct StorageHelper<'a, S: RaftStorage> {
    pub sto: &'a mut S,
}

impl<'a, S: RaftStorage> StorageHelper<'a, S> {
    /// A helper on the store `sto`.
    pub fn new(sto: &'a mut S) -> (r: Self)
        ensures
            *r.sto == *old(sto),
            *final(sto) == *final(r.sto),
    {
        StorageHelper { sto }
    }

    /// Reads the log entries with an index in `range`, and checks that they
    /// start and end where the range does.
    ///
    /// A range that holds no index gives no entries. Else, where a bound
    /// is given and the entry at that bound is absent, the answer is a
    /// `LogIndexNotFound` violation.
    pub fn get_log_entries(&mut self, range: LogIndexRange) -> (r: Result<Vec<Entry>, StorageError>)
        requires
            old(self).sto.inv(),
        ensures
            final(self).sto.inv(),
            final(self).sto.model().defensive == old(self).sto.model().defensive,
            final(self).sto.model().reliable == old(self).sto.model().reliable,
            !(r matches Err(StorageError::IO { .. })) ==> final(self).sto.model()
                == old(self).sto.model(),
            match r {
                Ok(entries) => {
                    &&& is_log_slice(old(self).sto.model().log, range, entry_views(entries@))
                    &&& range_mismatch(range, entry_views(entries@)) is None
                    &&& answers(
                        old(self).sto.model(),
                        r,
                        old(self).sto.model().range_violation(range),
                    )
                },
                Err(StorageError::Defensive { source }) => if old(self).sto.model().defensive
                    && old(self).sto.model().range_violation(range) is Some {
                    old(self).sto.model().range_violation(range) == Some(source)
                } else {
                    exists|s: Seq<EntryView>|
                        is_log_slice(old(self).sto.model().log, range, s) && range_mismatch(range, s)
                            == Some(source)
                },
                Err(StorageError::IO { .. }) => !old(self).sto.model().reliable,
            },
            *final(final(self).sto) == *final(old(self).sto),
    {
        let res = match self.sto.try_get_log_entries(range) {
            Ok(res) => res,
            Err(e) => {
                return Err(e);
            },
        };
        match check_range_matches_entries(range, &res) {
            Ok(()) => Ok(res),
            Err(e) => {
                assert(is_log_slice(old(self).sto.model().log, range, entry_views(res@)));
                Err(e)
            },
        }
    }

    /// Reads the log entry at `log_index`, if there is one.
    pub fn try_get_log_entry(&mut self, log_index: u64) -> (r: Result<Option<Entry>, StorageError>)
        requires
            old(self).sto.inv(),
            log_index < u64::MAX,
        ensures
            final(self).sto.inv(),
            step(
                old(self).sto.model(),
                final(self).sto.model(),
                r,
                None,
                old(self).sto.model(),
            ),
            r matches Ok(found) ==> match found {
                Some(e) => old(self).sto.model().log.contains_key(log_index) && e@
                    == old(self).sto.model().log[log_index],
                None => !old(self).sto.model().log.contains_key(log_index),
            },
            *final(final(self).sto) == *final(old(self).sto),
    {
        let range = LogIndexRange::new(log_index, log_index + 1);
        let mut res = match self.sto.try_get_log_entries(range) {
            Ok(res) => res,
            Err(e) => {
                return Err(e);
            },
        };
        proof {
            lemma_slice_single(old(self).sto.model().log, log_index, entry_views(res@));
            if res@.len() > 0 {
                assert(entry_views(res@)[0] == res@[0]@);
            }
        }
        Ok(res.pop())
    }

    /// Reads the log id at `log_index`: the last purged log id if it is at
    /// that index, else the id of the log entry there. Where the log has no
    /// entry there, the answer is a `LogIndexNotFound` violation.
    pub fn get_log_id(&mut self, log_index: u64) -> (r: Result<LogId, StorageError>)
        requires
            old(self).sto.inv(),
            log_index < u64::MAX,
        ensures
            final(self).sto.inv(),
            final(self).sto.model().defensive == old(self).sto.model().defensive,
            final(self).sto.model().reliable == old(self).sto.model().reliable,
            !(r matches Err(StorageError::IO { .. })) ==> final(self).sto.model()
                == old(self).sto.model(),
            ({
                let m = old(self).sto.model();
                match r {
                    Ok(id) => !(m.defensive && m.dirty_log_violation() is Some) && (if m.last_purged
                        matches Some(p) && p.index == log_index {
                        Some(id) == m.last_purged
                    } else {
                        m.log.contains_key(log_index) && id == m.log[log_index].log_id
                    }),
                    Err(StorageError::Defensive { source }) => {
                        ||| m.defensive && m.dirty_log_violation() == Some(source)
                        ||| !(m.last_purged matches Some(p) && p.index == log_index)
                            && !m.log.contains_key(log_index) && source == (DefensiveError {
                            subject: ErrorSubject::LogIndex(log_index),
                            violation: Violation::LogIndexNotFound { want: log_index, got: None },
                        })
                    },
                    Err(StorageError::IO { .. }) => !m.reliable,
                }
            }),
            *final(final(self).sto) == *final(old(self).sto),
    {
        let st = match self.sto.get_log_state() {
            Ok(st) => st,
            Err(e) => {
                return Err(e);
            },
        };
        if let Some(p) = st.last_purged_log_id {
            if p.index == log_index {
                return Ok(p);
            }
        }
        let range = LogIndexRange::new(log_index, log_index + 1);
        let entries = match self.get_log_entries(range) {
            Ok(entries) => entries,
            Err(e) => {
                proof {
                    let m = old(self).sto.model();
                    assert(m.range_violation(range) is None);
                    if e is Defensive {
                        let s = choose|s: Seq<EntryView>|
                            is_log_slice(m.log, range, s) && range_mismatch(range, s) == Some(
                                e->Defensive_source,
                            );
                        lemma_slice_single(m.log, log_index, s);
                    }
                }
                return Err(e);
            },
        };
        proof {
            let m = old(self).sto.model();
            lemma_slice_single(m.log, log_index, entry_views(entries@));
            assert(entries@.len() > 0);
            assert(entry_views(entries@)[0] == entries@[0]@);
        }
        Ok(entries[0].log_id)
    }
}

} // verus!
