//! Laws of the storage contract.

use vstd::prelude::*;

use crate::entry::EntryView;
use crate::log_id::opt_le;
use crate::log_id::LogId;
use crate::storage::helper::lemma_slice_contiguous;
use crate::storage::model::appended;
use crate::storage::model::first_gap;
use crate::storage::model::is_log_slice;
use crate::storage::model::LogIndexRange;
use crate::storage::model::SnapshotView;
use crate::storage::model::StoreModel;
use crate::vote::Vote;

verus! {

/// A purge up to a log id that is purged already changes nothing.
pub proof fn lemma_purge_purged_is_noop(model: StoreModel, upto: LogId)
    requires
        opt_le(Some(upto), model.last_purged),
    ensures
        model.purge(upto) == model,
{
}

/// A purge is idempotent: to purge up to the same log id once more changes
/// nothing.
pub proof fn lemma_purge_idempotent(model: StoreModel, upto: LogId)
    ensures
        model.purge(upto).purge(upto) == model.purge(upto),
{
}

/// The vote that is read is the vote that was saved last.
pub proof fn lemma_vote_round_trip(model: StoreModel, vote: Vote, later: Vote)
    ensures
        model.save_vote(vote).vote == Some(vote),
        model.save_vote(vote).save_vote(later).vote == Some(later),
{
}

/// The snapshot that is read after a snapshot was built is the one that was
/// built: its metadata is that which the builder returned.
pub proof fn lemma_snapshot_meta_round_trip(model: StoreModel, built: SnapshotView)
    ensures
        (StoreModel { snapshot: Some(built), ..model }).snapshot == Some(built),
        (StoreModel { snapshot: Some(built), ..model }).snapshot.unwrap().meta == built.meta,
{
}

/// A read of a range without an index gives nothing.
pub proof fn lemma_empty_range_reads_nothing(log: Map<u64, EntryView>, x: u64, s: Seq<EntryView>)
    requires
        is_log_slice(log, LogIndexRange { start: Some(x), end: Some(x) }, s),
    ensures
        s.len() == 0,
{
    if s.len() > 0 {
        assert((LogIndexRange { start: Some(x), end: Some(x) }).contains(s[0].log_id.index));
    }
}

/// A defensive store rejects a read of a range whose start is not below
/// its end.
pub proof fn lemma_inverted_range_is_rejected(model: StoreModel, start: u64, end: u64)
    requires
        start >= end,
    ensures
        model.range_violation(LogIndexRange { start: Some(start), end: Some(end) }) is Some,
{
}

/// Entries that are appended are in the log, each at its index, if their
/// indices follow one another.
pub proof fn lemma_appended_contains(log: Map<u64, EntryView>, entries: Seq<EntryView>, k: int)
    requires
        first_gap(entries) == entries.len(),
        0 <= k < entries.len(),
    ensures
        appended(log, entries).contains_key(entries[k].log_id.index),
        appended(log, entries)[entries[k].log_id.index] == entries[k],
        entries[k].log_id.index == entries[0].log_id.index + k,
    decreases entries.len(),
{
    if entries.len() > 1 {
        let front = entries.drop_last();
        assert(first_gap(front) == front.len());
        if k < entries.len() - 1 {
            lemma_appended_contains(log, front, k);
            lemma_appended_contains(log, front, entries.len() - 2);
            assert(front[k] == entries[k]);
            assert(front[0] == entries[0]);
            assert(front[entries.len() - 2] == entries[entries.len() - 2]);
        } else {
            lemma_appended_contains(log, front, k - 1);
            assert(front[k - 1] == entries[k - 1]);
            assert(front[0] == entries[0]);
        }
    }
}

/// Entries that are appended are read back as they were appended: a read
/// of the range of their indices gives exactly the entries, if their indices
/// follow one another.
pub proof fn lemma_append_read_back(log: Map<u64, EntryView>, entries: Seq<EntryView>, s: Seq<EntryView>)
    requires
        entries.len() > 0,
        first_gap(entries) == entries.len(),
        entries.last().log_id.index < u64::MAX,
        is_log_slice(
            appended(log, entries),
            LogIndexRange {
                start: Some(entries[0].log_id.index),
                end: Some((entries.last().log_id.index + 1) as u64),
            },
            s,
        ),
    ensures
        s == entries,
{
    let a = entries[0].log_id.index;
    let b = (entries.last().log_id.index + 1) as u64;
    let range = LogIndexRange { start: Some(a), end: Some(b) };
    let whole = appended(log, entries);
    lemma_appended_contains(log, entries, entries.len() - 1);
    assert(b == a + entries.len());
    let part = whole.restrict(Set::new(|i: u64| a <= i < b));
    assert forall|k: u64| part.contains_key(k) <==> a <= k < b by {
        if a <= k < b {
            lemma_appended_contains(log, entries, k - a);
        }
    }
    assert(is_log_slice(part, range, s)) by {
        assert forall|i: int| 0 <= i < s.len() implies range.contains((#[trigger] s[i]).log_id.index)
            && part.contains_key(s[i].log_id.index) && part[s[i].log_id.index] == s[i] by {
            assert(range.contains(s[i].log_id.index));
        }
        assert forall|k: u64| #![trigger part.contains_key(k)] part.contains_key(k) && range.contains(k) implies exists|
            i: int,
        |
            0 <= i < s.len() && (#[trigger] s[i]).log_id.index == k by {
            assert(whole.contains_key(k));
        }
    }
    lemma_slice_contiguous(part, range, s, a, b);
    assert(s.len() == entries.len());
    assert forall|i: int| 0 <= i < s.len() implies s[i] == entries[i] by {
        lemma_appended_contains(log, entries, i);
        assert(s[i] == part[(a + i) as u64]);
    }
    assert(s =~= entries);
}

} // verus!
