//! A compact index of the log ids in a log.
//!
//! Instead of every log id, the list keeps the key log ids: the first log id
//! of every leader and the last log id. The lowest key is the last purged log
//! id, once anything was purged. The log id at any index in between is
//! reconstructed from the key just below it.

use vstd::prelude::*;

use crate::log_id::LogId;

verus! {

/// The keys are strictly increasing by index.
pub open spec fn index_increasing(keys: Seq<LogId>) -> bool {
    forall|i: int, j: int| 0 <= i < j < keys.len() ==> (#[trigger] keys[i]).index < (#[trigger] keys[j]).index
}

/// The leaders of the keys never decrease.
pub open spec fn leader_monotonic(keys: Seq<LogId>) -> bool {
    forall|i: int, j: int|
        0 <= i < j < keys.len() ==> (#[trigger] keys[i]).leader_id.le_spec((#[trigger] keys[j]).leader_id)
}

/// Key log ids are valid if they are strictly increasing by index and their
/// leaders never decrease.
pub open spec fn valid_keys(keys: Seq<LogId>) -> bool {
    index_increasing(keys) && leader_monotonic(keys)
}

/// The number of keys whose index is at most `index`.
pub open spec fn keys_upto(keys: Seq<LogId>, index: u64) -> nat
    decreases keys.len(),
{
    if keys.len() == 0 {
        0
    } else if keys.last().index <= index {
        keys.len()
    } else {
        keys_upto(keys.drop_last(), index)
    }
}

/// The log id that the keys give for `index`: none outside the range of the
/// keys, else `index` with the leader of the nearest key at or below it.
pub open spec fn log_id_at(keys: Seq<LogId>, index: u64) -> Option<LogId> {
    let n = keys_upto(keys, index);
    if n == 0 || keys.last().index < index {
        None
    } else {
        Some(LogId { leader_id: keys[n - 1].leader_id, index })
    }
}

/// The keys that are left when the log is purged up to `upto`, inclusive.
///
/// Purging beyond the last log id leaves `upto` alone. Purging below the
/// first key changes nothing. Otherwise the keys below `upto.index` go, and
/// the first key becomes the log id at `upto.index`.
pub open spec fn purged_keys(keys: Seq<LogId>, upto: LogId) -> Seq<LogId> {
    let n = keys_upto(keys, upto.index);
    if keys.len() == 0 || upto.index > keys.last().index {
        seq![upto]
    } else if n == 0 {
        keys
    } else {
        seq![LogId { leader_id: keys[n - 1].leader_id, index: upto.index }] + keys.subrange(
            n as int,
            keys.len() as int,
        )
    }
}

/// The keys after the log id `new` is appended, which lies beyond the last
/// log id.
///
/// `new` need not be the next log id: the log ids in between are those of
/// the leader of the last log id. The last key is the last log id and need
/// not begin a leader: where the last two keys have the same leader, `new`
/// takes the place of the last.
pub open spec fn appended_keys(keys: Seq<LogId>, new: LogId) -> Seq<LogId> {
    if keys.len() >= 2 && keys[keys.len() - 2].leader_id == keys.last().leader_id {
        keys.drop_last().push(new)
    } else {
        keys.push(new)
    }
}

/// The keys after the log ids from index `at` on, inclusive, are deleted.
///
/// Nothing changes where `at` is beyond the last log id. Else the keys from
/// `at` on go, and the log id just below `at` becomes the last key, if it
/// is none yet.
pub open spec fn truncated_keys(keys: Seq<LogId>, at: u64) -> Seq<LogId> {
    let n = if at == 0 {
        0
    } else {
        keys_upto(keys, (at - 1) as u64)
    };
    if keys.len() == 0 || at > keys.last().index {
        keys
    } else if n == 0 || keys[n - 1].index == at - 1 {
        keys.take(n as int)
    } else {
        appended_keys(
            keys.take(n as int),
            LogId { leader_id: keys[n - 1].leader_id, index: (at - 1) as u64 },
        )
    }
}

/// The keys after the log ids `ids` are appended, which follow one another
/// behind the last log id: every log id that begins a leader becomes a key,
/// and the last of them.
pub open spec fn extended_keys(keys: Seq<LogId>, ids: Seq<LogId>) -> Seq<LogId>
    decreases ids.len(),
{
    if ids.len() == 0 {
        keys
    } else {
        appended_keys(extended_keys(keys, ids.drop_last()), ids.last())
    }
}

/// The log id `new` lies beyond the last of the keys: its index is greater,
/// and its leader is not less.
pub open spec fn beyond(keys: Seq<LogId>, new: LogId) -> bool {
    keys.len() > 0 ==> keys.last().index < new.index && keys.last().leader_id.le_spec(new.leader_id)
}

/// Appending a log id beyond the last keeps the keys valid and what they
/// say: the log ids up to the last stay, the gap up to `new` is filled with
/// log ids of the leader of the last, and `new` is the last log id.
pub proof fn lemma_appended_keys(keys: Seq<LogId>, new: LogId, index: u64)
    requires
        valid_keys(keys),
        beyond(keys, new),
    ensures
        valid_keys(appended_keys(keys, new)),
        appended_keys(keys, new).len() > 0,
        appended_keys(keys, new).last() == new,
        log_id_at(appended_keys(keys, new), index) == if keys.len() > 0 && index
            <= keys.last().index {
            log_id_at(keys, index)
        } else if keys.len() > 0 && index < new.index {
            Some(LogId { leader_id: keys.last().leader_id, index })
        } else if index == new.index {
            Some(new)
        } else {
            None
        },
{
    let res = appended_keys(keys, new);
    if keys.len() >= 2 && keys[keys.len() - 2].leader_id == keys.last().leader_id {
        let front = keys.drop_last();
        assert(res == front.push(new));
        assert forall|i: int, j: int| 0 <= i < j < res.len() implies (#[trigger] res[i]).index < (
        #[trigger] res[j]).index && res[i].leader_id.le_spec(res[j].leader_id) by {
            assert(res[i] == keys[i]);
            if j == res.len() - 1 {
                assert(keys[i].index < keys[keys.len() - 1].index);
                assert(keys[i].leader_id.le_spec(keys[keys.len() - 1].leader_id));
            } else {
                assert(res[j] == keys[j]);
            }
        }
        lemma_keys_upto_bounds(keys, index);
        lemma_keys_upto_bounds(res, index);
        let n = keys_upto(keys, index) as int;
        let m = keys_upto(res, index) as int;
        let l = keys.len() as int;
        assert(keys[l - 2].index < keys[l - 1].index);
        if index >= new.index {
            lemma_keys_upto(res, index, l);
        } else if index >= keys[l - 1].index {
            lemma_keys_upto(res, index, l - 1);
            assert(n == l) by {
                if n < l {
                    assert(keys[n].index > index);
                    if n < l - 1 {
                        assert(keys[n].index < keys[l - 1].index);
                    }
                }
            }
        } else {
            assert(n < l) by {
                if n == l {
                    assert(keys[l - 1].index <= index);
                }
            }
            assert forall|i: int| 0 <= i < n implies (#[trigger] res[i]).index <= index by {
                assert(res[i] == keys[i]);
            }
            assert forall|i: int| n <= i < res.len() implies (#[trigger] res[i]).index > index by {
                if i < l - 1 {
                    assert(res[i] == keys[i]);
                }
            }
            lemma_keys_upto(res, index, n);
            if n > 0 {
                assert(res[n - 1] == keys[n - 1]);
            }
        }
    } else {
        assert(res == keys.push(new));
        assert forall|i: int, j: int| 0 <= i < j < res.len() implies (#[trigger] res[i]).index < (
        #[trigger] res[j]).index && res[i].leader_id.le_spec(res[j].leader_id) by {
            assert(res[i] == keys[i]);
            if j == res.len() - 1 {
                if i < keys.len() - 1 {
                    assert(keys[i].index < keys[keys.len() - 1].index);
                    assert(keys[i].leader_id.le_spec(keys[keys.len() - 1].leader_id));
                }
            } else {
                assert(res[j] == keys[j]);
            }
        }
        lemma_keys_upto_bounds(keys, index);
        let n = keys_upto(keys, index) as int;
        let l = keys.len() as int;
        if index >= new.index {
            lemma_keys_upto(res, index, l + 1);
        } else {
            assert forall|i: int| 0 <= i < n implies (#[trigger] res[i]).index <= index by {
                assert(res[i] == keys[i]);
            }
            assert forall|i: int| n <= i < res.len() implies (#[trigger] res[i]).index > index by {
                if i < l {
                    assert(res[i] == keys[i]);
                }
            }
            lemma_keys_upto(res, index, n);
            if n > 0 {
                assert(res[n - 1] == keys[n - 1]);
            }
            if l > 0 && index > keys[l - 1].index {
                assert(n == l) by {
                    if n < l {
                        assert(keys[n].index > index);
                        if n < l - 1 {
                            assert(keys[n].index < keys[l - 1].index);
                        }
                    }
                }
            }
        }
    }
}

/// Deleting the log ids from `at` on keeps the keys valid and what they say
/// below `at`, and leaves nothing from `at` on.
pub proof fn lemma_truncated_keys(keys: Seq<LogId>, at: u64, index: u64)
    requires
        valid_keys(keys),
        keys.len() > 0 ==> keys[0].index < at,
    ensures
        valid_keys(truncated_keys(keys, at)),
        keys.len() > 0 && at <= keys.last().index ==> truncated_keys(keys, at).len() > 0
            && truncated_keys(keys, at).last().index == at - 1 && truncated_keys(keys, at)[0]
            == keys[0],
        log_id_at(truncated_keys(keys, at), index) == if index < at {
            log_id_at(keys, index)
        } else if keys.len() > 0 && at <= keys.last().index {
            None
        } else {
            log_id_at(keys, index)
        },
{
    if keys.len() > 0 && at <= keys.last().index {
        let below = (at - 1) as u64;
        lemma_keys_upto_bounds(keys, below);
        lemma_keys_upto_bounds(keys, index);
        let n = keys_upto(keys, below) as int;
        let front = keys.take(n);
        assert(n > 0) by {
            if n == 0 {
                assert(keys[0].index > below);
            }
        }
        assert(n < keys.len()) by {
            if n == keys.len() {
                assert(keys[keys.len() - 1].index <= below);
            }
        }
        assert forall|i: int, j: int| 0 <= i < j < front.len() implies (#[trigger] front[i]).index < (
        #[trigger] front[j]).index && front[i].leader_id.le_spec(front[j].leader_id) by {
            assert(front[i] == keys[i] && front[j] == keys[j]);
        }
        lemma_keys_upto_bounds(front, index);
        let m = keys_upto(keys, index) as int;
        if index < at {
            assert(m <= n) by {
                if m > n {
                    assert(keys[n].index <= index);
                    assert(keys[n].index > below);
                }
            }
            assert forall|i: int| 0 <= i < m implies (#[trigger] front[i]).index <= index by {
                assert(front[i] == keys[i]);
            }
            assert forall|i: int| m <= i < front.len() implies (#[trigger] front[i]).index
                > index by {
                assert(front[i] == keys[i]);
            }
            lemma_keys_upto(front, index, m);
            if m > 0 {
                assert(front[m - 1] == keys[m - 1]);
            }
        } else {
            assert forall|i: int| 0 <= i < front.len() implies (#[trigger] front[i]).index
                <= index by {
                assert(front[i] == keys[i]);
            }
            lemma_keys_upto(front, index, n);
        }
        assert(front[n - 1] == keys[n - 1]);
        assert(front.last() == keys[n - 1]);
        assert(front[0] == keys[0]);
        assert(keys[m - 1].index <= keys.last().index || m == 0) by {
            if m > 0 && m - 1 < keys.len() - 1 {
                assert(keys[m - 1].index < keys[keys.len() - 1].index);
            }
        }
        if keys[n - 1].index != below {
            let fill = LogId { leader_id: keys[n - 1].leader_id, index: below };
            lemma_appended_keys(front, fill, index);
            let res = appended_keys(front, fill);
            assert(res[0] == keys[0]) by {
                if front.len() >= 2 && front[front.len() - 2].leader_id == front.last().leader_id {
                    assert(res == front.drop_last().push(fill));
                    assert(res[0] == front[0]);
                } else {
                    assert(res == front.push(fill));
                    assert(res[0] == front[0]);
                }
            }
            if index < at && index > keys[n - 1].index {
                assert(m == n) by {
                    if m < n {
                        assert(keys[m].index > index);
                        if m < n - 1 {
                            assert(keys[m].index < keys[n - 1].index);
                        }
                    }
                }
            }
        }
    }
}

/// With keys increasing by index, `keys_upto` is the one position that
/// separates the keys at or below `index` from those above it.
pub proof fn lemma_keys_upto(keys: Seq<LogId>, index: u64, n: int)
    requires
        index_increasing(keys),
        0 <= n <= keys.len(),
        forall|i: int| 0 <= i < n ==> (#[trigger] keys[i]).index <= index,
        forall|i: int| n <= i < keys.len() ==> (#[trigger] keys[i]).index > index,
    ensures
        keys_upto(keys, index) == n,
    decreases keys.len(),
{
    if keys.len() == 0 {
    } else if keys.last().index <= index {
        assert(n == keys.len()) by {
            if n < keys.len() {
                assert(keys[keys.len() - 1].index > index);
            }
        }
    } else {
        assert(n < keys.len()) by {
            if n == keys.len() {
                assert(keys[keys.len() - 1].index <= index);
            }
        }
        let front = keys.drop_last();
        assert forall|i: int, j: int| 0 <= i < j < front.len() implies (#[trigger] front[i]).index < (
        #[trigger] front[j]).index by {
            assert(front[i] == keys[i] && front[j] == keys[j]);
        }
        assert forall|i: int| 0 <= i < n implies (#[trigger] front[i]).index <= index by {
            assert(front[i] == keys[i]);
        }
        assert forall|i: int| n <= i < front.len() implies (#[trigger] front[i]).index > index by {
            assert(front[i] == keys[i]);
        }
        lemma_keys_upto(front, index, n);
    }
}

/// `keys_upto` separates the keys at or below `index` from those above it.
pub proof fn lemma_keys_upto_bounds(keys: Seq<LogId>, index: u64)
    requires
        index_increasing(keys),
    ensures
        keys_upto(keys, index) <= keys.len(),
        forall|i: int| 0 <= i < keys_upto(keys, index) ==> (#[trigger] keys[i]).index <= index,
        forall|i: int| keys_upto(keys, index) <= i < keys.len() ==> (#[trigger] keys[i]).index > index,
    decreases keys.len(),
{
    if keys.len() == 0 {
    } else if keys.last().index <= index {
        assert forall|i: int| 0 <= i < keys.len() implies (#[trigger] keys[i]).index <= index by {
            if i < keys.len() - 1 {
                assert(keys[i].index < keys[keys.len() - 1].index);
            }
        }
    } else {
        let front = keys.drop_last();
        assert forall|i: int, j: int| 0 <= i < j < front.len() implies (#[trigger] front[i]).index < (
        #[trigger] front[j]).index by {
            assert(front[i] == keys[i] && front[j] == keys[j]);
        }
        lemma_keys_upto_bounds(front, index);
        let n = keys_upto(front, index);
        assert forall|i: int| 0 <= i < n implies (#[trigger] keys[i]).index <= index by {
            assert(front[i] == keys[i]);
        }
        assert forall|i: int| n <= i < keys.len() implies (#[trigger] keys[i]).index > index by {
            if i < front.len() {
                assert(front[i] == keys[i]);
            }
        }
    }
}

/// Purging valid keys leaves valid keys.
pub proof fn lemma_purged_keys_valid(keys: Seq<LogId>, upto: LogId)
    requires
        valid_keys(keys),
    ensures
        valid_keys(purged_keys(keys, upto)),
{
    lemma_keys_upto_bounds(keys, upto.index);
    let n = keys_upto(keys, upto.index) as int;
    let res = purged_keys(keys, upto);
    if keys.len() == 0 || upto.index > keys.last().index {
    } else if n == 0 {
    } else {
        assert forall|i: int, j: int| 0 <= i < j < res.len() implies (#[trigger] res[i]).index < (
        #[trigger] res[j]).index && res[i].leader_id.le_spec(res[j].leader_id) by {
            assert(res[j] == keys[n + j - 1]);
            if i == 0 {
                assert(keys[n - 1].leader_id.le_spec(keys[n + j - 1].leader_id));
            } else {
                assert(res[i] == keys[n + i - 1]);
            }
        }
    }
}

/// After a purge up to `upto`, nothing is below `upto.index`, and every index
/// above it has the log id it had before. Where the purge went beyond the
/// last log id, only `upto` is left.
pub proof fn lemma_purged_keys_log_id_at(keys: Seq<LogId>, upto: LogId, index: u64)
    requires
        valid_keys(keys),
    ensures
        index < upto.index && (keys.len() == 0 || keys[0].index <= upto.index) ==> log_id_at(
            purged_keys(keys, upto),
            index,
        ) is None,
        index > upto.index ==> log_id_at(purged_keys(keys, upto), index) == log_id_at(keys, index),
        index == upto.index && keys.len() > 0 && keys[0].index <= upto.index <= keys.last().index
            ==> log_id_at(purged_keys(keys, upto), index) == log_id_at(keys, index),
        keys.len() == 0 || upto.index > keys.last().index ==> log_id_at(
            purged_keys(keys, upto),
            upto.index,
        ) == Some(upto),
{
    lemma_keys_upto_bounds(keys, upto.index);
    lemma_keys_upto_bounds(keys, index);
    lemma_purged_keys_valid(keys, upto);
    let n = keys_upto(keys, upto.index) as int;
    let m = keys_upto(keys, index) as int;
    let res = purged_keys(keys, upto);
    lemma_keys_upto_bounds(res, index);
    if keys.len() == 0 || upto.index > keys.last().index {
        assert(res =~= seq![upto]);
        if index >= upto.index {
            lemma_keys_upto(res, index, 1);
        } else {
            lemma_keys_upto(res, index, 0);
        }
        if keys.len() > 0 && index > upto.index {
            assert(keys[keys.len() - 1].index < index);
        }
    } else if n == 0 {
        assert(keys[0].index > upto.index);
    } else {
        assert(res.len() == keys.len() - n + 1);
        assert(forall|i: int| 1 <= i < res.len() ==> res[i] == keys[n + i - 1]);
        assert(res.last().index == keys.last().index) by {
            if res.len() == 1 {
                assert(n == keys.len());
                assert(keys[n - 1].index <= upto.index);
            }
        }
        if index < upto.index {
            lemma_keys_upto(res, index, 0);
        } else if index == upto.index {
            assert(m == n);
            lemma_keys_upto(res, index, 1);
        } else {
            assert(m >= n) by {
                if m < n {
                    assert(keys[m].index > index);
                    assert(keys[m].index <= upto.index);
                }
            }
            assert forall|i: int| 0 <= i < m - n + 1 implies (#[trigger] res[i]).index <= index by {
                if i > 0 {
                    assert(res[i] == keys[n + i - 1]);
                }
            }
            assert forall|i: int| m - n + 1 <= i < res.len() implies (#[trigger] res[i]).index
                > index by {
                assert(res[i] == keys[n + i - 1]);
            }
            lemma_keys_upto(res, index, m - n + 1);
            if m > n {
                assert(res[m - n] == keys[m - 1]);
            }
        }
    }
}

/// Efficient storage for the log ids of a log.
#[derive(Clone, Debug, PartialEq, Eq)]
pub struct LogIdList {
    key_log_ids: Vec<LogId>,
}

impl View for LogIdList {
    type V = Seq<LogId>;

    /// The key log ids.
    closed spec fn view(&self) -> Seq<LogId> {
        self.key_log_ids@
    }
}

impl LogIdList {
    /// The key log ids are valid.
    pub open spec fn wf(&self) -> bool {
        valid_keys(self@)
    }

    /// The log id at `index`, if the list covers that index.
    pub open spec fn spec_get(&self, index: u64) -> Option<LogId> {
        log_id_at(self@, index)
    }

    /// The first key log id.
    pub open spec fn spec_first(&self) -> Option<LogId> {
        if self@.len() == 0 {
            None
        } else {
            Some(self@[0])
        }
    }

    /// The last log id.
    pub open spec fn spec_last(&self) -> Option<LogId> {
        if self@.len() == 0 {
            None
        } else {
            Some(self@.last())
        }
    }

    /// Makes a list of the given key log ids.
    pub fn new(key_log_ids: Vec<LogId>) -> (r: Self)
        ensures
            r@ == key_log_ids@,
    {
        LogIdList { key_log_ids }
    }

    /// The number of keys whose index is at most `index`.
    fn count_upto(&self, index: u64) -> (n: usize)
        requires
            self.wf(),
        ensures
            n == keys_upto(self@, index),
            n <= self@.len(),
    {
        let mut lo: usize = 0;
        let mut hi: usize = self.key_log_ids.len();
        while lo < hi
            invariant
                self.wf(),
                0 <= lo <= hi <= self.key_log_ids.len(),
                forall|i: int| 0 <= i < lo ==> (#[trigger] self.key_log_ids@[i]).index <= index,
                forall|i: int|
                    hi <= i < self.key_log_ids.len() ==> (#[trigger] self.key_log_ids@[i]).index > index,
            decreases hi - lo,
        {
            let mid: usize = lo + (hi - lo) / 2;
            if self.key_log_ids[mid].index <= index {
                assert forall|i: int| 0 <= i < mid + 1 implies (#[trigger] self.key_log_ids@[i]).index
                    <= index by {
                    if i < mid {
                        assert(self.key_log_ids@[i].index < self.key_log_ids@[mid as int].index);
                    }
                }
                lo = mid + 1;
            } else {
                assert forall|i: int| mid <= i < self.key_log_ids.len() implies (
                #[trigger] self.key_log_ids@[i]).index > index by {
                    if i > mid {
                        assert(self.key_log_ids@[mid as int].index < self.key_log_ids@[i].index);
                    }
                }
                hi = mid;
            }
        }
        proof {
            lemma_keys_upto(self@, index, lo as int);
        }
        lo
    }

    /// Gets the log id at `index`.
    ///
    /// At the index of the last purged log id it returns that log id. Outside
    /// the range of the list it returns `None`.
    pub fn get(&self, index: u64) -> (r: Option<LogId>)
        requires
            self.wf(),
        ensures
            r == self.spec_get(index),
    {
        let n = self.count_upto(index);
        if n == 0 {
            return None;
        }
        if self.key_log_ids[self.key_log_ids.len() - 1].index < index {
            return None;
        }
        Some(LogId::new(self.key_log_ids[n - 1].leader_id, index))
    }

    /// Purges the log ids up to `upto`, inclusive.
    ///
    /// A purge may go beyond the last log id, as when a snapshot is
    /// installed: then `upto` is all that is left.
    pub fn purge(&mut self, upto: &LogId)
        requires
            old(self).wf(),
        ensures
            final(self).wf(),
            final(self)@ == purged_keys(old(self)@, *upto),
    {
        proof {
            lemma_purged_keys_valid(self@, *upto);
        }
        let len = self.key_log_ids.len();
        if len == 0 || upto.index > self.key_log_ids[len - 1].index {
            let mut keys: Vec<LogId> = Vec::new();
            keys.push(*upto);
            assert(keys@ =~= seq![*upto]);
            self.key_log_ids = keys;
            return;
        }
        let n = self.count_upto(upto.index);
        if n == 0 {
            return;
        }
        let mut keys: Vec<LogId> = Vec::new();
        keys.push(LogId::new(self.key_log_ids[n - 1].leader_id, upto.index));
        let mut i: usize = n;
        while i < len
            invariant
                n <= i <= len,
                len == self.key_log_ids.len(),
                keys@ =~= seq![
                    LogId { leader_id: self.key_log_ids@[n - 1].leader_id, index: upto.index },
                ] + self.key_log_ids@.subrange(n as int, i as int),
            decreases len - i,
        {
            keys.push(self.key_log_ids[i]);
            i += 1;
        }
        self.key_log_ids = keys;
    }

    /// Appends the log id `new`, which lies beyond the last log id. It need
    /// not be the next one: the log ids in between are those of the leader of
    /// the last log id.
    pub fn append(&mut self, new: LogId)
        requires
            old(self).wf(),
            beyond(old(self)@, new),
        ensures
            final(self).wf(),
            final(self)@ == appended_keys(old(self)@, new),
    {
        proof {
            lemma_appended_keys(self@, new, 0);
        }
        let l = self.key_log_ids.len();
        if l >= 2 && self.key_log_ids[l - 2].leader_id == self.key_log_ids[l - 1].leader_id {
            // Replace the last log id.
            self.key_log_ids.set(l - 1, new);
            assert(self.key_log_ids@ =~= old(self).key_log_ids@.drop_last().push(new));
            return;
        }
        // The last one begins a leader: add a last log id.
        self.key_log_ids.push(new);
    }

    /// Deletes the log ids from index `at` on, inclusive. The last purged
    /// log id stays: `at` is above it.
    pub fn truncate(&mut self, at: u64)
        requires
            old(self).wf(),
            old(self)@.len() > 0 ==> old(self)@[0].index < at,
        ensures
            final(self).wf(),
            final(self)@ == truncated_keys(old(self)@, at),
    {
        proof {
            lemma_truncated_keys(self@, at, 0);
        }
        let len = self.key_log_ids.len();
        if len == 0 || at > self.key_log_ids[len - 1].index {
            return;
        }
        let n = self.count_upto(at - 1);
        proof {
            lemma_keys_upto_bounds(self@, (at - 1) as u64);
            if n == 0 {
                assert(self@[0].index > at - 1);
            }
        }
        self.key_log_ids.truncate(n);
        assert(self.key_log_ids@ =~= old(self).key_log_ids@.take(n as int));
        let last = self.key_log_ids[n - 1];
        if last.index < at - 1 {
            proof {
                assert forall|i: int, j: int| 0 <= i < j < self@.len() implies (#[trigger] self@[i]).index
                    < (#[trigger] self@[j]).index && self@[i].leader_id.le_spec(self@[j].leader_id) by {
                    assert(self@[i] == old(self)@[i] && self@[j] == old(self)@[j]);
                }
            }
            self.append(LogId::new(last.leader_id, at - 1));
        }
    }

    /// Appends the log ids `ids`, which follow one another behind the last
    /// log id: every log id that begins a leader becomes a key, and the last
    /// of them.
    pub fn extend(&mut self, ids: &Vec<LogId>)
        requires
            old(self).wf(),
            follow_on(old(self)@, ids@),
        ensures
            final(self).wf(),
            final(self)@ == extended_keys(old(self)@, ids@),
            ids@.len() > 0 ==> final(self).spec_last() == Some(ids@.last()),
            ids@.len() == 0 ==> final(self)@ == old(self)@,
            old(self)@.len() > 0 ==> final(self)@.len() > 0 && final(self)@[0] == old(self)@[0],
            old(self)@.len() == 0 && ids@.len() > 0 ==> final(self)@.len() > 0 && final(self)@[0]
                == ids@[0],
            forall|i: u64|
                old(self)@.len() > 0 && i <= old(self)@.last().index ==> #[trigger] log_id_at(
                    final(self)@,
                    i,
                ) == log_id_at(old(self)@, i),
            forall|k: int|
                0 <= k < ids@.len() ==> final(self).spec_get((#[trigger] ids@[k]).index) == Some(
                    ids@[k],
                ),
    {
        let mut i: usize = 0;
        while i < ids.len()
            invariant
                0 <= i <= ids@.len(),
                self.wf(),
                follow_on(old(self)@, ids@),
                self@ == extended_keys(old(self)@, ids@.take(i as int)),
                i > 0 ==> self.spec_last() == Some(ids@[i - 1]),
                i == 0 ==> self@ == old(self)@,
                old(self)@.len() > 0 ==> self@.len() > 0 && self@[0] == old(self)@[0],
                old(self)@.len() == 0 && i > 0 ==> self@.len() > 0 && self@[0] == ids@[0],
                forall|x: u64|
                    old(self)@.len() > 0 && x <= old(self)@.last().index ==> #[trigger] log_id_at(
                        self@,
                        x,
                    ) == log_id_at(old(self)@, x),
                forall|k: int|
                    0 <= k < i ==> self.spec_get((#[trigger] ids@[k]).index) == Some(ids@[k]),
            decreases ids.len() - i,
        {
            let id = ids[i];
            let ghost keys = self@;
            proof {
                assert(ids@.take(i + 1).drop_last() == ids@.take(i as int));
                assert(ids@.take(i + 1).last() == id);
                if i > 0 {
                    assert(ids@[i - 1].index < ids@[i as int].index);
                }
                assert(beyond(old(self)@, ids@[i as int]));
                lemma_appended_keys(keys, id, 0);
                let res = appended_keys(keys, id);
                if keys.len() >= 2 && keys[keys.len() - 2].leader_id == keys.last().leader_id {
                    assert(res == keys.drop_last().push(id));
                    assert(res[0] == keys[0]);
                } else {
                    assert(res == keys.push(id));
                    if keys.len() > 0 {
                        assert(res[0] == keys[0]);
                    }
                }
                assert forall|x: u64| old(self)@.len() > 0 && x <= old(self)@.last().index implies #[trigger] log_id_at(
                    res,
                    x,
                ) == log_id_at(old(self)@, x) by {
                    lemma_appended_keys(keys, id, x);
                    assert(log_id_at(keys, x) == log_id_at(old(self)@, x));
                    if i > 0 {
                        assert(beyond(old(self)@, ids@[i - 1]));
                    }
                }
                assert forall|k: int| 0 <= k < i + 1 implies log_id_at(res, (#[trigger] ids@[k]).index)
                    == Some(ids@[k]) by {
                    lemma_appended_keys(keys, id, ids@[k].index);
                    if k < i {
                        assert(self.spec_get(ids@[k].index) == Some(ids@[k]));
                        if k < i - 1 {
                            assert(ids@[k].index < ids@[i - 1].index);
                        }
                    }
                }
            }
            self.append(id);
            i += 1;
        }
        proof {
            assert(ids@.take(ids@.len() as int) == ids@);
        }
    }

    /// Decides whether the key log ids are valid: strictly increasing by
    /// index, with leaders that never decrease.
    pub fn is_valid(&self) -> (r: bool)
        ensures
            r == self.wf(),
    {
        let n = self.key_log_ids.len();
        let mut i: usize = 1;
        while i < n
            invariant
                1 <= i <= n || n == 0,
                n == self.key_log_ids@.len(),
                valid_keys(self.key_log_ids@.take(i as int)) || n == 0,
            decreases n - i,
        {
            let a = self.key_log_ids[i - 1];
            let b = self.key_log_ids[i];
            let ghost keys = self.key_log_ids@;
            if !(a.index < b.index && a.leader_id.is_le(&b.leader_id)) {
                assert(!valid_keys(keys)) by {
                    if valid_keys(keys) {
                        assert(keys[i - 1].index < keys[i as int].index);
                        assert(keys[i - 1].leader_id.le_spec(keys[i as int].leader_id));
                    }
                }
                return false;
            }
            proof {
                let front = keys.take(i as int);
                let next = keys.take(i + 1);
                assert forall|x: int, y: int| 0 <= x < y < next.len() implies (#[trigger] next[x]).index
                    < (#[trigger] next[y]).index && next[x].leader_id.le_spec(next[y].leader_id) by {
                    assert(next[x] == keys[x] && next[y] == keys[y]);
                    if y == i {
                        if x < i - 1 {
                            assert(front[x] == keys[x] && front[i - 1] == keys[i - 1]);
                            assert(front[x].index < front[i - 1].index);
                            assert(front[x].leader_id.le_spec(front[i - 1].leader_id));
                        }
                    } else {
                        assert(front[x] == keys[x] && front[y] == keys[y]);
                    }
                }
            }
            i += 1;
        }
        assert(self.key_log_ids@.take(n as int) == self.key_log_ids@);
        true
    }

    /// The first key log id: the last purged log id, once anything was purged.
    pub fn first(&self) -> (r: Option<&LogId>)
        ensures
            match r {
                Some(l) => self.spec_first() == Some(*l),
                None => self.spec_first() is None,
            },
    {
        if self.key_log_ids.len() == 0 {
            None
        } else {
            Some(&self.key_log_ids[0])
        }
    }

    /// The last log id.
    pub fn last(&self) -> (r: Option<&LogId>)
        ensures
            match r {
                Some(l) => self.spec_last() == Some(*l),
                None => self.spec_last() is None,
            },
    {
        let len = self.key_log_ids.len();
        if len == 0 {
            None
        } else {
            Some(&self.key_log_ids[len - 1])
        }
    }

    /// The key log ids.
    pub fn key_log_ids(&self) -> (r: &[LogId])
        ensures
            r@ == self@,
    {
        self.key_log_ids.as_slice()
    }
}

/// The log ids of valid keys are in order: a log id at a greater index is
/// greater.
pub proof fn lemma_log_ids_ordered(keys: Seq<LogId>, i: u64, j: u64)
    requires
        valid_keys(keys),
        i < j,
        log_id_at(keys, i) is Some,
        log_id_at(keys, j) is Some,
    ensures
        log_id_at(keys, i).unwrap().lt_spec(log_id_at(keys, j).unwrap()),
{
    lemma_keys_upto_bounds(keys, i);
    lemma_keys_upto_bounds(keys, j);
    let n = keys_upto(keys, i) as int;
    let m = keys_upto(keys, j) as int;
    assert(n <= m) by {
        if n > m {
            assert(keys[m].index > j);
            assert(keys[m].index <= i);
        }
    }
    if n < m {
        assert(keys[n - 1].leader_id.le_spec(keys[m - 1].leader_id));
    }
}

/// The log ids `ids` follow one another behind the last of the keys: their
/// indices increase, their leaders never decrease, and the first of them lies
/// beyond the last key.
pub open spec fn follow_on(keys: Seq<LogId>, ids: Seq<LogId>) -> bool {
    &&& forall|i: int, j: int|
        0 <= i < j < ids.len() ==> (#[trigger] ids[i]).index < (#[trigger] ids[j]).index
            && ids[i].leader_id.le_spec(ids[j].leader_id)
    &&& forall|i: int| 0 <= i < ids.len() ==> beyond(keys, #[trigger] ids[i])
}

/// Valid keys have a log id for exactly the indices from that of the first
/// key up to that of the last; the first key and the last key are the log
/// ids at their indices.
pub proof fn lemma_log_id_at_range(keys: Seq<LogId>, index: u64)
    requires
        valid_keys(keys),
    ensures
        log_id_at(keys, index) is Some <==> keys.len() > 0 && keys[0].index <= index
            <= keys.last().index,
        log_id_at(keys, index) is Some ==> log_id_at(keys, index).unwrap().index == index,
        keys.len() > 0 ==> log_id_at(keys, keys[0].index) == Some(keys[0]) && log_id_at(
            keys,
            keys.last().index,
        ) == Some(keys.last()),
{
    if keys.len() > 0 {
        lemma_keys_upto_bounds(keys, keys[0].index);
        lemma_keys_upto_bounds(keys, keys.last().index);
        assert forall|i: int| 0 <= i < keys.len() implies (#[trigger] keys[i]).index
            <= keys.last().index by {
            if i < keys.len() - 1 {
                assert(keys[i].index < keys[keys.len() - 1].index);
            }
        }
        lemma_keys_upto(keys, keys.last().index, keys.len() as int);
        assert forall|i: int| 1 <= i < keys.len() implies (#[trigger] keys[i]).index
            > keys[0].index by {
            assert(keys[0].index < keys[i].index);
        }
        lemma_keys_upto(keys, keys[0].index, 1);
    }
    lemma_keys_upto_bounds(keys, index);
    if keys.len() > 0 {
        let n = keys_upto(keys, index) as int;
        if n == 0 {
            assert(keys[0].index > index);
        } else {
            assert(keys[0].index <= keys[n - 1].index) by {
                if n > 1 {
                    assert(keys[0].index < keys[n - 1].index);
                }
            }
        }
    }
}

} // verus!
