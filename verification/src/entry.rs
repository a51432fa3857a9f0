//! Log entries.

use vstd::prelude::*;
use vstd::std_specs::cmp::PartialEqSpecImpl;

use crate::log_id::LogId;
use crate::membership::membership::Membership;
use crate::membership::membership::MembershipView;

verus! {

/// What the payload of a log entry is.
pub enum EntryPayloadView {
    Blank,
    Normal(Seq<u8>),
    Membership(MembershipView),
}

/// What a log entry is.
pub struct EntryView {
    pub log_id: LogId,
    pub payload: EntryPayloadView,
}

/// The payload of a log entry.
#[derive(Debug)]
pub enum EntryPayload {
    /// An empty payload: a leader appends one when it is elected, to commit
    /// the entries of earlier terms.
    Blank,
    /// A request of the application, as bytes.
    Normal(Vec<u8>),
    /// A change of the cluster's membership.
    Membership(Membership),
}

impl View for EntryPayload {
    type V = EntryPayloadView;

    open spec fn view(&self) -> EntryPayloadView {
        match self {
            EntryPayload::Blank => EntryPayloadView::Blank,
            EntryPayload::Normal(d) => EntryPayloadView::Normal(d@),
            EntryPayload::Membership(m) => EntryPayloadView::Membership(m@),
        }
    }
}

/// Decides whether two byte vectors hold the same bytes.
pub fn bytes_eq(a: &Vec<u8>, b: &Vec<u8>) -> (r: bool)
    ensures
        r == (a@ == b@),
{
    if a.len() != b.len() {
        return false;
    }
    let mut i: usize = 0;
    while i < a.len()
        invariant
            0 <= i <= a.len(),
            a.len() == b.len(),
            forall|k: int| 0 <= k < i ==> a@[k] == b@[k],
        decreases a.len() - i,
    {
        if a[i] != b[i] {
            return false;
        }
        i += 1;
    }
    assert(a@ =~= b@);
    true
}

/// A copy of a byte vector.
pub fn bytes_clone(a: &Vec<u8>) -> (r: Vec<u8>)
    ensures
        r@ == a@,
{
    let mut r: Vec<u8> = Vec::new();
    let mut i: usize = 0;
    while i < a.len()
        invariant
            0 <= i <= a.len(),
            r@ == a@.take(i as int),
        decreases a.len() - i,
    {
        r.push(a[i]);
        assert(a@.take(i + 1) == a@.take(i as int).push(a@[i as int]));
        i += 1;
    }
    assert(a@.take(a@.len() as int) == a@);
    r
}

impl Clone for EntryPayload {
    fn clone(&self) -> (r: Self)
        ensures
            r@ == self@,
    {
        match self {
            EntryPayload::Blank => EntryPayload::Blank,
            EntryPayload::Normal(d) => EntryPayload::Normal(bytes_clone(d)),
            EntryPayload::Membership(m) => EntryPayload::Membership(m.clone()),
        }
    }
}

impl PartialEq for EntryPayload {
    fn eq(&self, other: &EntryPayload) -> (r: bool) {
        match (self, other) {
            (EntryPayload::Blank, EntryPayload::Blank) => true,
            (EntryPayload::Normal(a), EntryPayload::Normal(b)) => bytes_eq(a, b),
            (EntryPayload::Membership(a), EntryPayload::Membership(b)) => *a == *b,
            _ => false,
        }
    }
}

impl Eq for EntryPayload {

}

impl PartialEqSpecImpl for EntryPayload {
    open spec fn obeys_eq_spec() -> bool {
        true
    }

    open spec fn eq_spec(&self, other: &EntryPayload) -> bool {
        self@ == other@
    }
}

/// A log entry: its log id and its payload.
#[derive(Debug)]
pub struct Entry {
    pub log_id: LogId,
    pub payload: EntryPayload,
}

impl View for Entry {
    type V = EntryView;

    open spec fn view(&self) -> EntryView {
        EntryView { log_id: self.log_id, payload: self.payload@ }
    }
}

impl Entry {
    /// A blank entry with the given log id.
    pub fn new_blank(log_id: LogId) -> (r: Self)
        ensures
            r@ == (EntryView { log_id, payload: EntryPayloadView::Blank }),
    {
        Entry { log_id, payload: EntryPayload::Blank }
    }

    /// An entry that carries a request of the application.
    pub fn new_normal(log_id: LogId, data: Vec<u8>) -> (r: Self)
        ensures
            r@ == (EntryView { log_id, payload: EntryPayloadView::Normal(data@) }),
    {
        Entry { log_id, payload: EntryPayload::Normal(data) }
    }

    /// An entry that changes the membership.
    pub fn new_membership(log_id: LogId, m: Membership) -> (r: Self)
        ensures
            r@ == (EntryView { log_id, payload: EntryPayloadView::Membership(m@) }),
    {
        Entry { log_id, payload: EntryPayload::Membership(m) }
    }

    pub fn get_log_id(&self) -> (r: &LogId)
        ensures
            *r == self.log_id,
    {
        &self.log_id
    }

    /// The membership that the entry holds, if it is a membership entry.
    pub fn get_membership(&self) -> (r: Option<&Membership>)
        ensures
            match r {
                Some(m) => self@.payload == EntryPayloadView::Membership(m@),
                None => !(self@.payload is Membership),
            },
    {
        match &self.payload {
            EntryPayload::Membership(m) => Some(m),
            _ => None,
        }
    }
}

impl Clone for Entry {
    fn clone(&self) -> (r: Self)
        ensures
            r@ == self@,
    {
        Entry { log_id: self.log_id, payload: self.payload.clone() }
    }
}

impl PartialEq for Entry {
    fn eq(&self, other: &Entry) -> (r: bool) {
        self.log_id == other.log_id && self.payload == other.payload
    }
}

impl Eq for Entry {

}

impl PartialEqSpecImpl for Entry {
    open spec fn obeys_eq_spec() -> bool {
        true
    }

    open spec fn eq_spec(&self, other: &Entry) -> bool {
        self@ == other@
    }
}

/// The views of a sequence of entries.
pub open spec fn entry_views(entries: Seq<Entry>) -> Seq<EntryView> {
    Seq::new(entries.len(), |i: int| entries[i]@)
}

} // verus!
