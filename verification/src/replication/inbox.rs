//! The inbox of a replication stream.

use std::collections::VecDeque;

use vstd::prelude::*;

use crate::replication::replication_core::Replicate;

verus! {

/// What a look into the inbox gives.
#[derive(Debug)]
pub enum Polled {
    /// Nothing is there now.
    Empty,
    /// Nothing is there, and nothing will come.
    Closed,
    /// The oldest event in the inbox.
    Event(Replicate),
}

/// The inbox of a replication stream: the events that have come in and are
/// not yet taken out, oldest first, and whether more can come.
#[derive(Debug)]
pub struct Inbox {
    events: VecDeque<Replicate>,
    closed: bool,
}

impl Inbox {
    /// The events in the inbox, oldest first.
    pub closed spec fn events(&self) -> Seq<Replicate> {
        self.events@
    }

    /// Whether no more events can come in.
    pub closed spec fn is_closed(&self) -> bool {
        self.closed
    }

    /// What a look into the inbox gives.
    pub open spec fn spec_poll(&self) -> Polled {
        if self.events().len() > 0 {
            Polled::Event(self.events()[0])
        } else if self.is_closed() {
            Polled::Closed
        } else {
            Polled::Empty
        }
    }

    /// An open inbox without events.
    pub fn new() -> (r: Self)
        ensures
            r.events() == Seq::<Replicate>::empty(),
            !r.is_closed(),
    {
        Inbox { events: VecDeque::new(), closed: false }
    }

    /// Puts an event into the inbox, behind the others. An event for a
    /// closed inbox is dropped.
    pub fn push(&mut self, event: Replicate)
        ensures
            final(self).is_closed() == old(self).is_closed(),
            final(self).events() == if old(self).is_closed() {
                old(self).events()
            } else {
                old(self).events().push(event)
            },
    {
        if !self.closed {
            self.events.push_back(event);
        }
    }

    /// Closes the inbox: the events that are in it stay, and no more come.
    pub fn close(&mut self)
        ensures
            final(self).is_closed(),
            final(self).events() == old(self).events(),
    {
        self.closed = true;
    }

    /// Whether no more events can come in.
    pub fn closed(&self) -> (r: bool)
        ensures
            r == self.is_closed(),
    {
        self.closed
    }

    /// Whether the inbox holds no event.
    pub fn is_empty(&self) -> (r: bool)
        ensures
            r == (self.events().len() == 0),
    {
        self.events.len() == 0
    }

    /// Takes the oldest event out of the inbox, if there is one.
    pub fn poll(&mut self) -> (r: Polled)
        ensures
            r == old(self).spec_poll(),
            final(self).is_closed() == old(self).is_closed(),
            final(self).events() == if old(self).events().len() > 0 {
                old(self).events().drop_first()
            } else {
                old(self).events()
            },
    {
        match self.events.pop_front() {
            Some(event) => {
                assert(self.events@ =~= old(self).events@.drop_first());
                Polled::Event(event)
            },
            None => {
                if self.closed {
                    Polled::Closed
                } else {
                    Polled::Empty
                }
            },
        }
    }
}

} // verus!
