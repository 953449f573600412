//! The one queue through which all of a node's work passes: messages from
//! outside and the node's own gossip ticks, in the order they came.

use crate::payload::Event;
use std::collections::VecDeque;
use vstd::prelude::*;

verus! {

/// Milliseconds between two gossip ticks, unless configured otherwise.
pub const GOSSIP_INTERVAL_MS: u64 = 300;

/// A first-in, first-out queue of events that can be closed. Producers post
/// events while the mailbox is open; the single consumer takes them in the
/// order they were posted. Once the mailbox is closed nothing more gets in,
/// and the consumer is done when it has taken what is left.
pub struct Mailbox<P> {
    waiting: VecDeque<Event<P>>,
    open: bool,
}

impl<P> Mailbox<P> {
    /// The events posted and not yet taken, oldest first.
    pub closed spec fn pending(&self) -> Seq<Event<P>> {
        self.waiting@
    }

    /// Whether the mailbox still takes events in.
    pub closed spec fn accepting(&self) -> bool {
        self.open
    }

    /// An open mailbox with nothing in it.
    pub fn new() -> (mailbox: Mailbox<P>)
        ensures
            mailbox.accepting(),
            mailbox.pending() == Seq::<Event<P>>::empty(),
    {
        Mailbox { waiting: VecDeque::new(), open: true }
    }

    /// Puts `event` behind everything that waits, if the mailbox is open.
    /// Returns whether the event got in; a closed mailbox stays as it is.
    pub fn post(&mut self, event: Event<P>) -> (accepted: bool)
        ensures
            accepted == old(self).accepting(),
            final(self).accepting() == old(self).accepting(),
            final(self).pending() == if accepted {
                old(self).pending().push(event)
            } else {
                old(self).pending()
            },
    {
        if self.open {
            self.waiting.push_back(event);
            true
        } else {
            false
        }
    }

    /// Closes the mailbox: what waits stays, nothing more gets in.
    pub fn close(&mut self)
        ensures
            !final(self).accepting(),
            final(self).pending() == old(self).pending(),
    {
        self.open = false;
    }

    /// Takes the event that has waited longest, if any waits.
    pub fn take(&mut self) -> (next: Option<Event<P>>)
        ensures
            final(self).accepting() == old(self).accepting(),
            match next {
                Some(event) => {
                    &&& old(self).pending().len() > 0
                    &&& event == old(self).pending()[0]
                    &&& final(self).pending() == old(self).pending().drop_first()
                },
                None => {
                    &&& old(self).pending().len() == 0
                    &&& final(self).pending() == old(self).pending()
                },
            },
    {
        self.waiting.pop_front()
    }

    /// Whether the mailbox still takes events in.
    pub fn is_open(&self) -> (open: bool)
        ensures
            open == self.accepting(),
    {
        self.open
    }

    /// How many events wait.
    pub fn len(&self) -> (count: usize)
        ensures
            count == self.pending().len(),
    {
        self.waiting.len()
    }

    /// Whether the consumer has nothing more to wait for: the mailbox is
    /// closed and empty.
    pub fn is_done(&self) -> (done: bool)
        ensures
            done == (!self.accepting() && self.pending().len() == 0),
    {
        !self.open && self.waiting.len() == 0
    }
}

} // verus!
