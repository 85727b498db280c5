//! Bounded mailboxes.

use vstd::prelude::*;
use std::collections::VecDeque;
use crate::message::{AgentMsg, Notice};

verus! {

/// What a mailbox holds: its fixed capacity and the waiting messages,
/// oldest first.
pub struct MailboxView {
    pub capacity: nat,
    pub messages: Seq<Notice>,
}

impl MailboxView {
    /// An empty mailbox with room for `capacity` messages.
    pub open spec fn empty(capacity: nat) -> MailboxView {
        MailboxView { capacity, messages: Seq::empty() }
    }

    /// Whether the capacity is positive and bounds the queue, as it does
    /// in every mailbox that `Mailbox::new` made.
    pub open spec fn wf(self) -> bool {
        0 < self.capacity && self.messages.len() <= self.capacity
    }

    /// Whether no further message fits.
    pub open spec fn is_full(self) -> bool {
        self.messages.len() >= self.capacity
    }

    /// The mailbox after `notice` has joined the back of the queue.
    pub open spec fn with(self, notice: Notice) -> MailboxView {
        MailboxView { capacity: self.capacity, messages: self.messages.push(notice) }
    }

    /// The mailbox after its oldest message, if it has one, has been
    /// taken.
    pub open spec fn without_first(self) -> MailboxView {
        if self.messages.len() > 0 {
            MailboxView { capacity: self.capacity, messages: self.messages.skip(1) }
        } else {
            self
        }
    }
}

/// The bounded, ordered delivery channel of one address. Its capacity is
/// fixed when it is made, and `push` never lets it hold more messages
/// than that.
pub struct Mailbox {
    capacity: usize,
    queue: VecDeque<AgentMsg>,
}

impl View for Mailbox {
    type V = MailboxView;

    closed spec fn view(&self) -> MailboxView {
        MailboxView {
            capacity: self.capacity as nat,
            messages: self.queue@.map_values(|msg: AgentMsg| msg@),
        }
    }
}

impl Mailbox {
    /// An empty mailbox with room for `capacity` messages.
    pub fn new(capacity: usize) -> (mailbox: Mailbox)
        requires
            capacity > 0,
        ensures
            mailbox@ == MailboxView::empty(capacity as nat),
    {
        let mailbox = Mailbox { capacity, queue: VecDeque::new() };
        assert(mailbox@.messages =~= Seq::<Notice>::empty());
        mailbox
    }

    /// The number of messages that fit.
    pub fn capacity(&self) -> (n: usize)
        ensures
            n == self@.capacity,
    {
        self.capacity
    }

    /// The number of messages that wait.
    pub fn len(&self) -> (n: usize)
        ensures
            n == self@.messages.len(),
    {
        self.queue.len()
    }

    /// Whether no further message fits.
    pub fn is_full(&self) -> (full: bool)
        ensures
            full == self@.is_full(),
    {
        self.queue.len() >= self.capacity
    }

    /// Puts `msg` at the back of the queue, or hands it back if the
    /// mailbox is full.
    pub fn push(&mut self, msg: AgentMsg) -> (out: Result<(), AgentMsg>)
        ensures
            (match out {
                Ok(_) => !old(self)@.is_full() && final(self)@ == old(self)@.with(msg@),
                Err(back) => old(self)@.is_full() && back == msg && final(self)@ == old(self)@,
            }),
    {
        if self.queue.len() >= self.capacity {
            return Err(msg);
        }
        self.queue.push_back(msg);
        assert(self@.messages =~= old(self)@.messages.push(msg@));
        Ok(())
    }

    /// Takes the oldest message, if there is one.
    pub fn pop(&mut self) -> (out: Option<AgentMsg>)
        ensures
            (match out {
                Some(msg) => old(self)@.messages.len() > 0 && msg@ == old(self)@.messages[0]
                    && final(self)@ == old(self)@.without_first(),
                None => old(self)@.messages.len() == 0 && final(self)@ == old(self)@,
            }),
    {
        let out = self.queue.pop_front();
        assert(self@.messages =~= if out.is_some() {
            old(self)@.messages.skip(1)
        } else {
            old(self)@.messages
        });
        out
    }
}

} // verus!
