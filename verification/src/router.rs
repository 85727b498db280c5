//! The router: the one dispatch authority of the bus.
//!
//! The router owns the registry of mailboxes, the tracking graph and the
//! queue of commands. Commands are taken from the queue strictly one at
//! a time, in the order in which they were submitted; this total order is
//! what keeps registration, delivery, tracking and teardown of an address
//! from contradicting one another. A command that would have to put a
//! message into a full mailbox is not begun: it stays at the head of the
//! queue, and with it everything behind it, until the mailbox has room.

use vstd::prelude::*;
use std::collections::VecDeque;
use bytes::Bytes;
use crate::address::Address;
use crate::buffer::bytes_view;
use crate::errors::Error;
use crate::mailbox::{Mailbox, MailboxView};
use crate::message::{AgentMsg, AnyMessage, Notice};
use self::registry::{
    add_slot, distinct_keys, forward, full_at, full_in, lemma_lookup, lemma_update, mailboxes_of, position,
    remove_slot, Slot,
};
use self::tracking::{
    distinct_pairs, drop_edges, has_pair_before, insert_edge, notify_watchers, pair_at,
    tracking_of, watcher_blocked, watcher_full, Edge,
};

mod registry;
mod tracking;

verus! {

/// A command for the router.
pub enum RouterMessage {
    /// Deliver a type-erased value to `recipient`.
    Message { recipient: Address, sender: Address, msg: AnyMessage },
    /// Deliver raw bytes to `recipient`.
    RemoteMessage { recipient: Address, sender: Address, bytes: Bytes },
    /// `from` wants notice when the mailbox of `to` disappears.
    Track { from: Address, to: Address },
    /// Remove the mailbox of this address.
    Unregister(Address),
    /// Ask the agent at this address to close down.
    Shutdown(Address),
}

/// A command with its addresses and buffers read as byte sequences.
pub enum Envelope {
    /// Deliver a type-erased value to `recipient`.
    Message { recipient: Seq<u8>, sender: Seq<u8>, msg: AnyMessage },
    /// Deliver raw bytes to `recipient`.
    RemoteMessage { recipient: Seq<u8>, sender: Seq<u8>, bytes: Seq<u8> },
    /// `from` wants notice when the mailbox of `to` disappears.
    Track { from: Seq<u8>, to: Seq<u8> },
    /// Remove the mailbox of this address.
    Unregister(Seq<u8>),
    /// Ask the agent at this address to close down.
    Shutdown(Seq<u8>),
}

impl View for RouterMessage {
    type V = Envelope;

    open spec fn view(&self) -> Envelope {
        match *self {
            RouterMessage::Message { recipient, sender, msg } => Envelope::Message {
                recipient: recipient@,
                sender: sender@,
                msg,
            },
            RouterMessage::RemoteMessage { recipient, sender, bytes } => Envelope::RemoteMessage {
                recipient: recipient@,
                sender: sender@,
                bytes: bytes_view(bytes),
            },
            RouterMessage::Track { from, to } => Envelope::Track { from: from@, to: to@ },
            RouterMessage::Unregister(address) => Envelope::Unregister(address@),
            RouterMessage::Shutdown(address) => Envelope::Shutdown(address@),
        }
    }
}

/// What one call of the dispatch step did.
#[derive(Debug, Clone, Copy, PartialEq, Eq, Structural)]
pub enum Dispatch {
    /// No command waited.
    Idle,
    /// The oldest command needs room in a full mailbox; nothing changed.
    Blocked,
    /// The oldest command left the queue and was carried out.
    Done,
}

/// The state of a router: whether its command queue is alive, the
/// commands that wait in it (oldest first), the mailbox of every
/// registered address, and the tracking graph as a set of pairs
/// (watcher, watched).
#[verifier::ext_equal]
pub struct RouterView {
    pub open: bool,
    pub queue: Seq<Envelope>,
    pub mailboxes: Map<Seq<u8>, MailboxView>,
    pub tracking: Set<(Seq<u8>, Seq<u8>)>,
}

impl RouterView {
    /// A router that has just been started.
    pub open spec fn fresh() -> RouterView {
        RouterView {
            open: true,
            queue: Seq::empty(),
            mailboxes: Map::empty(),
            tracking: Set::empty(),
        }
    }

    /// A router whose command queue has been torn down. Nothing waits in
    /// it and no address is routable.
    pub open spec fn shut() -> RouterView {
        RouterView {
            open: false,
            queue: Seq::empty(),
            mailboxes: Map::empty(),
            tracking: Set::empty(),
        }
    }

    /// Whether `address` has a live mailbox.
    pub open spec fn registered(self, address: Seq<u8>) -> bool {
        self.mailboxes.contains_key(address)
    }

    /// Whether `address` has a live mailbox with no room left.
    pub open spec fn full(self, address: Seq<u8>) -> bool {
        self.registered(address) && self.mailboxes[address].is_full()
    }

    /// Whether `watcher` has asked for notice of the removal of `watched`.
    pub open spec fn watches(self, watcher: Seq<u8>, watched: Seq<u8>) -> bool {
        self.tracking.contains((watcher, watched))
    }

    /// The state after `address` has been registered with `mailbox`.
    pub open spec fn register(self, address: Seq<u8>, mailbox: MailboxView) -> RouterView {
        RouterView { mailboxes: self.mailboxes.insert(address, mailbox), ..self }
    }

    /// The state after `envelope` has joined the back of the queue.
    pub open spec fn submit(self, envelope: Envelope) -> RouterView {
        RouterView { queue: self.queue.push(envelope), ..self }
    }

    /// What an attempt to submit a command comes to: the queue must be
    /// alive.
    pub open spec fn submit_outcome(self) -> Result<(), Error> {
        if self.open {
            Ok(())
        } else {
            Err(Error::RouterClosed)
        }
    }

    /// The state after an attempt to submit `envelope`: it has joined the
    /// queue if the queue is alive, and nothing has changed if not.
    pub open spec fn submitted(self, envelope: Envelope) -> RouterView {
        if self.open {
            self.submit(envelope)
        } else {
            self
        }
    }

    /// The state after `notice` has been forwarded to `address`: it joins
    /// the mailbox if there is one, and is dropped if there is none.
    pub open spec fn forward(self, address: Seq<u8>, notice: Notice) -> RouterView {
        if self.registered(address) {
            RouterView {
                mailboxes: self.mailboxes.insert(address, self.mailboxes[address].with(notice)),
                ..self
            }
        } else {
            self
        }
    }

    /// The oldest message in the mailbox of `address`, if the address has
    /// a mailbox and a message waits in it.
    pub open spec fn next_for(self, address: Seq<u8>) -> Option<Notice> {
        if self.registered(address) && self.mailboxes[address].messages.len() > 0 {
            Some(self.mailboxes[address].messages[0])
        } else {
            None
        }
    }

    /// The state after the oldest message, if there is one, has been
    /// taken from the mailbox of `address`.
    pub open spec fn take(self, address: Seq<u8>) -> RouterView {
        if self.registered(address) {
            RouterView {
                mailboxes: self.mailboxes.insert(address, self.mailboxes[address].without_first()),
                ..self
            }
        } else {
            self
        }
    }

    /// The state after the mailbox of `address` has been removed: every
    /// watcher of `address` that still has a mailbox finds one removal
    /// notice at its back, and no tracking edge starts or ends at
    /// `address` any more. Nothing happens if `address` has no mailbox.
    pub open spec fn unregister(self, address: Seq<u8>) -> RouterView {
        if self.registered(address) {
            RouterView {
                mailboxes: Map::new(
                    |k: Seq<u8>| k != address && self.registered(k),
                    |k: Seq<u8>|
                        if self.watches(k, address) {
                            self.mailboxes[k].with(Notice::AgentRemoved(address))
                        } else {
                            self.mailboxes[k]
                        },
                ),
                tracking: Set::new(
                    |e: (Seq<u8>, Seq<u8>)|
                        self.tracking.contains(e) && e.0 != address && e.1 != address,
                ),
                ..self
            }
        } else {
            self
        }
    }

    /// Whether `envelope` cannot be dispatched now, because a mailbox that
    /// it must put a message into is full.
    pub open spec fn blocks(self, envelope: Envelope) -> bool {
        match envelope {
            Envelope::Message { recipient, .. } => self.full(recipient),
            Envelope::RemoteMessage { recipient, .. } => self.full(recipient),
            Envelope::Track { .. } => false,
            Envelope::Unregister(address) => self.registered(address) && exists|w: Seq<u8>|
                w != address && #[trigger] self.watches(w, address) && self.full(w),
            Envelope::Shutdown(address) => self.full(address),
        }
    }

    /// The state after `envelope` has been carried out.
    pub open spec fn apply(self, envelope: Envelope) -> RouterView {
        match envelope {
            Envelope::Message { recipient, sender, msg } => self.forward(
                recipient,
                Notice::Message(msg, sender),
            ),
            Envelope::RemoteMessage { recipient, sender, bytes } => self.forward(
                recipient,
                Notice::RemoteMessage(bytes, sender),
            ),
            Envelope::Track { from, to } => RouterView {
                tracking: self.tracking.insert((from, to)),
                ..self
            },
            Envelope::Unregister(address) => self.unregister(address),
            Envelope::Shutdown(address) => self.forward(address, Notice::Shutdown),
        }
    }

    /// Whether every mailbox is within its capacity.
    pub open spec fn bounded(self) -> bool {
        forall|k: Seq<u8>| #[trigger] self.registered(k) ==> self.mailboxes[k].wf()
    }

    /// What an attempt to register `address` comes to: the queue must be
    /// alive and the address must not have a mailbox yet.
    pub open spec fn register_outcome(self, address: Seq<u8>) -> Result<(), Error> {
        if !self.open {
            Err(Error::RouterClosed)
        } else if self.registered(address) {
            Err(Error::AddressInUse)
        } else {
            Ok(())
        }
    }

    /// Whether the dispatch loop can take a step: a command waits, and
    /// the oldest one is not blocked.
    pub open spec fn ready(self) -> bool {
        self.queue.len() > 0 && !self.blocks(self.queue[0])
    }

    /// The state after one step of the dispatch loop: the oldest command
    /// has left the queue and has been carried out.
    pub open spec fn step(self) -> RouterView {
        RouterView { queue: self.queue.skip(1), ..self }.apply(self.queue[0])
    }

    /// Whether the dispatch loop can take `n` steps in a row from here
    /// without being blocked or running out of commands.
    pub open spec fn flows(self, n: nat) -> bool
        decreases n,
    {
        n == 0 || (self.ready() && self.step().flows((n - 1) as nat))
    }

    /// The state after `n` steps of the dispatch loop.
    pub open spec fn run(self, n: nat) -> RouterView
        decreases n,
    {
        if n == 0 {
            self
        } else {
            self.step().run((n - 1) as nat)
        }
    }
}

/// Registering twice: once an address has been registered, a second
/// registration of it fails with `AddressInUse`.
pub proof fn lemma_second_registration_fails(
    state: RouterView,
    address: Seq<u8>,
    mailbox: MailboxView,
)
    requires
        state.open,
    ensures
        state.register(address, mailbox).registered(address),
        state.register(address, mailbox).register_outcome(address) == Err::<(), Error>(
            Error::AddressInUse,
        ),
{
}

/// A registration lasts: nothing but carrying out the removal of an
/// address takes its mailbox from the registry. Submitting a command,
/// reading a mailbox, registering another address and carrying out any
/// other command leave the address registered, so that registering it
/// again keeps failing until it has been unregistered.
pub proof fn lemma_registration_lasts(
    state: RouterView,
    address: Seq<u8>,
    envelope: Envelope,
    other: Seq<u8>,
    mailbox: MailboxView,
)
    requires
        state.registered(address),
    ensures
        state.submit(envelope).registered(address),
        state.take(other).registered(address),
        state.register(other, mailbox).registered(address),
        envelope != Envelope::Unregister(address) ==> state.apply(envelope).registered(address),
{
}

/// A watch lasts: an edge of the tracking graph stays until the removal
/// of a registered address at one of its ends has been carried out.
/// Whatever else is carried out in between, the removal of the watched
/// address still finds the watcher to notify.
pub proof fn lemma_watch_lasts(
    state: RouterView,
    watcher: Seq<u8>,
    watched: Seq<u8>,
    envelope: Envelope,
)
    requires
        state.watches(watcher, watched),
        envelope != Envelope::Unregister(watcher),
        envelope != Envelope::Unregister(watched),
    ensures
        state.apply(envelope).watches(watcher, watched),
        state.submit(envelope).watches(watcher, watched),
{
}

/// Removing a mailbox notifies the watchers and nobody else: every
/// address that keeps its mailbox finds exactly one removal notice
/// appended if it was tracking the removed address, and finds its mailbox
/// unchanged if it was not.
pub proof fn lemma_unregister_notifies(state: RouterView, removed: Seq<u8>, other: Seq<u8>)
    requires
        state.registered(removed),
        state.registered(other),
        other != removed,
    ensures
        !state.unregister(removed).registered(removed),
        state.unregister(removed).registered(other),
        state.unregister(removed).mailboxes[other].capacity == state.mailboxes[other].capacity,
        (state.unregister(removed).mailboxes[other].messages == if state.watches(other, removed) {
            state.mailboxes[other].messages.push(Notice::AgentRemoved(removed))
        } else {
            state.mailboxes[other].messages
        }),
        forall|a: Seq<u8>, b: Seq<u8>|
            state.unregister(removed).watches(a, b) ==> a != removed && b != removed,
{
}

/// Tracking then removal: once the command that lets `watcher` track
/// `watched` has been carried out, carrying out the removal of `watched`
/// appends exactly one removal notice naming `watched` to the mailbox of
/// `watcher`, and changes no mailbox of an address that was not tracking
/// `watched`.
pub proof fn lemma_track_then_unregister(
    state: RouterView,
    watcher: Seq<u8>,
    watched: Seq<u8>,
    bystander: Seq<u8>,
)
    requires
        state.registered(watcher),
        state.registered(watched),
        watcher != watched,
    ensures
        ({
            let watching = state.apply(Envelope::Track { from: watcher, to: watched });
            let after = watching.apply(Envelope::Unregister(watched));
            &&& after.registered(watcher)
            &&& after.mailboxes[watcher].messages == state.mailboxes[watcher].messages.push(
                Notice::AgentRemoved(watched),
            )
            &&& state.registered(bystander) && bystander != watched && bystander != watcher
                && !state.watches(bystander, watched) ==> after.registered(bystander)
                && after.mailboxes[bystander] == state.mailboxes[bystander]
        }),
{
    let watching = state.apply(Envelope::Track { from: watcher, to: watched });
    assert(watching.watches(watcher, watched));
    lemma_unregister_notifies(watching, watched, watcher);
    if state.registered(bystander) && bystander != watched && bystander != watcher
        && !state.watches(bystander, watched) {
        assert(!watching.watches(bystander, watched));
        lemma_unregister_notifies(watching, watched, bystander);
    }
}

/// A delivery to an address without a mailbox, whether it never had one
/// or has lost it, holds nobody up and changes nothing: the dispatch
/// loop is not blocked by it, and carrying it out leaves the router as it
/// was.
pub proof fn lemma_delivery_to_absent_is_dropped(state: RouterView, envelope: Envelope)
    requires
        (match envelope {
            Envelope::Message { recipient, .. } => !state.registered(recipient),
            Envelope::RemoteMessage { recipient, .. } => !state.registered(recipient),
            _ => false,
        }),
    ensures
        !state.blocks(envelope),
        state.apply(envelope) == state,
{
}

/// Backpressure: no mailbox ever holds more than its capacity. A
/// command that would overfill one is blocked, and everything that can
/// happen to a router whose mailboxes are within their capacities leaves
/// them so.
pub proof fn lemma_mailboxes_stay_bounded(
    state: RouterView,
    envelope: Envelope,
    address: Seq<u8>,
    mailbox: MailboxView,
)
    requires
        state.bounded(),
    ensures
        state.submit(envelope).bounded(),
        state.take(address).bounded(),
        mailbox.wf() ==> state.register(address, mailbox).bounded(),
        !state.blocks(envelope) ==> state.apply(envelope).bounded(),
        state.ready() ==> state.step().bounded(),
{
    assert(state.submit(envelope).bounded()) by {
        let more = state.submit(envelope);
        assert forall|k: Seq<u8>| #[trigger] more.registered(k) implies more.mailboxes[k].wf() by {
            assert(state.registered(k));
        }
    }
    let read = state.take(address);
    assert forall|k: Seq<u8>| #[trigger] read.registered(k) implies read.mailboxes[k].wf() by {
        assert(state.registered(k));
    }
    if mailbox.wf() {
        let grown = state.register(address, mailbox);
        assert forall|k: Seq<u8>| #[trigger] grown.registered(k) implies grown.mailboxes[k].wf() by {
            if k != address {
                assert(state.registered(k));
            }
        }
    }
    if !state.blocks(envelope) {
        lemma_apply_stays_bounded(state, envelope);
    }
    if state.ready() {
        let rest = RouterView { queue: state.queue.skip(1), ..state };
        let head = state.queue[0];
        assert(rest.bounded()) by {
            assert forall|k: Seq<u8>| #[trigger] rest.registered(k) implies rest.mailboxes[k].wf(
            ) by {
                assert(state.registered(k));
            }
        }
        assert(!rest.blocks(head)) by {
            match head {
                Envelope::Unregister(gone) => {
                    if rest.blocks(head) {
                        let w = choose|w: Seq<u8>|
                            w != gone && #[trigger] rest.watches(w, gone) && rest.full(w);
                        assert(state.watches(w, gone) && state.full(w));
                    }
                },
                _ => {},
            }
        }
        lemma_apply_stays_bounded(rest, head);
    }
}

/// Carrying out a command that is not blocked keeps every mailbox within
/// its capacity.
proof fn lemma_apply_stays_bounded(state: RouterView, envelope: Envelope)
    requires
        state.bounded(),
        !state.blocks(envelope),
    ensures
        state.apply(envelope).bounded(),
{
    let after = state.apply(envelope);
    assert forall|k: Seq<u8>| #[trigger] after.registered(k) implies after.mailboxes[k].wf() by {
        match envelope {
            Envelope::Unregister(gone) => {
                if state.registered(gone) {
                    assert(state.registered(k));
                    if state.watches(k, gone) {
                        assert(!state.full(k));
                    }
                } else {
                    assert(state.registered(k));
                }
            },
            Envelope::Track { .. } => {
                assert(state.registered(k));
            },
            Envelope::Message { recipient, .. } => {
                assert(state.registered(k));
            },
            Envelope::RemoteMessage { recipient, .. } => {
                assert(state.registered(k));
            },
            Envelope::Shutdown(target) => {
                assert(state.registered(k));
            },
        }
    }
}

/// A run of steps can be told from either end: if `n` steps can be taken
/// and the state after them is ready for another, then `n + 1` steps can
/// be taken, and they end where one more step leads.
proof fn lemma_one_more_step(state: RouterView, n: nat)
    requires
        state.flows(n),
        state.run(n).ready(),
    ensures
        state.flows(n + 1),
        state.run(n + 1) == state.run(n).step(),
    decreases n,
{
    if n == 0 {
        assert(state.step().flows(0));
        assert(state.run(1) == state.step().run(0));
    } else {
        let next = state.step();
        assert(next.flows((n - 1) as nat));
        assert(state.run(n) == next.run((n - 1) as nat));
        lemma_one_more_step(next, (n - 1) as nat);
        assert(state.flows(n + 1));
        assert(state.run(n + 1) == next.run(n));
    }
}

/// A step takes exactly one command off the queue.
proof fn lemma_step_shortens(state: RouterView)
    requires
        state.queue.len() > 0,
    ensures
        state.step().queue.len() == state.queue.len() - 1,
{
}

/// Carrying out a command never touches the queue, so a step commutes
/// with submitting behind it.
proof fn lemma_step_then_submit(state: RouterView, envelope: Envelope)
    requires
        state.queue.len() > 0,
    ensures
        state.submit(envelope).ready() == state.ready(),
        state.submit(envelope).step() == state.step().submit(envelope),
        state.step().queue.len() == state.queue.len() - 1,
{
    let head = state.queue[0];
    assert(state.submit(envelope).queue[0] == head);
    assert(state.submit(envelope).queue.skip(1) =~= state.queue.skip(1).push(envelope));
    let rest = RouterView { queue: state.queue.skip(1), ..state };
    let rest_more = RouterView { queue: state.queue.skip(1).push(envelope), ..state };
    assert(rest_more.apply(head) =~= rest.apply(head).submit(envelope));
    assert(state.submit(envelope).blocks(head) == state.blocks(head)) by {
        match head {
            Envelope::Unregister(address) => {
                let more = state.submit(envelope);
                if state.blocks(head) {
                    let w = choose|w: Seq<u8>|
                        w != address && #[trigger] state.watches(w, address) && state.full(w);
                    assert(more.watches(w, address) && more.full(w));
                }
                if more.blocks(head) {
                    let w = choose|w: Seq<u8>|
                        w != address && #[trigger] more.watches(w, address) && more.full(w);
                    assert(state.watches(w, address) && state.full(w));
                }
            },
            _ => {},
        }
    }
}

/// Giving an agent up frees its address. Once the removal of `address`
/// has been submitted, and the dispatch loop has worked through the
/// queue up to and including that command, the address has no mailbox
/// and can be registered again.
pub proof fn lemma_release_frees_address(state: RouterView, address: Seq<u8>)
    requires
        state.open,
        state.submit(Envelope::Unregister(address)).flows(state.queue.len() + 1),
    ensures
        ({
            let end = state.submit(Envelope::Unregister(address)).run(state.queue.len() + 1);
            &&& end.queue.len() == 0
            &&& !end.registered(address)
            &&& end.register_outcome(address) == Ok::<(), Error>(())
        }),
    decreases state.queue.len(),
{
    let removal = Envelope::Unregister(address);
    let submitted = state.submit(removal);
    if state.queue.len() == 0 {
        assert(submitted.queue[0] == removal);
        assert(submitted.queue.skip(1) =~= Seq::<Envelope>::empty());
        let end = submitted.step();
        assert(submitted.run(1) == end.run(0));
        assert(end.open);
    } else {
        lemma_step_then_submit(state, removal);
        let next = state.step();
        assert(next.open);
        assert(submitted.step() == next.submit(removal));
        assert(submitted.run((state.queue.len() + 1) as nat) == submitted.step().run(
            state.queue.len(),
        ));
        lemma_release_frees_address(next, address);
    }
}

/// The registry and the edges hold a full watcher of `address` exactly
/// if the state they stand for does.
proof fn lemma_watcher_full(view: RouterView, slots: Seq<Slot>, edges: Seq<Edge>, address: Seq<u8>)
    requires
        view.mailboxes == mailboxes_of(slots),
        view.tracking == tracking_of(edges),
    ensures
        watcher_full(slots, edges, address) <==> exists|w: Seq<u8>|
            w != address && #[trigger] view.watches(w, address) && view.full(w),
{
    if watcher_full(slots, edges, address) {
        let i = choose|i: int|
            0 <= i < edges.len() && pair_at(edges, i).1 == address && pair_at(edges, i).0
                != address && full_in(slots, pair_at(edges, i).0);
        let w = pair_at(edges, i).0;
        assert(pair_at(edges, i) == (w, address));
        assert(has_pair_before(edges, edges.len() as int, (w, address)));
        assert(view.watches(w, address) && view.full(w));
    }
    if exists|w: Seq<u8>| w != address && #[trigger] view.watches(w, address) && view.full(w) {
        let w = choose|w: Seq<u8>|
            w != address && #[trigger] view.watches(w, address) && view.full(w);
        assert(has_pair_before(edges, edges.len() as int, (w, address)));
        let i = choose|i: int| 0 <= i < edges.len() && pair_at(edges, i) == (w, address);
        assert(pair_at(edges, i).1 == address && pair_at(edges, i).0 != address && full_in(
            slots,
            pair_at(edges, i).0,
        ));
    }
}

/// The single dispatch authority: registry, tracking graph and command
/// queue.
pub struct Router {
    open: bool,
    queue: VecDeque<RouterMessage>,
    slots: Vec<Slot>,
    edges: Vec<Edge>,
}

impl View for Router {
    type V = RouterView;

    closed spec fn view(&self) -> RouterView {
        RouterView {
            open: self.open,
            queue: self.queue@.map_values(|envelope: RouterMessage| envelope@),
            mailboxes: mailboxes_of(self.slots@),
            tracking: tracking_of(self.edges@),
        }
    }
}

impl Router {
    #[verifier::type_invariant]
    spec fn sound(&self) -> bool {
        &&& distinct_keys(self.slots@)
        &&& distinct_pairs(self.edges@)
        &&& !self.open ==> self.queue@.len() == 0 && self.slots@.len() == 0 && self.edges@.len()
            == 0
    }

    /// A router with an empty registry, an empty tracking graph and an
    /// empty, live command queue.
    pub fn new() -> (router: Router)
        ensures
            router@ == RouterView::fresh(),
    {
        let router = Router {
            open: true,
            queue: VecDeque::new(),
            slots: Vec::new(),
            edges: Vec::new(),
        };
        assert(router@.queue =~= Seq::empty());
        assert(router@.mailboxes =~= Map::empty());
        assert(router@.tracking =~= Set::empty());
        router
    }

    /// Whether the command queue is alive.
    pub fn is_open(&self) -> (open: bool)
        ensures
            open == self@.open,
    {
        self.open
    }

    /// The number of commands that wait in the queue.
    pub fn pending(&self) -> (n: usize)
        ensures
            n == self@.queue.len(),
    {
        self.queue.len()
    }

    /// Whether `address` has a live mailbox.
    pub fn is_registered(&self, address: &Address) -> (found: bool)
        ensures
            found == self@.registered(address@),
    {
        position(&self.slots, address).is_some()
    }

    /// The number of messages that wait in the mailbox of `address`, or
    /// `None` if the address has no mailbox.
    pub fn waiting(&self, address: &Address) -> (out: Option<usize>)
        ensures
            (match out {
                Some(n) => self@.registered(address@) && n
                    == self@.mailboxes[address@].messages.len(),
                None => !self@.registered(address@),
            }),
    {
        proof {
            use_type_invariant(self);
        }
        match position(&self.slots, address) {
            None => None,
            Some(i) => {
                proof {
                    lemma_lookup(self.slots@, i as int);
                }
                Some(self.slots[i].mailbox.len())
            },
        }
    }

    /// Installs `mailbox` as the mailbox of `address`. The registry never
    /// overwrites a routable address: if `address` already has a mailbox
    /// the call fails with `AddressInUse`, and if the command queue has
    /// been torn down it fails with `RouterClosed`; either way nothing
    /// changes.
    pub fn register(&mut self, address: Address, mailbox: Mailbox) -> (out: Result<(), Error>)
        ensures
            out == old(self)@.register_outcome(address@),
            (final(self)@ == if out is Ok {
                old(self)@.register(address@, mailbox@)
            } else {
                old(self)@
            }),
    {
        proof {
            use_type_invariant(&*self);
        }
        if !self.open {
            return Err(Error::RouterClosed);
        }
        if position(&self.slots, &address).is_some() {
            return Err(Error::AddressInUse);
        }
        let mut slots: Vec<Slot> = Vec::new();
        std::mem::swap(&mut self.slots, &mut slots);
        add_slot(&mut slots, address, mailbox);
        std::mem::swap(&mut self.slots, &mut slots);
        Ok(())
    }

    /// Puts `envelope` at the back of the command queue. Fails with
    /// `RouterClosed`, leaving everything as it was, if the queue has
    /// been torn down.
    pub fn submit(&mut self, envelope: RouterMessage) -> (out: Result<(), Error>)
        ensures
            out == old(self)@.submit_outcome(),
            final(self)@ == old(self)@.submitted(envelope@),
    {
        proof {
            use_type_invariant(&*self);
        }
        if !self.open {
            return Err(Error::RouterClosed);
        }
        let mut queue: VecDeque<RouterMessage> = VecDeque::new();
        std::mem::swap(&mut self.queue, &mut queue);
        queue.push_back(envelope);
        std::mem::swap(&mut self.queue, &mut queue);
        assert(self@.queue =~= old(self)@.queue.push(envelope@));
        Ok(())
    }

    /// Tears the command queue down. What waited in it is lost, every
    /// mailbox disappears with the registry, and the tracking graph is
    /// forgotten.
    pub fn close(&mut self)
        ensures
            final(self)@ == RouterView::shut(),
    {
        *self = Router {
            open: false,
            queue: VecDeque::new(),
            slots: Vec::new(),
            edges: Vec::new(),
        };
        assert(self@.queue =~= Seq::empty());
        assert(self@.mailboxes =~= Map::empty());
        assert(self@.tracking =~= Set::empty());
    }

    /// Takes the oldest message from the mailbox of `address`. Fails with
    /// `ChannelClosed` if the address has no mailbox; gives `None` if the
    /// mailbox is empty.
    pub fn receive(&mut self, address: &Address) -> (out: Result<Option<AgentMsg>, Error>)
        ensures
            final(self)@ == old(self)@.take(address@),
            (match out {
                Ok(Some(msg)) => old(self)@.next_for(address@) == Some(msg@),
                Ok(None) => old(self)@.registered(address@) && old(self)@.next_for(address@)
                    is None,
                Err(e) => !old(self)@.registered(address@) && e == Error::ChannelClosed,
            }),
    {
        proof {
            use_type_invariant(&*self);
        }
        let found = position(&self.slots, address);
        match found {
            None => Err(Error::ChannelClosed),
            Some(i) => {
                let mut slots: Vec<Slot> = Vec::new();
                std::mem::swap(&mut self.slots, &mut slots);
                let ghost before = slots@;
                let out = slots[i].mailbox.pop();
                proof {
                    lemma_lookup(before, i as int);
                    lemma_update(before, slots@, i as int);
                }
                std::mem::swap(&mut self.slots, &mut slots);
                Ok(out)
            },
        }
    }
    /// Whether the oldest command in the queue, if there is one, must
    /// wait for room in a full mailbox.
    fn head_blocked(&self) -> (blocked: bool)
        requires
            self@.queue.len() > 0,
        ensures
            blocked == self@.blocks(self@.queue[0]),
    {
        proof {
            use_type_invariant(self);
            lemma_watcher_full(
                self@,
                self.slots@,
                self.edges@,
                match self@.queue[0] {
                    Envelope::Unregister(address) => address,
                    _ => Seq::empty(),
                },
            );
        }
        match &self.queue[0] {
            RouterMessage::Message { recipient, .. } => full_at(&self.slots, recipient),
            RouterMessage::RemoteMessage { recipient, .. } => full_at(&self.slots, recipient),
            RouterMessage::Track { .. } => false,
            RouterMessage::Unregister(address) => position(&self.slots, address).is_some()
                && watcher_blocked(&self.slots, &self.edges, address),
            RouterMessage::Shutdown(address) => full_at(&self.slots, address),
        }
    }

    /// Takes one step of the dispatch loop. The oldest command leaves the
    /// queue and is carried out, unless it would have to put a message
    /// into a full mailbox: then nothing changes, and the step can be
    /// tried again once the mailbox has been read from.
    ///
    /// A delivery or a shutdown request for an address without a mailbox
    /// is dropped. Removing a mailbox puts one removal notice into the
    /// mailbox of each watcher that still has one, and takes every
    /// tracking edge of the removed address away.
    pub fn dispatch(&mut self) -> (out: Dispatch)
        ensures
            (match out {
                Dispatch::Idle => old(self)@.queue.len() == 0 && final(self)@ == old(self)@,
                Dispatch::Blocked => old(self)@.queue.len() > 0 && old(self)@.blocks(
                    old(self)@.queue[0],
                ) && final(self)@ == old(self)@,
                Dispatch::Done => old(self)@.ready() && final(self)@ == old(self)@.step(),
            }),
    {
        proof {
            use_type_invariant(&*self);
        }
        if self.queue.len() == 0 {
            return Dispatch::Idle;
        }
        if self.head_blocked() {
            return Dispatch::Blocked;
        }
        let ghost before = self@;
        let mut queue: VecDeque<RouterMessage> = VecDeque::new();
        let mut slots: Vec<Slot> = Vec::new();
        let mut edges: Vec<Edge> = Vec::new();
        std::mem::swap(&mut self.queue, &mut queue);
        std::mem::swap(&mut self.slots, &mut slots);
        std::mem::swap(&mut self.edges, &mut edges);
        let ghost slots0 = slots@;
        let ghost edges0 = edges@;
        assert(before.mailboxes == mailboxes_of(slots0));
        assert(before.tracking == tracking_of(edges0));
        let head = queue.pop_front();
        assert(queue@.map_values(|envelope: RouterMessage| envelope@) =~= before.queue.skip(1));
        match head {
            None => {},
            Some(RouterMessage::Message { recipient, sender, msg }) => {
                forward(&mut slots, &recipient, AgentMsg::Message(msg, sender));
            },
            Some(RouterMessage::RemoteMessage { recipient, sender, bytes }) => {
                forward(&mut slots, &recipient, AgentMsg::RemoteMessage(bytes, sender));
            },
            Some(RouterMessage::Track { from, to }) => {
                insert_edge(&mut edges, from, to);
            },
            Some(RouterMessage::Shutdown(address)) => {
                forward(&mut slots, &address, AgentMsg::Shutdown);
            },
            Some(RouterMessage::Unregister(address)) => {
                match position(&slots, &address) {
                    None => {},
                    Some(i) => {
                        proof {
                            lemma_lookup(slots0, i as int);
                            lemma_watcher_full(before, slots0, edges0, address@);
                        }
                        remove_slot(&mut slots, i);
                        proof {
                            let slots1 = slots@;
                            assert forall|e: int|
                                0 <= e < edges0.len() && pair_at(edges0, e).1
                                    == address@ implies !full_in(slots1, pair_at(edges0, e).0) by {
                                let w = pair_at(edges0, e).0;
                                if full_in(slots1, w) {
                                    assert(w != address@);
                                    assert(full_in(slots0, w));
                                    assert(watcher_full(slots0, edges0, address@));
                                }
                            }
                        }
                        notify_watchers(&mut slots, &edges, &address);
                        drop_edges(&mut edges, &address);
                        proof {
                            let target = before.unregister(address@);
                            assert(mailboxes_of(slots@) =~= target.mailboxes);
                            assert(tracking_of(edges@) =~= target.tracking);
                        }
                    },
                }
            },
        }
        std::mem::swap(&mut self.queue, &mut queue);
        std::mem::swap(&mut self.slots, &mut slots);
        std::mem::swap(&mut self.edges, &mut edges);
        assert(self@ =~= before.step());
        Dispatch::Done
    }
    /// Runs the dispatch loop for as long as it can go on: step after
    /// step, in the order of the queue, until the queue is empty or its
    /// oldest command is blocked. Hands out the number of steps taken.
    pub fn dispatch_all(&mut self) -> (steps: usize)
        ensures
            old(self)@.flows(steps as nat),
            final(self)@ == old(self)@.run(steps as nat),
            !final(self)@.ready(),
    {
        let ghost start = self@;
        let waiting: usize = self.pending();
        let mut steps: usize = 0;
        loop
            invariant
                start.flows(steps as nat),
                self@ == start.run(steps as nat),
                steps + self@.queue.len() == waiting,
            ensures
                start.flows(steps as nat),
                self@ == start.run(steps as nat),
                !self@.ready(),
            decreases self@.queue.len(),
        {
            let ghost here = self@;
            match self.dispatch() {
                Dispatch::Done => {
                    proof {
                        lemma_one_more_step(start, steps as nat);
                        assert(here.step().queue.len() == here.queue.len() - 1) by {
                            lemma_step_shortens(here);
                        }
                    }
                    steps += 1;
                },
                _ => {
                    break ;
                },
            }
        }
        steps
    }
}

} // verus!
