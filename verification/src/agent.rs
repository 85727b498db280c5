//! Agents: the addressable participants of the bus.
//!
//! An agent is the handle of one address. Through it the owner of the
//! address submits commands to the router and reads the mailbox that the
//! router keeps for the address. The handle holds no queue of its own:
//! every call names the router it works on, and reads whatever mailbox is
//! registered under the agent's address at that moment. Giving the
//! handle up with `release` submits the removal of that mailbox.

use vstd::prelude::*;
use std::marker::PhantomData;
use bytes::Bytes;
use crate::address::Address;
use crate::buffer::bytes_view;
use crate::errors::Error;
use crate::mailbox::{Mailbox, MailboxView};
use crate::message::{AnyMessage, Message, Notice};
use crate::router::{Envelope, Router, RouterMessage, RouterView};

verus! {

/// Whether `envelope` asks for the value `message` to be delivered from
/// `sender` to `recipient`.
pub open spec fn is_delivery<U: 'static>(
    envelope: Envelope,
    recipient: Seq<u8>,
    sender: Seq<u8>,
    message: U,
) -> bool {
    match envelope {
        Envelope::Message { recipient: r, sender: s, msg } => r == recipient && s == sender
            && msg.holds(message),
        _ => false,
    }
}

/// Whether `after` is what sending the value `message` from `sender` to
/// `recipient` makes of the router state `before`: a delivery of that
/// value has joined the queue if the queue is alive, and nothing has
/// changed if not.
pub open spec fn sends<U: 'static>(
    before: RouterView,
    after: RouterView,
    recipient: Seq<u8>,
    sender: Seq<u8>,
    message: U,
) -> bool {
    if before.open {
        after.queue.len() > 0 && is_delivery(after.queue.last(), recipient, sender, message)
            && after == before.submit(after.queue.last())
    } else {
        after == before
    }
}

/// Whether `out` is what an agent that expects values of type `T` makes
/// of the mailbox message `notice`. Bytes, removal notices and the
/// shutdown request pass through. A typed value is opened as a `T`: it
/// comes out as `Message::Value` from the same sender, or, if it is not
/// a `T`, it is refused with `InvalidMessageType`.
pub open spec fn decodes<T: 'static>(notice: Notice, out: Result<Message<T>, Error>) -> bool {
    match notice {
        Notice::Message(val, sender) => match out {
            Ok(Message::Value(v, from)) => val.opens_as(Some(v)) && from@ == sender,
            Ok(_) => false,
            Err(e) => val.opens_as(None::<T>) && e == Error::InvalidMessageType,
        },
        Notice::RemoteMessage(bytes, sender) => match out {
            Ok(Message::RemoteMessage(b, from)) => bytes_view(b) == bytes && from@ == sender,
            _ => false,
        },
        Notice::AgentRemoved(address) => match out {
            Ok(Message::AgentRemoved(a)) => a@ == address,
            _ => false,
        },
        Notice::Shutdown => match out {
            Ok(Message::Shutdown) => true,
            _ => false,
        },
    }
}

/// Whether `out` is what an agent at `address` that expects values of
/// type `T` gets when it reads its mailbox in the router state `before`:
/// `ChannelClosed` without a mailbox, `None` from an empty one, and else
/// the oldest message, decoded.
pub open spec fn receives<T: 'static>(
    before: RouterView,
    address: Seq<u8>,
    out: Result<Option<Message<T>>, Error>,
) -> bool {
    match before.next_for(address) {
        Some(notice) => match out {
            Ok(Some(msg)) => decodes(notice, Ok::<Message<T>, Error>(msg)),
            Ok(None) => false,
            Err(e) => decodes(notice, Err::<Message<T>, Error>(e)),
        },
        None => out == if before.registered(address) {
            Ok::<Option<Message<T>>, Error>(None)
        } else {
            Err::<Option<Message<T>>, Error>(Error::ChannelClosed)
        },
    }
}

/// The handle of one address, for an owner that expects values of type
/// `T`.
pub struct Agent<T> {
    address: Address,
    _p: PhantomData<T>,
}

impl<T> View for Agent<T> {
    type V = Seq<u8>;

    /// The address that the agent is bound to.
    closed spec fn view(&self) -> Seq<u8> {
        self.address@
    }
}

/// Whether `out` and `after` are what minting an agent for `address`, with
/// a mailbox of `cap` messages, makes of the router state `before`. If
/// the address can be registered the router gains the empty mailbox and
/// the agent is bound to the address; if not, the router is unchanged
/// and the error says why.
pub open spec fn mints<T>(
    out: Result<Agent<T>, Error>,
    before: RouterView,
    after: RouterView,
    address: Seq<u8>,
    cap: nat,
) -> bool {
    match before.register_outcome(address) {
        Ok(_) => out matches Ok(agent) && agent@ == address && after == before.register(
            address,
            MailboxView::empty(cap),
        ),
        Err(e) => out matches Err(why) && why == e && after == before,
    }
}

impl<T: Send + 'static> Agent<T> {
    /// Makes a mailbox with room for `cap` messages, registers it under
    /// `address` and hands out the agent for it. Fails, changing nothing,
    /// with `RouterClosed` if the router's queue has been torn down and
    /// with `AddressInUse` if the address already has a mailbox.
    pub fn new(router: &mut Router, address: Address, cap: usize) -> (out: Result<Agent<T>, Error>)
        requires
            cap > 0,
        ensures
            mints(out, old(router)@, final(router)@, address@, cap as nat),
    {
        let agent = Agent { address: address.clone(), _p: PhantomData };
        match router.register(address, Mailbox::new(cap)) {
            Ok(_) => Ok(agent),
            Err(e) => Err(e),
        }
    }

    /// Makes a further agent, bound to `address`, on the same router.
    /// The mailbox is made and registered in one step; the call fails as
    /// `Agent::new` does.
    pub fn create_agent<U: Send + 'static>(
        &self,
        router: &mut Router,
        address: Address,
        cap: usize,
    ) -> (out: Result<Agent<U>, Error>)
        requires
            cap > 0,
        ensures
            mints(out, old(router)@, final(router)@, address@, cap as nat),
    {
        Agent::new(router, address, cap)
    }

    /// Asks for notice when the mailbox of `address` disappears: submits
    /// the edge from this agent to `address`.
    pub fn track(&self, router: &mut Router, address: Address) -> (out: Result<(), Error>)
        ensures
            out == old(router)@.submit_outcome(),
            final(router)@ == old(router)@.submitted(
                Envelope::Track { from: self@, to: address@ },
            ),
    {
        router.submit(RouterMessage::Track { from: self.address.clone(), to: address })
    }

    /// Lets `address` have notice when the mailbox of this agent
    /// disappears: submits the edge from `address` to this agent.
    pub fn reverse_track(&self, router: &mut Router, address: Address) -> (out: Result<(), Error>)
        ensures
            out == old(router)@.submit_outcome(),
            final(router)@ == old(router)@.submitted(
                Envelope::Track { from: address@, to: self@ },
            ),
    {
        router.submit(RouterMessage::Track { from: address, to: self.address.clone() })
    }

    /// The address that the agent is bound to.
    pub fn address(&self) -> (address: &Address)
        ensures
            address@ == self@,
    {
        &self.address
    }

    /// Takes the oldest message from the agent's mailbox and decodes it.
    /// `Ok(None)` says that the mailbox is empty: the caller waits and
    /// asks again. The call fails with `ChannelClosed` if the address has
    /// no mailbox, and with `InvalidMessageType` if the message holds a
    /// value that is not a `T`; the message has then left the mailbox all
    /// the same.
    pub fn recv(&mut self, router: &mut Router) -> (out: Result<Option<Message<T>>, Error>)
        ensures
            final(self)@ == old(self)@,
            final(router)@ == old(router)@.take(old(self)@),
            receives(old(router)@, old(self)@, out),
    {
        match router.receive(&self.address) {
            Err(e) => Err(e),
            Ok(None) => Ok(None),
            Ok(Some(msg)) => match msg.to_local_message::<T>() {
                Ok(decoded) => Ok(Some(decoded)),
                Err(e) => Err(e),
            },
        }
    }

    /// Sends `message` to `recipient`: the value is type-erased, tagged
    /// with this agent's address and submitted for delivery. The call
    /// does not wait for the recipient and does not depend on it; it
    /// fails only with `RouterClosed`.
    pub fn send<U: Send + 'static>(
        &self,
        router: &mut Router,
        recipient: Address,
        message: U,
    ) -> (out: Result<(), Error>)
        ensures
            out == old(router)@.submit_outcome(),
            sends(old(router)@, final(router)@, recipient@, self@, message),
    {
        let router_msg = RouterMessage::Message {
            recipient,
            sender: self.address.clone(),
            msg: AnyMessage::new(message),
        };
        router.submit(router_msg)
    }

    /// Sends raw bytes to `recipient`, tagged with this agent's address.
    /// Fails only with `RouterClosed`.
    pub fn send_remote(&self, router: &mut Router, recipient: Address, bytes: Bytes) -> (out:
        Result<(), Error>)
        ensures
            out == old(router)@.submit_outcome(),
            final(router)@ == old(router)@.submitted(
                Envelope::RemoteMessage {
                    recipient: recipient@,
                    sender: self@,
                    bytes: bytes_view(bytes),
                },
            ),
    {
        let router_msg = RouterMessage::RemoteMessage {
            recipient,
            sender: self.address.clone(),
            bytes,
        };
        router.submit(router_msg)
    }

    /// Asks the router to put a shutdown request into this agent's own
    /// mailbox. Nothing happens if the router's queue is gone.
    pub fn shutdown(&self, router: &mut Router)
        ensures
            final(router)@ == old(router)@.submitted(Envelope::Shutdown(self@)),
    {
        let router_msg = RouterMessage::Shutdown(self.address.clone());
        let _ = router.submit(router_msg);
    }

    /// Gives the handle up: submits the removal of the agent's mailbox.
    /// Nothing happens if the router's queue is gone.
    pub fn release(self, router: &mut Router)
        ensures
            final(router)@ == old(router)@.submitted(Envelope::Unregister(self@)),
    {
        let _ = router.submit(RouterMessage::Unregister(self.address));
    }
}

} // verus!
