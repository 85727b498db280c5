//! What travels over the bus: type-erased values, mailbox messages and
//! the messages that an agent hands to its user.

use vstd::prelude::*;
use vstd::string::to_string_from_display_ensures;
use std::fmt::Display;
use std::any::Any;
use bytes::Bytes;
use crate::address::{utf8_lossy, Address};
use crate::buffer::{bytes_as_slice, bytes_clone, bytes_view};
use crate::errors::Error;

verus! {

/// A value of any type, with its type erased, as local agents send it to
/// one another. The verifier does not look inside: the box is built and
/// opened by the two functions below, and moved untouched in between.
#[verifier::external_body]
pub struct AnyMessage(Box<dyn Any>);

/// Calls `Box::new` and erases the type of the box. Trusted: a box made
/// from a `T` opens as a `T` to the value it was made from, and to
/// nothing else.
#[verifier::external_body]
fn erase<T: Send + 'static>(val: T) -> (msg: AnyMessage)
    ensures
        msg.holds(val),
{
    AnyMessage(Box::new(val))
}

/// Calls `Box<dyn Any>::downcast`, which hands the value out if it is a
/// `U` and fails otherwise. Trusted; nothing is claimed of the result
/// here.
#[verifier::external_body]
fn recover<U: 'static>(msg: AnyMessage) -> Option<U> {
    match msg.0.downcast::<U>() {
        Ok(val) => Some(*val),
        Err(_) => None,
    }
}

impl AnyMessage {
    /// Whether opening the box as a `U` can come to `found`: the value,
    /// if the box holds a `U`, and `None` if it holds something else.
    pub closed spec fn opens_as<U: 'static>(self, found: Option<U>) -> bool {
        call_ensures(recover::<U>, (self,), found)
    }

    /// Whether the box was made from `val`: opened as a `T` it gives
    /// `val`, whenever it is opened.
    pub open spec fn holds<T: 'static>(self, val: T) -> bool {
        forall|found: Option<T>| #[trigger] self.opens_as(found) ==> found == Some(val)
    }

    /// Erases the type of `val` so that it can travel through the mailbox
    /// of any agent.
    pub fn new<T: Send + 'static>(val: T) -> (msg: Self)
        ensures
            msg.holds(val),
    {
        erase(val)
    }

    /// Opens the box as a `U`.
    fn open<U: 'static>(self) -> (found: Option<U>)
        ensures
            self.opens_as(found),
    {
        recover::<U>(self)
    }
}

/// A message as an agent hands it to its user.
pub enum Message<T> {
    /// Raw bytes, and the address of the agent that sent them.
    RemoteMessage(Bytes, Address),
    /// A value, and the address of the agent that sent it.
    Value(T, Address),
    /// A tracked agent was removed from the router.
    AgentRemoved(Address),
    /// This agent is asked to close down.
    Shutdown,
}

/// A message as it waits in a mailbox: what the router forwards to one
/// agent.
pub enum AgentMsg {
    /// A type-erased value, and the address of the agent that sent it.
    Message(AnyMessage, Address),
    /// Raw bytes, and the address of the agent that sent them.
    RemoteMessage(Bytes, Address),
    /// A tracked agent was removed from the router.
    AgentRemoved(Address),
    /// The agent is asked to close down.
    Shutdown,
}

/// A mailbox message with its buffers and addresses read as byte
/// sequences.
pub enum Notice {
    /// A type-erased value and its sender.
    Message(AnyMessage, Seq<u8>),
    /// Raw bytes and their sender.
    RemoteMessage(Seq<u8>, Seq<u8>),
    /// The named agent was removed.
    AgentRemoved(Seq<u8>),
    /// The request to close down.
    Shutdown,
}

impl View for AgentMsg {
    type V = Notice;

    open spec fn view(&self) -> Notice {
        match *self {
            AgentMsg::Message(val, sender) => Notice::Message(val, sender@),
            AgentMsg::RemoteMessage(bytes, sender) => Notice::RemoteMessage(
                bytes_view(bytes),
                sender@,
            ),
            AgentMsg::AgentRemoved(address) => Notice::AgentRemoved(address@),
            AgentMsg::Shutdown => Notice::Shutdown,
        }
    }
}

/// What the decoding of a typed value comes to, given what opening it
/// found: the value with its sender, or `InvalidMessageType` if the box
/// held something else.
pub open spec fn value_outcome<U>(found: Option<U>, sender: Address) -> Result<Message<U>, Error> {
    match found {
        Some(val) => Ok(Message::Value(val, sender)),
        None => Err(Error::InvalidMessageType),
    }
}

/// Turns the outcome of opening a type-erased value into the user's
/// message: the value with its sender if it had the expected type,
/// `InvalidMessageType` if not.
pub fn value_message<U>(found: Option<U>, sender: Address) -> (out: Result<Message<U>, Error>)
    ensures
        out == value_outcome(found, sender),
{
    match found {
        Some(val) => Ok(Message::Value(val, sender)),
        None => Err(Error::InvalidMessageType),
    }
}

impl AgentMsg {
    /// Decodes a mailbox message for an agent that expects values of type
    /// `U`. Bytes, removal notices and the shutdown request pass through
    /// unchanged. A typed value is opened as a `U`: it comes out as
    /// `Message::Value` with its sender, or, if it is not a `U`, the
    /// decoding fails with `InvalidMessageType`.
    pub fn to_local_message<U: 'static>(self) -> (out: Result<Message<U>, Error>)
        ensures
            (match self {
                AgentMsg::Message(val, sender) => match out {
                    Ok(Message::Value(v, from)) => val.opens_as(Some(v)) && from == sender,
                    Ok(_) => false,
                    Err(e) => val.opens_as(None::<U>) && e == Error::InvalidMessageType,
                },
                AgentMsg::RemoteMessage(bytes, sender) => out == Ok::<Message<U>, Error>(
                    Message::RemoteMessage(bytes, sender),
                ),
                AgentMsg::AgentRemoved(address) => out == Ok::<Message<U>, Error>(
                    Message::AgentRemoved(address),
                ),
                AgentMsg::Shutdown => out == Ok::<Message<U>, Error>(Message::Shutdown),
            }),
    {
        match self {
            AgentMsg::RemoteMessage(bytes, sender) => Ok(Message::RemoteMessage(bytes, sender)),
            AgentMsg::AgentRemoved(address) => Ok(Message::AgentRemoved(address)),
            AgentMsg::Message(val, sender) => {
                let found = val.open::<U>();
                value_message(found, sender)
            },
            AgentMsg::Shutdown => Ok(Message::Shutdown),
        }
    }
}

impl<T: Clone> Clone for Message<T> {
    fn clone(&self) -> (copy: Self)
        ensures
            (match (*self, copy) {
                (Message::RemoteMessage(b1, a1), Message::RemoteMessage(b2, a2)) => bytes_view(
                    b1,
                ) == bytes_view(b2) && a1@ == a2@,
                (Message::Value(v1, a1), Message::Value(v2, a2)) => cloned(v1, v2) && a1@ == a2@,
                (Message::AgentRemoved(a1), Message::AgentRemoved(a2)) => a1@ == a2@,
                (Message::Shutdown, Message::Shutdown) => true,
                _ => false,
            }),
    {
        match self {
            Message::RemoteMessage(bytes, addr) => Message::RemoteMessage(
                bytes_clone(bytes),
                addr.clone(),
            ),
            Message::Value(val, addr) => Message::Value(val.clone(), addr.clone()),
            Message::AgentRemoved(addr) => Message::AgentRemoved(addr.clone()),
            Message::Shutdown => Message::Shutdown,
        }
    }
}

impl<T: Display> Message<T> {
    /// Whether `text` describes this message: who sent what, with a
    /// value shown as its type displays it and bytes shown by their
    /// number.
    pub open spec fn described_by(&self, text: Seq<char>) -> bool {
        match *self {
            Message::Value(val, sender) => exists|shown: String|
                #[trigger] to_string_from_display_ensures::<T>(&val, shown) && text == utf8_lossy(
                    sender@,
                ) + " > Value<"@ + shown@ + ">"@,
            Message::RemoteMessage(bytes, sender) => exists|shown: String|
                #[trigger] to_string_from_display_ensures::<usize>(
                    &(bytes_view(bytes).len() as usize),
                    shown,
                ) && text == "Remote("@ + utf8_lossy(sender@) + ") > Bytes("@ + shown@ + ")"@,
            Message::AgentRemoved(address) => text == "AgentRemoved<"@ + utf8_lossy(address@)
                + ">"@,
            Message::Shutdown => text == "Shutdown"@,
        }
    }

    /// Describes the message in one line.
    pub fn to_string(&self) -> (text: String)
        ensures
            self.described_by(text@),
    {
        match self {
            Message::Value(val, sender) => {
                let shown = val.to_string();
                let mut text = sender.to_string();
                text.append(" > Value<");
                text.append(shown.as_str());
                text.append(">");
                assert(to_string_from_display_ensures::<T>(val, shown));
                assert(text@ == utf8_lossy(sender@) + " > Value<"@ + shown@ + ">"@);
                text
            },
            Message::RemoteMessage(bytes, sender) => {
                let len: usize = bytes_as_slice(bytes).len();
                let shown = len.to_string();
                let mut text = String::from_str("Remote(");
                text.append(sender.to_string().as_str());
                text.append(") > Bytes(");
                text.append(shown.as_str());
                text.append(")");
                assert(to_string_from_display_ensures::<usize>(&len, shown));
                assert(len == bytes_view(*bytes).len() as usize);
                assert(text@ == "Remote("@ + utf8_lossy(sender@) + ") > Bytes("@ + shown@ + ")"@);
                text
            },
            Message::AgentRemoved(address) => {
                let mut text = String::from_str("AgentRemoved<");
                text.append(address.to_string().as_str());
                text.append(">");
                text
            },
            Message::Shutdown => String::from_str("Shutdown"),
        }
    }
}

} // verus!
