//! The failures that the bus reports to its callers.

use vstd::prelude::*;

verus! {

/// Every way in which a call into the bus can fail.
#[derive(Debug, Clone, Copy, PartialEq, Eq, Structural)]
pub enum Error {
    /// The router's command queue has been torn down.
    RouterClosed,
    /// The mailbox behind an agent is gone.
    ChannelClosed,
    /// The address already has a live mailbox.
    AddressInUse,
    /// A value arrived whose type is not the one the receiving agent expects.
    InvalidMessageType,
    /// A frame declares a payload longer than the codec accepts.
    Framing,
    /// Every connection attempt that the retry budget allows has failed.
    ReconnectExhausted,
}

} // verus!
