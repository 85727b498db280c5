//! A verified core for a small actor message bus.
//!
//! Agents are bound to addresses and exchange typed values or raw byte
//! payloads through one [`router::Router`]. The router is a deterministic
//! state machine: every command passes through its single ordered queue,
//! and every mailbox is a bounded first-in first-out buffer. A
//! [`bridge::Bridge`] extends the bus over a socket; its reconnect policy
//! and the wire framing are decided here, while sockets, timers and tasks
//! belong to the program around this library.

pub mod address;
pub mod agent;
pub mod bridge;
pub mod buffer;
pub mod errors;
pub mod frame;
pub mod mailbox;
pub mod message;
pub mod router;
