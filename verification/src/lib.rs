//! Core of a peer-to-peer content-exchange node.
//!
//! The crate holds the parts of the node that are pure decisions and data:
//! the wire codec for signed application messages, and the engine that owns
//! the node's protocol state and answers every command and network event.
//! The surrounding process drives a network swarm and an event-drain loop and
//! consults this crate for every decision.

pub mod codec;
pub mod config;
pub mod engine;
pub mod fields;
pub mod json;
pub mod messages;
pub mod model;
pub mod transport;
pub mod varint;

use vstd::prelude::*;

verus! {

} // verus!
