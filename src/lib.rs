//! Core of a line-oriented chat relay: a bounded, lossy broadcast bus with
//! independent subscriber cursors, the per-connection session state machine,
//! the identity counter of the acceptor, and the wire text of each line.
use vstd::prelude::*;

pub mod bus;
pub mod identity;
pub mod session;
pub mod text;

verus! {

/// The number of lines the bus retains before a slow subscriber skips ahead.
pub const CHANNEL_CAPACITY: usize = 32;

/// The address the server listens on and the client connects to.
pub const SERVER_ADDR: &'static str = "127.0.0.1:8080";

} // verus!
