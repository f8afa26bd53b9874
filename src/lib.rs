//! A pool that leases exclusive sessions on a fixed set of remote automation
//! endpoints, tracks their expiry, and hands expired leases back.
//!
//! The library holds the pool's bookkeeping and decides every step; talking to
//! the endpoints (connecting, asking for a session id, closing) is left to the
//! caller, which holds the pool behind a lock and feeds the results back in.

pub mod laws;
pub mod manager;
pub mod pool;
pub mod session;

pub use manager::{distinct_webdrivers, FantocciniConnectionManager};
pub use session::{Binding, Session};

use vstd::prelude::*;

verus! {

/// Errors reported by the session pool.
#[derive(Debug, PartialEq, Eq, Structural)]
pub enum Error {
    /// No free endpoint connection is left to lease; nothing was changed.
    NoClientsAvailable,
    /// The identifier does not name an active session; nothing was changed.
    NoSuchSession,
}

} // verus!
