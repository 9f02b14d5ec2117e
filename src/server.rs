//! Server-side settings, destinations and connection ids.

use vstd::prelude::*;

verus! {

/// The destination of an outbound message.
#[derive(Debug, Clone, Copy, PartialEq, Eq, Structural)]
pub enum Target {
    /// Every live connection, best effort.
    All,
    /// One connection.
    One(usize),
}

impl From<usize> for Target {
    /// The connection with id `id`.
    fn from(id: usize) -> (r: Target) {
        Target::One(id)
    }
}

impl vstd::std_specs::convert::FromSpecImpl<usize> for Target {
    open spec fn obeys_from_spec() -> bool {
        true
    }

    open spec fn from_spec(id: usize) -> Target {
        Target::One(id)
    }
}

/// An outbound message with its destination.
#[derive(Debug)]
pub struct IResponse<M> {
    pub msg: M,
    pub target: Target,
}

/// Settings of a server.
#[derive(Debug, Clone, Copy)]
pub struct Config {
    /// Milliseconds without inbound bytes after which a connection is
    /// dropped; `None` for no limit.
    pub timeout: Option<u64>,
    /// Capacity of each connection's outbound queue.
    pub client_buffer: usize,
    /// Capacity of the inbound event queue.
    pub receiver_buffer: usize,
    /// Capacity of the dispatch command queue.
    pub pool_buffer: usize,
}

impl Default for Config {
    fn default() -> (r: Config)
        ensures
            r.timeout is None,
            r.client_buffer == 3,
            r.receiver_buffer == 32,
            r.pool_buffer == 32,
    {
        Config { timeout: None, client_buffer: 3, receiver_buffer: 32, pool_buffer: 32 }
    }
}

/// Hands out connection ids: 0 first, then each one greater than the last,
/// none twice.
#[derive(Debug)]
pub struct IdSource {
    next: usize,
}

impl IdSource {
    /// The id the next call of `mint` hands out.
    pub closed spec fn upcoming(&self) -> nat {
        self.next as nat
    }

    pub fn new() -> (r: IdSource)
        ensures
            r.upcoming() == 0,
    {
        IdSource { next: 0 }
    }

    /// The next id, or `None` once every `usize` has been handed out.
    pub fn mint(&mut self) -> (r: Option<usize>)
        ensures
            old(self).upcoming() < usize::MAX ==> r == Some(old(self).upcoming() as usize)
                && final(self).upcoming() == old(self).upcoming() + 1,
            old(self).upcoming() == usize::MAX ==> r is None && final(self).upcoming()
                == old(self).upcoming(),
    {
        if self.next < usize::MAX {
            let id = self.next;
            self.next = self.next + 1;
            Some(id)
        } else {
            None
        }
    }
}

} // verus!
