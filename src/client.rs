//! Client-side settings.

use vstd::prelude::*;

verus! {

/// Settings of a client.
#[derive(Debug, Clone, Copy)]
pub struct Config {
    /// Milliseconds without inbound bytes after which the connection is
    /// dropped; `None` for no limit.
    pub timeout: Option<u64>,
    /// Capacity of the outbound queue.
    pub emitter_buffer: usize,
    /// Capacity of the inbound event queue.
    pub collector_buffer: usize,
}

impl Default for Config {
    fn default() -> (r: Config)
        ensures
            r.timeout is None,
            r.emitter_buffer == 3,
            r.collector_buffer == 3,
    {
        Config { timeout: None, emitter_buffer: 3, collector_buffer: 3 }
    }
}

} // verus!
