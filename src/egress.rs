//! The egress of one connection: writes each queued message as one whole
//! frame, in submission order, across as many writes as it takes.

use crate::codec::Message;
use vstd::prelude::*;
use vstd::slice::slice_subrange;

verus! {

/// What one non-blocking write produced.
#[derive(Debug, Clone, Copy, PartialEq, Eq, Structural)]
pub enum WriteOutcome {
    /// This many bytes were written.
    Wrote(usize),
    /// The write would have blocked.
    WouldBlock,
    /// The peer is gone.
    BrokenPipe,
    /// Any other write error.
    Failed,
}

/// What the egress does next.
#[derive(Debug, Clone, Copy, PartialEq, Eq, Structural)]
pub enum EgressAction {
    /// Write the rest of the frame.
    Write,
    /// The frame is out: take the next message.
    Done,
    /// The connection is gone: stop; later messages for it are refused.
    Stop,
    /// An error that points at the environment, not at the peer.
    Fatal,
}

/// A frame being written.
#[derive(Debug)]
pub struct Outgoing {
    bytes: Vec<u8>,
    sent: usize,
}

impl Outgoing {
    pub closed spec fn wf(&self) -> bool {
        self.sent <= self.bytes@.len()
    }

    /// The whole frame.
    pub closed spec fn frame(&self) -> Seq<u8> {
        self.bytes@
    }

    /// How many of its bytes are written.
    pub closed spec fn sent(&self) -> nat {
        self.sent as nat
    }

    pub fn new<M: Message>(msg: &M) -> (r: Outgoing)
        ensures
            r.wf(),
            r.frame() == msg.frame(),
            r.sent() == 0,
    {
        Outgoing { bytes: msg.encode(), sent: 0 }
    }

    /// The bytes still to write.
    pub fn remaining(&self) -> (r: &[u8])
        requires
            self.wf(),
        ensures
            r@ == self.frame().skip(self.sent() as int),
    {
        let r = slice_subrange(self.bytes.as_slice(), self.sent, self.bytes.len());
        assert(r@ =~= self.frame().skip(self.sent() as int));
        r
    }

    /// Takes the outcome of writing `remaining()`. A write that would block is
    /// retried with the same bytes; nothing is dropped. A write that takes no
    /// byte, or a broken pipe, means the peer is gone.
    pub fn on_write(&mut self, outcome: WriteOutcome) -> (r: EgressAction)
        requires
            old(self).wf(),
            outcome matches WriteOutcome::Wrote(n) ==> n <= old(self).frame().len() - old(
                self,
            ).sent(),
        ensures
            final(self).wf(),
            final(self).frame() == old(self).frame(),
            match outcome {
                WriteOutcome::Wrote(n) => if n == 0 {
                    r == EgressAction::Stop && final(self).sent() == old(self).sent()
                } else {
                    &&& final(self).sent() == old(self).sent() + n
                    &&& r == if final(self).sent() == final(self).frame().len() {
                        EgressAction::Done
                    } else {
                        EgressAction::Write
                    }
                },
                WriteOutcome::WouldBlock => r == EgressAction::Write && final(self).sent() == old(
                    self,
                ).sent(),
                WriteOutcome::BrokenPipe => r == EgressAction::Stop && final(self).sent() == old(
                    self,
                ).sent(),
                WriteOutcome::Failed => r == EgressAction::Fatal && final(self).sent() == old(
                    self,
                ).sent(),
            },
    {
        match outcome {
            WriteOutcome::Wrote(n) => {
                if n == 0 {
                    EgressAction::Stop
                } else {
                    let len = self.bytes.len();
                    self.sent = self.sent + n;
                    if self.sent == len {
                        EgressAction::Done
                    } else {
                        EgressAction::Write
                    }
                }
            },
            WriteOutcome::WouldBlock => EgressAction::Write,
            WriteOutcome::BrokenPipe => EgressAction::Stop,
            WriteOutcome::Failed => EgressAction::Fatal,
        }
    }
}

} // verus!
