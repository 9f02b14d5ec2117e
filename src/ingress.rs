//! The ingress of one connection: turns the bytes it reads into an ordered
//! sequence of events, keeping a partial frame until the rest arrives.

use crate::codec::{DecodeResult, Decoded, Message};
use crate::event::{DisconnectEvent, Event, Illegal};
use crate::ring_buffer::{RingBuffer, CAPACITY};
use bincode::error::DecodeError;
use std::io;
use std::sync::Arc;
use vstd::prelude::*;

verus! {

/// Largest number of bytes taken by one read.
pub const READ_CHUNK: usize = 4096;

/// What waiting on a connection's read half produced.
#[derive(Debug)]
pub enum ReadOutcome {
    /// Bytes were read; none at all means the peer closed the connection.
    Data(Vec<u8>),
    /// The read would have blocked.
    WouldBlock,
    /// The connection was reset.
    Reset,
    /// Any other read error.
    Failed(io::Error),
    /// No bytes arrived within the idle timeout.
    TimedOut,
    /// Nobody listens to this connection's events any more.
    ChannelClosed,
}

/// An item decoded from the stream.
pub enum Inbound<M> {
    Message(M),
    /// Bytes that were dropped as undecodable.
    Illegal(Seq<u8>),
}

/// The frames of `vs`, one after the other.
pub open spec fn frames<M: Message>(vs: Seq<M>) -> Seq<u8>
    decreases vs.len(),
{
    if vs.len() == 0 {
        Seq::empty()
    } else {
        vs[0].frame() + frames(vs.drop_first())
    }
}

/// One `Message` item for each of `vs`, in order.
pub open spec fn messages<M>(vs: Seq<M>) -> Seq<Inbound<M>> {
    vs.map_values(|v: M| Inbound::Message(v))
}

/// Decodes frames from the start of `bytes` until it needs more bytes: the
/// items decoded and the bytes left. Undecodable bytes are dropped whole.
pub open spec fn drain<M: Message>(bytes: Seq<u8>) -> (Seq<Inbound<M>>, Seq<u8>)
    decreases bytes.len(),
{
    match M::decoding(bytes) {
        Decoded::Done(v, n) => if 0 < n <= bytes.len() {
            let (rest, left) = drain::<M>(bytes.skip(n as int));
            (seq![Inbound::Message(v)] + rest, left)
        } else {
            (Seq::empty(), bytes)
        },
        Decoded::Incomplete => (Seq::empty(), bytes),
        Decoded::Malformed => (seq![Inbound::Illegal(bytes)], Seq::empty()),
    }
}

/// `drain`, then dropping what is left if it fills the whole buffer: such a
/// frame can never be completed.
pub open spec fn settle<M: Message>(bytes: Seq<u8>) -> (Seq<Inbound<M>>, Seq<u8>) {
    let (out, left) = drain::<M>(bytes);
    if left.len() < CAPACITY {
        (out, left)
    } else {
        (out.push(Inbound::Illegal(left)), Seq::empty())
    }
}

/// The event `e` reports the item `f`.
pub open spec fn shows<M>(e: Event<M>, f: Inbound<M>) -> bool {
    match f {
        Inbound::Message(v) => e == Event::<M>::Message(v),
        Inbound::Illegal(bytes) => e matches Event::IllegalData(il) && il.vec@ == bytes,
    }
}

/// The events report the items, one for one.
pub open spec fn reports<M>(events: Seq<Event<M>>, items: Seq<Inbound<M>>) -> bool {
    &&& events.len() == items.len()
    &&& forall|i: int| 0 <= i < events.len() ==> shows(#[trigger] events[i], items[i])
}

/// What an ingress that holds `held` reports when it is given `chunks`, one
/// read each, and what it holds at the end.
pub open spec fn run<M: Message>(held: Seq<u8>, chunks: Seq<Seq<u8>>) -> (Seq<Inbound<M>>, Seq<u8>)
    decreases chunks.len(),
{
    if chunks.len() == 0 {
        (Seq::empty(), held)
    } else {
        let (out, left) = settle::<M>(held + chunks[0]);
        let (rest, end) = run::<M>(left, chunks.drop_first());
        (out + rest, end)
    }
}

/// `part` is a strict beginning of the frame of `v`.
pub open spec fn starts_frame<M: Message>(part: Seq<u8>, v: M) -> bool {
    &&& part.len() < v.frame().len()
    &&& part == v.frame().take(part.len() as int)
}

/// No bytes at all ask for more.
pub proof fn lemma_empty_incomplete<M: Message>()
    ensures
        M::decoding(Seq::empty()) == Decoded::<M>::Incomplete,
{
    let v: M = arbitrary();
    M::lemma_round_trip(v, Seq::empty());
    M::lemma_truncated(v, Seq::empty());
}

/// Whole frames followed by bytes that ask for more decode to one message per
/// frame, and those bytes are left.
pub proof fn lemma_drain_frames<M: Message>(vs: Seq<M>, part: Seq<u8>)
    requires
        M::decoding(part) == Decoded::<M>::Incomplete,
    ensures
        drain::<M>(frames(vs) + part) == (messages(vs), part),
    decreases vs.len(),
{
    if vs.len() == 0 {
        assert(frames(vs) + part =~= part);
        assert(messages(vs) =~= Seq::<Inbound<M>>::empty());
    } else {
        let v = vs[0];
        let tail = vs.drop_first();
        M::lemma_round_trip(v, frames(tail) + part);
        assert(frames(vs) + part =~= v.frame() + (frames(tail) + part));
        assert((frames(vs) + part).skip(v.frame().len() as int) =~= frames(tail) + part);
        lemma_drain_frames(tail, part);
        assert(messages(vs) =~= seq![Inbound::Message(v)] + messages(tail));
    }
}

/// The frames of `vs` are those of its first `k` values followed by those of
/// the rest.
pub proof fn lemma_frames_split<M: Message>(vs: Seq<M>, k: int)
    requires
        0 <= k <= vs.len(),
    ensures
        frames(vs) == frames(vs.take(k)) + frames(vs.skip(k)),
    decreases k,
{
    if k == 0 {
        assert(vs.take(0) =~= Seq::<M>::empty());
        assert(vs.skip(0) =~= vs);
        assert(frames(vs.take(0)) + frames(vs) =~= frames(vs));
    } else {
        let tail = vs.drop_first();
        lemma_frames_split(tail, k - 1);
        assert(vs.take(k).drop_first() =~= tail.take(k - 1));
        assert(vs.skip(k) =~= tail.skip(k - 1));
        assert(frames(vs.take(k)) == vs[0].frame() + frames(tail.take(k - 1)));
        assert(frames(vs) =~= frames(vs.take(k)) + frames(vs.skip(k)));
    }
}

/// A beginning of the frames of `vs` is whole frames of its first `k` values
/// followed by a strict beginning of the next one, or nothing when all are
/// whole.
pub proof fn lemma_split_prefix<M: Message>(vs: Seq<M>, x: Seq<u8>) -> (r: (int, Seq<u8>))
    requires
        x.len() <= frames(vs).len(),
        x == frames(vs).take(x.len() as int),
    ensures
        0 <= r.0 <= vs.len(),
        x == frames(vs.take(r.0)) + r.1,
        r.0 < vs.len() ==> starts_frame(r.1, vs[r.0]),
        r.0 == vs.len() ==> r.1.len() == 0,
    decreases vs.len(),
{
    if vs.len() == 0 {
        assert(vs.take(0) =~= vs);
        assert(x =~= frames(vs.take(0)) + x);
        (0, x)
    } else {
        let v = vs[0];
        let tail = vs.drop_first();
        M::lemma_round_trip(v, Seq::empty());
        if x.len() < v.frame().len() {
            assert(vs.take(0) =~= Seq::<M>::empty());
            assert(x =~= frames(vs.take(0)) + x);
            assert(x =~= v.frame().take(x.len() as int));
            (0, x)
        } else {
            let n = v.frame().len() as int;
            let rest = x.skip(n);
            assert(frames(vs) == v.frame() + frames(tail));
            assert(x.take(n) =~= v.frame());
            assert(x =~= v.frame() + rest);
            assert(rest =~= frames(tail).take(rest.len() as int));
            let (k, part) = lemma_split_prefix(tail, rest);
            assert(vs.take(k + 1).drop_first() =~= tail.take(k));
            assert(frames(vs.take(k + 1)) == v.frame() + frames(tail.take(k)));
            assert(x =~= frames(vs.take(k + 1)) + part);
            (k + 1, part)
        }
    }
}

/// The frames of `vs`, split into reads in any way, reach an ingress that
/// holds a strict beginning of the first of them.
pub open spec fn pending<M: Message>(held: Seq<u8>, vs: Seq<M>) -> bool {
    &&& vs.len() == 0 ==> held.len() == 0
    &&& vs.len() > 0 ==> starts_frame(held, vs[0])
}

proof fn lemma_run_frames<M: Message>(vs: Seq<M>, held: Seq<u8>, chunks: Seq<Seq<u8>>)
    requires
        forall|i: int| 0 <= i < vs.len() ==> (#[trigger] vs[i].frame()).len() <= CAPACITY,
        held + chunks.flatten() == frames(vs),
        pending(held, vs),
    ensures
        run::<M>(held, chunks) == (messages(vs), Seq::<u8>::empty()),
    decreases chunks.len(),
{
    if chunks.len() == 0 {
        assert(held + chunks.flatten() =~= held);
        if vs.len() > 0 {
            assert(frames(vs) == vs[0].frame() + frames(vs.drop_first()));
        }
        assert(messages(vs) =~= Seq::<Inbound<M>>::empty());
    } else {
        let c = chunks[0];
        let cs = chunks.drop_first();
        let x = held + c;
        assert(chunks.flatten() == c + cs.flatten());
        assert(frames(vs) =~= x + cs.flatten());
        assert(x =~= frames(vs).take(x.len() as int));
        let (k, part) = lemma_split_prefix(vs, x);
        if k < vs.len() {
            M::lemma_truncated(vs[k], part);
        } else {
            lemma_empty_incomplete::<M>();
            assert(part =~= Seq::<u8>::empty());
        }
        lemma_drain_frames(vs.take(k), part);
        assert(settle::<M>(x) == (messages(vs.take(k)), part));
        lemma_frames_split(vs, k);
        let front = frames(vs.take(k));
        assert(front + (part + cs.flatten()) =~= front + frames(vs.skip(k)));
        assert((front + (part + cs.flatten())).skip(front.len() as int) =~= part + cs.flatten());
        assert((front + frames(vs.skip(k))).skip(front.len() as int) =~= frames(vs.skip(k)));
        if k < vs.len() {
            assert(vs.skip(k)[0] == vs[k]);
        }
        assert forall|i: int| 0 <= i < vs.skip(k).len() implies (
        #[trigger] vs.skip(k)[i].frame()).len() <= CAPACITY by {
            assert(vs.skip(k)[i] == vs[k + i]);
        }
        lemma_run_frames(vs.skip(k), part, cs);
        assert(messages(vs) =~= messages(vs.take(k)) + messages(vs.skip(k)));
    }
}

/// However a run of whole frames is split into reads, an ingress that starts
/// empty reports exactly one message for each frame, in the order they were
/// encoded, and ends holding nothing. Frames longer than the buffer are left
/// out: they are refused.
pub proof fn burst_is_decoded_whole<M: Message>(vs: Seq<M>, chunks: Seq<Seq<u8>>)
    requires
        forall|i: int| 0 <= i < vs.len() ==> (#[trigger] vs[i].frame()).len() <= CAPACITY,
        chunks.flatten() == frames(vs),
    ensures
        run::<M>(Seq::empty(), chunks) == (messages(vs), Seq::<u8>::empty()),
{
    assert(Seq::<u8>::empty() + chunks.flatten() =~= chunks.flatten());
    if vs.len() > 0 {
        M::lemma_round_trip(vs[0], Seq::empty());
        assert(Seq::<u8>::empty() =~= vs[0].frame().take(0));
    }
    lemma_run_frames(vs, Seq::empty(), chunks);
}

/// A frame split in two reads: the first gives no event and keeps its bytes,
/// the second gives exactly the one message and leaves nothing.
pub proof fn split_frame_is_decoded_once<M: Message>(v: M, k: int)
    requires
        0 < k < v.frame().len(),
        v.frame().len() <= CAPACITY,
    ensures
        settle::<M>(v.frame().take(k)) == (Seq::<Inbound<M>>::empty(), v.frame().take(k)),
        settle::<M>(v.frame().take(k) + v.frame().skip(k)) == (
            seq![Inbound::Message(v)],
            Seq::<u8>::empty(),
        ),
{
    let f = v.frame();
    M::lemma_truncated(v, f.take(k));
    assert(f.take(k).len() == k);
    lemma_empty_incomplete::<M>();
    let one = seq![v];
    assert(frames(one.drop_first()) == Seq::<u8>::empty());
    assert(frames(one) =~= f);
    assert(f.take(k) + f.skip(k) =~= frames(one) + Seq::<u8>::empty());
    lemma_drain_frames(one, Seq::empty());
    assert(messages(one) =~= seq![Inbound::Message(v)]);
}

/// Relies on bincode's DecodeError::LimitExceeded: the reason given for a
/// frame too long for the buffer.
#[verifier::external_body]
fn frame_too_long() -> DecodeError {
    DecodeError::LimitExceeded
}

/// The decoding state of one connection.
#[derive(Debug)]
pub struct Ingress {
    buffer: RingBuffer,
    live: bool,
}

impl Ingress {
    pub closed spec fn wf(&self) -> bool {
        &&& self.buffer.wf()
        &&& self.buffer.cursor() == 0
        &&& self.buffer@.len() < CAPACITY
    }

    /// The bytes of a frame that has begun but not ended.
    pub closed spec fn held(&self) -> Seq<u8> {
        self.buffer@
    }

    /// Whether the connection is still read.
    pub closed spec fn live(&self) -> bool {
        self.live
    }

    /// A well-formed ingress holds less than a full buffer, so a read of at
    /// least one byte always fits.
    pub proof fn lemma_held_fits(&self)
        requires
            self.wf(),
        ensures
            self.held().len() < CAPACITY,
    {
    }

    pub fn new() -> (r: Ingress)
        ensures
            r.wf(),
            r.held() == Seq::<u8>::empty(),
            r.live(),
    {
        Ingress { buffer: RingBuffer::new(), live: true }
    }

    pub fn is_live(&self) -> (r: bool)
        ensures
            r == self.live(),
    {
        self.live
    }

    /// How many bytes the next read may take: never none.
    pub fn read_limit(&self) -> (r: usize)
        requires
            self.wf(),
        ensures
            r == if READ_CHUNK <= CAPACITY - self.held().len() {
                READ_CHUNK as int
            } else {
                CAPACITY - self.held().len()
            },
            0 < r <= READ_CHUNK,
    {
        let free = self.buffer.free();
        if READ_CHUNK <= free {
            READ_CHUNK
        } else {
            free
        }
    }

    /// Decodes every complete frame held.
    fn drain_frames<M: Message>(&mut self) -> (r: Vec<Event<M>>)
        requires
            old(self).buffer.wf(),
            old(self).buffer.cursor() == 0,
        ensures
            final(self).buffer.wf(),
            final(self).buffer.cursor() == 0,
            final(self).live == old(self).live,
            reports(r@, drain::<M>(old(self).buffer@).0),
            final(self).buffer@ == drain::<M>(old(self).buffer@).1,
    {
        let mut events: Vec<Event<M>> = Vec::new();
        let ghost done: Seq<Inbound<M>> = Seq::empty();
        loop
            invariant_except_break
                reports(events@, done),
                drain::<M>(old(self).buffer@).0 == done + drain::<M>(self.buffer@).0,
                drain::<M>(old(self).buffer@).1 == drain::<M>(self.buffer@).1,
            invariant
                self.buffer.wf(),
                self.buffer.cursor() == 0,
                self.live == old(self).live,
            ensures
                self.buffer.wf(),
                self.buffer.cursor() == 0,
                self.live == old(self).live,
                reports(events@, drain::<M>(old(self).buffer@).0),
                self.buffer@ == drain::<M>(old(self).buffer@).1,
            decreases self.buffer@.len(),
        {
            let window = self.buffer.unread();
            assert(window@ =~= self.buffer@);
            match M::decode(window.as_slice()) {
                DecodeResult::Done(v, n) => {
                    proof {
                        M::lemma_progress(window@);
                        let (rest, left) = drain::<M>(self.buffer@.skip(n as int));
                        assert(drain::<M>(self.buffer@).0 == seq![Inbound::Message(v)] + rest);
                        assert(done + drain::<M>(self.buffer@).0 =~= done.push(
                            Inbound::Message(v),
                        ) + rest);
                        done = done.push(Inbound::Message(v));
                    }
                    self.buffer.consume(n);
                    self.buffer.fwd();
                    let ghost before = events@;
                    events.push(Event::Message(v));
                    assert(reports(events@, done)) by {
                        assert forall|i: int| 0 <= i < events@.len() implies shows(
                            #[trigger] events@[i],
                            done[i],
                        ) by {
                            if i < events@.len() - 1 {
                                assert(events@[i] == before[i]);
                            }
                        }
                    }
                },
                DecodeResult::Incomplete => {
                    self.buffer.back();
                    proof {
                        assert(done + Seq::<Inbound<M>>::empty() =~= done);
                    }
                    break ;
                },
                DecodeResult::Malformed(err) => {
                    self.buffer.clear();
                    let ghost before = events@;
                    events.push(Event::IllegalData(Illegal { err: Arc::new(err), vec: window }));
                    proof {
                        assert(reports(events@, done.push(Inbound::Illegal(window@)))) by {
                            assert forall|i: int| 0 <= i < events@.len() implies shows(
                                #[trigger] events@[i],
                                done.push(Inbound::Illegal(window@))[i],
                            ) by {
                                if i < events@.len() - 1 {
                                    assert(events@[i] == before[i]);
                                }
                            }
                        }
                        assert(done + seq![Inbound::Illegal(window@)] =~= done.push(
                            Inbound::Illegal(window@),
                        ));
                    }
                    break ;
                },
            }
        }
        events
    }

    /// Takes what one wait on the read half produced and returns the events it
    /// gives, in order. Data is appended to the partial frame held and every
    /// complete frame is decoded; reading no bytes is a clean close, a reset a
    /// dirty one. A timeout or a closed event channel ends the connection
    /// without an event, and an ended connection yields nothing more.
    pub fn on_input<M: Message>(&mut self, input: ReadOutcome) -> (r: Vec<Event<M>>)
        requires
            old(self).wf(),
            input matches ReadOutcome::Data(b) ==> b@.len() <= CAPACITY - old(self).held().len(),
        ensures
            final(self).wf(),
            final(self).held().len() < CAPACITY,
            !old(self).live() ==> r@.len() == 0 && !final(self).live() && final(self).held()
                == old(self).held(),
            old(self).live() ==> match input {
                ReadOutcome::Data(b) => if b@.len() == 0 {
                    &&& r@ == seq![Event::<M>::Disconnect(DisconnectEvent::Clean)]
                    &&& !final(self).live()
                    &&& final(self).held() == old(self).held()
                } else {
                    &&& reports(r@, settle::<M>(old(self).held() + b@).0)
                    &&& final(self).held() == settle::<M>(old(self).held() + b@).1
                    &&& final(self).live()
                },
                ReadOutcome::WouldBlock => {
                    &&& r@.len() == 0
                    &&& final(self).live()
                    &&& final(self).held() == old(self).held()
                },
                ReadOutcome::Reset => {
                    &&& r@ == seq![Event::<M>::Disconnect(DisconnectEvent::Dirty)]
                    &&& !final(self).live()
                    &&& final(self).held() == old(self).held()
                },
                ReadOutcome::Failed(e) => {
                    &&& r@.len() == 1
                    &&& r@[0].reports_error(e)
                    &&& final(self).live()
                    &&& final(self).held() == old(self).held()
                },
                ReadOutcome::TimedOut | ReadOutcome::ChannelClosed => {
                    &&& r@.len() == 0
                    &&& !final(self).live()
                    &&& final(self).held() == old(self).held()
                },
            },
    {
        let mut events: Vec<Event<M>> = Vec::new();
        if !self.live {
            return events;
        }
        match input {
            ReadOutcome::Data(bytes) => {
                if bytes.len() == 0 {
                    self.live = false;
                    events.push(Event::clean());
                } else {
                    self.buffer.write(bytes.as_slice());
                    events = self.drain_frames();
                    let ghost x = old(self).held() + bytes@;
                    if self.buffer.free() == 0 {
                        let vec = self.buffer.unread();
                        assert(vec@ =~= drain::<M>(x).1);
                        assert(settle::<M>(x).0 == drain::<M>(x).0.push(Inbound::Illegal(vec@)));
                        self.buffer.clear();
                        let ghost before = events@;
                        events.push(Event::IllegalData(Illegal { err: Arc::new(frame_too_long()), vec }));
                        assert(reports(events@, settle::<M>(old(self).held() + bytes@).0)) by {
                            assert forall|i: int| 0 <= i < events@.len() implies shows(
                                #[trigger] events@[i],
                                settle::<M>(old(self).held() + bytes@).0[i],
                            ) by {
                                if i < events@.len() - 1 {
                                    assert(events@[i] == before[i]);
                                    assert(shows(before[i], drain::<M>(x).0[i]));
                                }
                            }
                        }
                    }
                }
            },
            ReadOutcome::WouldBlock => {},
            ReadOutcome::Reset => {
                self.live = false;
                events.push(Event::dirty());
            },
            ReadOutcome::Failed(err) => {
                events.push(Event::from_err(err));
            },
            ReadOutcome::TimedOut | ReadOutcome::ChannelClosed => {
                self.live = false;
            },
        }
        events
    }
}

} // verus!
