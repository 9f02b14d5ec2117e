//! The wire codec: how a message becomes a self-delimiting frame of bytes and
//! how a window of bytes is decoded back into one message.

use bincode::error::{DecodeError, EncodeError};
use vstd::prelude::*;

verus! {

/// bincode's decoding error, carried opaquely as the reason for dropped bytes.
#[verifier::external_type_specification]
#[verifier::external_body]
pub struct ExDecodeError(DecodeError);

/// bincode's encoding error, which encoding an integer into a `Vec` never gives.
#[verifier::external_type_specification]
#[verifier::external_body]
pub struct ExEncodeError(EncodeError);

/// What decoding a window of bytes yields, as a mathematical value.
pub enum Decoded<T> {
    /// One value, decoded from the first `n` bytes of the window.
    Done(T, nat),
    /// The window is a strict beginning of a frame: more bytes are needed.
    Incomplete,
    /// The window does not begin with a valid frame.
    Malformed,
}

/// `256` raised to `w`.
pub open spec fn pow256(w: nat) -> nat
    decreases w,
{
    if w == 0 {
        1
    } else {
        256 * pow256((w - 1) as nat)
    }
}

/// The `w` least significant bytes of `n`, least significant first.
pub open spec fn le_bytes(n: nat, w: nat) -> Seq<u8>
    decreases w,
{
    if w == 0 {
        Seq::empty()
    } else {
        seq![(n % 256) as u8] + le_bytes(n / 256, (w - 1) as nat)
    }
}

/// The number whose little-endian bytes are `b`.
pub open spec fn le_value(b: Seq<u8>) -> nat
    decreases b.len(),
{
    if b.len() == 0 {
        0
    } else {
        b[0] as nat + 256 * le_value(b.drop_first())
    }
}

/// Zigzag mapping of a signed integer onto the naturals: 0, -1, 1, -2, ...
pub open spec fn zigzag(v: int) -> nat {
    if v >= 0 {
        (2 * v) as nat
    } else {
        (-2 * v - 1) as nat
    }
}

/// Inverse of `zigzag`.
pub open spec fn unzigzag(n: nat) -> int {
    if n % 2 == 0 {
        (n / 2) as int
    } else {
        -((n + 1) / 2)
    }
}

/// Number of payload bytes that follow a multi-byte varint marker.
pub open spec fn varint_width(marker: u8) -> nat {
    if marker == 251 {
        2
    } else if marker == 252 {
        4
    } else {
        8
    }
}

/// Variable-length encoding of an unsigned integer: values up to 250 take one
/// byte; larger ones take a marker byte (251, 252, 253) followed by 2, 4 or 8
/// little-endian bytes.
pub open spec fn varint(z: nat) -> Seq<u8> {
    if z <= 250 {
        seq![z as u8]
    } else if z <= 0xffff {
        seq![251u8] + le_bytes(z, 2)
    } else if z <= 0xffff_ffff {
        seq![252u8] + le_bytes(z, 4)
    } else {
        seq![253u8] + le_bytes(z, 8)
    }
}

/// Decoding of a varint at the start of `b`. With `wide` false the 8-byte form
/// (marker 253) is refused, as for a 32-bit target; markers 254 and 255 are
/// always refused.
pub open spec fn varint_decoding(b: Seq<u8>, wide: bool) -> Decoded<nat> {
    if b.len() == 0 {
        Decoded::Incomplete
    } else if b[0] <= 250 {
        Decoded::Done(b[0] as nat, 1)
    } else if b[0] <= 252 || (b[0] == 253 && wide) {
        let w = varint_width(b[0]);
        if b.len() > w {
            Decoded::Done(le_value(b.subrange(1, w + 1 as int)), (w + 1) as nat)
        } else {
            Decoded::Incomplete
        }
    } else {
        Decoded::Malformed
    }
}

/// The frame of a signed integer: the varint of its zigzag value.
pub open spec fn int_frame(v: int) -> Seq<u8> {
    varint(zigzag(v))
}

/// Decoding of a signed integer frame.
pub open spec fn int_decoding(b: Seq<u8>, wide: bool) -> Decoded<int> {
    match varint_decoding(b, wide) {
        Decoded::Done(n, c) => Decoded::Done(unzigzag(n), c),
        Decoded::Incomplete => Decoded::Incomplete,
        Decoded::Malformed => Decoded::Malformed,
    }
}

pub proof fn lemma_le_bytes_len(n: nat, w: nat)
    ensures
        le_bytes(n, w).len() == w,
    decreases w,
{
    if w > 0 {
        lemma_le_bytes_len(n / 256, (w - 1) as nat);
    }
}

pub proof fn lemma_le_round_trip(n: nat, w: nat)
    requires
        n < pow256(w),
    ensures
        le_value(le_bytes(n, w)) == n,
    decreases w,
{
    if w > 0 {
        let p = pow256((w - 1) as nat);
        assert(n / 256 < p) by (nonlinear_arith)
            requires
                n < 256 * p,
        ;
        lemma_le_round_trip(n / 256, (w - 1) as nat);
        let b = le_bytes(n, w);
        assert(b.drop_first() =~= le_bytes(n / 256, (w - 1) as nat));
    }
}

proof fn lemma_pow256_values()
    ensures
        pow256(2) == 0x1_0000,
        pow256(4) == 0x1_0000_0000,
        pow256(8) == 0x1_0000_0000_0000_0000,
{
    reveal_with_fuel(pow256, 9);
}

pub proof fn lemma_zigzag_inverse(v: int)
    ensures
        unzigzag(zigzag(v)) == v,
{
}

/// A varint followed by any bytes decodes to its value and its own length.
pub proof fn lemma_varint_round_trip(z: nat, rest: Seq<u8>, wide: bool)
    requires
        z < 0x1_0000_0000 || (wide && z < 0x1_0000_0000_0000_0000),
    ensures
        varint(z).len() > 0,
        varint_decoding(varint(z) + rest, wide) == Decoded::Done(z, varint(z).len()),
{
    lemma_pow256_values();
    let b = varint(z) + rest;
    if z > 250 {
        let w: nat = if z <= 0xffff {
            2
        } else if z <= 0xffff_ffff {
            4
        } else {
            8
        };
        lemma_le_bytes_len(z, w);
        lemma_le_round_trip(z, w);
        assert(b.subrange(1, w + 1 as int) =~= le_bytes(z, w));
    }
}

/// A strict beginning of a varint asks for more bytes.
pub proof fn lemma_varint_truncated(z: nat, part: Seq<u8>, wide: bool)
    requires
        z < 0x1_0000_0000 || (wide && z < 0x1_0000_0000_0000_0000),
        part.len() < varint(z).len(),
        part =~= varint(z).take(part.len() as int),
    ensures
        varint_decoding(part, wide) == Decoded::<nat>::Incomplete,
{
    if z > 250 {
        let w: nat = if z <= 0xffff {
            2
        } else if z <= 0xffff_ffff {
            4
        } else {
            8
        };
        lemma_le_bytes_len(z, w);
        if part.len() > 0 {
            assert(part[0] == varint(z)[0]);
        }
    }
}

/// Decoding of an `i32` frame: a varint of at most four payload bytes.
pub open spec fn i32_decoding(b: Seq<u8>) -> Decoded<i32> {
    match int_decoding(b, false) {
        Decoded::Done(v, c) => Decoded::Done(v as i32, c),
        Decoded::Incomplete => Decoded::Incomplete,
        Decoded::Malformed => Decoded::Malformed,
    }
}

/// Decoding of an `i64` frame: a varint of at most eight payload bytes.
pub open spec fn i64_decoding(b: Seq<u8>) -> Decoded<i64> {
    match int_decoding(b, true) {
        Decoded::Done(v, c) => Decoded::Done(v as i64, c),
        Decoded::Incomplete => Decoded::Incomplete,
        Decoded::Malformed => Decoded::Malformed,
    }
}

/// What one call of a decoder returned.
#[derive(Debug)]
pub enum DecodeResult<M> {
    /// A message, and the number of bytes its frame took.
    Done(M, usize),
    /// The bytes end inside a frame.
    Incomplete,
    /// The bytes do not begin with a valid frame; the codec's reason.
    Malformed(DecodeError),
}

impl<M> DecodeResult<M> {
    pub open spec fn outcome(self) -> Decoded<M> {
        match self {
            DecodeResult::Done(v, n) => Decoded::Done(v, n as nat),
            DecodeResult::Incomplete => Decoded::Incomplete,
            DecodeResult::Malformed(_) => Decoded::Malformed,
        }
    }
}

/// A value that can travel as one self-delimiting frame.
///
/// `frame` is the encoding of a value and `decoding` what a decoder makes of a
/// window of bytes. The lemmas are what the stream decoder relies on: a frame
/// followed by anything decodes to its value and its own length, a strict
/// beginning of a frame asks for more bytes, and a decoder never claims more
/// bytes than it was given.
pub trait Message: Sized {
    spec fn frame(self) -> Seq<u8>;

    spec fn decoding(bytes: Seq<u8>) -> Decoded<Self>;

    fn encode(&self) -> (r: Vec<u8>)
        ensures
            r@ == self.frame(),
    ;

    fn decode(bytes: &[u8]) -> (r: DecodeResult<Self>)
        ensures
            r.outcome() == Self::decoding(bytes@),
    ;

    proof fn lemma_round_trip(v: Self, rest: Seq<u8>)
        ensures
            v.frame().len() > 0,
            Self::decoding(v.frame() + rest) == Decoded::Done(v, v.frame().len()),
    ;

    proof fn lemma_truncated(v: Self, part: Seq<u8>)
        requires
            part.len() < v.frame().len(),
            part =~= v.frame().take(part.len() as int),
        ensures
            Self::decoding(part) == Decoded::<Self>::Incomplete,
    ;

    proof fn lemma_progress(bytes: Seq<u8>)
        ensures
            Self::decoding(bytes) matches Decoded::Done(_, n) ==> 0 < n <= bytes.len(),
    ;
}

/// Decoding the frame of any value gives back exactly that value, and consumes
/// the whole frame.
pub proof fn frame_round_trip<M: Message>(v: M)
    ensures
        M::decoding(v.frame()) == Decoded::Done(v, v.frame().len()),
{
    M::lemma_round_trip(v, Seq::empty());
    assert(v.frame() + Seq::<u8>::empty() =~= v.frame());
}

proof fn lemma_varint_progress(b: Seq<u8>, wide: bool)
    ensures
        varint_decoding(b, wide) matches Decoded::Done(_, n) ==> 0 < n <= b.len(),
{
}

/// Relies on bincode::encode_to_vec with the standard configuration: an `i32`
/// is written as the varint of its zigzag value, and writing into a `Vec`
/// cannot fail.
#[verifier::external_body]
fn encode_i32(v: i32) -> (r: Result<Vec<u8>, EncodeError>)
    ensures
        r is Ok,
        r->Ok_0@ == int_frame(v as int),
{
    bincode::encode_to_vec(v, bincode::config::standard())
}

/// Relies on bincode::encode_to_vec with the standard configuration: an `i64`
/// is written as the varint of its zigzag value, and writing into a `Vec`
/// cannot fail.
#[verifier::external_body]
fn encode_i64(v: i64) -> (r: Result<Vec<u8>, EncodeError>)
    ensures
        r is Ok,
        r->Ok_0@ == int_frame(v as int),
{
    bincode::encode_to_vec(v, bincode::config::standard())
}

/// Relies on bincode::decode_from_slice with the standard configuration for an
/// `i32`: a varint of marker 253 or above is refused, a short read is
/// `UnexpectedEnd`, and the count is the number of bytes read.
#[verifier::external_body]
fn decode_i32(bytes: &[u8]) -> (r: DecodeResult<i32>)
    ensures
        r.outcome() == i32_decoding(bytes@),
{
    match bincode::decode_from_slice::<i32, _>(bytes, bincode::config::standard()) {
        Ok((v, n)) => DecodeResult::Done(v, n),
        Err(DecodeError::UnexpectedEnd { .. }) => DecodeResult::Incomplete,
        Err(e) => DecodeResult::Malformed(e),
    }
}

/// Relies on bincode::decode_from_slice with the standard configuration for an
/// `i64`: a varint of marker 254 or above is refused, a short read is
/// `UnexpectedEnd`, and the count is the number of bytes read.
#[verifier::external_body]
fn decode_i64(bytes: &[u8]) -> (r: DecodeResult<i64>)
    ensures
        r.outcome() == i64_decoding(bytes@),
{
    match bincode::decode_from_slice::<i64, _>(bytes, bincode::config::standard()) {
        Ok((v, n)) => DecodeResult::Done(v, n),
        Err(DecodeError::UnexpectedEnd { .. }) => DecodeResult::Incomplete,
        Err(e) => DecodeResult::Malformed(e),
    }
}

impl Message for i32 {
    open spec fn frame(self) -> Seq<u8> {
        int_frame(self as int)
    }

    open spec fn decoding(bytes: Seq<u8>) -> Decoded<i32> {
        i32_decoding(bytes)
    }

    fn encode(&self) -> (r: Vec<u8>) {
        match encode_i32(*self) {
            Ok(b) => b,
            Err(_) => Vec::new(),
        }
    }

    fn decode(bytes: &[u8]) -> (r: DecodeResult<i32>) {
        decode_i32(bytes)
    }

    proof fn lemma_round_trip(v: i32, rest: Seq<u8>) {
        lemma_varint_round_trip(zigzag(v as int), rest, false);
        lemma_zigzag_inverse(v as int);
    }

    proof fn lemma_truncated(v: i32, part: Seq<u8>) {
        lemma_varint_truncated(zigzag(v as int), part, false);
    }

    proof fn lemma_progress(bytes: Seq<u8>) {
        lemma_varint_progress(bytes, false);
    }
}

impl Message for i64 {
    open spec fn frame(self) -> Seq<u8> {
        int_frame(self as int)
    }

    open spec fn decoding(bytes: Seq<u8>) -> Decoded<i64> {
        i64_decoding(bytes)
    }

    fn encode(&self) -> (r: Vec<u8>) {
        match encode_i64(*self) {
            Ok(b) => b,
            Err(_) => Vec::new(),
        }
    }

    fn decode(bytes: &[u8]) -> (r: DecodeResult<i64>) {
        decode_i64(bytes)
    }

    proof fn lemma_round_trip(v: i64, rest: Seq<u8>) {
        lemma_varint_round_trip(zigzag(v as int), rest, true);
        lemma_zigzag_inverse(v as int);
    }

    proof fn lemma_truncated(v: i64, part: Seq<u8>) {
        lemma_varint_truncated(zigzag(v as int), part, true);
    }

    proof fn lemma_progress(bytes: Seq<u8>) {
        lemma_varint_progress(bytes, true);
    }
}

} // verus!
