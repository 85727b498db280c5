//! Length-prefixed framing of byte payloads.
//!
//! A frame is a four byte big-endian length followed by exactly that many
//! payload bytes, so that a byte stream can be cut back into the payloads
//! that were written to it.

use vstd::prelude::*;
use crate::errors::Error;

verus! {

/// Width of the length header in bytes.
pub const HEADER_LEN: usize = 4;

/// Largest payload length that the header can declare.
pub const MAX_PAYLOAD_LEN: usize = 0xffff_ffff;

/// The four header bytes that declare `len`, most significant first.
pub open spec fn header_of(len: nat) -> Seq<u8>
    recommends
        len <= MAX_PAYLOAD_LEN,
{
    seq![
        (len / 0x100_0000) as u8,
        (len / 0x1_0000 % 0x100) as u8,
        (len / 0x100 % 0x100) as u8,
        (len % 0x100) as u8,
    ]
}

/// The length that the first four bytes of `stream` declare.
pub open spec fn declared_len(stream: Seq<u8>) -> nat
    recommends
        stream.len() >= HEADER_LEN,
{
    (stream[0] as nat) * 0x100_0000 + (stream[1] as nat) * 0x1_0000 + (stream[2] as nat) * 0x100
        + (stream[3] as nat)
}

/// The wire form of `payload`: its header, then its bytes.
pub open spec fn framed(payload: Seq<u8>) -> Seq<u8> {
    header_of(payload.len()) + payload
}

/// What the front of a byte stream holds.
pub enum Decoded {
    /// A whole frame: its payload, and how many bytes of the stream it took.
    Frame { payload: Seq<u8>, consumed: nat },
    /// Not enough bytes yet for the header or for the declared payload.
    Incomplete,
    /// The header declares more than the maximum.
    Oversized,
}

/// What a decoder that accepts payloads of up to `max_len` bytes finds at
/// the front of `stream`.
pub open spec fn decode_front(stream: Seq<u8>, max_len: nat) -> Decoded {
    if stream.len() < HEADER_LEN {
        Decoded::Incomplete
    } else if declared_len(stream) > max_len {
        Decoded::Oversized
    } else if stream.len() < HEADER_LEN + declared_len(stream) {
        Decoded::Incomplete
    } else {
        Decoded::Frame {
            payload: stream.subrange(HEADER_LEN as int, HEADER_LEN + declared_len(stream)),
            consumed: (HEADER_LEN + declared_len(stream)) as nat,
        }
    }
}

/// A header declares the length it was made from.
pub proof fn lemma_header_declares_len(len: nat)
    requires
        len <= MAX_PAYLOAD_LEN,
    ensures
        header_of(len).len() == HEADER_LEN,
        declared_len(header_of(len)) == len,
{
}

/// Framing then decoding gives the payload back, whatever follows it in
/// the stream, as long as the payload is no longer than the decoder's
/// maximum; a longer one is refused, never cut short.
pub proof fn lemma_frame_round_trip(payload: Seq<u8>, rest: Seq<u8>, max_len: nat)
    requires
        payload.len() <= MAX_PAYLOAD_LEN,
    ensures
        payload.len() <= max_len ==> decode_front(framed(payload) + rest, max_len)
            == (Decoded::Frame { payload, consumed: (HEADER_LEN + payload.len()) as nat }),
        payload.len() > max_len ==> decode_front(framed(payload) + rest, max_len)
            == Decoded::Oversized,
{
    let stream = framed(payload) + rest;
    lemma_header_declares_len(payload.len());
    assert(stream[0] == header_of(payload.len())[0]);
    assert(stream[1] == header_of(payload.len())[1]);
    assert(stream[2] == header_of(payload.len())[2]);
    assert(stream[3] == header_of(payload.len())[3]);
    assert(declared_len(stream) == payload.len());
    if payload.len() <= max_len {
        assert(stream.subrange(HEADER_LEN as int, HEADER_LEN + payload.len()) =~= payload);
    }
}

/// The frame codec of one connection: it accepts payloads of up to
/// `max_len` bytes when decoding.
pub struct Frame {
    max_len: usize,
}

impl Frame {
    /// The longest payload this codec decodes.
    pub closed spec fn limit(&self) -> nat {
        self.max_len as nat
    }

    /// A codec that decodes payloads of up to `max_len` bytes.
    pub fn new(max_len: usize) -> (frame: Self)
        ensures
            frame.limit() == max_len,
    {
        Frame { max_len }
    }

    /// The longest payload this codec decodes.
    pub fn max_len(&self) -> (n: usize)
        ensures
            n == self.limit(),
    {
        self.max_len
    }

    /// Frames `payload` for the wire. A payload whose length the header
    /// cannot declare is refused.
    pub fn frame_message(payload: &[u8]) -> (out: Result<Vec<u8>, Error>)
        ensures
            (match out {
                Ok(bytes) => payload@.len() <= MAX_PAYLOAD_LEN && bytes@ == framed(payload@),
                Err(e) => payload@.len() > MAX_PAYLOAD_LEN && e == Error::Framing,
            }),
    {
        let len: usize = payload.len();
        if len > MAX_PAYLOAD_LEN {
            return Err(Error::Framing);
        }
        let mut bytes: Vec<u8> = Vec::new();
        bytes.push((len / 0x100_0000) as u8);
        bytes.push((len / 0x1_0000 % 0x100) as u8);
        bytes.push((len / 0x100 % 0x100) as u8);
        bytes.push((len % 0x100) as u8);
        assert(bytes@ =~= header_of(len as nat));
        let mut i: usize = 0;
        while i < len
            invariant
                i <= len,
                len == payload@.len(),
                bytes@ == header_of(len as nat) + payload@.subrange(0, i as int),
            decreases len - i,
        {
            bytes.push(payload[i]);
            i += 1;
            assert(bytes@ =~= header_of(len as nat) + payload@.subrange(0, i as int));
        }
        assert(payload@.subrange(0, len as int) =~= payload@);
        Ok(bytes)
    }

    /// Looks for one frame at the front of `stream`. `Ok(None)` asks for
    /// more bytes; `Ok(Some(..))` carries the payload and the number of
    /// stream bytes it took; a declared length over the limit is an error.
    pub fn decode(&self, stream: &[u8]) -> (out: Result<Option<(Vec<u8>, usize)>, Error>)
        ensures
            (match decode_front(stream@, self.limit()) {
                Decoded::Frame { payload, consumed } => (out matches Ok(Some(found))
                    && found.0@ == payload && found.1 == consumed),
                Decoded::Incomplete => out == Ok::<Option<(Vec<u8>, usize)>, Error>(None),
                Decoded::Oversized => out == Err::<Option<(Vec<u8>, usize)>, Error>(
                    Error::Framing,
                ),
            }),
    {
        if stream.len() < HEADER_LEN {
            return Ok(None);
        }
        let declared: u64 = (stream[0] as u64) * 0x100_0000 + (stream[1] as u64) * 0x1_0000 + (
        stream[2] as u64) * 0x100 + (stream[3] as u64);
        if declared > self.max_len as u64 {
            return Err(Error::Framing);
        }
        let len: usize = declared as usize;
        let total: usize = stream.len();
        if total - HEADER_LEN < len {
            return Ok(None);
        }
        let mut payload: Vec<u8> = Vec::new();
        let mut i: usize = 0;
        while i < len
            invariant
                i <= len,
                total == stream@.len(),
                HEADER_LEN + len <= total,
                payload@ == stream@.subrange(HEADER_LEN as int, HEADER_LEN + i),
            decreases len - i,
        {
            payload.push(stream[HEADER_LEN + i]);
            i += 1;
            assert(payload@ =~= stream@.subrange(HEADER_LEN as int, HEADER_LEN + i));
        }
        Ok(Some((payload, HEADER_LEN + len)))
    }
}

} // verus!
