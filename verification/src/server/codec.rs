//! Frame codec for the wire protocol.
//!
//! Wire format: `[len:u32 BE][payload bytes]`. The payload is opaque at
//! this layer; the connection handler reads it as UTF-8 command text.

use bytes::{Buf, BufMut, BytesMut};
use vstd::prelude::*;

verus! {

/// Maximum allowed frame payload size, in bytes: bounds what one client can
/// make the server hold.
pub const MAX_FRAME_SIZE: usize = 16 * 1024 * 1024;

#[verifier::external_type_specification]
#[verifier::external_body]
pub struct ExBytesMut(BytesMut);

#[verifier::external_type_specification]
#[verifier::external_body]
pub struct ExIoError(std::io::Error);

/// The bytes a `BytesMut` holds, in order.
pub uninterp spec fn buffer_bytes(b: BytesMut) -> Seq<u8>;

/// `BytesMut::len`: the number of bytes held.
#[verifier::external_body]
fn buffer_len(b: &BytesMut) -> (n: usize)
    ensures
        n == buffer_bytes(*b).len(),
{
    b.len()
}

/// Indexing a `BytesMut` (through its `Deref` to `[u8]`): byte `i`.
#[verifier::external_body]
fn buffer_byte(b: &BytesMut, i: usize) -> (x: u8)
    requires
        i < buffer_bytes(*b).len(),
    ensures
        x == buffer_bytes(*b)[i as int],
{
    b[i]
}

/// `Buf::advance` on a `BytesMut`: drop the first `n` bytes. It panics
/// when `n` exceeds the length, which `requires` rules out.
#[verifier::external_body]
fn buffer_advance(b: &mut BytesMut, n: usize)
    requires
        n <= buffer_bytes(*old(b)).len(),
    ensures
        buffer_bytes(*final(b)) == buffer_bytes(*old(b)).skip(n as int),
{
    b.advance(n)
}

/// `BytesMut::split_to`: the first `at` bytes are handed back, the rest
/// stay. It panics when `at` exceeds the length, which `requires` rules out.
#[verifier::external_body]
fn buffer_split_to(b: &mut BytesMut, at: usize) -> (head: BytesMut)
    requires
        at <= buffer_bytes(*old(b)).len(),
    ensures
        buffer_bytes(head) == buffer_bytes(*old(b)).take(at as int),
        buffer_bytes(*final(b)) == buffer_bytes(*old(b)).skip(at as int),
{
    b.split_to(at)
}

/// `<[u8]>::to_vec` on a `BytesMut`: a copy of its bytes.
#[verifier::external_body]
fn buffer_to_vec(b: &BytesMut) -> (v: Vec<u8>)
    ensures
        v@ == buffer_bytes(*b),
{
    b.to_vec()
}

/// `BytesMut::reserve`: make room for `additional` more bytes; the bytes
/// held do not change. It panics when the new capacity overflows; the
/// `requires` keeps the total within `isize::MAX`, the largest allocation
/// std permits. How much capacity there is afterwards is not stated.
#[verifier::external_body]
fn buffer_reserve(b: &mut BytesMut, additional: usize)
    requires
        buffer_bytes(*old(b)).len() + additional <= isize::MAX,
    ensures
        buffer_bytes(*final(b)) == buffer_bytes(*old(b)),
{
    b.reserve(additional)
}

/// `BufMut::put_u32` on a `BytesMut`: append `n` in big-endian byte order.
#[verifier::external_body]
fn buffer_put_u32(b: &mut BytesMut, n: u32)
    requires
        buffer_bytes(*old(b)).len() + 4 <= isize::MAX,
    ensures
        buffer_bytes(*final(b)) == buffer_bytes(*old(b)) + be_bytes(n),
{
    b.put_u32(n)
}

/// `BytesMut::extend_from_slice`: append the bytes of `s`.
#[verifier::external_body]
fn buffer_extend_from_slice(b: &mut BytesMut, s: &[u8])
    requires
        buffer_bytes(*old(b)).len() + s@.len() <= isize::MAX,
    ensures
        buffer_bytes(*final(b)) == buffer_bytes(*old(b)) + s@,
{
    b.extend_from_slice(s)
}

/// The four big-endian bytes of `n`.
pub open spec fn be_bytes(n: u32) -> Seq<u8> {
    seq![(n / 0x100_0000) as u8, (n / 0x1_0000 % 0x100) as u8, (n / 0x100 % 0x100) as u8, (n % 0x100) as u8]
}

/// The number that four big-endian bytes stand for.
pub open spec fn be_value(b: Seq<u8>) -> nat
    recommends
        b.len() >= 4,
{
    (b[0] as nat) * 0x100_0000 + (b[1] as nat) * 0x1_0000 + (b[2] as nat) * 0x100 + (b[3] as nat)
}

/// One frame on the wire. The payload is opaque bytes.
#[derive(Debug, Clone, PartialEq, Eq)]
pub struct Frame {
    pub payload: Vec<u8>,
}

impl Frame {
    pub fn new(payload: Vec<u8>) -> (f: Self)
        ensures
            f.payload@ == payload@,
    {
        Self { payload }
    }
}

/// Errors produced by the frame codec: an oversize frame (the policy
/// check), or an I/O failure of the underlying stream.
#[derive(Debug)]
pub enum CodecError {
    FrameTooLarge { size: usize, max: usize },
    Io(std::io::Error),
}

/// The bytes that encode a frame with this payload.
pub open spec fn encode_frame(payload: Seq<u8>) -> Seq<u8> {
    be_bytes(payload.len() as u32) + payload
}

/// The payload length a buffer's prefix declares.
pub open spec fn declared_len(buf: Seq<u8>) -> nat {
    be_value(buf.take(4))
}

/// What decoding the front of a buffer yields: `Ok(None)` when more bytes
/// are needed, the payload of the first frame when it is complete, or the
/// declared size when it is over `MAX_FRAME_SIZE`.
pub open spec fn decode_frame(buf: Seq<u8>) -> Result<Option<Seq<u8>>, nat> {
    if buf.len() < 4 {
        Ok(None)
    } else if declared_len(buf) > MAX_FRAME_SIZE {
        Err(declared_len(buf))
    } else if buf.len() < 4 + declared_len(buf) {
        Ok(None)
    } else {
        Ok(Some(buf.subrange(4, 4 + declared_len(buf) as int)))
    }
}

/// What is left in the buffer after decoding: the bytes after a complete
/// frame, or everything when no frame was taken.
pub open spec fn decode_rest(buf: Seq<u8>) -> Seq<u8> {
    match decode_frame(buf) {
        Ok(Some(payload)) => buf.skip(4 + payload.len() as int),
        _ => buf,
    }
}

/// The four big-endian bytes of a number stand for that number.
pub proof fn lemma_be_value_of_be_bytes(n: u32)
    ensures
        be_value(be_bytes(n)) == n,
{
    assert(((n / 0x100_0000) as u8) as u32 == n / 0x100_0000) by (bit_vector);
    assert(((n / 0x1_0000 % 0x100) as u8) as u32 == n / 0x1_0000 % 0x100) by (bit_vector);
    assert(((n / 0x100 % 0x100) as u8) as u32 == n / 0x100 % 0x100) by (bit_vector);
    assert(((n % 0x100) as u8) as u32 == n % 0x100) by (bit_vector);
    assert((n / 0x100_0000) * 0x100_0000 + (n / 0x1_0000 % 0x100) * 0x1_0000 + (n / 0x100 % 0x100)
        * 0x100 + n % 0x100 == n) by (bit_vector);
}

/// Decoding inverts encoding: a buffer that starts with the encoding of a
/// frame no larger than `MAX_FRAME_SIZE` decodes to exactly that payload,
/// and whatever followed it stays in the buffer for the next decode.
pub proof fn lemma_frame_round_trip(payload: Seq<u8>, rest: Seq<u8>)
    requires
        payload.len() <= MAX_FRAME_SIZE,
    ensures
        decode_frame(encode_frame(payload) + rest) == Ok::<Option<Seq<u8>>, nat>(Some(payload)),
        decode_rest(encode_frame(payload) + rest) == rest,
{
    let buf = encode_frame(payload) + rest;
    let n = payload.len() as u32;
    lemma_be_value_of_be_bytes(n);
    assert(buf.take(4) =~= be_bytes(n));
    assert(declared_len(buf) == payload.len());
    assert(buf.subrange(4, 4 + payload.len() as int) =~= payload);
    assert(buf.skip(4 + payload.len() as int) =~= rest);
}

/// A buffer holding only part of an encoded frame asks for more bytes and
/// is left as it was.
pub proof fn lemma_partial_frame_waits(payload: Seq<u8>, k: int)
    requires
        payload.len() <= MAX_FRAME_SIZE,
        0 <= k < encode_frame(payload).len(),
    ensures
        decode_frame(encode_frame(payload).take(k)) == Ok::<Option<Seq<u8>>, nat>(None),
        decode_rest(encode_frame(payload).take(k)) == encode_frame(payload).take(k),
{
    let buf = encode_frame(payload).take(k);
    if k >= 4 {
        let n = payload.len() as u32;
        lemma_be_value_of_be_bytes(n);
        assert(buf.take(4) =~= be_bytes(n));
    }
}

/// Stateless frame codec.
pub struct FrameCodec;

impl FrameCodec {
    /// Take one complete frame off the front of `src`, if there is one.
    /// Returns `Ok(None)` when more bytes are needed and leaves `src` as it
    /// was; rejects a declared size over `MAX_FRAME_SIZE`.
    pub fn decode(&mut self, src: &mut BytesMut) -> (r: Result<Option<Frame>, CodecError>)
        ensures
            buffer_bytes(*final(src)) == decode_rest(buffer_bytes(*old(src))),
            match r {
                Ok(None) => decode_frame(buffer_bytes(*old(src))) == Ok::<Option<Seq<u8>>, nat>(
                    None,
                ),
                Ok(Some(frame)) => decode_frame(buffer_bytes(*old(src))) == Ok::<
                    Option<Seq<u8>>,
                    nat,
                >(Some(frame.payload@)),
                Err(CodecError::FrameTooLarge { size, max }) => decode_frame(
                    buffer_bytes(*old(src)),
                ) == Err::<Option<Seq<u8>>, nat>(size as nat) && max == MAX_FRAME_SIZE,
                Err(CodecError::Io(_)) => false,
            },
    {
        let ghost buf = buffer_bytes(*src);
        if buffer_len(src) < 4 {
            return Ok(None);
        }
        let b0 = buffer_byte(src, 0);
        let b1 = buffer_byte(src, 1);
        let b2 = buffer_byte(src, 2);
        let b3 = buffer_byte(src, 3);
        let len: u32 = (b0 as u32) * 0x100_0000 + (b1 as u32) * 0x1_0000 + (b2 as u32) * 0x100
            + (b3 as u32);
        assert(len == declared_len(buf));
        if len > MAX_FRAME_SIZE as u32 {
            return Err(CodecError::FrameTooLarge { size: len as usize, max: MAX_FRAME_SIZE });
        }
        if buffer_len(src) < 4 + len as usize {
            return Ok(None);
        }
        buffer_advance(src, 4);
        let head = buffer_split_to(src, len as usize);
        let payload = buffer_to_vec(&head);
        assert(payload@ =~= buf.subrange(4, 4 + len as int));
        assert(buffer_bytes(*src) =~= buf.skip(4 + len as int));
        Ok(Some(Frame { payload }))
    }

    /// Append the encoding of `item` to `dst`, or refuse a payload over
    /// `MAX_FRAME_SIZE` and leave `dst` as it was.
    pub fn encode(&mut self, item: Frame, dst: &mut BytesMut) -> (r: Result<(), CodecError>)
        requires
            item.payload@.len() <= MAX_FRAME_SIZE ==> buffer_bytes(*old(dst)).len() + 4
                + item.payload@.len() <= isize::MAX,
        ensures
            item.payload@.len() > MAX_FRAME_SIZE ==> buffer_bytes(*final(dst)) == buffer_bytes(
                *old(dst),
            ) && match r {
                Err(CodecError::FrameTooLarge { size, max }) => size == item.payload@.len()
                    && max == MAX_FRAME_SIZE,
                _ => false,
            },
            item.payload@.len() <= MAX_FRAME_SIZE ==> r is Ok && buffer_bytes(*final(dst))
                == buffer_bytes(*old(dst)) + encode_frame(item.payload@),
    {
        let payload = item.payload;
        if payload.len() > MAX_FRAME_SIZE {
            return Err(CodecError::FrameTooLarge { size: payload.len(), max: MAX_FRAME_SIZE });
        }
        buffer_reserve(dst, 4 + payload.len());
        buffer_put_u32(dst, payload.len() as u32);
        buffer_extend_from_slice(dst, payload.as_slice());
        assert(buffer_bytes(*dst) =~= buffer_bytes(*old(dst)) + encode_frame(payload@));
        Ok(())
    }
}

} // verus!
