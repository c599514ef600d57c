//! The wire codec: little-endian scalars, booleans as constructor ids,
//! length-prefixed buffers padded to four bytes, and vectors.
use vstd::prelude::*;
use byteorder::{ByteOrder, LittleEndian};

verus! {

/// Constructor id that stands for `true`.
pub const BOOL_TRUE_ID: u32 = 0x997275b5;

/// Constructor id that stands for `false`.
pub const BOOL_FALSE_ID: u32 = 0xbc799737;

/// Constructor id written in front of every vector.
pub const VECTOR_ID: u32 = 0x1cb5c415;

/// Largest buffer length that the three-byte length field can hold, plus one.
pub const BUFFER_LIMIT: usize = 0x100_0000;

/// Why an encode or decode failed.
#[derive(Debug, Clone, Copy, PartialEq, Eq, Structural)]
pub enum WireError {
    /// The input ended before the value did.
    UnexpectedEnd,
    /// A buffer or vector is too long for its length field.
    TooLong,
    /// A vector did not start with the vector constructor id.
    BadVectorId,
}

// ---------------------------------------------------------------------------
// Byte-level model

/// The four bytes of `n`, least significant first.
pub open spec fn le4(n: u32) -> Seq<u8> {
    seq![
        (n & 0xff) as u8,
        ((n >> 8u32) & 0xff) as u8,
        ((n >> 16u32) & 0xff) as u8,
        ((n >> 24u32) & 0xff) as u8,
    ]
}

/// The number whose little-endian bytes are the first four of `b`.
pub open spec fn u32_of_le(b: Seq<u8>) -> u32
    recommends
        b.len() >= 4,
{
    (b[0] as u32) | ((b[1] as u32) << 8u32) | ((b[2] as u32) << 16u32) | ((b[3] as u32) << 24u32)
}

/// The eight bytes of `n`, least significant first.
pub open spec fn le8(n: u64) -> Seq<u8> {
    le4((n & 0xffff_ffff) as u32) + le4((n >> 32u64) as u32)
}

/// The number whose little-endian bytes are the first eight of `b`.
pub open spec fn u64_of_le(b: Seq<u8>) -> u64
    recommends
        b.len() >= 8,
{
    (u32_of_le(b) as u64) | ((u32_of_le(b.subrange(4, 8)) as u64) << 32u64)
}

/// `k` zero bytes.
pub open spec fn zeros(k: nat) -> Seq<u8> {
    Seq::new(k, |i: int| 0u8)
}

/// Bytes of the length prefix of a buffer of `len` bytes.
pub open spec fn prefix_len(len: nat) -> nat {
    if len < 254 { 1 } else { 4 }
}

/// Zero bytes after a buffer of `len` bytes, so that prefix, payload and
/// padding fill a whole number of four-byte words.
pub open spec fn padding_len(len: nat) -> nat {
    pad_after(prefix_len(len) + len)
}

/// The length prefix of a buffer of `len` bytes: one byte below 254, else the
/// marker 254 and three little-endian length bytes.
pub open spec fn buffer_prefix(len: nat) -> Seq<u8> {
    if len < 254 {
        seq![len as u8]
    } else {
        seq![254u8, (len % 256) as u8, ((len / 256) % 256) as u8, ((len / 65536) % 256) as u8]
    }
}

/// A buffer on the wire: prefix, payload, padding.
pub open spec fn buffer_wire(p: Seq<u8>) -> Seq<u8> {
    buffer_prefix(p.len()) + p + zeros(padding_len(p.len()))
}

/// Zero bytes that follow `used` bytes of prefix and payload.
pub open spec fn pad_after(used: nat) -> nat {
    ((4 - used % 4) % 4) as nat
}

/// The length that the prefix at the front of `b` gives, and how many bytes
/// the prefix takes; `None` where `b` ends inside the prefix.
pub open spec fn parse_prefix(b: Seq<u8>) -> Option<(nat, nat)> {
    if b.len() < 1 {
        None
    } else if b[0] == 254u8 {
        if b.len() < 4 {
            None
        } else {
            Some((b[1] as nat + 256 * (b[2] as nat) + 65536 * (b[3] as nat), 4))
        }
    } else {
        Some((b[0] as nat, 1))
    }
}

/// The buffer at the front of `b`, and how many bytes it takes up with its
/// padding; `None` where `b` ends too early.
pub open spec fn parse_buffer(b: Seq<u8>) -> Option<(Seq<u8>, nat)> {
    match parse_prefix(b) {
        None => None,
        Some((len, head)) => {
            let total = head + len + pad_after(head + len);
            if b.len() < total {
                None
            } else {
                Some((b.subrange(head as int, (head + len) as int), total))
            }
        },
    }
}

/// The encoded length of a buffer is its length plus its prefix, rounded up
/// to a multiple of four; the prefix takes one byte below 254 and four from
/// there on.
pub proof fn lemma_buffer_length(p: Seq<u8>)
    ensures
        buffer_wire(p).len() % 4 == 0,
        p.len() + prefix_len(p.len()) <= buffer_wire(p).len() < p.len() + prefix_len(p.len()) + 4,
        prefix_len(p.len()) == (if p.len() < 254 { 1nat } else { 4nat }),
        buffer_prefix(p.len()).len() == prefix_len(p.len()),
{
}

/// Reading a buffer's wire form back gives the buffer, whatever follows.
pub proof fn lemma_buffer_round_trip(p: Seq<u8>, rest: Seq<u8>)
    requires
        p.len() < BUFFER_LIMIT,
    ensures
        parse_buffer(buffer_wire(p) + rest) == Some((p, buffer_wire(p).len())),
{
    let b = buffer_wire(p) + rest;
    let len = p.len();
    let head = prefix_len(len);
    if len >= 254 {
        let l = len as u32;
        assert((l % 256) + 256 * ((l / 256) % 256) + 65536 * ((l / 65536) % 256) == l) by (bit_vector)
            requires
                l < 0x100_0000,
        ;
        assert(b[0] == 254u8);
        assert(b[1] as nat == len % 256);
        assert(b[2] as nat == (len / 256) % 256);
        assert(b[3] as nat == (len / 65536) % 256);
    } else {
        assert(b[0] == len as u8);
    }
    assert(parse_prefix(b) == Some((len, head)));
    assert(b.subrange(head as int, (head + len) as int) =~= p);
}

// ---------------------------------------------------------------------------
// Calls into byteorder

/// Relies on byteorder's `LittleEndian::write_u32`: it stores the four bytes
/// of `n`, least significant first.
#[verifier::external_body]
pub(crate) fn push_u32_le(out: &mut Vec<u8>, n: u32)
    ensures
        final(out)@ == old(out)@ + le4(n),
{
    let mut b = [0u8; 4];
    LittleEndian::write_u32(&mut b, n);
    out.extend_from_slice(&b);
}

/// Relies on byteorder's `LittleEndian::read_u32`: it reads the first four
/// bytes of its slice, least significant first (it panics on fewer).
#[verifier::external_body]
pub(crate) fn read_u32_le(buf: &[u8], at: usize) -> (r: u32)
    requires
        at + 4 <= buf@.len(),
    ensures
        r == u32_of_le(buf@.subrange(at as int, buf@.len() as int)),
{
    LittleEndian::read_u32(&buf[at..])
}

/// Relies on byteorder's `LittleEndian::write_u64`: it stores the eight bytes
/// of `n`, least significant first.
#[verifier::external_body]
pub(crate) fn push_u64_le(out: &mut Vec<u8>, n: u64)
    ensures
        final(out)@ == old(out)@ + le8(n),
{
    let mut b = [0u8; 8];
    LittleEndian::write_u64(&mut b, n);
    out.extend_from_slice(&b);
}

/// Relies on byteorder's `LittleEndian::read_u64`: it reads the first eight
/// bytes of its slice, least significant first (it panics on fewer).
#[verifier::external_body]
pub(crate) fn read_u64_le(buf: &[u8], at: usize) -> (r: u64)
    requires
        at + 8 <= buf@.len(),
    ensures
        r == u64_of_le(buf@.subrange(at as int, buf@.len() as int)),
{
    LittleEndian::read_u64(&buf[at..])
}

// ---------------------------------------------------------------------------
// Lemmas on the byte model

/// Reading back the four bytes of `n` gives `n`.
pub proof fn lemma_le4_round_trip(n: u32, rest: Seq<u8>)
    ensures
        (le4(n) + rest).len() >= 4,
        u32_of_le(le4(n) + rest) == n,
{
    let b = le4(n) + rest;
    let b0 = (n & 0xff) as u8;
    let b1 = ((n >> 8u32) & 0xff) as u8;
    let b2 = ((n >> 16u32) & 0xff) as u8;
    let b3 = ((n >> 24u32) & 0xff) as u8;
    assert(b[0] == b0 && b[1] == b1 && b[2] == b2 && b[3] == b3);
    assert((b0 as u32) | ((b1 as u32) << 8u32) | ((b2 as u32) << 16u32) | ((b3 as u32) << 24u32)
        == n) by (bit_vector)
        requires
            b0 == (n & 0xff) as u8,
            b1 == ((n >> 8u32) & 0xff) as u8,
            b2 == ((n >> 16u32) & 0xff) as u8,
            b3 == ((n >> 24u32) & 0xff) as u8,
    ;
}

/// Reading back the eight bytes of `n` gives `n`.
pub proof fn lemma_le8_round_trip(n: u64, rest: Seq<u8>)
    ensures
        (le8(n) + rest).len() >= 8,
        u64_of_le(le8(n) + rest) == n,
{
    let lo = (n & 0xffff_ffff) as u32;
    let hi = (n >> 32u64) as u32;
    let b = le8(n) + rest;
    assert(le8(n) + rest == le4(lo) + (le4(hi) + rest));
    lemma_le4_round_trip(lo, le4(hi) + rest);
    assert(b.subrange(4, 8) =~= le4(hi) + seq![]);
    lemma_le4_round_trip(hi, seq![]);
    assert(((lo as u64) | ((hi as u64) << 32u64)) == n) by (bit_vector)
        requires
            lo == (n & 0xffff_ffff) as u32,
            hi == (n >> 32u64) as u32,
    ;
}

/// A signed 32-bit number survives its trip through `u32`.
pub proof fn lemma_i32_bits(x: i32)
    ensures
        (x as u32) as i32 == x,
{
    assert((x as u32) as i32 == x) by (bit_vector);
}

/// A signed 64-bit number survives its trip through `u64`.
pub proof fn lemma_i64_bits(x: i64)
    ensures
        (x as u64) as i64 == x,
{
    assert((x as u64) as i64 == x) by (bit_vector);
}

} // verus!
