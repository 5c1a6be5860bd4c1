//! Little-endian integer encoding, through the `byteorder` crate.
use vstd::prelude::*;

use byteorder::{ByteOrder, LittleEndian};

verus! {

/// The unsigned value of two little-endian bytes.
pub open spec fn le_u16(b0: u8, b1: u8) -> int {
    b0 as int + 256 * (b1 as int)
}

/// The unsigned value of four little-endian bytes.
pub open spec fn le_u32(b0: u8, b1: u8, b2: u8, b3: u8) -> int {
    b0 as int + 256 * (b1 as int) + 65536 * (b2 as int) + 16777216 * (b3 as int)
}

/// Two's-complement reinterpretation of a 16-bit unsigned value.
pub open spec fn signed16(u: int) -> int {
    if u >= 32768 {
        u - 65536
    } else {
        u
    }
}

/// Two's-complement reinterpretation of a 32-bit unsigned value.
pub open spec fn signed32(u: int) -> int {
    if u >= 0x8000_0000 {
        u - 0x1_0000_0000
    } else {
        u
    }
}

/// The little-endian `u32` at the start of `s`.
pub open spec fn seq_le_u32(s: Seq<u8>, at: int) -> int {
    le_u32(s[at], s[at + 1], s[at + 2], s[at + 3])
}

/// The little-endian `i32` at the start of `s`.
pub open spec fn seq_le_i32(s: Seq<u8>, at: int) -> int {
    signed32(seq_le_u32(s, at))
}

/// The little-endian `i16` at the start of `s`.
pub open spec fn seq_le_i16(s: Seq<u8>, at: int) -> int {
    signed16(le_u16(s[at], s[at + 1]))
}

/// The four little-endian bytes of a 32-bit unsigned value.
pub open spec fn u32_le_bytes(n: int) -> Seq<u8> {
    seq![
        (n % 256) as u8,
        ((n / 256) % 256) as u8,
        ((n / 65536) % 256) as u8,
        ((n / 16777216) % 256) as u8,
    ]
}

/// The two little-endian bytes of a 16-bit unsigned value.
pub open spec fn u16_le_bytes(n: int) -> Seq<u8> {
    seq![(n % 256) as u8, ((n / 256) % 256) as u8]
}

/// `LittleEndian::read_u32` from `byteorder`: the first four bytes of `buf`
/// read as a little-endian unsigned integer.
#[verifier::external_body]
pub(crate) fn read_u32_le(buf: &[u8]) -> (r: u32)
    requires
        buf@.len() >= 4,
    ensures
        r == seq_le_u32(buf@, 0),
{
    LittleEndian::read_u32(buf)
}

/// `LittleEndian::read_i32` from `byteorder`: the first four bytes of `buf`
/// read as a little-endian two's-complement integer.
#[verifier::external_body]
pub(crate) fn read_i32_le(buf: &[u8]) -> (r: i32)
    requires
        buf@.len() >= 4,
    ensures
        r == seq_le_i32(buf@, 0),
{
    LittleEndian::read_i32(buf)
}

/// `LittleEndian::read_i16` from `byteorder`: the first two bytes of `buf`
/// read as a little-endian two's-complement integer.
#[verifier::external_body]
pub(crate) fn read_i16_le(buf: &[u8]) -> (r: i16)
    requires
        buf@.len() >= 2,
    ensures
        r == seq_le_i16(buf@, 0),
{
    LittleEndian::read_i16(buf)
}

/// `LittleEndian::write_u32` from `byteorder`, into a fresh four-byte buffer:
/// the little-endian bytes of `n`.
#[verifier::external_body]
pub(crate) fn write_u32_le(n: u32) -> (r: [u8; 4])
    ensures
        r@ == u32_le_bytes(n as int),
{
    let mut out = [0u8; 4];
    LittleEndian::write_u32(&mut out, n);
    out
}

/// `LittleEndian::write_i32` from `byteorder`, into a fresh four-byte buffer:
/// the little-endian two's-complement bytes of `n`.
#[verifier::external_body]
pub(crate) fn write_i32_le(n: i32) -> (r: [u8; 4])
    ensures
        r@ == u32_le_bytes(if n < 0 { n + 0x1_0000_0000 } else { n as int }),
{
    let mut out = [0u8; 4];
    LittleEndian::write_i32(&mut out, n);
    out
}

/// `LittleEndian::write_i16` from `byteorder`, into a fresh two-byte buffer:
/// the little-endian two's-complement bytes of `n`.
#[verifier::external_body]
pub(crate) fn write_i16_le(n: i16) -> (r: [u8; 2])
    ensures
        r@ == u16_le_bytes(if n < 0 { n + 65536 } else { n as int }),
{
    let mut out = [0u8; 2];
    LittleEndian::write_i16(&mut out, n);
    out
}

/// Reading back the bytes of a 32-bit value gives the value.
pub proof fn lemma_u32_round_trip(n: int)
    requires
        0 <= n < 0x1_0000_0000,
    ensures
        seq_le_u32(u32_le_bytes(n), 0) == n,
{
}

/// Reading back the bytes of a signed 16-bit value gives the value.
pub proof fn lemma_i16_round_trip(n: int)
    requires
        -32768 <= n < 32768,
    ensures
        seq_le_i16(u16_le_bytes(if n < 0 { n + 65536 } else { n }), 0) == n,
{
}

/// The bytes of a 32-bit value are the bytes read back from.
pub proof fn lemma_u32_bytes_of_read(s: Seq<u8>, at: int)
    requires
        0 <= at,
        at + 4 <= s.len(),
    ensures
        u32_le_bytes(seq_le_u32(s, at)) == s.subrange(at, at + 4),
{
    let (b0, b1, b2, b3) = (s[at] as int, s[at + 1] as int, s[at + 2] as int, s[at + 3] as int);
    let n = b0 + 256 * b1 + 65536 * b2 + 16777216 * b3;
    assert(n % 256 == b0 && (n / 256) % 256 == b1 && (n / 65536) % 256 == b2 && (n / 16777216)
        % 256 == b3) by (nonlinear_arith)
        requires
            0 <= b0 < 256,
            0 <= b1 < 256,
            0 <= b2 < 256,
            0 <= b3 < 256,
            n == b0 + 256 * b1 + 65536 * b2 + 16777216 * b3,
    ;
    assert(u32_le_bytes(seq_le_u32(s, at)) =~= s.subrange(at, at + 4));
}

/// The bytes of a signed 16-bit value are the bytes read back from.
pub proof fn lemma_i16_bytes_of_read(s: Seq<u8>, at: int)
    requires
        0 <= at,
        at + 2 <= s.len(),
    ensures
        ({
            let n = seq_le_i16(s, at);
            u16_le_bytes(if n < 0 { n + 65536 } else { n }) == s.subrange(at, at + 2)
        }),
{
    let n = seq_le_i16(s, at);
    assert(u16_le_bytes(if n < 0 { n + 65536 } else { n }) =~= s.subrange(at, at + 2));
}

} // verus!
