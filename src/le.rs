//! Little-endian integers read from byte sequences.
use vstd::prelude::*;

verus! {

/// The unsigned value of the first two bytes of `b`, least significant first.
pub open spec fn le_u16(b: Seq<u8>) -> int {
    b[0] + 0x100 * b[1]
}

/// The unsigned value of the first four bytes of `b`, least significant first.
pub open spec fn le_u32(b: Seq<u8>) -> u32 {
    (b[0] + 0x100 * b[1] + 0x1_0000 * b[2] + 0x100_0000 * b[3]) as u32
}

/// The unsigned value of the first eight bytes of `b`, least significant first.
pub open spec fn le_u64(b: Seq<u8>) -> u64 {
    (le_u32(b) + 0x1_0000_0000 * le_u32(b.subrange(4, 8))) as u64
}

/// The two's complement value of the first two bytes of `b`.
pub open spec fn le_i16(b: Seq<u8>) -> i16 {
    let u = le_u16(b);
    (if u < 0x8000 { u } else { u - 0x1_0000 }) as i16
}

/// The two's complement value of the first four bytes of `b`.
pub open spec fn le_i32(b: Seq<u8>) -> i32 {
    let u = le_u32(b) as int;
    (if u < 0x8000_0000 { u } else { u - 0x1_0000_0000 }) as i32
}

/// The two's complement value of the first eight bytes of `b`.
pub open spec fn le_i64(b: Seq<u8>) -> i64 {
    let u = le_u64(b) as int;
    (if u < 0x8000_0000_0000_0000 { u } else { u - 0x1_0000_0000_0000_0000 }) as i64
}

/// Reads the unsigned 16-bit value that starts at `at`.
pub fn read_u16(buf: &[u8], at: usize) -> (r: u16)
    requires
        at + 2 <= buf.len(),
    ensures
        r == le_u16(buf@.subrange(at as int, at + 2)),
{
    (buf[at] as u16) + (buf[at + 1] as u16) * 0x100
}

/// Reads the unsigned 32-bit value that starts at `at`.
pub fn read_u32(buf: &[u8], at: usize) -> (r: u32)
    requires
        at + 4 <= buf.len(),
    ensures
        r == le_u32(buf@.subrange(at as int, at + 4)),
{
    (buf[at] as u32) + (buf[at + 1] as u32) * 0x100 + (buf[at + 2] as u32) * 0x1_0000 + (buf[at
        + 3] as u32) * 0x100_0000
}

/// Reads the unsigned 64-bit value that starts at `at`.
pub fn read_u64(buf: &[u8], at: usize) -> (r: u64)
    requires
        at + 8 <= buf.len(),
    ensures
        r == le_u64(buf@.subrange(at as int, at + 8)),
{
    let lo = read_u32(buf, at);
    let hi = read_u32(buf, at + 4);
    assert(buf@.subrange(at as int, at + 8).subrange(4, 8) =~= buf@.subrange(at + 4, at + 8));
    assert(buf@.subrange(at as int, at + 8).subrange(0, 4) =~= buf@.subrange(at as int, at + 4));
    (lo as u64) + (hi as u64) * 0x1_0000_0000
}

/// Reads the signed 16-bit value that starts at `at`.
pub fn read_i16(buf: &[u8], at: usize) -> (r: i16)
    requires
        at + 2 <= buf.len(),
    ensures
        r == le_i16(buf@.subrange(at as int, at + 2)),
{
    let u = read_u16(buf, at);
    if u < 0x8000 {
        u as i16
    } else {
        i16::MIN + ((u - 0x8000) as i16)
    }
}

/// Reads the signed 32-bit value that starts at `at`.
pub fn read_i32(buf: &[u8], at: usize) -> (r: i32)
    requires
        at + 4 <= buf.len(),
    ensures
        r == le_i32(buf@.subrange(at as int, at + 4)),
{
    let u = read_u32(buf, at);
    if u < 0x8000_0000 {
        u as i32
    } else {
        i32::MIN + ((u - 0x8000_0000) as i32)
    }
}

/// Reads the signed 64-bit value that starts at `at`.
pub fn read_i64(buf: &[u8], at: usize) -> (r: i64)
    requires
        at + 8 <= buf.len(),
    ensures
        r == le_i64(buf@.subrange(at as int, at + 8)),
{
    let u = read_u64(buf, at);
    if u < 0x8000_0000_0000_0000 {
        u as i64
    } else {
        i64::MIN + ((u - 0x8000_0000_0000_0000) as i64)
    }
}

/// The two bytes of `x`, least significant first.
pub open spec fn u16_bytes(x: int) -> Seq<u8> {
    seq![(x % 0x100) as u8, (x / 0x100 % 0x100) as u8]
}

/// The four bytes of `x`, least significant first.
pub open spec fn u32_bytes(x: int) -> Seq<u8> {
    seq![
        (x % 0x100) as u8,
        (x / 0x100 % 0x100) as u8,
        (x / 0x1_0000 % 0x100) as u8,
        (x / 0x100_0000 % 0x100) as u8,
    ]
}

/// The eight bytes of `x`, least significant first.
pub open spec fn u64_bytes(x: int) -> Seq<u8> {
    u32_bytes(x % 0x1_0000_0000) + u32_bytes(x / 0x1_0000_0000)
}

/// The two bytes of `x` in two's complement.
pub open spec fn i16_bytes(x: i16) -> Seq<u8> {
    u16_bytes(if x < 0 { x + 0x1_0000 } else { x as int })
}

/// The four bytes of `x` in two's complement.
pub open spec fn i32_bytes(x: i32) -> Seq<u8> {
    u32_bytes(if x < 0 { x + 0x1_0000_0000 } else { x as int })
}

/// The eight bytes of `x` in two's complement.
pub open spec fn i64_bytes(x: i64) -> Seq<u8> {
    u64_bytes(if x < 0 { x + 0x1_0000_0000_0000_0000 } else { x as int })
}

/// Reading back the bytes of an unsigned 16-bit value gives the value.
pub proof fn lemma_u16_round_trip(x: int)
    requires
        0 <= x < 0x1_0000,
    ensures
        le_u16(u16_bytes(x)) == x,
{
}

/// Reading back the bytes of an unsigned 32-bit value gives the value.
pub proof fn lemma_u32_round_trip(x: int)
    requires
        0 <= x < 0x1_0000_0000,
    ensures
        le_u32(u32_bytes(x)) == x,
{
}

/// Reading back the bytes of an unsigned 64-bit value gives the value.
pub proof fn lemma_u64_round_trip(x: int)
    requires
        0 <= x < 0x1_0000_0000_0000_0000,
    ensures
        le_u64(u64_bytes(x)) == x,
{
    let lo = x % 0x1_0000_0000;
    let hi = x / 0x1_0000_0000;
    lemma_u32_round_trip(lo);
    lemma_u32_round_trip(hi);
    assert(u64_bytes(x).subrange(4, 8) =~= u32_bytes(hi));
    assert(le_u32(u64_bytes(x)) == le_u32(u32_bytes(lo)));
}

/// Reading back the bytes of a signed 16-bit value gives the value.
pub proof fn lemma_i16_round_trip(x: i16)
    ensures
        le_i16(i16_bytes(x)) == x,
{
    lemma_u16_round_trip(if x < 0 { x + 0x1_0000 } else { x as int });
}

/// Reading back the bytes of a signed 32-bit value gives the value.
pub proof fn lemma_i32_round_trip(x: i32)
    ensures
        le_i32(i32_bytes(x)) == x,
{
    lemma_u32_round_trip(if x < 0 { x + 0x1_0000_0000 } else { x as int });
}

/// Reading back the bytes of a signed 64-bit value gives the value.
pub proof fn lemma_i64_round_trip(x: i64)
    ensures
        le_i64(i64_bytes(x)) == x,
{
    lemma_u64_round_trip(if x < 0 { x + 0x1_0000_0000_0000_0000 } else { x as int });
}

} // verus!
