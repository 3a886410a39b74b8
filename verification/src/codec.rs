//! Little-endian integers inside byte sequences.

use vstd::prelude::*;

verus! {

broadcast use vstd::slice::group_slice_axioms;

/// The 16-bit value stored little-endian at `at`.
pub open spec fn le_u16(s: Seq<u8>, at: int) -> int {
    s[at] + 256 * s[at + 1]
}

/// The 32-bit value stored little-endian at `at`.
pub open spec fn le_u32(s: Seq<u8>, at: int) -> int {
    s[at] + 256 * s[at + 1] + 65536 * s[at + 2] + 16777216 * s[at + 3]
}

/// The 64-bit value stored little-endian at `at`.
pub open spec fn le_u64(s: Seq<u8>, at: int) -> int {
    le_u32(s, at) + 4294967296 * le_u32(s, at + 4)
}

/// `s` with `v` stored little-endian at `at`.
pub closed spec fn put_u16(s: Seq<u8>, at: int, v: u16) -> Seq<u8> {
    s.update(at, (v % 256) as u8).update(at + 1, (v / 256) as u8)
}

/// `s` with `v` stored little-endian at `at`.
pub closed spec fn put_u32(s: Seq<u8>, at: int, v: u32) -> Seq<u8> {
    s.update(at, (v % 256) as u8).update(at + 1, ((v / 256) % 256) as u8).update(
        at + 2,
        ((v / 65536) % 256) as u8,
    ).update(at + 3, (v / 16777216) as u8)
}

/// `s` with `v` stored little-endian at `at`.
pub closed spec fn put_u64(s: Seq<u8>, at: int, v: u64) -> Seq<u8> {
    put_u32(put_u32(s, at, (v % 4294967296) as u32), at + 4, (v / 4294967296) as u32)
}

/// Reads the 16-bit value stored little-endian at `at`.
pub fn read_u16(bytes: &[u8], at: usize) -> (v: u16)
    requires
        at + 2 <= bytes.len(),
    ensures
        v == le_u16(bytes@, at as int),
{
    let lo: u16 = bytes[at] as u16;
    let hi: u16 = bytes[at + 1] as u16;
    lo + 256 * hi
}

/// Reads the 32-bit value stored little-endian at `at`.
pub fn read_u32(bytes: &[u8], at: usize) -> (v: u32)
    requires
        at + 4 <= bytes.len(),
    ensures
        v == le_u32(bytes@, at as int),
{
    let b0: u32 = bytes[at] as u32;
    let b1: u32 = bytes[at + 1] as u32;
    let b2: u32 = bytes[at + 2] as u32;
    let b3: u32 = bytes[at + 3] as u32;
    b0 + 256 * b1 + 65536 * b2 + 16777216 * b3
}

/// Reads the 64-bit value stored little-endian at `at`.
pub fn read_u64(bytes: &[u8], at: usize) -> (v: u64)
    requires
        at + 8 <= bytes.len(),
    ensures
        v == le_u64(bytes@, at as int),
{
    let lo: u64 = read_u32(bytes, at) as u64;
    let hi: u64 = read_u32(bytes, at + 4) as u64;
    lo + 4294967296 * hi
}

/// Stores `v` little-endian at `at`.
pub fn write_u16(bytes: &mut [u8], at: usize, v: u16)
    requires
        at + 2 <= old(bytes).len(),
    ensures
        final(bytes)@ == put_u16(old(bytes)@, at as int, v),
{
    bytes[at] = (v % 256) as u8;
    bytes[at + 1] = (v / 256) as u8;
}

/// Stores `v` little-endian at `at`.
pub fn write_u32(bytes: &mut [u8], at: usize, v: u32)
    requires
        at + 4 <= old(bytes).len(),
    ensures
        final(bytes)@ == put_u32(old(bytes)@, at as int, v),
{
    bytes[at] = (v % 256) as u8;
    bytes[at + 1] = ((v / 256) % 256) as u8;
    bytes[at + 2] = ((v / 65536) % 256) as u8;
    bytes[at + 3] = (v / 16777216) as u8;
}

/// Stores `v` little-endian at `at`.
pub fn write_u64(bytes: &mut [u8], at: usize, v: u64)
    requires
        at + 8 <= old(bytes).len(),
    ensures
        final(bytes)@ == put_u64(old(bytes)@, at as int, v),
{
    write_u32(bytes, at, (v % 4294967296) as u32);
    write_u32(bytes, at + 4, (v / 4294967296) as u32);
}

/// A stored value reads back; the bytes beside it and the length stay.
pub broadcast proof fn lemma_put_u16(s: Seq<u8>, at: int, v: u16)
    requires
        0 <= at,
        at + 2 <= s.len(),
    ensures
        (#[trigger] put_u16(s, at, v)).len() == s.len(),
        le_u16(put_u16(s, at, v), at) == v,
        forall|k: int|
            0 <= k < s.len() && !(at <= k < at + 2) ==> (#[trigger] put_u16(s, at, v)[k]) == s[k],
{
}

/// A stored value reads back; the bytes beside it and the length stay.
pub broadcast proof fn lemma_put_u32(s: Seq<u8>, at: int, v: u32)
    requires
        0 <= at,
        at + 4 <= s.len(),
    ensures
        (#[trigger] put_u32(s, at, v)).len() == s.len(),
        le_u32(put_u32(s, at, v), at) == v,
        forall|k: int|
            0 <= k < s.len() && !(at <= k < at + 4) ==> (#[trigger] put_u32(s, at, v)[k]) == s[k],
{
}

/// A stored value reads back; the bytes beside it and the length stay.
pub broadcast proof fn lemma_put_u64(s: Seq<u8>, at: int, v: u64)
    requires
        0 <= at,
        at + 8 <= s.len(),
    ensures
        (#[trigger] put_u64(s, at, v)).len() == s.len(),
        le_u64(put_u64(s, at, v), at) == v,
        forall|k: int|
            0 <= k < s.len() && !(at <= k < at + 8) ==> (#[trigger] put_u64(s, at, v)[k]) == s[k],
{
    lemma_put_u32(s, at, (v % 4294967296) as u32);
    lemma_put_u32(put_u32(s, at, (v % 4294967296) as u32), at + 4, (v / 4294967296) as u32);
}

/// Storing the value that is stored already changes nothing.
pub proof fn lemma_put_same_u16(s: Seq<u8>, at: int)
    requires
        0 <= at,
        at + 2 <= s.len(),
    ensures
        put_u16(s, at, le_u16(s, at) as u16) =~= s,
{
}

/// The bytes that a stored value takes do not depend on what it is stored
/// into.
pub proof fn lemma_put_u16_agree(s: Seq<u8>, t: Seq<u8>, at: int, v: u16)
    requires
        0 <= at,
        at + 2 <= s.len(),
        at + 2 <= t.len(),
    ensures
        put_u16(s, at, v)[at] == put_u16(t, at, v)[at],
        put_u16(s, at, v)[at + 1] == put_u16(t, at, v)[at + 1],
{
}

/// Storing zero stores zero bytes.
pub broadcast proof fn lemma_put_zero(s: Seq<u8>, at: int, k: int)
    requires
        0 <= at <= k < at + 4,
        at + 4 <= s.len(),
    ensures
        (#[trigger] put_u32(s, at, 0u32)[k]) == 0,
{
}

pub broadcast group group_codec {
    lemma_put_u16,
    lemma_put_u32,
    lemma_put_u64,
    lemma_put_zero,
}

} // verus!
