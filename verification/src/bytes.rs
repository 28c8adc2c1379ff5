//! Little-endian integers inside byte slices.
use vstd::prelude::*;

verus! {

/// `s` with the bytes from `at` on replaced by `patch`.
pub open spec fn put(s: Seq<u8>, at: int, patch: Seq<u8>) -> Seq<u8> {
    Seq::new(
        s.len(),
        |i: int|
            if at <= i < at + patch.len() {
                patch[i - at]
            } else {
                s[i]
            },
    )
}

/// The little-endian value of the two bytes at `at`.
#[verifier::opaque]
pub open spec fn le16(s: Seq<u8>, at: int) -> u16 {
    (s[at] + 256 * s[at + 1]) as u16
}

/// The little-endian value of the four bytes at `at`.
#[verifier::opaque]
pub open spec fn le32(s: Seq<u8>, at: int) -> u32 {
    (s[at] + 256 * s[at + 1] + 65536 * s[at + 2] + 16777216 * s[at + 3]) as u32
}

/// The little-endian value of the eight bytes at `at`.
#[verifier::opaque]
pub open spec fn le64(s: Seq<u8>, at: int) -> u64 {
    (le32(s, at) + 4294967296 * le32(s, at + 4)) as u64
}

/// The two little-endian bytes of `v`.
#[verifier::opaque]
pub open spec fn le16_bytes(v: u16) -> Seq<u8> {
    seq![(v % 256) as u8, (v / 256) as u8]
}

/// The four little-endian bytes of `v`.
#[verifier::opaque]
pub open spec fn le32_bytes(v: u32) -> Seq<u8> {
    seq![(v % 256) as u8, (v / 256 % 256) as u8, (v / 65536 % 256) as u8, (v / 16777216) as u8]
}

/// The eight little-endian bytes of `v`.
#[verifier::opaque]
pub open spec fn le64_bytes(v: u64) -> Seq<u8> {
    le32_bytes((v % 4294967296) as u32) + le32_bytes((v / 4294967296) as u32)
}

/// Lengths of encoded integers.
pub broadcast proof fn lemma_le16_len(v: u16)
    ensures
        (#[trigger] le16_bytes(v)).len() == 2,
{
    reveal(le16_bytes);
}

pub broadcast proof fn lemma_le32_len(v: u32)
    ensures
        (#[trigger] le32_bytes(v)).len() == 4,
{
    reveal(le32_bytes);
}

pub broadcast proof fn lemma_le64_len(v: u64)
    ensures
        (#[trigger] le64_bytes(v)).len() == 8,
{
    reveal(le32_bytes);
    reveal(le64_bytes);
}

pub broadcast group group_le_len {
    lemma_le16_len,
    lemma_le32_len,
    lemma_le64_len,
}

/// An integer depends on its own bytes.
pub proof fn lemma_le16_frame(s: Seq<u8>, t: Seq<u8>, at: int)
    requires
        forall|i: int| at <= i < at + 2 ==> s[i] == t[i],
    ensures
        le16(s, at) == le16(t, at),
{
    reveal(le16);
}

pub proof fn lemma_le32_frame(s: Seq<u8>, t: Seq<u8>, at: int)
    requires
        forall|i: int| at <= i < at + 4 ==> s[i] == t[i],
    ensures
        le32(s, at) == le32(t, at),
{
    reveal(le32);
}

pub proof fn lemma_le64_frame(s: Seq<u8>, t: Seq<u8>, at: int)
    requires
        forall|i: int| at <= i < at + 8 ==> s[i] == t[i],
    ensures
        le64(s, at) == le64(t, at),
{
    reveal(le32);
    reveal(le64);
}

/// Reading back the two bytes of a value gives the value.
pub proof fn law_le16_round_trip(s: Seq<u8>, at: int, v: u16)
    requires
        0 <= at,
        at + 2 <= s.len(),
        s.subrange(at, at + 2) == le16_bytes(v),
    ensures
        le16(s, at) == v,
{
    reveal(le16);
    reveal(le16_bytes);
    let b = s.subrange(at, at + 2);
    assert(s[at] == b[0] && s[at + 1] == b[1]);
}

/// Reading back the four bytes of a value gives the value.
#[verifier::spinoff_prover]
pub proof fn law_le32_round_trip(s: Seq<u8>, at: int, v: u32)
    requires
        0 <= at,
        at + 4 <= s.len(),
        s.subrange(at, at + 4) == le32_bytes(v),
    ensures
        le32(s, at) == v,
{
    reveal(le32);
    reveal(le32_bytes);
    let b = s.subrange(at, at + 4);
    assert(v == v % 256 + 256 * (v / 256 % 256) + 65536 * (v / 65536 % 256) + 16777216 * (v
        / 16777216)) by (bit_vector);
    assert(s[at] == b[0] && s[at + 1] == b[1] && s[at + 2] == b[2] && s[at + 3] == b[3]);
}

/// Reading back the eight bytes of a value gives the value.
pub proof fn law_le64_round_trip(s: Seq<u8>, at: int, v: u64)
    requires
        0 <= at,
        at + 8 <= s.len(),
        s.subrange(at, at + 8) == le64_bytes(v),
    ensures
        le64(s, at) == v,
{
    reveal(le32);
    reveal(le32_bytes);
    reveal(le64);
    reveal(le64_bytes);
    let lo = (v % 4294967296) as u32;
    let hi = (v / 4294967296) as u32;
    let b = s.subrange(at, at + 8);
    assert(s.subrange(at, at + 4) =~= b.subrange(0, 4));
    assert(b.subrange(0, 4) =~= le32_bytes(lo));
    assert(s.subrange(at + 4, at + 8) =~= b.subrange(4, 8));
    assert(b.subrange(4, 8) =~= le32_bytes(hi));
    law_le32_round_trip(s, at, lo);
    law_le32_round_trip(s, at + 4, hi);
}

/// The two bytes at `at` as a little-endian integer.
pub fn get_u16(b: &[u8], at: usize) -> (v: u16)
    requires
        at + 2 <= b@.len(),
    ensures
        v == le16(b@, at as int),
{
    proof {
        reveal(le16);
    }
    b[at] as u16 + 256 * b[at + 1] as u16
}

/// The four bytes at `at` as a little-endian integer.
pub fn get_u32(b: &[u8], at: usize) -> (v: u32)
    requires
        at + 4 <= b@.len(),
    ensures
        v == le32(b@, at as int),
{
    proof {
        reveal(le32);
    }
    b[at] as u32 + 256 * b[at + 1] as u32 + 65536 * b[at + 2] as u32 + 16777216 * b[at + 3] as u32
}

/// The eight bytes at `at` as a little-endian integer.
pub fn get_u64(b: &[u8], at: usize) -> (v: u64)
    requires
        at + 8 <= b@.len(),
    ensures
        v == le64(b@, at as int),
{
    proof {
        reveal(le64);
    }
    assert(at + 8 <= b.len());
    get_u32(b, at) as u64 + 4294967296 * get_u32(b, at + 4) as u64
}

/// Overwrites the two bytes at `at` with `v`.
pub fn put_u16(b: &mut [u8], at: usize, v: u16)
    requires
        at + 2 <= old(b)@.len(),
    ensures
        final(b)@ == put(old(b)@, at as int, le16_bytes(v)),
{
    proof {
        reveal(le16_bytes);
    }
    b[at] = (v % 256) as u8;
    b[at + 1] = (v / 256) as u8;
    assert(b@ =~= put(old(b)@, at as int, le16_bytes(v)));
}

/// Overwrites the four bytes at `at` with `v`.
pub fn put_u32(b: &mut [u8], at: usize, v: u32)
    requires
        at + 4 <= old(b)@.len(),
    ensures
        final(b)@ == put(old(b)@, at as int, le32_bytes(v)),
{
    proof {
        reveal(le32_bytes);
    }
    b[at] = (v % 256) as u8;
    b[at + 1] = (v / 256 % 256) as u8;
    b[at + 2] = (v / 65536 % 256) as u8;
    b[at + 3] = (v / 16777216) as u8;
    assert(b@ =~= put(old(b)@, at as int, le32_bytes(v)));
}

/// Overwrites the eight bytes at `at` with `v`.
pub fn put_u64(b: &mut [u8], at: usize, v: u64)
    requires
        at + 8 <= old(b)@.len(),
    ensures
        final(b)@ == put(old(b)@, at as int, le64_bytes(v)),
{
    proof {
        reveal(le32_bytes);
        reveal(le64_bytes);
    }
    assert(at + 8 <= b.len());
    put_u32(b, at, (v % 4294967296) as u32);
    put_u32(b, at + 4, (v / 4294967296) as u32);
    assert(b@ =~= put(old(b)@, at as int, le64_bytes(v)));
}

} // verus!
