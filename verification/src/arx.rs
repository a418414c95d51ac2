//! The 16-bit ARX primitive `A` shared by both SPARX instantiations, the
//! little-endian packing of bytes into 32-bit branch words, and the per-branch
//! round iteration together with its inverse.
//!
//! A branch is a 32-bit word packing a pair of 16-bit halves `(L, R)` with `L`
//! in the low bits. `A` computes `L <- rotr(L, 7) + R; R <- rotl(R, 2) ^ L`,
//! all arithmetic modulo 2^16.

use vstd::prelude::*;

verus! {

// ---------------------------------------------------------------------------
// Halves of a branch word
// ---------------------------------------------------------------------------

/// Low 16-bit half of a branch word.
pub open spec fn lo16(x: u32) -> u16 {
    x as u16
}

/// High 16-bit half of a branch word.
pub open spec fn hi16(x: u32) -> u16 {
    (x >> 16u32) as u16
}

/// Packs two halves into a branch word, the `L` half in the low bits.
pub open spec fn word32(l: u16, r: u16) -> u32 {
    (l as u32) | ((r as u32) << 16u32)
}

/// 16-bit wrap-around sum.
pub open spec fn wadd16(a: u16, b: u16) -> u16 {
    (a + b) as u16
}

/// 16-bit wrap-around difference.
pub open spec fn wsub16(a: u16, b: u16) -> u16 {
    (a + 0x10000 - b) as u16
}

// ---------------------------------------------------------------------------
// Fixed rotations of 16-bit half-words
// ---------------------------------------------------------------------------

/// Rotates a half-word right by 7 bit positions.
pub open spec fn rotr7(x: u16) -> u16 {
    (x >> 7u16) | (x << 9u16)
}

/// Rotates a half-word left by 7 bit positions.
pub open spec fn rotl7(x: u16) -> u16 {
    (x << 7u16) | (x >> 9u16)
}

/// Rotates a half-word left by 2 bit positions.
pub open spec fn rotl2(x: u16) -> u16 {
    (x << 2u16) | (x >> 14u16)
}

/// Rotates a half-word right by 2 bit positions.
pub open spec fn rotr2(x: u16) -> u16 {
    (x >> 2u16) | (x << 14u16)
}

/// Rotates a half-word left by 8 bit positions (swaps its bytes).
pub open spec fn rotl8(x: u16) -> u16 {
    (x << 8u16) | (x >> 8u16)
}

// ---------------------------------------------------------------------------
// The ARX step and its inverse
// ---------------------------------------------------------------------------

/// The ARX step `A` on a branch word.
pub open spec fn a_spec(x: u32) -> u32 {
    let l = wadd16(rotr7(lo16(x)), hi16(x));
    let r = rotl2(hi16(x)) ^ l;
    word32(l, r)
}

/// The inverse ARX step `A^-1` on a branch word.
pub open spec fn a_inv_spec(x: u32) -> u32 {
    let r = rotr2(hi16(x) ^ lo16(x));
    let l = rotl7(wsub16(lo16(x), r));
    word32(l, r)
}

/// `A^-1` undoes `A` on every branch word.
pub proof fn lemma_a_round_trip(x: u32)
    ensures
        a_inv_spec(a_spec(x)) == x,
{
    assert(a_inv_spec(a_spec(x)) == x) by (bit_vector);
}

/// Applies the ARX step `A` in place.
pub fn spec_key(k: &mut u32)
    ensures
        *final(k) == a_spec(*old(k)),
{
    let left: u16 = *k as u16;
    let right: u16 = (*k >> 16u32) as u16;
    let left: u16 = ((left >> 7u16) | (left << 9u16)).wrapping_add(right);
    let right: u16 = ((right << 2u16) | (right >> 14u16)) ^ left;
    *k = (left as u32) | ((right as u32) << 16u32);
    proof {
        lemma_wrapping_add16(rotr7(lo16(*old(k))), hi16(*old(k)));
    }
}

/// Applies the inverse ARX step `A^-1` in place.
pub fn spec_key_inv(k: &mut u32)
    ensures
        *final(k) == a_inv_spec(*old(k)),
{
    let left: u16 = *k as u16;
    let right: u16 = (*k >> 16u32) as u16;
    let right: u16 = ((right ^ left) >> 2u16) | ((right ^ left) << 14u16);
    let left: u16 = {
        let d = left.wrapping_sub(right);
        (d << 7u16) | (d >> 9u16)
    };
    *k = (left as u32) | ((right as u32) << 16u32);
    proof {
        lemma_wrapping_sub16(lo16(*old(k)), rotr2(hi16(*old(k)) ^ lo16(*old(k))));
    }
}

/// The standard library's wrapping sum agrees with truncation of the exact sum.
pub proof fn lemma_wrapping_add16(a: u16, b: u16)
    ensures
        vstd::wrapping::u16_specs::wrapping_add(a, b) == wadd16(a, b),
{
    if a + b > 0xffff {
        assert((a + b - 0x10000) as u16 == (a + b) as u16) by (bit_vector)
            requires
                a + b > 0xffff,
        ;
    }
}

/// The standard library's wrapping difference agrees with `wsub16`.
pub proof fn lemma_wrapping_sub16(a: u16, b: u16)
    ensures
        vstd::wrapping::u16_specs::wrapping_sub(a, b) == wsub16(a, b),
{
    if a - b < 0 {
        assert((a - b + 0x10000) as u16 == (a + 0x10000 - b) as u16) by (bit_vector)
            requires
                a - b < 0,
        ;
    } else {
        assert((a - b) as u16 == (a + 0x10000 - b) as u16) by (bit_vector)
            requires
                a - b >= 0,
        ;
    }
}

/// The standard library's 64-bit wrapping sum agrees with truncation.
pub proof fn lemma_wrapping_add64(a: u64, b: u64)
    ensures
        vstd::wrapping::u64_specs::wrapping_add(a, b) == (a + b) as u64,
{
    if a + b > u64::MAX {
        assert((a + b - 0x1_0000_0000_0000_0000) as u64 == (a + b) as u64) by (bit_vector)
            requires
                a + b > 0xffff_ffff_ffff_ffff,
        ;
    }
}

// ---------------------------------------------------------------------------
// Little-endian packing of bytes into branch words
// ---------------------------------------------------------------------------

/// The 32-bit word stored little-endian as the bytes `b0 b1 b2 b3`.
pub open spec fn le32(b0: u8, b1: u8, b2: u8, b3: u8) -> u32 {
    (b0 as u32) | ((b1 as u32) << 8u32) | ((b2 as u32) << 16u32) | ((b3 as u32) << 24u32)
}

/// Least significant byte of a word.
pub open spec fn byte0(x: u32) -> u8 {
    x as u8
}

/// Second byte of a word, little-endian.
pub open spec fn byte1(x: u32) -> u8 {
    (x >> 8u32) as u8
}

/// Third byte of a word, little-endian.
pub open spec fn byte2(x: u32) -> u8 {
    (x >> 16u32) as u8
}

/// Most significant byte of a word.
pub open spec fn byte3(x: u32) -> u8 {
    (x >> 24u32) as u8
}

/// The little-endian bytes of a word.
pub open spec fn le32_bytes(x: u32) -> Seq<u8> {
    seq![byte0(x), byte1(x), byte2(x), byte3(x)]
}

/// Unpacking the bytes of a word gives the word back.
pub proof fn lemma_le32_of_bytes(x: u32)
    ensures
        le32(byte0(x), byte1(x), byte2(x), byte3(x)) == x,
{
    assert(((x as u8) as u32) | (((x >> 8u32) as u8 as u32) << 8u32) | (((x >> 16u32) as u8
        as u32) << 16u32) | (((x >> 24u32) as u8 as u32) << 24u32) == x) by (bit_vector);
}

/// Packing four bytes and reading one back gives that byte.
pub proof fn lemma_bytes_of_le32(b0: u8, b1: u8, b2: u8, b3: u8)
    ensures
        byte0(le32(b0, b1, b2, b3)) == b0,
        byte1(le32(b0, b1, b2, b3)) == b1,
        byte2(le32(b0, b1, b2, b3)) == b2,
        byte3(le32(b0, b1, b2, b3)) == b3,
{
    assert(byte0(le32(b0, b1, b2, b3)) == b0 && byte1(le32(b0, b1, b2, b3)) == b1 && byte2(
        le32(b0, b1, b2, b3),
    ) == b2 && byte3(le32(b0, b1, b2, b3)) == b3) by (bit_vector);
}

/// Packs four bytes into a word, little-endian.
pub fn pack32(b0: u8, b1: u8, b2: u8, b3: u8) -> (x: u32)
    ensures
        x == le32(b0, b1, b2, b3),
{
    (b0 as u32) | ((b1 as u32) << 8u32) | ((b2 as u32) << 16u32) | ((b3 as u32) << 24u32)
}

// ---------------------------------------------------------------------------
// Per-branch round iteration: XOR a subkey, then apply `A`, `n` times
// ---------------------------------------------------------------------------

/// `n` rounds applied to branch `x`, consuming `ks[j], ks[j+1], ...` in order.
pub open spec fn spec_rounds(x: u32, ks: Seq<u32>, j: int, n: nat) -> u32
    decreases n,
{
    if n == 0 {
        x
    } else {
        spec_rounds(a_spec(x ^ ks[j]), ks, j + 1, (n - 1) as nat)
    }
}

/// The inverse of `spec_rounds`: undoes the rounds with the same subkeys,
/// consuming them in the reverse order.
pub open spec fn spec_rounds_inv(y: u32, ks: Seq<u32>, j: int, n: nat) -> u32
    decreases n,
{
    if n == 0 {
        y
    } else {
        spec_rounds_inv(a_inv_spec(y) ^ ks[j + n - 1], ks, j, (n - 1) as nat)
    }
}

/// The rounds can also be peeled from the far end: the last round is the
/// outermost application.
pub proof fn lemma_rounds_peel_last(x: u32, ks: Seq<u32>, j: int, n: nat)
    requires
        n >= 1,
    ensures
        spec_rounds(x, ks, j, n) == a_spec(spec_rounds(x, ks, j, (n - 1) as nat) ^ ks[j + n - 1]),
    decreases n,
{
    let x1 = a_spec(x ^ ks[j]);
    if n == 1 {
        assert(spec_rounds(x, ks, j, 1) == spec_rounds(x1, ks, j + 1, 0));
        assert(spec_rounds(x, ks, j, 0) == x);
    } else {
        lemma_rounds_peel_last(x1, ks, j + 1, (n - 1) as nat);
        assert(spec_rounds(x, ks, j, n) == spec_rounds(x1, ks, j + 1, (n - 1) as nat));
        assert(spec_rounds(x, ks, j, (n - 1) as nat) == spec_rounds(
            x1,
            ks,
            j + 1,
            (n - 2) as nat,
        ));
    }
}

/// The inverse rounds undo the rounds.
pub proof fn lemma_rounds_round_trip(x: u32, ks: Seq<u32>, j: int, n: nat)
    ensures
        spec_rounds_inv(spec_rounds(x, ks, j, n), ks, j, n) == x,
    decreases n,
{
    if n > 0 {
        lemma_rounds_peel_last(x, ks, j, n);
        let prev = spec_rounds(x, ks, j, (n - 1) as nat);
        let k = ks[j + n - 1];
        lemma_a_round_trip(prev ^ k);
        assert(prev ^ k ^ k == prev) by (bit_vector);
        lemma_rounds_round_trip(x, ks, j, (n - 1) as nat);
        assert(spec_rounds_inv(spec_rounds(x, ks, j, n), ks, j, n) == spec_rounds_inv(
            a_inv_spec(spec_rounds(x, ks, j, n)) ^ k,
            ks,
            j,
            (n - 1) as nat,
        ));
    }
}

/// Runs `n` forward rounds on a branch, taking subkeys `ks[j..j+n]`.
pub fn arx_rounds(x0: u32, ks: &[u32], j: usize, n: usize) -> (r: u32)
    requires
        j + n <= ks@.len(),
        ks@.len() <= usize::MAX,
    ensures
        r == spec_rounds(x0, ks@, j as int, n as nat),
{
    let mut x = x0;
    let mut t: usize = 0;
    while t < n
        invariant
            t <= n,
            j + n <= ks@.len(),
            ks@.len() <= usize::MAX,
            spec_rounds(x0, ks@, j as int, n as nat) == spec_rounds(
                x,
                ks@,
                j + t,
                (n - t) as nat,
            ),
        decreases n - t,
    {
        let mut y = x ^ ks[j + t];
        spec_key(&mut y);
        x = y;
        t = t + 1;
    }
    x
}

/// Runs `n` inverse rounds on a branch, taking subkeys `ks[j..j+n]` in
/// reverse order.
pub fn arx_rounds_inv(y0: u32, ks: &[u32], j: usize, n: usize) -> (r: u32)
    requires
        j + n <= ks@.len(),
        ks@.len() <= usize::MAX,
    ensures
        r == spec_rounds_inv(y0, ks@, j as int, n as nat),
{
    let mut y = y0;
    let mut t: usize = 0;
    while t < n
        invariant
            t <= n,
            j + n <= ks@.len(),
            ks@.len() <= usize::MAX,
            spec_rounds_inv(y0, ks@, j as int, n as nat) == spec_rounds_inv(
                y,
                ks@,
                j as int,
                (n - t) as nat,
            ),
        decreases n - t,
    {
        let mut z = y;
        spec_key_inv(&mut z);
        y = z ^ ks[j + (n - 1 - t)];
        t = t + 1;
    }
    y
}

} // verus!
