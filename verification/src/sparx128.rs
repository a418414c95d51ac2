//! SPARX-128/128: 128-bit blocks under a 128-bit key.
//!
//! A block is four 32-bit branches. Each of the 8 steps applies 4 ARX rounds
//! per branch and then the linear mixing layer; a final whitening XORs the
//! last four subkeys into the branches. The key schedule expands the 16-byte
//! master key into 132 subkey words, all of which encryption consumes.

use crate::arx::a_spec;
use crate::arx::arx_rounds;
use crate::arx::arx_rounds_inv;
use crate::arx::byte0;
use crate::arx::byte1;
use crate::arx::byte2;
use crate::arx::byte3;
use crate::arx::hi16;
use crate::arx::le32;
use crate::arx::le32_bytes;
use crate::arx::lemma_bytes_of_le32;
use crate::arx::lemma_le32_of_bytes;
use crate::arx::lemma_rounds_round_trip;
use crate::arx::lemma_wrapping_add16;
use crate::arx::lo16;
use crate::arx::pack32;
use crate::arx::rotl8;
use crate::arx::spec_key;
use crate::arx::spec_rounds;
use crate::arx::spec_rounds_inv;
use crate::arx::wadd16;
use crate::arx::word32;
use vstd::prelude::*;

verus! {

/// Size of a cipher block in bytes.
pub const BLOCK_SIZE: usize = 16;

/// Size of a master key in bytes.
pub const KEY_SIZE: usize = 16;

/// Size of a counter-mode nonce in bytes.
pub const NONCE_SIZE: usize = (BLOCK_SIZE - 6) + 10;

const ROUNDS: usize = 32;

const ROUNDS_PER_STEP: usize = 4;

const STEPS: usize = ROUNDS / ROUNDS_PER_STEP;

/// Number of 32-bit subkey words produced by the key schedule.
pub const SCHEDULE_WORDS: usize = 132;

/// The expanded key: a fixed-size array of subkey words.
pub type KeySchedule = [u32; SCHEDULE_WORDS];

// ---------------------------------------------------------------------------
// Key schedule
// ---------------------------------------------------------------------------

/// One application of the key permutation with round counter `c` to the four
/// key branches: ARX on branches 0 and 2, half-word-wise sums of branch 0
/// into branch 1 and of branch 2 into branch 3 (the counter added to the high
/// half of branch 3), then a cyclic shift of the branch array.
pub open spec fn spec_key_perm(k: Seq<u32>, c: u16) -> Seq<u32>
    recommends
        k.len() == 4,
{
    let k0 = a_spec(k[0]);
    let k1 = word32(wadd16(lo16(k[1]), lo16(k0)), wadd16(hi16(k[1]), hi16(k0)));
    let k2 = a_spec(k[2]);
    let k3 = word32(wadd16(lo16(k[3]), lo16(k2)), wadd16(wadd16(hi16(k[3]), hi16(k2)), c));
    seq![k3, k0, k1, k2]
}

/// The key branches after `n` applications of the permutation, with round
/// counters `1, 2, ..., n`.
pub open spec fn spec_perm_iter(k: Seq<u32>, n: nat) -> Seq<u32>
    decreases n,
{
    if n == 0 {
        k
    } else {
        spec_key_perm(spec_perm_iter(k, (n - 1) as nat), n as u16)
    }
}

/// The first `4 * n` subkey words: each iteration emits all four branches of
/// the current key state.
pub open spec fn spec_sched_prefix(k: Seq<u32>, n: nat) -> Seq<u32>
    decreases n,
{
    if n == 0 {
        Seq::empty()
    } else {
        let st = spec_perm_iter(k, (n - 1) as nat);
        spec_sched_prefix(k, (n - 1) as nat) + seq![st[0], st[1], st[2], st[3]]
    }
}

/// The four key branches loaded little-endian from the master key bytes.
pub open spec fn spec_initial_branches(key: Seq<u8>) -> Seq<u32>
    recommends
        key.len() == KEY_SIZE,
{
    seq![
        le32(key[0], key[1], key[2], key[3]),
        le32(key[4], key[5], key[6], key[7]),
        le32(key[8], key[9], key[10], key[11]),
        le32(key[12], key[13], key[14], key[15]),
    ]
}

/// The full subkey schedule derived from the master key bytes.
pub open spec fn spec_key_schedule(key: Seq<u8>) -> Seq<u32>
    recommends
        key.len() == KEY_SIZE,
{
    spec_sched_prefix(spec_initial_branches(key), 33)
}

/// Applies the key permutation with round counter `c` in place.
fn key_perm(k: &mut [u32; 4], c: u16)
    ensures
        final(k)@ == spec_key_perm(old(k)@, c),
{
    let mut k0 = k[0];
    spec_key(&mut k0);
    let l1 = (k[1] as u16).wrapping_add(k0 as u16);
    let r1 = ((k[1] >> 16u32) as u16).wrapping_add((k0 >> 16u32) as u16);
    let k1 = (l1 as u32) | ((r1 as u32) << 16u32);
    let mut k2 = k[2];
    spec_key(&mut k2);
    let l3 = (k[3] as u16).wrapping_add(k2 as u16);
    let r3 = ((k[3] >> 16u32) as u16).wrapping_add((k2 >> 16u32) as u16).wrapping_add(c);
    let k3 = (l3 as u32) | ((r3 as u32) << 16u32);
    proof {
        lemma_wrapping_add16(lo16(old(k)@[1]), lo16(k0));
        lemma_wrapping_add16(hi16(old(k)@[1]), hi16(k0));
        lemma_wrapping_add16(lo16(old(k)@[3]), lo16(k2));
        lemma_wrapping_add16(hi16(old(k)@[3]), hi16(k2));
        lemma_wrapping_add16(wadd16(hi16(old(k)@[3]), hi16(k2)), c);
    }
    *k = [k3, k0, k1, k2];
    proof {
        assert(k@ =~= spec_key_perm(old(k)@, c));
    }
}

/// Computes the key schedule from the master key `key`.
pub fn key_schedule_encrypt(key: &[u8; KEY_SIZE]) -> (ks: KeySchedule)
    ensures
        ks@ == spec_key_schedule(key@),
{
    let mut ks: KeySchedule = [0u32; SCHEDULE_WORDS];
    let mut k: [u32; 4] = [
        pack32(key[0], key[1], key[2], key[3]),
        pack32(key[4], key[5], key[6], key[7]),
        pack32(key[8], key[9], key[10], key[11]),
        pack32(key[12], key[13], key[14], key[15]),
    ];
    let ghost k_init = k@;
    proof {
        assert(k_init =~= spec_initial_branches(key@));
    }
    let mut c: usize = 0;
    let mut j: usize = 0;
    while c < 33
        invariant
            c <= 33,
            j == 4 * c,
            k@ == spec_perm_iter(k_init, c as nat),
            ks@.len() == 132,
            ks@.take(j as int) == spec_sched_prefix(k_init, c as nat),
        decreases 33 - c,
    {
        let ghost ks_before = ks@;
        ks[j] = k[0];
        ks[j + 1] = k[1];
        ks[j + 2] = k[2];
        ks[j + 3] = k[3];
        proof {
            assert(ks@.take(j as int) =~= ks_before.take(j as int));
            assert(ks@.take(j as int + 4) =~= spec_sched_prefix(k_init, (c + 1) as nat));
        }
        key_perm(&mut k, (c as u16) + 1);
        j = j + 4;
        c = c + 1;
    }
    proof {
        assert(ks@ =~= ks@.take(132));
    }
    ks
}

/// Computes the key schedule from the master key `key`, for decryption.
/// Decryption consumes the same schedule in reverse, so this equals
/// `key_schedule_encrypt`.
pub fn key_schedule_decrypt(key: &[u8; KEY_SIZE]) -> (ks: KeySchedule)
    ensures
        ks@ == spec_key_schedule(key@),
{
    key_schedule_encrypt(key)
}

// ---------------------------------------------------------------------------
// Linear mixing layer
// ---------------------------------------------------------------------------

/// One mixed branch of the linear layer: the halves of `a` are XORed with the
/// given half-words of two other branches, and `t32` is XORed on top.
pub open spec fn spec_mix(a: u32, lb: u16, hb: u16, t32: u32) -> u32 {
    word32(lo16(a) ^ lb, hi16(a) ^ hb) ^ t32
}

/// The duplicated half-word of the linear layer, from branches 0 and 1.
pub open spec fn spec_lin_t(x0: u32, x1: u32) -> u32 {
    let t = rotl8(lo16(x0) ^ hi16(x0) ^ lo16(x1) ^ hi16(x1));
    word32(t, t)
}

/// The linear layer: branches 2 and 3 are mixed with half-words of branches
/// 0 and 1 and with the duplicated rotated XOR of those branches; the two
/// halves of the branch array are then swapped.
pub open spec fn spec_lin(x0: u32, x1: u32, x2: u32, x3: u32) -> (u32, u32, u32, u32) {
    let t32 = spec_lin_t(x0, x1);
    (
        spec_mix(x2, lo16(x1), hi16(x0), t32),
        spec_mix(x3, lo16(x0), hi16(x1), t32),
        x0,
        x1,
    )
}

/// The inverse linear layer: undoes the swap, then the same mixing (the
/// mixing is an involution).
pub open spec fn spec_lin_inv(y0: u32, y1: u32, y2: u32, y3: u32) -> (u32, u32, u32, u32) {
    let t32 = spec_lin_t(y2, y3);
    (
        y2,
        y3,
        spec_mix(y0, lo16(y3), hi16(y2), t32),
        spec_mix(y1, lo16(y2), hi16(y3), t32),
    )
}

/// The mixing of one branch is an involution for fixed parameters.
pub proof fn lemma_mix_involution(a: u32, lb: u16, hb: u16, t32: u32)
    ensures
        spec_mix(spec_mix(a, lb, hb, t32), lb, hb, t32) == a,
{
    assert(spec_mix(spec_mix(a, lb, hb, t32), lb, hb, t32) == a) by (bit_vector);
}

/// The inverse linear layer undoes the linear layer.
pub proof fn lemma_lin_round_trip(x0: u32, x1: u32, x2: u32, x3: u32)
    ensures
        spec_lin_inv(
            spec_lin(x0, x1, x2, x3).0,
            spec_lin(x0, x1, x2, x3).1,
            spec_lin(x0, x1, x2, x3).2,
            spec_lin(x0, x1, x2, x3).3,
        ) == (x0, x1, x2, x3),
{
    let t32 = spec_lin_t(x0, x1);
    lemma_mix_involution(x2, lo16(x1), hi16(x0), t32);
    lemma_mix_involution(x3, lo16(x0), hi16(x1), t32);
}

// ---------------------------------------------------------------------------
// Block encryption and decryption
// ---------------------------------------------------------------------------

/// One step: 4 ARX rounds on each branch, consuming `ks[j..j+16]`, then the
/// linear layer.
pub open spec fn spec_enc_step(x0: u32, x1: u32, x2: u32, x3: u32, ks: Seq<u32>, j: int) -> (
    u32,
    u32,
    u32,
    u32,
) {
    let y0 = spec_rounds(x0, ks, j, 4);
    let y1 = spec_rounds(x1, ks, j + 4, 4);
    let y2 = spec_rounds(x2, ks, j + 8, 4);
    let y3 = spec_rounds(x3, ks, j + 12, 4);
    spec_lin(y0, y1, y2, y3)
}

/// The inverse of one step.
pub open spec fn spec_dec_step(y0: u32, y1: u32, y2: u32, y3: u32, ks: Seq<u32>, j: int) -> (
    u32,
    u32,
    u32,
    u32,
) {
    let u = spec_lin_inv(y0, y1, y2, y3);
    (
        spec_rounds_inv(u.0, ks, j, 4),
        spec_rounds_inv(u.1, ks, j + 4, 4),
        spec_rounds_inv(u.2, ks, j + 8, 4),
        spec_rounds_inv(u.3, ks, j + 12, 4),
    )
}

/// The inverse step undoes the step.
pub proof fn lemma_step_round_trip(x0: u32, x1: u32, x2: u32, x3: u32, ks: Seq<u32>, j: int)
    ensures
        ({
            let e = spec_enc_step(x0, x1, x2, x3, ks, j);
            spec_dec_step(e.0, e.1, e.2, e.3, ks, j) == (x0, x1, x2, x3)
        }),
{
    let y0 = spec_rounds(x0, ks, j, 4);
    let y1 = spec_rounds(x1, ks, j + 4, 4);
    let y2 = spec_rounds(x2, ks, j + 8, 4);
    let y3 = spec_rounds(x3, ks, j + 12, 4);
    lemma_lin_round_trip(y0, y1, y2, y3);
    lemma_rounds_round_trip(x0, ks, j, 4);
    lemma_rounds_round_trip(x1, ks, j + 4, 4);
    lemma_rounds_round_trip(x2, ks, j + 8, 4);
    lemma_rounds_round_trip(x3, ks, j + 12, 4);
}

/// The first `n` steps applied to the four branches; step `s` consumes
/// `ks[16*s..16*s+16]`.
pub open spec fn spec_enc_steps(x0: u32, x1: u32, x2: u32, x3: u32, ks: Seq<u32>, n: nat) -> (
    u32,
    u32,
    u32,
    u32,
)
    decreases n,
{
    if n == 0 {
        (x0, x1, x2, x3)
    } else {
        let p = spec_enc_steps(x0, x1, x2, x3, ks, (n - 1) as nat);
        spec_enc_step(p.0, p.1, p.2, p.3, ks, 16 * (n - 1))
    }
}

/// The inverse of the first `n` steps, undoing the last step first.
pub open spec fn spec_dec_steps(y0: u32, y1: u32, y2: u32, y3: u32, ks: Seq<u32>, n: nat) -> (
    u32,
    u32,
    u32,
    u32,
)
    decreases n,
{
    if n == 0 {
        (y0, y1, y2, y3)
    } else {
        let p = spec_dec_step(y0, y1, y2, y3, ks, 16 * (n - 1));
        spec_dec_steps(p.0, p.1, p.2, p.3, ks, (n - 1) as nat)
    }
}

/// The inverse steps undo the steps.
pub proof fn lemma_steps_round_trip(x0: u32, x1: u32, x2: u32, x3: u32, ks: Seq<u32>, n: nat)
    ensures
        ({
            let e = spec_enc_steps(x0, x1, x2, x3, ks, n);
            spec_dec_steps(e.0, e.1, e.2, e.3, ks, n) == (x0, x1, x2, x3)
        }),
    decreases n,
{
    if n > 0 {
        let p = spec_enc_steps(x0, x1, x2, x3, ks, (n - 1) as nat);
        lemma_step_round_trip(p.0, p.1, p.2, p.3, ks, 16 * (n - 1));
        lemma_steps_round_trip(x0, x1, x2, x3, ks, (n - 1) as nat);
    }
}

/// Block encryption on branch words: 8 steps, then whitening with
/// `ks[128..132]`.
pub open spec fn spec_encrypt_words(x0: u32, x1: u32, x2: u32, x3: u32, ks: Seq<u32>) -> (
    u32,
    u32,
    u32,
    u32,
)
    recommends
        ks.len() == SCHEDULE_WORDS,
{
    let p = spec_enc_steps(x0, x1, x2, x3, ks, 8);
    (p.0 ^ ks[128], p.1 ^ ks[129], p.2 ^ ks[130], p.3 ^ ks[131])
}

/// Block decryption on branch words: undo the whitening, then the steps.
pub open spec fn spec_decrypt_words(y0: u32, y1: u32, y2: u32, y3: u32, ks: Seq<u32>) -> (
    u32,
    u32,
    u32,
    u32,
)
    recommends
        ks.len() == SCHEDULE_WORDS,
{
    spec_dec_steps(y0 ^ ks[128], y1 ^ ks[129], y2 ^ ks[130], y3 ^ ks[131], ks, 8)
}

/// Word-level decryption undoes word-level encryption.
pub proof fn lemma_words_round_trip(x0: u32, x1: u32, x2: u32, x3: u32, ks: Seq<u32>)
    ensures
        ({
            let e = spec_encrypt_words(x0, x1, x2, x3, ks);
            spec_decrypt_words(e.0, e.1, e.2, e.3, ks) == (x0, x1, x2, x3)
        }),
{
    let p0 = spec_enc_steps(x0, x1, x2, x3, ks, 8).0;
    let p1 = spec_enc_steps(x0, x1, x2, x3, ks, 8).1;
    let p2 = spec_enc_steps(x0, x1, x2, x3, ks, 8).2;
    let p3 = spec_enc_steps(x0, x1, x2, x3, ks, 8).3;
    let k0 = ks[128];
    let k1 = ks[129];
    let k2 = ks[130];
    let k3 = ks[131];
    assert((p0 ^ k0) ^ k0 == p0) by (bit_vector);
    assert((p1 ^ k1) ^ k1 == p1) by (bit_vector);
    assert((p2 ^ k2) ^ k2 == p2) by (bit_vector);
    assert((p3 ^ k3) ^ k3 == p3) by (bit_vector);
    lemma_steps_round_trip(x0, x1, x2, x3, ks, 8);
}

/// Block encryption on bytes: the block is read as four little-endian branch
/// words, transformed, and written back little-endian.
pub open spec fn spec_encrypt_block(b: Seq<u8>, ks: Seq<u32>) -> Seq<u8>
    recommends
        b.len() == BLOCK_SIZE,
        ks.len() == SCHEDULE_WORDS,
{
    let y = spec_encrypt_words(
        le32(b[0], b[1], b[2], b[3]),
        le32(b[4], b[5], b[6], b[7]),
        le32(b[8], b[9], b[10], b[11]),
        le32(b[12], b[13], b[14], b[15]),
        ks,
    );
    le32_bytes(y.0) + le32_bytes(y.1) + le32_bytes(y.2) + le32_bytes(y.3)
}

/// Block decryption on bytes.
pub open spec fn spec_decrypt_block(b: Seq<u8>, ks: Seq<u32>) -> Seq<u8>
    recommends
        b.len() == BLOCK_SIZE,
        ks.len() == SCHEDULE_WORDS,
{
    let y = spec_decrypt_words(
        le32(b[0], b[1], b[2], b[3]),
        le32(b[4], b[5], b[6], b[7]),
        le32(b[8], b[9], b[10], b[11]),
        le32(b[12], b[13], b[14], b[15]),
        ks,
    );
    le32_bytes(y.0) + le32_bytes(y.1) + le32_bytes(y.2) + le32_bytes(y.3)
}

/// Round trip: decrypting an encrypted block with the same schedule returns
/// the block, for every block and every schedule.
pub proof fn lemma_block_round_trip(b: Seq<u8>, ks: Seq<u32>)
    requires
        b.len() == BLOCK_SIZE,
    ensures
        spec_decrypt_block(spec_encrypt_block(b, ks), ks) == b,
{
    let x0 = le32(b[0], b[1], b[2], b[3]);
    let x1 = le32(b[4], b[5], b[6], b[7]);
    let x2 = le32(b[8], b[9], b[10], b[11]);
    let x3 = le32(b[12], b[13], b[14], b[15]);
    let y = spec_encrypt_words(x0, x1, x2, x3, ks);
    let e = spec_encrypt_block(b, ks);
    assert(e[0] == byte0(y.0) && e[1] == byte1(y.0) && e[2] == byte2(y.0) && e[3] == byte3(y.0));
    assert(e[4] == byte0(y.1) && e[5] == byte1(y.1) && e[6] == byte2(y.1) && e[7] == byte3(y.1));
    assert(e[8] == byte0(y.2) && e[9] == byte1(y.2) && e[10] == byte2(y.2) && e[11] == byte3(
        y.2,
    ));
    assert(e[12] == byte0(y.3) && e[13] == byte1(y.3) && e[14] == byte2(y.3) && e[15] == byte3(
        y.3,
    ));
    lemma_le32_of_bytes(y.0);
    lemma_le32_of_bytes(y.1);
    lemma_le32_of_bytes(y.2);
    lemma_le32_of_bytes(y.3);
    lemma_words_round_trip(x0, x1, x2, x3, ks);
    lemma_bytes_of_le32(b[0], b[1], b[2], b[3]);
    lemma_bytes_of_le32(b[4], b[5], b[6], b[7]);
    lemma_bytes_of_le32(b[8], b[9], b[10], b[11]);
    lemma_bytes_of_le32(b[12], b[13], b[14], b[15]);
    assert(spec_decrypt_block(e, ks) =~= b);
}

/// Encrypts a single block `block` in place using the key schedule `ks`.
pub fn encrypt_block(block: &mut [u8; BLOCK_SIZE], ks: &KeySchedule)
    ensures
        final(block)@ == spec_encrypt_block(old(block)@, ks@),
{
    let mut x0 = pack32(block[0], block[1], block[2], block[3]);
    let mut x1 = pack32(block[4], block[5], block[6], block[7]);
    let mut x2 = pack32(block[8], block[9], block[10], block[11]);
    let mut x3 = pack32(block[12], block[13], block[14], block[15]);
    let ghost xi0 = x0;
    let ghost xi1 = x1;
    let ghost xi2 = x2;
    let ghost xi3 = x3;
    let ksl: &[u32] = ks.as_slice();
    let mut s: usize = 0;
    while s < STEPS
        invariant
            s <= 8,
            ksl@ == ks@,
            ks@.len() == 132,
            (x0, x1, x2, x3) == spec_enc_steps(xi0, xi1, xi2, xi3, ks@, s as nat),
        decreases 8 - s,
    {
        let y0 = arx_rounds(x0, ksl, 16 * s, 4);
        let y1 = arx_rounds(x1, ksl, 16 * s + 4, 4);
        let y2 = arx_rounds(x2, ksl, 16 * s + 8, 4);
        let y3 = arx_rounds(x3, ksl, 16 * s + 12, 4);
        let t: u16 = (y0 as u16) ^ ((y0 >> 16u32) as u16) ^ (y1 as u16) ^ ((y1 >> 16u32) as u16);
        let t: u16 = (t << 8u16) | (t >> 8u16);
        let t32: u32 = (t as u32) | ((t as u32) << 16u32);
        x0 = ((((y2 as u16) ^ (y1 as u16)) as u32) | ((((y2 >> 16u32) as u16) ^ ((y0 >> 16u32)
            as u16)) as u32) << 16u32) ^ t32;
        x1 = ((((y3 as u16) ^ (y0 as u16)) as u32) | ((((y3 >> 16u32) as u16) ^ ((y1 >> 16u32)
            as u16)) as u32) << 16u32) ^ t32;
        x2 = y0;
        x3 = y1;
        s = s + 1;
    }
    let y0 = x0 ^ ksl[128];
    let y1 = x1 ^ ksl[129];
    let y2 = x2 ^ ksl[130];
    let y3 = x3 ^ ksl[131];
    *block = [
        y0 as u8,
        (y0 >> 8u32) as u8,
        (y0 >> 16u32) as u8,
        (y0 >> 24u32) as u8,
        y1 as u8,
        (y1 >> 8u32) as u8,
        (y1 >> 16u32) as u8,
        (y1 >> 24u32) as u8,
        y2 as u8,
        (y2 >> 8u32) as u8,
        (y2 >> 16u32) as u8,
        (y2 >> 24u32) as u8,
        y3 as u8,
        (y3 >> 8u32) as u8,
        (y3 >> 16u32) as u8,
        (y3 >> 24u32) as u8,
    ];
    proof {
        assert(block@ =~= spec_encrypt_block(old(block)@, ks@));
    }
}

/// Decrypts a single block `block` in place using the key schedule `ks`.
pub fn decrypt_block(block: &mut [u8; BLOCK_SIZE], ks: &KeySchedule)
    ensures
        final(block)@ == spec_decrypt_block(old(block)@, ks@),
{
    let mut y0 = pack32(block[0], block[1], block[2], block[3]);
    let mut y1 = pack32(block[4], block[5], block[6], block[7]);
    let mut y2 = pack32(block[8], block[9], block[10], block[11]);
    let mut y3 = pack32(block[12], block[13], block[14], block[15]);
    let ksl: &[u32] = ks.as_slice();
    y3 = y3 ^ ksl[131];
    y2 = y2 ^ ksl[130];
    y1 = y1 ^ ksl[129];
    y0 = y0 ^ ksl[128];
    let ghost z0 = y0;
    let ghost z1 = y1;
    let ghost z2 = y2;
    let ghost z3 = y3;
    let mut t: usize = 0;
    while t < STEPS
        invariant
            t <= 8,
            ksl@ == ks@,
            ks@.len() == 132,
            spec_dec_steps(z0, z1, z2, z3, ks@, 8) == spec_dec_steps(
                y0,
                y1,
                y2,
                y3,
                ks@,
                (8 - t) as nat,
            ),
        decreases 8 - t,
    {
        let j = 16 * (7 - t);
        let tt: u16 = (y2 as u16) ^ ((y2 >> 16u32) as u16) ^ (y3 as u16) ^ ((y3 >> 16u32) as u16);
        let tt: u16 = (tt << 8u16) | (tt >> 8u16);
        let t32: u32 = (tt as u32) | ((tt as u32) << 16u32);
        let u0 = y2;
        let u1 = y3;
        let u2 = ((((y0 as u16) ^ (y3 as u16)) as u32) | ((((y0 >> 16u32) as u16) ^ ((y2 >> 16u32)
            as u16)) as u32) << 16u32) ^ t32;
        let u3 = ((((y1 as u16) ^ (y2 as u16)) as u32) | ((((y1 >> 16u32) as u16) ^ ((y3 >> 16u32)
            as u16)) as u32) << 16u32) ^ t32;
        proof {
            let d = spec_dec_step(y0, y1, y2, y3, ks@, 16 * (7 - t));
            assert(spec_dec_steps(y0, y1, y2, y3, ks@, (8 - t) as nat) == spec_dec_steps(
                d.0,
                d.1,
                d.2,
                d.3,
                ks@,
                (7 - t) as nat,
            ));
        }
        y3 = arx_rounds_inv(u3, ksl, j + 12, 4);
        y2 = arx_rounds_inv(u2, ksl, j + 8, 4);
        y1 = arx_rounds_inv(u1, ksl, j + 4, 4);
        y0 = arx_rounds_inv(u0, ksl, j, 4);
        t = t + 1;
    }
    *block = [
        y0 as u8,
        (y0 >> 8u32) as u8,
        (y0 >> 16u32) as u8,
        (y0 >> 24u32) as u8,
        y1 as u8,
        (y1 >> 8u32) as u8,
        (y1 >> 16u32) as u8,
        (y1 >> 24u32) as u8,
        y2 as u8,
        (y2 >> 8u32) as u8,
        (y2 >> 16u32) as u8,
        (y2 >> 24u32) as u8,
        y3 as u8,
        (y3 >> 8u32) as u8,
        (y3 >> 16u32) as u8,
        (y3 >> 24u32) as u8,
    ];
    proof {
        assert(block@ =~= spec_decrypt_block(old(block)@, ks@));
    }
}

// ---------------------------------------------------------------------------
// Counter mode
// ---------------------------------------------------------------------------

/// The tweaked key for counter mode: the trailing 10 nonce bytes XORed into
/// the first 10 key bytes. The last 6 bytes of the tweaked key are zero:
/// only the first 10 key bytes enter the counter-mode schedule.
pub open spec fn spec_tweak_key(key: Seq<u8>, nonce: Seq<u8>) -> Seq<u8>
    recommends
        key.len() == KEY_SIZE,
        nonce.len() == NONCE_SIZE,
{
    Seq::new(
        16,
        |i: int|
            if i < 10 {
                key[i] ^ nonce[i + 10]
            } else {
                0u8
            },
    )
}

/// The input block for block number `blk`: the first 10 nonce bytes, then the
/// low 32 bits of `blk` little-endian, then bits 32..48 of `blk`
/// little-endian. Bits 48 and up of the counter stay zero.
pub open spec fn spec_ctr_block(nonce: Seq<u8>, blk: int) -> Seq<u8>
    recommends
        nonce.len() == NONCE_SIZE,
        0 <= blk < 0x1_0000_0000_0000_0000,
{
    let w = blk as u64;
    let lo = w as u32;
    let hi = (w >> 32u64) as u16;
    seq![
        nonce[0],
        nonce[1],
        nonce[2],
        nonce[3],
        nonce[4],
        nonce[5],
        nonce[6],
        nonce[7],
        nonce[8],
        nonce[9],
        lo as u8,
        (lo >> 8u32) as u8,
        (lo >> 16u32) as u8,
        (lo >> 24u32) as u8,
        hi as u8,
        (hi >> 8u16) as u8,
    ]
}

/// Byte `i` of the keystream for the given key and nonce: byte `i % 16` of
/// the encrypted counter block number `i / 16`, under the tweaked key's
/// schedule.
pub open spec fn spec_keystream_byte(key: Seq<u8>, nonce: Seq<u8>, i: int) -> u8
    recommends
        key.len() == KEY_SIZE,
        nonce.len() == NONCE_SIZE,
{
    spec_encrypt_block(
        spec_ctr_block(nonce, i / 16),
        spec_key_schedule(spec_tweak_key(key, nonce)),
    )[i % 16]
}

/// The first `n` bytes of the keystream.
pub open spec fn spec_keystream(key: Seq<u8>, nonce: Seq<u8>, n: nat) -> Seq<u8>
    recommends
        key.len() == KEY_SIZE,
        nonce.len() == NONCE_SIZE,
{
    Seq::new(n, |i: int| spec_keystream_byte(key, nonce, i))
}

/// Encrypts an arbitrary-length buffer `buf` in place in counter mode with
/// the nonce `nonce` and the master key `key`: every byte is XORed with the
/// corresponding keystream byte. An empty buffer is left untouched.
pub fn encrypt_ctr(buf: &mut [u8], nonce: &[u8; NONCE_SIZE], key: &[u8; KEY_SIZE])
    ensures
        final(buf)@.len() == old(buf)@.len(),
        forall|i: int|
            0 <= i < old(buf)@.len() ==> final(buf)@[i] == (old(buf)@[i] ^ spec_keystream_byte(
                key@,
                nonce@,
                i,
            )),
{
    if buf.len() == 0 {
        return ;
    }
    let mut key2: [u8; KEY_SIZE] = [0u8; KEY_SIZE];
    let mut i: usize = 0;
    while i < 10
        invariant
            i <= 10,
            key2@.len() == 16,
            forall|t: int| 0 <= t < i ==> key2@[t] == (key@[t] ^ nonce@[t + 10]),
            forall|t: int| i <= t < 16 ==> key2@[t] == 0u8,
        decreases 10 - i,
    {
        key2[i] = key[i] ^ nonce[10 + i];
        i = i + 1;
    }
    proof {
        assert(key2@ =~= spec_tweak_key(key@, nonce@));
    }
    let ks = key_schedule_encrypt(&key2);
    let full_blocks: usize = buf.len() / BLOCK_SIZE;
    let ghost len = old(buf)@.len() as int;
    let mut b: usize = 0;
    let mut n: usize = 0;
    while b < full_blocks
        invariant
            b <= full_blocks,
            n == 16 * b,
            full_blocks == len / 16,
            len <= usize::MAX,
            buf@.len() == len,
            ks@ == spec_key_schedule(spec_tweak_key(key@, nonce@)),
            nonce@.len() == 20,
            forall|t: int|
                0 <= t < n ==> buf@[t] == (old(buf)@[t] ^ spec_keystream_byte(key@, nonce@, t)),
            forall|t: int| n <= t < len ==> buf@[t] == old(buf)@[t],
        decreases full_blocks - b,
    {
        proof {
            assert(16 * b + 16 <= 16 * (len / 16) && 16 * (len / 16) <= len) by (nonlinear_arith)
                requires
                    b < full_blocks,
                    full_blocks == len / 16,
                    0 <= len,
            ;
        }
        let w = b as u64;
        let lo = w as u32;
        let hi = (w >> 32u64) as u16;
        let mut ib: [u8; BLOCK_SIZE] = [
            nonce[0],
            nonce[1],
            nonce[2],
            nonce[3],
            nonce[4],
            nonce[5],
            nonce[6],
            nonce[7],
            nonce[8],
            nonce[9],
            lo as u8,
            (lo >> 8u32) as u8,
            (lo >> 16u32) as u8,
            (lo >> 24u32) as u8,
            hi as u8,
            (hi >> 8u16) as u8,
        ];
        proof {
            assert(ib@ =~= spec_ctr_block(nonce@, b as int));
        }
        encrypt_block(&mut ib, &ks);
        let mut jj: usize = 0;
        while jj < BLOCK_SIZE
            invariant
                jj <= 16,
                n == 16 * b,
                n + 16 <= len,
                buf@.len() == len,
                ib@ == spec_encrypt_block(
                    spec_ctr_block(nonce@, b as int),
                    spec_key_schedule(spec_tweak_key(key@, nonce@)),
                ),
                forall|t: int|
                    0 <= t < n + jj ==> buf@[t] == (old(buf)@[t] ^ spec_keystream_byte(
                        key@,
                        nonce@,
                        t,
                    )),
                forall|t: int| n + jj <= t < len ==> buf@[t] == old(buf)@[t],
            decreases 16 - jj,
        {
            buf[n + jj] = buf[n + jj] ^ ib[jj];
            proof {
                assert((16 * b + jj) / 16 == b && (16 * b + jj) % 16 == jj) by (nonlinear_arith)
                    requires
                        0 <= b,
                        0 <= jj < 16,
                ;
            }
            jj = jj + 1;
        }
        n = n + BLOCK_SIZE;
        b = b + 1;
    }
    let remaining: usize = buf.len() % BLOCK_SIZE;
    proof {
        assert(16 * (len / 16) + len % 16 == len && 0 <= len % 16 < 16) by (nonlinear_arith)
            requires
                0 <= len,
        ;
    }
    if remaining > 0 {
        let w = full_blocks as u64;
        let lo = w as u32;
        let hi = (w >> 32u64) as u16;
        let mut ib: [u8; BLOCK_SIZE] = [
            nonce[0],
            nonce[1],
            nonce[2],
            nonce[3],
            nonce[4],
            nonce[5],
            nonce[6],
            nonce[7],
            nonce[8],
            nonce[9],
            lo as u8,
            (lo >> 8u32) as u8,
            (lo >> 16u32) as u8,
            (lo >> 24u32) as u8,
            hi as u8,
            (hi >> 8u16) as u8,
        ];
        proof {
            assert(ib@ =~= spec_ctr_block(nonce@, full_blocks as int));
        }
        encrypt_block(&mut ib, &ks);
        let mut jj: usize = 0;
        while jj < remaining
            invariant
                jj <= remaining,
                n == 16 * full_blocks,
                full_blocks == len / 16,
                remaining == len % 16,
                n + remaining == len,
                buf@.len() == len,
                ib@ == spec_encrypt_block(
                    spec_ctr_block(nonce@, full_blocks as int),
                    spec_key_schedule(spec_tweak_key(key@, nonce@)),
                ),
                forall|t: int|
                    0 <= t < n + jj ==> buf@[t] == (old(buf)@[t] ^ spec_keystream_byte(
                        key@,
                        nonce@,
                        t,
                    )),
                forall|t: int| n + jj <= t < len ==> buf@[t] == old(buf)@[t],
            decreases remaining - jj,
        {
            buf[n + jj] = buf[n + jj] ^ ib[jj];
            proof {
                assert((16 * full_blocks + jj) / 16 == full_blocks && (16 * full_blocks + jj) % 16
                    == jj) by (nonlinear_arith)
                    requires
                        0 <= full_blocks,
                        0 <= jj < 16,
                ;
            }
            jj = jj + 1;
        }
    }
}

/// Decrypts a counter-mode buffer in place. Counter mode XORs the keystream
/// both ways, so this is exactly `encrypt_ctr`.
pub fn decrypt_ctr(buf: &mut [u8], nonce: &[u8; NONCE_SIZE], key: &[u8; KEY_SIZE])
    ensures
        final(buf)@.len() == old(buf)@.len(),
        forall|i: int|
            0 <= i < old(buf)@.len() ==> final(buf)@[i] == (old(buf)@[i] ^ spec_keystream_byte(
                key@,
                nonce@,
                i,
            )),
{
    encrypt_ctr(buf, nonce, key)
}

// ---------------------------------------------------------------------------
// Laws of counter mode and of the key schedule
// ---------------------------------------------------------------------------

/// Counter mode is an involution: a buffer that went through it twice with
/// the same key and nonce is back to the original. The two hypotheses are the
/// contract of `encrypt_ctr` for each pass.
pub proof fn lemma_ctr_involution(
    orig: Seq<u8>,
    once: Seq<u8>,
    twice: Seq<u8>,
    key: Seq<u8>,
    nonce: Seq<u8>,
)
    requires
        once.len() == orig.len(),
        twice.len() == once.len(),
        forall|i: int|
            0 <= i < orig.len() ==> once[i] == (orig[i] ^ spec_keystream_byte(key, nonce, i)),
        forall|i: int|
            0 <= i < once.len() ==> twice[i] == (once[i] ^ spec_keystream_byte(key, nonce, i)),
    ensures
        twice == orig,
{
    assert forall|i: int| 0 <= i < orig.len() implies twice[i] == orig[i] by {
        let k = spec_keystream_byte(key, nonce, i);
        let o = orig[i];
        assert((o ^ k) ^ k == o) by (bit_vector);
    }
    assert(twice =~= orig);
}

/// Counter mode is the XOR of a buffer-independent keystream: the image of an
/// all-zero buffer is the keystream itself, and the image of any buffer is
/// that keystream XORed with the buffer, byte for byte. The hypotheses are
/// the contract of `encrypt_ctr` for a buffer and for an all-zero buffer of
/// the same length.
pub proof fn lemma_ctr_xor_linearity(
    buf: Seq<u8>,
    out: Seq<u8>,
    zout: Seq<u8>,
    key: Seq<u8>,
    nonce: Seq<u8>,
)
    requires
        out.len() == buf.len(),
        zout.len() == buf.len(),
        forall|i: int|
            0 <= i < buf.len() ==> out[i] == (buf[i] ^ spec_keystream_byte(key, nonce, i)),
        forall|i: int|
            0 <= i < buf.len() ==> zout[i] == (0u8 ^ spec_keystream_byte(key, nonce, i)),
    ensures
        zout == spec_keystream(key, nonce, buf.len()),
        forall|i: int| 0 <= i < buf.len() ==> out[i] == (buf[i] ^ zout[i]),
{
    assert forall|i: int| 0 <= i < buf.len() implies zout[i] == spec_keystream_byte(
        key,
        nonce,
        i,
    ) && out[i] == (buf[i] ^ zout[i]) by {
        let k = spec_keystream_byte(key, nonce, i);
        assert(0u8 ^ k == k) by (bit_vector);
    }
    assert(zout =~= spec_keystream(key, nonce, buf.len()));
}

/// The keystream depends on the key and nonce alone, not on the buffer
/// length: the keystream for `n` bytes is a prefix of the keystream for
/// `m >= n` bytes.
pub proof fn lemma_keystream_prefix(key: Seq<u8>, nonce: Seq<u8>, n: nat, m: nat)
    requires
        n <= m,
    ensures
        spec_keystream(key, nonce, n) == spec_keystream(key, nonce, m).take(n as int),
{
    assert(spec_keystream(key, nonce, n) =~= spec_keystream(key, nonce, m).take(n as int));
}

/// The key schedule is a pure function of the master key: equal keys give
/// equal schedules.
pub proof fn lemma_schedule_deterministic(k1: Seq<u8>, k2: Seq<u8>)
    requires
        k1 == k2,
    ensures
        spec_key_schedule(k1) == spec_key_schedule(k2),
{
}

} // verus!
