//! SPARX-64/128: 64-bit blocks under a 128-bit key.
//!
//! A block is two 32-bit branches. Each of the 8 steps applies 3 ARX rounds
//! per branch and then the linear mixing layer; a final whitening XORs the
//! last two subkeys into the branches. The key schedule expands the 16-byte
//! master key into 51 subkey words of which encryption consumes the first 50.

use crate::arx::a_spec;
use crate::arx::arx_rounds;
use crate::arx::arx_rounds_inv;
use crate::arx::byte0;
use crate::arx::byte1;
use crate::arx::byte2;
use crate::arx::byte3;
use crate::arx::hi16;
use crate::arx::le32;
use crate::arx::le32_bytes;
use crate::arx::lemma_bytes_of_le32;
use crate::arx::lemma_le32_of_bytes;
use crate::arx::lemma_rounds_round_trip;
use crate::arx::lemma_wrapping_add16;
use crate::arx::lemma_wrapping_add64;
use crate::arx::lo16;
use crate::arx::pack32;
use crate::arx::rotl8;
use crate::arx::spec_key;
use crate::arx::spec_rounds;
use crate::arx::spec_rounds_inv;
use crate::arx::wadd16;
use crate::arx::word32;
use vstd::prelude::*;

verus! {

/// Size of a cipher block in bytes.
pub const BLOCK_SIZE: usize = 8;

/// Size of a master key in bytes.
pub const KEY_SIZE: usize = 16;

/// Size of a counter-mode nonce in bytes.
pub const NONCE_SIZE: usize = (BLOCK_SIZE - 4) + KEY_SIZE;

const ROUNDS: usize = 24;

const ROUNDS_PER_STEP: usize = 3;

const STEPS: usize = ROUNDS / ROUNDS_PER_STEP;

/// Number of 32-bit subkey words produced by the key schedule.
pub const SCHEDULE_WORDS: usize = 51;

/// The expanded key: a fixed-size array of subkey words.
pub type KeySchedule = [u32; SCHEDULE_WORDS];

// ---------------------------------------------------------------------------
// Key schedule
// ---------------------------------------------------------------------------

/// One application of the key permutation with round counter `c` to the four
/// key branches: ARX on branch 0, a half-word-wise sum of branch 0 into
/// branch 1, the counter added to the high half of branch 3, then a cyclic
/// shift of the branch array.
pub open spec fn spec_key_perm(k: Seq<u32>, c: u16) -> Seq<u32>
    recommends
        k.len() == 4,
{
    let k0 = a_spec(k[0]);
    let k1 = word32(wadd16(lo16(k[1]), lo16(k0)), wadd16(hi16(k[1]), hi16(k0)));
    let k3 = word32(lo16(k[3]), wadd16(hi16(k[3]), c));
    seq![k3, k0, k1, k[2]]
}

/// The key branches after `n` applications of the permutation, with round
/// counters `1, 2, ..., n`.
pub open spec fn spec_perm_iter(k: Seq<u32>, n: nat) -> Seq<u32>
    decreases n,
{
    if n == 0 {
        k
    } else {
        spec_key_perm(spec_perm_iter(k, (n - 1) as nat), n as u16)
    }
}

/// The first `3 * n` subkey words: each iteration emits branches 0 to 2 of
/// the current key state.
pub open spec fn spec_sched_prefix(k: Seq<u32>, n: nat) -> Seq<u32>
    decreases n,
{
    if n == 0 {
        Seq::empty()
    } else {
        let st = spec_perm_iter(k, (n - 1) as nat);
        spec_sched_prefix(k, (n - 1) as nat) + seq![st[0], st[1], st[2]]
    }
}

/// The four key branches loaded little-endian from the master key bytes.
pub open spec fn spec_initial_branches(key: Seq<u8>) -> Seq<u32>
    recommends
        key.len() == KEY_SIZE,
{
    seq![
        le32(key[0], key[1], key[2], key[3]),
        le32(key[4], key[5], key[6], key[7]),
        le32(key[8], key[9], key[10], key[11]),
        le32(key[12], key[13], key[14], key[15]),
    ]
}

/// The full subkey schedule derived from the master key bytes.
pub open spec fn spec_key_schedule(key: Seq<u8>) -> Seq<u32>
    recommends
        key.len() == KEY_SIZE,
{
    spec_sched_prefix(spec_initial_branches(key), 17)
}

/// Applies the key permutation with round counter `c` in place.
fn key_perm(k: &mut [u32; 4], c: u16)
    ensures
        final(k)@ == spec_key_perm(old(k)@, c),
{
    let mut k0 = k[0];
    spec_key(&mut k0);
    let l1 = (k[1] as u16).wrapping_add(k0 as u16);
    let r1 = ((k[1] >> 16u32) as u16).wrapping_add((k0 >> 16u32) as u16);
    let k1 = (l1 as u32) | ((r1 as u32) << 16u32);
    let l3 = k[3] as u16;
    let r3 = ((k[3] >> 16u32) as u16).wrapping_add(c);
    let k3 = (l3 as u32) | ((r3 as u32) << 16u32);
    let k2 = k[2];
    proof {
        lemma_wrapping_add16(lo16(old(k)@[1]), lo16(k0));
        lemma_wrapping_add16(hi16(old(k)@[1]), hi16(k0));
        lemma_wrapping_add16(hi16(old(k)@[3]), c);
    }
    *k = [k3, k0, k1, k2];
    proof {
        assert(k@ =~= spec_key_perm(old(k)@, c));
    }
}

/// Computes the key schedule from the master key `key`.
pub fn key_schedule_encrypt(key: &[u8; KEY_SIZE]) -> (ks: KeySchedule)
    ensures
        ks@ == spec_key_schedule(key@),
{
    let mut ks: KeySchedule = [0u32; SCHEDULE_WORDS];
    let mut k: [u32; 4] = [
        pack32(key[0], key[1], key[2], key[3]),
        pack32(key[4], key[5], key[6], key[7]),
        pack32(key[8], key[9], key[10], key[11]),
        pack32(key[12], key[13], key[14], key[15]),
    ];
    let ghost k_init = k@;
    proof {
        assert(k_init =~= spec_initial_branches(key@));
    }
    let mut c: usize = 0;
    let mut j: usize = 0;
    while c < 17
        invariant
            c <= 17,
            j == 3 * c,
            k@ == spec_perm_iter(k_init, c as nat),
            ks@.len() == 51,
            ks@.take(j as int) == spec_sched_prefix(k_init, c as nat),
        decreases 17 - c,
    {
        let ghost ks_before = ks@;
        ks[j] = k[0];
        ks[j + 1] = k[1];
        ks[j + 2] = k[2];
        proof {
            assert(ks@.take(j as int) =~= ks_before.take(j as int));
            assert(ks@.take(j as int + 3) =~= spec_sched_prefix(k_init, (c + 1) as nat));
        }
        key_perm(&mut k, (c as u16) + 1);
        j = j + 3;
        c = c + 1;
    }
    proof {
        assert(ks@ =~= ks@.take(51));
    }
    ks
}

/// Computes the key schedule from the master key `key`, for decryption.
/// Decryption consumes the same schedule in reverse, so this equals
/// `key_schedule_encrypt`.
pub fn key_schedule_decrypt(key: &[u8; KEY_SIZE]) -> (ks: KeySchedule)
    ensures
        ks@ == spec_key_schedule(key@),
{
    key_schedule_encrypt(key)
}

// ---------------------------------------------------------------------------
// Linear mixing layer
// ---------------------------------------------------------------------------

/// The linear layer: the byte-swapped XOR of the halves of branch 0 is
/// duplicated into both halves and XORed, with branch 1, into branch 0; the
/// branches are then swapped.
pub open spec fn spec_lin(x0: u32, x1: u32) -> (u32, u32) {
    let t = rotl8(lo16(x0) ^ hi16(x0));
    let t32 = word32(t, t);
    (x0 ^ x1 ^ t32, x0)
}

/// The inverse linear layer: undoes the swap, then the same XOR terms.
pub open spec fn spec_lin_inv(y0: u32, y1: u32) -> (u32, u32) {
    let t = rotl8(lo16(y1) ^ hi16(y1));
    let t32 = word32(t, t);
    (y1, y0 ^ y1 ^ t32)
}

/// The inverse linear layer undoes the linear layer.
pub proof fn lemma_lin_round_trip(x0: u32, x1: u32)
    ensures
        spec_lin_inv(spec_lin(x0, x1).0, spec_lin(x0, x1).1) == (x0, x1),
{
    let t = rotl8(lo16(x0) ^ hi16(x0));
    let t32 = word32(t, t);
    assert(((x0 ^ x1 ^ t32) ^ x0) ^ t32 == x1) by (bit_vector);
}

// ---------------------------------------------------------------------------
// Block encryption and decryption
// ---------------------------------------------------------------------------

/// One step: 3 ARX rounds on each branch, consuming `ks[j..j+6]`, then the
/// linear layer.
pub open spec fn spec_enc_step(x0: u32, x1: u32, ks: Seq<u32>, j: int) -> (u32, u32) {
    let y0 = spec_rounds(x0, ks, j, 3);
    let y1 = spec_rounds(x1, ks, j + 3, 3);
    spec_lin(y0, y1)
}

/// The inverse of one step.
pub open spec fn spec_dec_step(y0: u32, y1: u32, ks: Seq<u32>, j: int) -> (u32, u32) {
    let u = spec_lin_inv(y0, y1);
    (spec_rounds_inv(u.0, ks, j, 3), spec_rounds_inv(u.1, ks, j + 3, 3))
}

/// The inverse step undoes the step.
pub proof fn lemma_step_round_trip(x0: u32, x1: u32, ks: Seq<u32>, j: int)
    ensures
        spec_dec_step(spec_enc_step(x0, x1, ks, j).0, spec_enc_step(x0, x1, ks, j).1, ks, j) == (
        x0,
        x1,
        ),
{
    let y0 = spec_rounds(x0, ks, j, 3);
    let y1 = spec_rounds(x1, ks, j + 3, 3);
    lemma_lin_round_trip(y0, y1);
    lemma_rounds_round_trip(x0, ks, j, 3);
    lemma_rounds_round_trip(x1, ks, j + 3, 3);
}

/// The first `n` steps applied to the two branches; step `s` consumes
/// `ks[6*s..6*s+6]`.
pub open spec fn spec_enc_steps(x0: u32, x1: u32, ks: Seq<u32>, n: nat) -> (u32, u32)
    decreases n,
{
    if n == 0 {
        (x0, x1)
    } else {
        let p = spec_enc_steps(x0, x1, ks, (n - 1) as nat);
        spec_enc_step(p.0, p.1, ks, 6 * (n - 1))
    }
}

/// The inverse of the first `n` steps, undoing the last step first.
pub open spec fn spec_dec_steps(y0: u32, y1: u32, ks: Seq<u32>, n: nat) -> (u32, u32)
    decreases n,
{
    if n == 0 {
        (y0, y1)
    } else {
        let p = spec_dec_step(y0, y1, ks, 6 * (n - 1));
        spec_dec_steps(p.0, p.1, ks, (n - 1) as nat)
    }
}

/// The inverse steps undo the steps.
pub proof fn lemma_steps_round_trip(x0: u32, x1: u32, ks: Seq<u32>, n: nat)
    ensures
        spec_dec_steps(
            spec_enc_steps(x0, x1, ks, n).0,
            spec_enc_steps(x0, x1, ks, n).1,
            ks,
            n,
        ) == (x0, x1),
    decreases n,
{
    if n > 0 {
        let p = spec_enc_steps(x0, x1, ks, (n - 1) as nat);
        lemma_step_round_trip(p.0, p.1, ks, 6 * (n - 1));
        lemma_steps_round_trip(x0, x1, ks, (n - 1) as nat);
    }
}

/// Block encryption on branch words: 8 steps, then whitening with
/// `ks[48]` and `ks[49]`.
pub open spec fn spec_encrypt_words(x0: u32, x1: u32, ks: Seq<u32>) -> (u32, u32)
    recommends
        ks.len() == SCHEDULE_WORDS,
{
    let p = spec_enc_steps(x0, x1, ks, 8);
    (p.0 ^ ks[48], p.1 ^ ks[49])
}

/// Block decryption on branch words: undo the whitening, then the steps.
pub open spec fn spec_decrypt_words(y0: u32, y1: u32, ks: Seq<u32>) -> (u32, u32)
    recommends
        ks.len() == SCHEDULE_WORDS,
{
    spec_dec_steps(y0 ^ ks[48], y1 ^ ks[49], ks, 8)
}

/// Word-level decryption undoes word-level encryption.
pub proof fn lemma_words_round_trip(x0: u32, x1: u32, ks: Seq<u32>)
    ensures
        spec_decrypt_words(
            spec_encrypt_words(x0, x1, ks).0,
            spec_encrypt_words(x0, x1, ks).1,
            ks,
        ) == (x0, x1),
{
    let p0 = spec_enc_steps(x0, x1, ks, 8).0;
    let p1 = spec_enc_steps(x0, x1, ks, 8).1;
    let k48 = ks[48];
    let k49 = ks[49];
    assert((p0 ^ k48) ^ k48 == p0) by (bit_vector);
    assert((p1 ^ k49) ^ k49 == p1) by (bit_vector);
    lemma_steps_round_trip(x0, x1, ks, 8);
}

/// Block encryption on bytes: the block is read as two little-endian branch
/// words, transformed, and written back little-endian.
pub open spec fn spec_encrypt_block(b: Seq<u8>, ks: Seq<u32>) -> Seq<u8>
    recommends
        b.len() == BLOCK_SIZE,
        ks.len() == SCHEDULE_WORDS,
{
    let y = spec_encrypt_words(
        le32(b[0], b[1], b[2], b[3]),
        le32(b[4], b[5], b[6], b[7]),
        ks,
    );
    le32_bytes(y.0) + le32_bytes(y.1)
}

/// Block decryption on bytes.
pub open spec fn spec_decrypt_block(b: Seq<u8>, ks: Seq<u32>) -> Seq<u8>
    recommends
        b.len() == BLOCK_SIZE,
        ks.len() == SCHEDULE_WORDS,
{
    let y = spec_decrypt_words(
        le32(b[0], b[1], b[2], b[3]),
        le32(b[4], b[5], b[6], b[7]),
        ks,
    );
    le32_bytes(y.0) + le32_bytes(y.1)
}

/// Round trip: decrypting an encrypted block with the same schedule returns
/// the block, for every block and every schedule.
pub proof fn lemma_block_round_trip(b: Seq<u8>, ks: Seq<u32>)
    requires
        b.len() == BLOCK_SIZE,
    ensures
        spec_decrypt_block(spec_encrypt_block(b, ks), ks) == b,
{
    let x0 = le32(b[0], b[1], b[2], b[3]);
    let x1 = le32(b[4], b[5], b[6], b[7]);
    let y = spec_encrypt_words(x0, x1, ks);
    let e = spec_encrypt_block(b, ks);
    assert(e[0] == byte0(y.0) && e[1] == byte1(y.0) && e[2] == byte2(y.0) && e[3] == byte3(y.0));
    assert(e[4] == byte0(y.1) && e[5] == byte1(y.1) && e[6] == byte2(y.1) && e[7] == byte3(y.1));
    lemma_le32_of_bytes(y.0);
    lemma_le32_of_bytes(y.1);
    lemma_words_round_trip(x0, x1, ks);
    lemma_bytes_of_le32(b[0], b[1], b[2], b[3]);
    lemma_bytes_of_le32(b[4], b[5], b[6], b[7]);
    assert(spec_decrypt_block(e, ks) =~= b);
}

/// Encrypts a single block `block` in place using the key schedule `ks`.
pub fn encrypt_block(block: &mut [u8; BLOCK_SIZE], ks: &KeySchedule)
    ensures
        final(block)@ == spec_encrypt_block(old(block)@, ks@),
{
    let mut x0 = pack32(block[0], block[1], block[2], block[3]);
    let mut x1 = pack32(block[4], block[5], block[6], block[7]);
    let ghost xi0 = x0;
    let ghost xi1 = x1;
    let ksl: &[u32] = ks.as_slice();
    let mut s: usize = 0;
    while s < STEPS
        invariant
            s <= 8,
            ksl@ == ks@,
            ks@.len() == 51,
            (x0, x1) == spec_enc_steps(xi0, xi1, ks@, s as nat),
        decreases 8 - s,
    {
        let y0 = arx_rounds(x0, ksl, 6 * s, 3);
        let y1 = arx_rounds(x1, ksl, 6 * s + 3, 3);
        let t: u16 = (y0 as u16) ^ ((y0 >> 16u32) as u16);
        let t: u16 = (t << 8u16) | (t >> 8u16);
        let t32: u32 = (t as u32) | ((t as u32) << 16u32);
        x0 = y0 ^ y1 ^ t32;
        x1 = y0;
        s = s + 1;
    }
    let y0 = x0 ^ ksl[48];
    let y1 = x1 ^ ksl[49];
    *block = [
        y0 as u8,
        (y0 >> 8u32) as u8,
        (y0 >> 16u32) as u8,
        (y0 >> 24u32) as u8,
        y1 as u8,
        (y1 >> 8u32) as u8,
        (y1 >> 16u32) as u8,
        (y1 >> 24u32) as u8,
    ];
    proof {
        assert(block@ =~= spec_encrypt_block(old(block)@, ks@));
    }
}

/// Decrypts a single block `block` in place using the key schedule `ks`.
pub fn decrypt_block(block: &mut [u8; BLOCK_SIZE], ks: &KeySchedule)
    ensures
        final(block)@ == spec_decrypt_block(old(block)@, ks@),
{
    let mut y0 = pack32(block[0], block[1], block[2], block[3]);
    let mut y1 = pack32(block[4], block[5], block[6], block[7]);
    let ksl: &[u32] = ks.as_slice();
    y1 = y1 ^ ksl[49];
    y0 = y0 ^ ksl[48];
    let ghost z0 = y0;
    let ghost z1 = y1;
    let mut t: usize = 0;
    while t < STEPS
        invariant
            t <= 8,
            ksl@ == ks@,
            ks@.len() == 51,
            spec_dec_steps(z0, z1, ks@, 8) == spec_dec_steps(y0, y1, ks@, (8 - t) as nat),
        decreases 8 - t,
    {
        let j = 6 * (7 - t);
        let tt: u16 = (y1 as u16) ^ ((y1 >> 16u32) as u16);
        let tt: u16 = (tt << 8u16) | (tt >> 8u16);
        let t32: u32 = (tt as u32) | ((tt as u32) << 16u32);
        let u0 = y1;
        let u1 = y0 ^ y1 ^ t32;
        proof {
            assert(spec_dec_steps(y0, y1, ks@, (8 - t) as nat) == spec_dec_steps(
                spec_dec_step(y0, y1, ks@, 6 * (7 - t)).0,
                spec_dec_step(y0, y1, ks@, 6 * (7 - t)).1,
                ks@,
                (7 - t) as nat,
            ));
        }
        y1 = arx_rounds_inv(u1, ksl, j + 3, 3);
        y0 = arx_rounds_inv(u0, ksl, j, 3);
        t = t + 1;
    }
    *block = [
        y0 as u8,
        (y0 >> 8u32) as u8,
        (y0 >> 16u32) as u8,
        (y0 >> 24u32) as u8,
        y1 as u8,
        (y1 >> 8u32) as u8,
        (y1 >> 16u32) as u8,
        (y1 >> 24u32) as u8,
    ];
    proof {
        assert(block@ =~= spec_decrypt_block(old(block)@, ks@));
    }
}

// ---------------------------------------------------------------------------
// Counter mode
// ---------------------------------------------------------------------------

/// The tweaked key for counter mode: the trailing 16 nonce bytes XORed into
/// the master key.
pub open spec fn spec_tweak_key(key: Seq<u8>, nonce: Seq<u8>) -> Seq<u8>
    recommends
        key.len() == KEY_SIZE,
        nonce.len() == NONCE_SIZE,
{
    Seq::new(16, |i: int| key[i] ^ nonce[i + 4])
}

/// The 64-bit counter word for block number `blk`: the first four nonce bytes
/// shifted into the high half, plus `blk`, with wrap-around.
pub open spec fn spec_ctr_word(nonce: Seq<u8>, blk: int) -> u64
    recommends
        nonce.len() == NONCE_SIZE,
        0 <= blk < 0x1_0000_0000_0000_0000,
{
    (((le32(nonce[0], nonce[1], nonce[2], nonce[3]) as u64) << 32u64) + blk) as u64
}

/// The input block for block number `blk`: the counter word, little-endian.
pub open spec fn spec_ctr_block(nonce: Seq<u8>, blk: int) -> Seq<u8> {
    let w = spec_ctr_word(nonce, blk);
    seq![
        w as u8,
        (w >> 8u64) as u8,
        (w >> 16u64) as u8,
        (w >> 24u64) as u8,
        (w >> 32u64) as u8,
        (w >> 40u64) as u8,
        (w >> 48u64) as u8,
        (w >> 56u64) as u8,
    ]
}

/// Byte `i` of the keystream for the given key and nonce: byte `i % 8` of the
/// encrypted counter block number `i / 8`, under the tweaked key's schedule.
pub open spec fn spec_keystream_byte(key: Seq<u8>, nonce: Seq<u8>, i: int) -> u8
    recommends
        key.len() == KEY_SIZE,
        nonce.len() == NONCE_SIZE,
{
    spec_encrypt_block(
        spec_ctr_block(nonce, i / 8),
        spec_key_schedule(spec_tweak_key(key, nonce)),
    )[i % 8]
}

/// The first `n` bytes of the keystream.
pub open spec fn spec_keystream(key: Seq<u8>, nonce: Seq<u8>, n: nat) -> Seq<u8>
    recommends
        key.len() == KEY_SIZE,
        nonce.len() == NONCE_SIZE,
{
    Seq::new(n, |i: int| spec_keystream_byte(key, nonce, i))
}

/// Encrypts an arbitrary-length buffer `buf` in place in counter mode with
/// the nonce `nonce` and the master key `key`: every byte is XORed with the
/// corresponding keystream byte. An empty buffer is left untouched.
pub fn encrypt_ctr(buf: &mut [u8], nonce: &[u8; NONCE_SIZE], key: &[u8; KEY_SIZE])
    ensures
        final(buf)@.len() == old(buf)@.len(),
        forall|i: int|
            0 <= i < old(buf)@.len() ==> final(buf)@[i] == (old(buf)@[i] ^ spec_keystream_byte(
                key@,
                nonce@,
                i,
            )),
{
    if buf.len() == 0 {
        return ;
    }
    let mut key2: [u8; KEY_SIZE] = [0u8; KEY_SIZE];
    let mut i: usize = 0;
    while i < KEY_SIZE
        invariant
            i <= 16,
            key2@.len() == 16,
            forall|t: int| 0 <= t < i ==> key2@[t] == (key@[t] ^ nonce@[t + 4]),
        decreases 16 - i,
    {
        key2[i] = key[i] ^ nonce[4 + i];
        i = i + 1;
    }
    proof {
        assert(key2@ =~= spec_tweak_key(key@, nonce@));
    }
    let ks = key_schedule_encrypt(&key2);
    let nc: u64 = (pack32(nonce[0], nonce[1], nonce[2], nonce[3]) as u64) << 32u64;
    let full_blocks: usize = buf.len() / BLOCK_SIZE;
    let ghost len = old(buf)@.len() as int;
    let mut b: usize = 0;
    let mut n: usize = 0;
    while b < full_blocks
        invariant
            b <= full_blocks,
            n == 8 * b,
            full_blocks == len / 8,
            len <= usize::MAX,
            buf@.len() == len,
            ks@ == spec_key_schedule(spec_tweak_key(key@, nonce@)),
            nc == (le32(nonce@[0], nonce@[1], nonce@[2], nonce@[3]) as u64) << 32u64,
            forall|t: int|
                0 <= t < n ==> buf@[t] == (old(buf)@[t] ^ spec_keystream_byte(key@, nonce@, t)),
            forall|t: int| n <= t < len ==> buf@[t] == old(buf)@[t],
        decreases full_blocks - b,
    {
        proof {
            assert(8 * b + 8 <= 8 * (len / 8) && 8 * (len / 8) <= len) by (nonlinear_arith)
                requires
                    b < full_blocks,
                    full_blocks == len / 8,
                    0 <= len,
            ;
        }
        let w = nc.wrapping_add(b as u64);
        let mut ib: [u8; BLOCK_SIZE] = [
            w as u8,
            (w >> 8u64) as u8,
            (w >> 16u64) as u8,
            (w >> 24u64) as u8,
            (w >> 32u64) as u8,
            (w >> 40u64) as u8,
            (w >> 48u64) as u8,
            (w >> 56u64) as u8,
        ];
        proof {
            lemma_wrapping_add64(nc, b as u64);
            assert(ib@ =~= spec_ctr_block(nonce@, b as int));
        }
        encrypt_block(&mut ib, &ks);
        let mut jj: usize = 0;
        while jj < BLOCK_SIZE
            invariant
                jj <= 8,
                n == 8 * b,
                n + 8 <= len,
                buf@.len() == len,
                ib@ == spec_encrypt_block(
                    spec_ctr_block(nonce@, b as int),
                    spec_key_schedule(spec_tweak_key(key@, nonce@)),
                ),
                forall|t: int|
                    0 <= t < n + jj ==> buf@[t] == (old(buf)@[t] ^ spec_keystream_byte(
                        key@,
                        nonce@,
                        t,
                    )),
                forall|t: int| n + jj <= t < len ==> buf@[t] == old(buf)@[t],
            decreases 8 - jj,
        {
            buf[n + jj] = buf[n + jj] ^ ib[jj];
            proof {
                assert((8 * b + jj) / 8 == b && (8 * b + jj) % 8 == jj) by (nonlinear_arith)
                    requires
                        0 <= b,
                        0 <= jj < 8,
                ;
            }
            jj = jj + 1;
        }
        n = n + BLOCK_SIZE;
        b = b + 1;
    }
    let remaining: usize = buf.len() % BLOCK_SIZE;
    proof {
        assert(8 * (len / 8) + len % 8 == len && 0 <= len % 8 < 8) by (nonlinear_arith)
            requires
                0 <= len,
        ;
    }
    if remaining > 0 {
        let w = nc.wrapping_add(full_blocks as u64);
        let mut ib: [u8; BLOCK_SIZE] = [
            w as u8,
            (w >> 8u64) as u8,
            (w >> 16u64) as u8,
            (w >> 24u64) as u8,
            (w >> 32u64) as u8,
            (w >> 40u64) as u8,
            (w >> 48u64) as u8,
            (w >> 56u64) as u8,
        ];
        proof {
            lemma_wrapping_add64(nc, full_blocks as u64);
            assert(ib@ =~= spec_ctr_block(nonce@, full_blocks as int));
        }
        encrypt_block(&mut ib, &ks);
        let mut jj: usize = 0;
        while jj < remaining
            invariant
                jj <= remaining,
                n == 8 * full_blocks,
                full_blocks == len / 8,
                remaining == len % 8,
                n + remaining == len,
                buf@.len() == len,
                ib@ == spec_encrypt_block(
                    spec_ctr_block(nonce@, full_blocks as int),
                    spec_key_schedule(spec_tweak_key(key@, nonce@)),
                ),
                forall|t: int|
                    0 <= t < n + jj ==> buf@[t] == (old(buf)@[t] ^ spec_keystream_byte(
                        key@,
                        nonce@,
                        t,
                    )),
                forall|t: int| n + jj <= t < len ==> buf@[t] == old(buf)@[t],
            decreases remaining - jj,
        {
            buf[n + jj] = buf[n + jj] ^ ib[jj];
            proof {
                assert((8 * full_blocks + jj) / 8 == full_blocks && (8 * full_blocks + jj) % 8
                    == jj) by (nonlinear_arith)
                    requires
                        0 <= full_blocks,
                        0 <= jj < 8,
                ;
            }
            jj = jj + 1;
        }
    }
}

/// Decrypts a counter-mode buffer in place. Counter mode XORs the keystream
/// both ways, so this is exactly `encrypt_ctr`.
pub fn decrypt_ctr(buf: &mut [u8], nonce: &[u8; NONCE_SIZE], key: &[u8; KEY_SIZE])
    ensures
        final(buf)@.len() == old(buf)@.len(),
        forall|i: int|
            0 <= i < old(buf)@.len() ==> final(buf)@[i] == (old(buf)@[i] ^ spec_keystream_byte(
                key@,
                nonce@,
                i,
            )),
{
    encrypt_ctr(buf, nonce, key)
}

// ---------------------------------------------------------------------------
// Laws of counter mode and of the key schedule
// ---------------------------------------------------------------------------

/// Counter mode is an involution: a buffer that went through it twice with
/// the same key and nonce is back to the original. The two hypotheses are the
/// contract of `encrypt_ctr` for each pass.
pub proof fn lemma_ctr_involution(
    orig: Seq<u8>,
    once: Seq<u8>,
    twice: Seq<u8>,
    key: Seq<u8>,
    nonce: Seq<u8>,
)
    requires
        once.len() == orig.len(),
        twice.len() == once.len(),
        forall|i: int|
            0 <= i < orig.len() ==> once[i] == (orig[i] ^ spec_keystream_byte(key, nonce, i)),
        forall|i: int|
            0 <= i < once.len() ==> twice[i] == (once[i] ^ spec_keystream_byte(key, nonce, i)),
    ensures
        twice == orig,
{
    assert forall|i: int| 0 <= i < orig.len() implies twice[i] == orig[i] by {
        let k = spec_keystream_byte(key, nonce, i);
        let o = orig[i];
        assert((o ^ k) ^ k == o) by (bit_vector);
    }
    assert(twice =~= orig);
}

/// Counter mode is the XOR of a buffer-independent keystream: the image of an
/// all-zero buffer is the keystream itself, and the image of any buffer is
/// that keystream XORed with the buffer, byte for byte. The hypotheses are
/// the contract of `encrypt_ctr` for a buffer and for an all-zero buffer of
/// the same length.
pub proof fn lemma_ctr_xor_linearity(
    buf: Seq<u8>,
    out: Seq<u8>,
    zout: Seq<u8>,
    key: Seq<u8>,
    nonce: Seq<u8>,
)
    requires
        out.len() == buf.len(),
        zout.len() == buf.len(),
        forall|i: int|
            0 <= i < buf.len() ==> out[i] == (buf[i] ^ spec_keystream_byte(key, nonce, i)),
        forall|i: int|
            0 <= i < buf.len() ==> zout[i] == (0u8 ^ spec_keystream_byte(key, nonce, i)),
    ensures
        zout == spec_keystream(key, nonce, buf.len()),
        forall|i: int| 0 <= i < buf.len() ==> out[i] == (buf[i] ^ zout[i]),
{
    assert forall|i: int| 0 <= i < buf.len() implies zout[i] == spec_keystream_byte(
        key,
        nonce,
        i,
    ) && out[i] == (buf[i] ^ zout[i]) by {
        let k = spec_keystream_byte(key, nonce, i);
        assert(0u8 ^ k == k) by (bit_vector);
    }
    assert(zout =~= spec_keystream(key, nonce, buf.len()));
}

/// The keystream depends on the key and nonce alone, not on the buffer
/// length: the keystream for `n` bytes is a prefix of the keystream for
/// `m >= n` bytes.
pub proof fn lemma_keystream_prefix(key: Seq<u8>, nonce: Seq<u8>, n: nat, m: nat)
    requires
        n <= m,
    ensures
        spec_keystream(key, nonce, n) == spec_keystream(key, nonce, m).take(n as int),
{
    assert(spec_keystream(key, nonce, n) =~= spec_keystream(key, nonce, m).take(n as int));
}

/// The key schedule is a pure function of the master key: equal keys give
/// equal schedules.
pub proof fn lemma_schedule_deterministic(k1: Seq<u8>, k2: Seq<u8>)
    requires
        k1 == k2,
    ensures
        spec_key_schedule(k1) == spec_key_schedule(k2),
{
}

} // verus!
