use sparx::sparx128::decrypt_block;
use sparx::sparx128::decrypt_ctr;
use sparx::sparx128::encrypt_block;
use sparx::sparx128::encrypt_ctr;
use sparx::sparx128::key_schedule_decrypt;
use sparx::sparx128::key_schedule_encrypt;
use sparx::sparx128::BLOCK_SIZE;
use sparx::sparx128::KEY_SIZE;
use sparx::sparx128::NONCE_SIZE;

const KEY: [u8; KEY_SIZE] = [
    0x11, 0x00, 0x33, 0x22, 0x55, 0x44, 0x77, 0x66, 0x99, 0x88, 0xbb, 0xaa, 0xdd, 0xcc, 0xff,
    0xee,
];

const NONCE: [u8; NONCE_SIZE] = [
    1, 2, 3, 4, 5, 6, 7, 8, 9, 10, 11, 12, 13, 14, 15, 16, 17, 18, 19, 20,
];

#[test]
fn sparx128_test_vector() {
    let key: [u8; KEY_SIZE] = [
        0x11, 0x00, 0x33, 0x22, 0x55, 0x44, 0x77, 0x66, 0x99, 0x88, 0xbb, 0xaa, 0xdd, 0xcc, 0xff,
        0xee,
    ];
    let mut block: [u8; BLOCK_SIZE] = [
        0x23, 0x01, 0x67, 0x45, 0xab, 0x89, 0xef, 0xcd, 0xdc, 0xfe, 0x98, 0xba, 0x54, 0x76, 0x10,
        0x32,
    ];
    let ks = key_schedule_encrypt(&key);
    let block2 = block;
    encrypt_block(&mut block, &ks);
    assert_eq!(
        [
            0xee, 0x1c, 0x40, 0x75, 0xbf, 0x7d, 0xd8, 0x23, 0xee, 0xe0, 0x97, 0x15, 0x28, 0xf4,
            0xd8, 0x52
        ],
        block
    );
    decrypt_block(&mut block, &ks);
    assert_eq!(block2, block);
}

#[test]
fn sparx128_test_ctr() {
    let nonce: [u8; NONCE_SIZE] = [
        1, 2, 3, 4, 5, 6, 7, 8, 9, 10, 11, 12, 13, 14, 15, 16, 17, 18, 19, 20,
    ];
    let key: [u8; KEY_SIZE] = [
        0x11, 0x00, 0x33, 0x22, 0x55, 0x44, 0x77, 0x66, 0x99, 0x88, 0xbb, 0xaa, 0xdd, 0xcc, 0xff,
        0xee,
    ];
    let input = b"The quick brown fox jumps over the lazy dog";
    let mut buf = input.to_vec();
    let expected: [u8; 43] = [
        187, 164, 175, 197, 150, 51, 7, 71, 250, 16, 102, 26, 154, 89, 226, 186, 171, 49, 0, 228,
        255, 249, 53, 223, 223, 97, 25, 144, 13, 185, 170, 216, 79, 219, 40, 137, 95, 164, 73,
        201, 65, 42, 58,
    ];
    encrypt_ctr(&mut buf, &nonce, &key);
    assert_eq!(buf[..], expected[..]);
    decrypt_ctr(&mut buf, &nonce, &key);
    assert_eq!(buf[..], input[..]);
}

#[test]
fn sparx128_block_round_trip_other_values() {
    let key: [u8; KEY_SIZE] = [
        0xf0, 0x0f, 0x12, 0x34, 0x56, 0x78, 0x9a, 0xbc, 0xde, 0x01, 0x23, 0x45, 0x67, 0x89, 0xab,
        0xcd,
    ];
    let ks = key_schedule_encrypt(&key);
    let mut block: [u8; BLOCK_SIZE] = [
        0, 1, 2, 3, 252, 253, 254, 255, 42, 43, 44, 45, 200, 201, 202, 203,
    ];
    let original = block;
    encrypt_block(&mut block, &ks);
    assert_ne!(original, block);
    decrypt_block(&mut block, &ks);
    assert_eq!(original, block);
}

#[test]
fn sparx128_ctr_involution_various_lengths() {
    for len in [1usize, 15, 16, 17, 48, 43] {
        let input: Vec<u8> = (0..len).map(|i| (i * 37 + 11) as u8).collect();
        let mut buf = input.clone();
        encrypt_ctr(&mut buf, &NONCE, &KEY);
        encrypt_ctr(&mut buf, &NONCE, &KEY);
        assert_eq!(input, buf);
    }
}

#[test]
fn sparx128_ctr_xor_linearity() {
    let input = b"The quick brown fox jumps over the lazy dog";
    let mut keystream = vec![0u8; input.len()];
    encrypt_ctr(&mut keystream, &NONCE, &KEY);
    let mut buf = input.to_vec();
    encrypt_ctr(&mut buf, &NONCE, &KEY);
    for i in 0..input.len() {
        assert_eq!(buf[i], keystream[i] ^ input[i]);
    }
}

#[test]
fn sparx128_keystream_prefix() {
    let mut long = vec![0u8; 43];
    encrypt_ctr(&mut long, &NONCE, &KEY);
    for n in [1usize, 16, 17, 32, 42] {
        let mut short = vec![0u8; n];
        encrypt_ctr(&mut short, &NONCE, &KEY);
        assert_eq!(short[..], long[..n]);
    }
}

#[test]
fn sparx128_schedule_deterministic() {
    let ks1 = key_schedule_encrypt(&KEY);
    let ks2 = key_schedule_encrypt(&KEY);
    let ks3 = key_schedule_decrypt(&KEY);
    assert_eq!(ks1[..], ks2[..]);
    assert_eq!(ks1[..], ks3[..]);
}

#[test]
fn sparx128_endian_discipline() {
    // Swapping the byte order of the key or of the block changes the output:
    // nothing in the cipher depends on the host's byte order.
    let mut swapped_key = KEY;
    swapped_key.reverse();
    let ks = key_schedule_encrypt(&KEY);
    let ks_swapped = key_schedule_encrypt(&swapped_key);
    let expected: [u8; BLOCK_SIZE] = [
        0xee, 0x1c, 0x40, 0x75, 0xbf, 0x7d, 0xd8, 0x23, 0xee, 0xe0, 0x97, 0x15, 0x28, 0xf4, 0xd8,
        0x52,
    ];
    let input: [u8; BLOCK_SIZE] = [
        0x23, 0x01, 0x67, 0x45, 0xab, 0x89, 0xef, 0xcd, 0xdc, 0xfe, 0x98, 0xba, 0x54, 0x76, 0x10,
        0x32,
    ];

    let mut block = input;
    encrypt_block(&mut block, &ks_swapped);
    assert_ne!(expected, block);

    let mut swapped_block = input;
    swapped_block.reverse();
    encrypt_block(&mut swapped_block, &ks);
    assert_ne!(expected, swapped_block);
}

#[test]
fn sparx128_empty_ctr_is_noop() {
    let mut buf: Vec<u8> = Vec::new();
    encrypt_ctr(&mut buf, &NONCE, &KEY);
    assert_eq!(buf.len(), 0);
    decrypt_ctr(&mut buf, &NONCE, &KEY);
    assert_eq!(buf.len(), 0);
}

#[test]
fn sparx128_partial_block_ctr() {
    let input: Vec<u8> = (0..BLOCK_SIZE + 1).map(|i| (i * 29 + 3) as u8).collect();
    let mut long = input.clone();
    encrypt_ctr(&mut long, &NONCE, &KEY);
    let mut short = input[..BLOCK_SIZE].to_vec();
    encrypt_ctr(&mut short, &NONCE, &KEY);
    assert_eq!(short[..], long[..BLOCK_SIZE]);
    let mut keystream = vec![0u8; BLOCK_SIZE + 1];
    encrypt_ctr(&mut keystream, &NONCE, &KEY);
    assert_eq!(long[BLOCK_SIZE], keystream[BLOCK_SIZE] ^ input[BLOCK_SIZE]);
}

#[test]
fn sparx128_schedule_first_words_little_endian() {
    // Before any permutation the schedule emits the four key branches, each
    // read little-endian from the master key bytes.
    let ks = key_schedule_encrypt(&KEY);
    assert_eq!(ks[0], 0x2233_0011);
    assert_eq!(ks[1], 0x6677_4455);
    assert_eq!(ks[2], 0xaabb_8899);
    assert_eq!(ks[3], 0xeeff_ccdd);
}

#[test]
fn sparx128_decrypt_ctr_equals_encrypt_ctr() {
    let input = b"counter mode is its own inverse";
    let mut enc = input.to_vec();
    encrypt_ctr(&mut enc, &NONCE, &KEY);
    let mut dec = input.to_vec();
    decrypt_ctr(&mut dec, &NONCE, &KEY);
    assert_eq!(enc, dec);
}
