use sha256_round_sound_spike::reference::{
    big_sigma_0, big_sigma_1, ch, compress, maj, message_schedule_80, round, sha256, small_sigma_0,
    small_sigma_1, IV, K,
};

/// The padded single block of "abc": 0x61626380, zeros, bit length 24.
fn abc_padded_block() -> [u32; 16] {
    let mut block = [0u32; 16];
    block[0] = 0x61626380;
    block[15] = 24;
    block
}

#[test]
fn kat_abc() {
    assert_eq!(
        sha256(b"abc"),
        [
            0xba7816bf, 0x8f01cfea, 0x414140de, 0x5dae2223, 0xb00361a3, 0x96177a9c, 0xb410ff61,
            0xf20015ad
        ]
    );
}

#[test]
fn kat_empty() {
    assert_eq!(
        sha256(b""),
        [
            0xe3b0c442, 0x98fc1c14, 0x9afbf4c8, 0x996fb924, 0x27ae41e4, 0x649b934c, 0xa495991b,
            0x7852b855
        ]
    );
}

#[test]
fn kat_two_block() {
    assert_eq!(
        sha256(b"abcdbcdecdefdefgefghfghighijhijkijkljklmklmnlmnomnopnopq"),
        [
            0x248d6a61, 0xd20638b8, 0xe5c02693, 0x0c3e6039, 0xa33ce459, 0x64ff2167, 0xf6ecedd4,
            0x19db06c1
        ]
    );
}

#[test]
fn compress_abc_block_gives_digest() {
    let (_, digest) = compress(IV, &abc_padded_block());
    assert_eq!(
        digest,
        [
            0xba7816bf, 0x8f01cfea, 0x414140de, 0x5dae2223, 0xb00361a3, 0x96177a9c, 0xb410ff61,
            0xf20015ad
        ]
    );
}

#[test]
fn compress_state_plus_iv_is_digest() {
    let (state, digest) = compress(IV, &abc_padded_block());
    for i in 0..8 {
        assert_eq!(state[i].wrapping_add(IV[i]), digest[i]);
    }
}

#[test]
fn sigma_functions_exact_values() {
    assert_eq!(big_sigma_0(0x6a09e667), 0xce20b47e);
    assert_eq!(big_sigma_1(0x510e527f), 0x3587272b);
    assert_eq!(small_sigma_0(0x61626380), 0x940e90ef);
    assert_eq!(small_sigma_1(24), 0x000f0000);
}

#[test]
fn ch_and_maj_exact_values() {
    assert_eq!(ch(0xff00ff00, 0x12345678, 0x9abcdef0), 0x12bc56f0);
    assert_eq!(maj(0xff00ff00, 0x12345678, 0x9abcdef0), 0x9a34de70);
    assert_eq!(ch(0xffffffff, 1, 2), 1);
    assert_eq!(ch(0, 1, 2), 2);
}

#[test]
fn message_schedule_extends_block() {
    let w = message_schedule_80(&abc_padded_block());
    assert_eq!(&w[..16], &abc_padded_block()[..]);
    assert_eq!(w[16], 0x61626380);
    assert_eq!(w[17], 0x000f0000);
    assert_eq!(w[18], 0x7da86405);
    assert_eq!(w[19], 0x600003c6);
    assert_eq!(w[63], 0x12b1edeb);
    assert_eq!(w[79], 0xbe66bc93);
}

/// The working variables after round 0 of "abc".
#[test]
fn first_round_of_abc() {
    let w = message_schedule_80(&abc_padded_block());
    let s = round(IV, w[0], K[0]);
    assert_eq!(
        s,
        [
            0x5d6aebcd, 0x6a09e667, 0xbb67ae85, 0x3c6ef372, 0xfa2a4622, 0x510e527f, 0x9b05688c,
            0x1f83d9ab
        ]
    );
}
