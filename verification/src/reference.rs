//! Scalar SHA-256, proved equal to its mathematical definition.
use vstd::prelude::*;

verus! {

/// Addition modulo 2^32, the `+` of SHA-256 on 32-bit words.
pub open spec fn add32(x: u32, y: u32) -> u32 {
    ((x as int + y as int) % 0x1_0000_0000) as u32
}

/// ROTR^n(x) = (x >> n) | (x << (32 - n)).
pub open spec fn rotr(x: u32, n: u32) -> u32 {
    (x >> n) | (x << ((32 - n) as u32))
}

/// Σ0(x) = ROTR^2(x) ^ ROTR^13(x) ^ ROTR^22(x).
pub open spec fn spec_big_sigma_0(x: u32) -> u32 {
    rotr(x, 2) ^ rotr(x, 13) ^ rotr(x, 22)
}

/// Σ1(x) = ROTR^6(x) ^ ROTR^11(x) ^ ROTR^25(x).
pub open spec fn spec_big_sigma_1(x: u32) -> u32 {
    rotr(x, 6) ^ rotr(x, 11) ^ rotr(x, 25)
}

/// σ0(x) = ROTR^7(x) ^ ROTR^18(x) ^ SHR^3(x).
pub open spec fn spec_small_sigma_0(x: u32) -> u32 {
    rotr(x, 7) ^ rotr(x, 18) ^ (x >> 3u32)
}

/// σ1(x) = ROTR^17(x) ^ ROTR^19(x) ^ SHR^10(x).
pub open spec fn spec_small_sigma_1(x: u32) -> u32 {
    rotr(x, 17) ^ rotr(x, 19) ^ (x >> 10u32)
}

/// Ch(e, f, g) = (e & f) ^ (!e & g).
pub open spec fn spec_ch(e: u32, f: u32, g: u32) -> u32 {
    (e & f) ^ (!e & g)
}

/// Maj(a, b, c) = (a & b) ^ (a & c) ^ (b & c).
pub open spec fn spec_maj(a: u32, b: u32, c: u32) -> u32 {
    (a & b) ^ (a & c) ^ (b & c)
}

pub(crate) fn wadd(x: u32, y: u32) -> (r: u32)
    ensures
        r == add32(x, y),
{
    x.wrapping_add(y)
}

fn rotate_right(x: u32, n: u32) -> (r: u32)
    requires
        0 < n < 32,
    ensures
        r == rotr(x, n),
{
    (x >> n) | (x << (32 - n))
}

/// Σ0 of SHA-256.
pub fn big_sigma_0(x: u32) -> (r: u32)
    ensures
        r == spec_big_sigma_0(x),
{
    rotate_right(x, 2) ^ rotate_right(x, 13) ^ rotate_right(x, 22)
}

/// Σ1 of SHA-256.
pub fn big_sigma_1(x: u32) -> (r: u32)
    ensures
        r == spec_big_sigma_1(x),
{
    rotate_right(x, 6) ^ rotate_right(x, 11) ^ rotate_right(x, 25)
}

/// σ0 of SHA-256.
pub fn small_sigma_0(x: u32) -> (r: u32)
    ensures
        r == spec_small_sigma_0(x),
{
    rotate_right(x, 7) ^ rotate_right(x, 18) ^ (x >> 3)
}

/// σ1 of SHA-256.
pub fn small_sigma_1(x: u32) -> (r: u32)
    ensures
        r == spec_small_sigma_1(x),
{
    rotate_right(x, 17) ^ rotate_right(x, 19) ^ (x >> 10)
}

/// Ch of SHA-256.
pub fn ch(e: u32, f: u32, g: u32) -> (r: u32)
    ensures
        r == spec_ch(e, f, g),
{
    (e & f) ^ (!e & g)
}

/// Maj of SHA-256.
pub fn maj(a: u32, b: u32, c: u32) -> (r: u32)
    ensures
        r == spec_maj(a, b, c),
{
    (a & b) ^ (a & c) ^ (b & c)
}


/// The 64 round constants (first 32 bits of the fractional
/// parts of the cube roots of the first 64 primes).
pub const K: [u32; 64] = [
    0x428a2f98, 0x71374491, 0xb5c0fbcf, 0xe9b5dba5, 0x3956c25b, 0x59f111f1, 0x923f82a4,
    0xab1c5ed5, 0xd807aa98, 0x12835b01, 0x243185be, 0x550c7dc3, 0x72be5d74, 0x80deb1fe,
    0x9bdc06a7, 0xc19bf174, 0xe49b69c1, 0xefbe4786, 0x0fc19dc6, 0x240ca1cc, 0x2de92c6f,
    0x4a7484aa, 0x5cb0a9dc, 0x76f988da, 0x983e5152, 0xa831c66d, 0xb00327c8, 0xbf597fc7,
    0xc6e00bf3, 0xd5a79147, 0x06ca6351, 0x14292967, 0x27b70a85, 0x2e1b2138, 0x4d2c6dfc,
    0x53380d13, 0x650a7354, 0x766a0abb, 0x81c2c92e, 0x92722c85, 0xa2bfe8a1, 0xa81a664b,
    0xc24b8b70, 0xc76c51a3, 0xd192e819, 0xd6990624, 0xf40e3585, 0x106aa070, 0x19a4c116,
    0x1e376c08, 0x2748774c, 0x34b0bcb5, 0x391c0cb3, 0x4ed8aa4a, 0x5b9cca4f, 0x682e6ff3,
    0x748f82ee, 0x78a5636f, 0x84c87814, 0x8cc70208, 0x90befffa, 0xa4506ceb, 0xbef9a3f7,
    0xc67178f2,
];

/// The initial hash value H(0).
pub const IV: [u32; 8] = [
    0x6a09e667, 0xbb67ae85, 0x3c6ef372, 0xa54ff53a, 0x510e527f, 0x9b05688c, 0x1f83d9ab,
    0x5be0cd19,
];

/// Word `t` of the message schedule of a 16-word block, with the recurrence continued
/// past `t = 63`.
pub open spec fn schedule_word(block: Seq<u32>, t: nat) -> u32
    decreases t,
{
    if t < 16 {
        block[t as int]
    } else {
        add32(
            add32(
                add32(
                    spec_small_sigma_1(schedule_word(block, (t - 2) as nat)),
                    schedule_word(block, (t - 7) as nat),
                ),
                spec_small_sigma_0(schedule_word(block, (t - 15) as nat)),
            ),
            schedule_word(block, (t - 16) as nat),
        )
    }
}

/// One round of SHA-256: state (a..h), W[t] and K[t] give the
/// next state.
pub open spec fn spec_round(s: Seq<u32>, wt: u32, kt: u32) -> Seq<u32> {
    let t1 = add32(add32(add32(add32(s[7], spec_big_sigma_1(s[4])), spec_ch(s[4], s[5], s[6])), kt), wt);
    let t2 = add32(spec_big_sigma_0(s[0]), spec_maj(s[0], s[1], s[2]));
    seq![add32(t1, t2), s[0], s[1], s[2], add32(s[3], t1), s[4], s[5], s[6]]
}

/// The working state after the first `n` rounds of compressing `block` from `h`.
pub open spec fn rounds(h: Seq<u32>, block: Seq<u32>, n: nat) -> Seq<u32>
    decreases n,
{
    if n == 0 {
        h
    } else {
        spec_round(rounds(h, block, (n - 1) as nat), schedule_word(block, (n - 1) as nat), K[n - 1])
    }
}

/// The intermediate hash value after compressing one block: `h[i] + state[i]` after 64
/// rounds.
pub open spec fn spec_compress_digest(h: Seq<u32>, block: Seq<u32>) -> Seq<u32> {
    Seq::new(8, |i: int| add32(h[i], rounds(h, block, 64)[i]))
}

/// The message schedule extended to 80 words. The round AIR keeps a 16-word look-ahead
/// window on every row, so the last round references words 64..79; those continue the
/// schedule recurrence and never influence the digest.
pub fn message_schedule_80(block: &[u32; 16]) -> (w: [u32; 80])
    ensures
        forall|t: int| 0 <= t < 80 ==> #[trigger] w[t] == schedule_word(block@, t as nat),
{
    let mut w = [0u32; 80];
    for t in 0..16
        invariant
            forall|j: int| 0 <= j < t ==> #[trigger] w[j] == schedule_word(block@, j as nat),
    {
        w[t] = block[t];
    }
    for t in 16..80
        invariant
            forall|j: int| 0 <= j < t ==> #[trigger] w[j] == schedule_word(block@, j as nat),
    {
        let x = wadd(wadd(wadd(small_sigma_1(w[t - 2]), w[t - 7]), small_sigma_0(w[t - 15])), w[t - 16]);
        assert(x == schedule_word(block@, t as nat)) by {
            assert(w[t - 2] == schedule_word(block@, (t - 2) as nat));
            assert(w[t - 7] == schedule_word(block@, (t - 7) as nat));
            assert(w[t - 15] == schedule_word(block@, (t - 15) as nat));
            assert(w[t - 16] == schedule_word(block@, (t - 16) as nat));
        }
        w[t] = x;
    }
    w
}

/// One SHA-256 round: state (a..h) with W[t] and K[t] gives the next state.
pub fn round(state: [u32; 8], wt: u32, kt: u32) -> (r: [u32; 8])
    ensures
        r@ == spec_round(state@, wt, kt),
{
    let a = state[0];
    let b = state[1];
    let c = state[2];
    let d = state[3];
    let e = state[4];
    let f = state[5];
    let g = state[6];
    let h = state[7];
    let t1 = wadd(wadd(wadd(wadd(h, big_sigma_1(e)), ch(e, f, g)), kt), wt);
    let t2 = wadd(big_sigma_0(a), maj(a, b, c));
    let r = [wadd(t1, t2), a, b, c, wadd(d, t1), e, f, g];
    assert(r@ =~= spec_round(state@, wt, kt));
    r
}

/// Full compression of one block: returns the state after 64 rounds and the digest
/// state after the feed-forward addition of `h_in`.
pub fn compress(h_in: [u32; 8], block: &[u32; 16]) -> (r: ([u32; 8], [u32; 8]))
    ensures
        r.0@ == rounds(h_in@, block@, 64),
        r.1@ == spec_compress_digest(h_in@, block@),
{
    let w = message_schedule_80(block);
    let mut state = h_in;
    assert(state@ == rounds(h_in@, block@, 0));
    for t in 0..64
        invariant
            forall|j: int| 0 <= j < 80 ==> #[trigger] w[j] == schedule_word(block@, j as nat),
            state@ == rounds(h_in@, block@, t as nat),
    {
        state = round(state, w[t], K[t]);
    }
    let mut digest = [0u32; 8];
    for i in 0..8
        invariant
            state@ == rounds(h_in@, block@, 64),
            forall|j: int| 0 <= j < i ==> #[trigger] digest[j] == add32(h_in[j], state[j]),
    {
        digest[i] = wadd(h_in[i], state[i]);
    }
    assert(digest@ =~= spec_compress_digest(h_in@, block@));
    (state, digest)
}


/// Number of zero bytes SHA-256 padding puts between the `0x80` marker and the
/// 64-bit length of a `len`-byte message: the least `k` with `len + 1 + k = 56 (mod 64)`.
pub open spec fn pad_zero_count(len: nat) -> nat {
    ((119 - (len % 64)) % 64) as nat
}

/// The eight big-endian bytes of a 64-bit value.
pub open spec fn be_u64_bytes(x: u64) -> Seq<u8> {
    seq![
        ((x / 0x100_0000_0000_0000) % 256) as u8,
        ((x / 0x1_0000_0000_0000) % 256) as u8,
        ((x / 0x100_0000_0000) % 256) as u8,
        ((x / 0x1_0000_0000) % 256) as u8,
        ((x / 0x100_0000) % 256) as u8,
        ((x / 0x1_0000) % 256) as u8,
        ((x / 0x100) % 256) as u8,
        (x % 256) as u8,
    ]
}

/// The padded message of SHA-256: the message, a `0x80` byte, zero
/// bytes, and the message length in bits as a big-endian 64-bit integer.
pub open spec fn padded_message(msg: Seq<u8>) -> Seq<u8> {
    msg + seq![0x80u8] + Seq::new(pad_zero_count(msg.len()), |i: int| 0u8) + be_u64_bytes(
        (msg.len() * 8) as u64,
    )
}

/// The big-endian 32-bit word made of the four bytes starting at `k`.
pub open spec fn be_word(bytes: Seq<u8>, k: int) -> u32 {
    (bytes[k] * 0x100_0000 + bytes[k + 1] * 0x1_0000 + bytes[k + 2] * 0x100 + bytes[k + 3]) as u32
}

/// Block `j` (16 big-endian words) of a byte string.
pub open spec fn block_of(bytes: Seq<u8>, j: int) -> Seq<u32> {
    Seq::new(16, |i: int| be_word(bytes, 64 * j + 4 * i))
}

/// The hash value after the first `n` blocks of `bytes`, starting from H(0).
pub open spec fn hash_blocks(bytes: Seq<u8>, n: nat) -> Seq<u32>
    decreases n,
{
    if n == 0 {
        IV@
    } else {
        spec_compress_digest(hash_blocks(bytes, (n - 1) as nat), block_of(bytes, n - 1))
    }
}

/// SHA-256 of a byte message.
pub open spec fn spec_sha256(msg: Seq<u8>) -> Seq<u32> {
    hash_blocks(padded_message(msg), padded_message(msg).len() / 64)
}

/// Appends the eight big-endian bytes of `x`.
fn push_be_u64(v: &mut Vec<u8>, x: u64)
    ensures
        final(v)@ == old(v)@ + be_u64_bytes(x),
{
    v.push(((x / 0x100_0000_0000_0000) % 256) as u8);
    v.push(((x / 0x1_0000_0000_0000) % 256) as u8);
    v.push(((x / 0x100_0000_0000) % 256) as u8);
    v.push(((x / 0x1_0000_0000) % 256) as u8);
    v.push(((x / 0x100_0000) % 256) as u8);
    v.push(((x / 0x1_0000) % 256) as u8);
    v.push(((x / 0x100) % 256) as u8);
    v.push((x % 256) as u8);
    assert(final(v)@ =~= old(v)@ + be_u64_bytes(x));
}

/// Builds the padded message of SHA-256.
fn pad_message(msg: &[u8]) -> (padded: Vec<u8>)
    requires
        msg@.len() < 0x2000_0000_0000_0000,
        msg@.len() + 72 <= usize::MAX,
    ensures
        padded@ == padded_message(msg@),
{
    let len = msg.len();
    let bit_len: u64 = (len as u64) * 8;
    let mut padded: Vec<u8> = Vec::new();
    for i in 0..len
        invariant
            len == msg@.len(),
            padded@ == msg@.subrange(0, i as int),
    {
        padded.push(msg[i]);
    }
    padded.push(0x80);
    assert(padded@ =~= msg@ + seq![0x80u8]);
    let zeros: usize = (119 - (len % 64)) % 64;
    assert(zeros == pad_zero_count(len as nat));
    for i in 0..zeros
        invariant
            padded@ == msg@ + seq![0x80u8] + Seq::new(i as nat, |k: int| 0u8),
    {
        padded.push(0);
        assert(padded@ =~= msg@ + seq![0x80u8] + Seq::new((i + 1) as nat, |k: int| 0u8));
    }
    push_be_u64(&mut padded, bit_len);
    padded
}

/// Reads block `j` of `bytes` as sixteen big-endian words.
fn load_block(bytes: &Vec<u8>, j: usize) -> (block: [u32; 16])
    requires
        64 * j + 64 <= bytes@.len(),
    ensures
        block@ == block_of(bytes@, j as int),
{
    let mut block = [0u32; 16];
    let n = bytes.len();
    for i in 0..16
        invariant
            n == bytes@.len(),
            64 * j + 64 <= n,
            forall|k: int| 0 <= k < i ==> #[trigger] block[k] == be_word(bytes@, 64 * j + 4 * k),
    {
        let k = 64 * j + 4 * i;
        block[i] = (bytes[k] as u32) * 0x100_0000 + (bytes[k + 1] as u32) * 0x1_0000
            + (bytes[k + 2] as u32) * 0x100 + (bytes[k + 3] as u32);
    }
    assert(block@ =~= block_of(bytes@, j as int));
    block
}

/// SHA-256 of a byte message.
pub fn sha256(msg: &[u8]) -> (r: [u32; 8])
    requires
        msg@.len() < 0x2000_0000_0000_0000,
        msg@.len() + 72 <= usize::MAX,
    ensures
        r@ == spec_sha256(msg@),
{
    let padded = pad_message(msg);
    let n_blocks = padded.len() / 64;
    let mut h = IV;
    for j in 0..n_blocks
        invariant
            n_blocks == padded@.len() / 64,
            padded@ == padded_message(msg@),
            h@ == hash_blocks(padded@, j as nat),
    {
        assert(64 * j + 64 <= padded@.len()) by (nonlinear_arith)
            requires
                j < n_blocks,
                n_blocks == padded@.len() / 64,
        ;
        let block = load_block(&padded, j);
        let (_, digest) = compress(h, &block);
        h = digest;
    }
    h
}

} // verus!
