//! Scalar witness builder for the SHA-256 round component: fills the 125 base columns of
//! every round row from the scalar SHA-256 reference, and builds the forged traces that
//! exercise the Ch/Maj limb under-constraint.
//!
//! Column map (limbs are (lo16, hi16) of each u32):
//!   0: seq (compression index)      1: t (round counter 0..63)
//!   2..=17:  state a,b,c,d,e,f,g,h  18..=49: schedule window W[t..t+15]
//!   50/51: BigSigma1(e)             52/53: BigSigma0(a)
//!   54..=57: ms8 of e_lo,e_hi,f_lo,f_hi      58..=61: AND bytes of e&f
//!   62/63: not_e limbs              64..=67: ms8 of not_e_lo,not_e_hi,g_lo,g_hi
//!   68..=71: AND bytes of ~e&g      72..=75: XOR bytes -> Ch
//!   76/77: chl/chh                  78/79: ch_limb (duplicates of 76/77)
//!   80/81: K[t]                     82/83: h+Sigma1+Ch     84/85: T1 (=82/83+K+W[t])
//!   86..=91: ms8 of a_lo,a_hi,b_lo,b_hi,c_lo,c_hi
//!   92..=103: AND bytes of a&b,a&c,b&c        104..=111: XOR bytes -> Maj
//!   112/113: majl/majh              114/115: maj_limb (duplicates of 112/113)
//!   116/117: T2 (=Sigma0+Maj)       118/119: schedule output W[t+16]
//!   120/121: new_e (=d+T1)          122/123: new_a (=T1+T2)     124: enabler
use crate::m31::{p, M31};
use crate::reference::{
    add32, big_sigma_0, big_sigma_1, ch, maj, message_schedule_80, round, rounds, wadd,
    schedule_word, spec_big_sigma_0, spec_big_sigma_1, spec_ch, spec_maj, spec_round, K,
};
use vstd::prelude::*;

verus! {

/// The number of base columns of the round component.
pub const N_TRACE_COLUMNS: usize = 125;

/// Number of logup fractions per row emitted by the round component.
pub const N_FRACTIONS: usize = 38;

/// Fractions are batched two per interaction column.
pub const N_LOGUP_COLS: usize = 19;

/// The low 16-bit limb of a word.
pub open spec fn lo(x: u32) -> u32 {
    (x % 65536) as u32
}

/// The high 16-bit limb of a word.
pub open spec fn hi(x: u32) -> u32 {
    (x / 65536) as u32
}

/// The (lo16, hi16) limbs of a word.
pub open spec fn limbs(x: u32) -> Seq<u32> {
    seq![lo(x), hi(x)]
}

/// The four bytes of a word, least significant first.
pub open spec fn bytes(x: u32) -> Seq<u32> {
    seq![(lo(x) % 256) as u32, (lo(x) / 256) as u32, (hi(x) % 256) as u32, (hi(x) / 256) as u32]
}

/// The high bytes of both limbs of a word.
pub open spec fn high_bytes(x: u32) -> Seq<u32> {
    seq![(lo(x) / 256) as u32, (hi(x) / 256) as u32]
}

/// The limbs of eight state words, a..h.
pub open spec fn state_limbs(s: Seq<u32>) -> Seq<u32> {
    limbs(s[0]) + limbs(s[1]) + limbs(s[2]) + limbs(s[3]) + limbs(s[4]) + limbs(s[5]) + limbs(
        s[6],
    ) + limbs(s[7])
}

/// The limbs of the 16-word schedule window `W[t..t+16]`.
pub open spec fn window_limbs(w: Seq<u32>, t: int) -> Seq<u32> {
    Seq::new(32, |i: int| if i % 2 == 0 { lo(w[t + i / 2]) } else { hi(w[t + i / 2]) })
}

/// Columns 0..50: seq, t, the state limbs and the schedule-window limbs.
pub open spec fn row_head(seq: u32, t: int, s: Seq<u32>, w: Seq<u32>) -> Seq<u32> {
    seq![seq, t as u32] + state_limbs(s) + window_limbs(w, t)
}

/// Columns 50..54: the limbs of Σ1(e) and Σ0(a).
pub open spec fn row_sigmas(s: Seq<u32>) -> Seq<u32> {
    limbs(spec_big_sigma_1(s[4])) + limbs(spec_big_sigma_0(s[0]))
}

/// Columns 54..78: the byte decomposition of Ch(e, f, g) and its recombined limbs.
pub open spec fn row_ch(s: Seq<u32>) -> Seq<u32> {
    let (e, f, g) = (s[4], s[5], s[6]);
    let ne = !e;
    let ch = spec_ch(e, f, g);
    high_bytes(e) + high_bytes(f) + bytes(e & f) + limbs(ne) + high_bytes(ne) + high_bytes(g)
        + bytes(ne & g) + bytes(ch) + limbs(ch)
}

/// The sum `h + Σ1(e) + ch_limb` of a round.
pub open spec fn partial_t1(s: Seq<u32>, ch_limb: u32) -> u32 {
    add32(add32(s[7], spec_big_sigma_1(s[4])), ch_limb)
}

/// T1 = h + Σ1(e) + ch_limb + K[t] + W[t].
pub open spec fn t1_with(s: Seq<u32>, w: Seq<u32>, t: int, ch_limb: u32) -> u32 {
    add32(add32(partial_t1(s, ch_limb), K[t]), w[t])
}

/// T2 = Σ0(a) + maj_limb.
pub open spec fn t2_with(s: Seq<u32>, maj_limb: u32) -> u32 {
    add32(spec_big_sigma_0(s[0]), maj_limb)
}

/// Columns 78..86: the consumed Ch limbs, K[t], h + Σ1 + Ch, and T1.
pub open spec fn row_t1(s: Seq<u32>, w: Seq<u32>, t: int, ch_limb: u32) -> Seq<u32> {
    limbs(ch_limb) + limbs(K[t]) + limbs(partial_t1(s, ch_limb)) + limbs(t1_with(s, w, t, ch_limb))
}

/// Columns 86..114: the byte decomposition of Maj(a, b, c) and its recombined limbs.
pub open spec fn row_maj(s: Seq<u32>) -> Seq<u32> {
    let (a, b, c) = (s[0], s[1], s[2]);
    let maj = spec_maj(a, b, c);
    high_bytes(a) + high_bytes(b) + high_bytes(c) + bytes(a & b) + bytes(a & c) + bytes(b & c)
        + bytes((a & b) ^ (a & c)) + bytes(maj) + limbs(maj)
}

/// Columns 114..125: the consumed Maj limbs, T2, W[t+16], new e, new a, and the enabler.
pub open spec fn row_tail(s: Seq<u32>, w: Seq<u32>, t: int, ch_limb: u32, maj_limb: u32) -> Seq<
    u32,
> {
    let t1 = t1_with(s, w, t, ch_limb);
    let t2 = t2_with(s, maj_limb);
    limbs(maj_limb) + limbs(t2) + limbs(w[t + 16]) + limbs(add32(s[3], t1)) + limbs(add32(t1, t2))
        + seq![1u32]
}

/// The raw (pre-M31) values of the 125 columns of round `t` of compression `seq`,
/// entered with state `s` (a..h), given the 80-word schedule `w`, when the Ch and Maj
/// limbs fed to the T1/T2 sums are `ch_limb` and `maj_limb` (the honest values are
/// Ch(e, f, g) and Maj(a, b, c)).
#[verifier::opaque]
pub open spec fn row_with_limbs(
    seq: u32,
    t: int,
    s: Seq<u32>,
    w: Seq<u32>,
    ch_limb: u32,
    maj_limb: u32,
) -> Seq<u32> {
    row_head(seq, t, s, w) + row_sigmas(s) + row_ch(s) + row_t1(s, w, t, ch_limb) + row_maj(s)
        + row_tail(s, w, t, ch_limb, maj_limb)
}

/// A row holds one value per column.
pub proof fn lemma_row_len(seq: u32, t: int, s: Seq<u32>, w: Seq<u32>, ch_limb: u32, maj_limb: u32)
    ensures
        row_with_limbs(seq, t, s, w, ch_limb, maj_limb).len() == N_TRACE_COLUMNS,
{
    reveal(row_with_limbs);
    assert(row_head(seq, t, s, w).len() == 50);
    assert(row_sigmas(s).len() == 4);
    assert(row_ch(s).len() == 24);
    assert(row_t1(s, w, t, ch_limb).len() == 8);
    assert(row_maj(s).len() == 28);
    assert(row_tail(s, w, t, ch_limb, maj_limb).len() == 11);
}

/// The cells of the first 50 columns.
#[verifier::spinoff_prover]
pub proof fn lemma_head_cells(seq: u32, t: int, s: Seq<u32>, w: Seq<u32>)
    ensures
        row_head(seq, t, s, w).len() == 50,
        row_head(seq, t, s, w)[0] == seq,
        row_head(seq, t, s, w)[1] == t as u32,
        forall|i: int|
            0 <= i < 8 ==> row_head(seq, t, s, w)[2 + 2 * i] == lo(#[trigger] s[i]) && row_head(
                seq,
                t,
                s,
                w,
            )[3 + 2 * i] == hi(s[i]),
        forall|i: int|
            0 <= i < 16 ==> row_head(seq, t, s, w)[18 + 2 * i] == lo(#[trigger] w[t + i])
                && row_head(seq, t, s, w)[19 + 2 * i] == hi(w[t + i]),
        row_head(seq, t, s, w)[18] == lo(w[t]),
        row_head(seq, t, s, w)[19] == hi(w[t]),
{
    let sl = state_limbs(s);
    assert(sl.len() == 16);
    assert forall|i: int| 0 <= i < 8 implies sl[2 * i] == lo(#[trigger] s[i]) && sl[2 * i + 1]
        == hi(s[i]) by {
        if i == 0 {
        } else if i == 1 {
        } else if i == 2 {
        } else if i == 3 {
        } else if i == 4 {
        } else if i == 5 {
        } else if i == 6 {
        } else {
        }
    }
    let wl = window_limbs(w, t);
    assert forall|i: int| 0 <= i < 16 implies wl[2 * i] == lo(#[trigger] w[t + i]) && wl[2 * i
        + 1] == hi(w[t + i]) by {
        assert((2 * i) / 2 == i && (2 * i) % 2 == 0);
        assert((2 * i + 1) / 2 == i && (2 * i + 1) % 2 == 1);
    }
}

/// The cells of a row that the round chain and the forgeries read and write.
#[verifier::spinoff_prover]
pub proof fn lemma_row_cells(seq: u32, t: int, s: Seq<u32>, w: Seq<u32>, ch_limb: u32, maj_limb: u32)
    ensures
        ({
            let row = row_with_limbs(seq, t, s, w, ch_limb, maj_limb);
            let bs1 = spec_big_sigma_1(s[4]);
            let bs0 = spec_big_sigma_0(s[0]);
            let ch = spec_ch(s[4], s[5], s[6]);
            let maj = spec_maj(s[0], s[1], s[2]);
            let s1 = partial_t1(s, ch_limb);
            let t1 = t1_with(s, w, t, ch_limb);
            let t2 = t2_with(s, maj_limb);
            &&& row.len() == N_TRACE_COLUMNS
            &&& row[0] == seq
            &&& row[1] == t as u32
            &&& forall|i: int| 0 <= i < 8 ==> row[2 + 2 * i] == lo(#[trigger] s[i]) && row[3 + 2 * i] == hi(s[i])
            &&& forall|i: int| 0 <= i < 16 ==> row[18 + 2 * i] == lo(#[trigger] w[t + i]) && row[19 + 2 * i] == hi(w[t + i])
            &&& row[18] == lo(w[t]) && row[19] == hi(w[t])
            &&& row[50] == lo(bs1) && row[51] == hi(bs1)
            &&& row[52] == lo(bs0) && row[53] == hi(bs0)
            &&& row[76] == lo(ch) && row[77] == hi(ch)
            &&& row[78] == lo(ch_limb) && row[79] == hi(ch_limb)
            &&& row[80] == lo(K[t]) && row[81] == hi(K[t])
            &&& row[82] == lo(s1) && row[83] == hi(s1)
            &&& row[84] == lo(t1) && row[85] == hi(t1)
            &&& row[112] == lo(maj) && row[113] == hi(maj)
            &&& row[114] == lo(maj_limb) && row[115] == hi(maj_limb)
            &&& row[116] == lo(t2) && row[117] == hi(t2)
            &&& row[118] == lo(w[t + 16]) && row[119] == hi(w[t + 16])
            &&& row[120] == lo(add32(s[3], t1)) && row[121] == hi(add32(s[3], t1))
            &&& row[122] == lo(add32(t1, t2)) && row[123] == hi(add32(t1, t2))
            &&& row[124] == 1
        }),
{
    reveal(row_with_limbs);
    lemma_row_len(seq, t, s, w, ch_limb, maj_limb);
    lemma_head_cells(seq, t, s, w);
    let head = row_head(seq, t, s, w);
    let a = head + row_sigmas(s);
    let b = a + row_ch(s);
    let c = b + row_t1(s, w, t, ch_limb);
    let d = c + row_maj(s);
    let row = d + row_tail(s, w, t, ch_limb, maj_limb);
    assert(row == row_with_limbs(seq, t, s, w, ch_limb, maj_limb));
    assert(row_sigmas(s).len() == 4);
    assert(row_ch(s).len() == 24);
    assert(row_t1(s, w, t, ch_limb).len() == 8);
    assert(row_maj(s).len() == 28);
    assert(row_tail(s, w, t, ch_limb, maj_limb).len() == 11);
    assert forall|i: int| 0 <= i < 50 implies row[i] == head[i] by {
        assert(a[i] == head[i]);
        assert(b[i] == a[i]);
        assert(c[i] == b[i]);
        assert(d[i] == c[i]);
    }
    assert(row[50] == a[50] && row[51] == a[51] && row[52] == a[52] && row[53] == a[53]);
    assert(row[76] == b[76] && row[77] == b[77]);
    assert(row[78] == c[78] && row[79] == c[79] && row[80] == c[80] && row[81] == c[81]);
    assert(row[82] == c[82] && row[83] == c[83] && row[84] == c[84] && row[85] == c[85]);
    assert(row[112] == d[112] && row[113] == d[113]);
}

/// The byte-decomposition cells of a row: columns 54..78 hold `row_ch`, columns 86..114
/// hold `row_maj`.
#[verifier::spinoff_prover]
pub proof fn lemma_byte_cells(seq: u32, t: int, s: Seq<u32>, w: Seq<u32>, ch_limb: u32, maj_limb: u32)
    ensures
        forall|j: int|
            0 <= j < 24 ==> row_with_limbs(seq, t, s, w, ch_limb, maj_limb)[54 + j] == #[trigger] row_ch(s)[j],
        forall|j: int|
            0 <= j < 28 ==> row_with_limbs(seq, t, s, w, ch_limb, maj_limb)[86 + j] == #[trigger] row_maj(s)[j],
        row_ch(s).len() == 24,
        row_maj(s).len() == 28,
{
    reveal(row_with_limbs);
    let a = row_head(seq, t, s, w) + row_sigmas(s);
    let b = a + row_ch(s);
    let c = b + row_t1(s, w, t, ch_limb);
    let d = c + row_maj(s);
    let row = d + row_tail(s, w, t, ch_limb, maj_limb);
    assert(row == row_with_limbs(seq, t, s, w, ch_limb, maj_limb));
    assert(row_head(seq, t, s, w).len() == 50);
    assert(row_sigmas(s).len() == 4);
    assert(row_ch(s).len() == 24);
    assert(row_t1(s, w, t, ch_limb).len() == 8);
    assert(row_maj(s).len() == 28);
    assert forall|j: int| 0 <= j < 24 implies row[54 + j] == #[trigger] row_ch(s)[j] by {
        assert(b[54 + j] == row_ch(s)[j]);
        assert(c[54 + j] == b[54 + j]);
        assert(d[54 + j] == c[54 + j]);
    }
    assert forall|j: int| 0 <= j < 28 implies row[86 + j] == #[trigger] row_maj(s)[j] by {
        assert(d[86 + j] == row_maj(s)[j]);
    }
}

/// The honest raw column values of a round row.
pub open spec fn honest_row(seq: u32, t: int, s: Seq<u32>, w: Seq<u32>) -> Seq<u32> {
    row_with_limbs(seq, t, s, w, spec_ch(s[4], s[5], s[6]), spec_maj(s[0], s[1], s[2]))
}

/// The low 16-bit limb of a word.
pub fn lo16(x: u32) -> (r: u32)
    ensures
        r == lo(x),
{
    assert(x & 0xffff == x % 65536) by (bit_vector);
    x & 0xffff
}

/// The high 16-bit limb of a word.
pub fn hi16(x: u32) -> (r: u32)
    ensures
        r == hi(x),
{
    assert(x >> 16 == x / 65536) by (bit_vector);
    x >> 16
}

fn low_byte(x: u32) -> (r: u32)
    ensures
        r == x % 256,
{
    assert(x & 0xff == x % 256) by (bit_vector);
    x & 0xff
}

fn high_byte(x: u32) -> (r: u32)
    ensures
        r == x / 256,
{
    assert(x >> 8 == x / 256) by (bit_vector);
    x >> 8
}

fn push_limbs(v: &mut Vec<u32>, x: u32)
    ensures
        final(v)@ == old(v)@ + limbs(x),
{
    v.push(lo16(x));
    v.push(hi16(x));
    assert(final(v)@ =~= old(v)@ + limbs(x));
}

fn push_bytes(v: &mut Vec<u32>, x: u32)
    ensures
        final(v)@ == old(v)@ + bytes(x),
{
    let l = lo16(x);
    let h = hi16(x);
    v.push(low_byte(l));
    v.push(high_byte(l));
    v.push(low_byte(h));
    v.push(high_byte(h));
    assert(final(v)@ =~= old(v)@ + bytes(x));
}

fn push_high_bytes(v: &mut Vec<u32>, x: u32)
    ensures
        final(v)@ == old(v)@ + high_bytes(x),
{
    v.push(high_byte(lo16(x)));
    v.push(high_byte(hi16(x)));
    assert(final(v)@ =~= old(v)@ + high_bytes(x));
}

fn row_prefix(seq: u32, t: usize, state: [u32; 8], w: &[u32; 80]) -> (v: Vec<u32>)
    requires
        t < 64,
    ensures
        v@ == row_head(seq, t as int, state@, w@),
{
    let mut v: Vec<u32> = Vec::new();
    v.push(seq);
    v.push(t as u32);
    assert(v@ =~= seq![seq, t as u32]);
    for i in 0..8
        invariant
            v@ == seq![seq, t as u32] + Seq::new(
                2 * i as nat,
                |j: int| if j % 2 == 0 { lo(state[j / 2]) } else { hi(state[j / 2]) },
            ),
    {
        push_limbs(&mut v, state[i]);
        assert(v@ =~= seq![seq, t as u32] + Seq::new(
            2 * (i + 1) as nat,
            |j: int| if j % 2 == 0 { lo(state[j / 2]) } else { hi(state[j / 2]) },
        ));
    }
    assert(v@ =~= seq![seq, t as u32] + state_limbs(state@));
    let ghost prefix = v@;
    for i in 0..16
        invariant
            t < 64,
            v@ == prefix + Seq::new(
                2 * i as nat,
                |j: int| if j % 2 == 0 { lo(w[t + j / 2]) } else { hi(w[t + j / 2]) },
            ),
    {
        push_limbs(&mut v, w[t + i]);
        assert(v@ =~= prefix + Seq::new(
            2 * (i + 1) as nat,
            |j: int| if j % 2 == 0 { lo(w[t + j / 2]) } else { hi(w[t + j / 2]) },
        ));
    }
    assert(v@ =~= prefix + window_limbs(w@, t as int));
    v
}

fn sigma_values(state: [u32; 8]) -> (v: Vec<u32>)
    ensures
        v@ == row_sigmas(state@),
{
    let mut v: Vec<u32> = Vec::new();
    push_limbs(&mut v, big_sigma_1(state[4]));
    push_limbs(&mut v, big_sigma_0(state[0]));
    assert(v@ =~= row_sigmas(state@));
    v
}

fn ch_values(state: [u32; 8]) -> (v: Vec<u32>)
    ensures
        v@ == row_ch(state@),
{
    let e = state[4];
    let f = state[5];
    let g = state[6];
    let ne = !e;
    let chv = ch(e, f, g);
    let mut v: Vec<u32> = Vec::new();
    push_high_bytes(&mut v, e);
    push_high_bytes(&mut v, f);
    push_bytes(&mut v, e & f);
    push_limbs(&mut v, ne);
    push_high_bytes(&mut v, ne);
    push_high_bytes(&mut v, g);
    push_bytes(&mut v, ne & g);
    push_bytes(&mut v, chv);
    push_limbs(&mut v, chv);
    assert(v@ =~= row_ch(state@));
    v
}

fn t1_values(state: [u32; 8], w: &[u32; 80], t: usize, ch_limb: u32) -> (v: Vec<u32>)
    requires
        t < 64,
    ensures
        v@ == row_t1(state@, w@, t as int, ch_limb),
{
    let k = K[t];
    let s1 = wadd(wadd(state[7], big_sigma_1(state[4])), ch_limb);
    let t1 = wadd(wadd(s1, k), w[t]);
    let mut v: Vec<u32> = Vec::new();
    push_limbs(&mut v, ch_limb);
    push_limbs(&mut v, k);
    push_limbs(&mut v, s1);
    push_limbs(&mut v, t1);
    assert(v@ =~= row_t1(state@, w@, t as int, ch_limb));
    v
}

fn maj_values(state: [u32; 8]) -> (v: Vec<u32>)
    ensures
        v@ == row_maj(state@),
{
    let a = state[0];
    let b = state[1];
    let c = state[2];
    let ab = a & b;
    let ac = a & c;
    let bc = b & c;
    let majv = maj(a, b, c);
    let mut v: Vec<u32> = Vec::new();
    push_high_bytes(&mut v, a);
    push_high_bytes(&mut v, b);
    push_high_bytes(&mut v, c);
    push_bytes(&mut v, ab);
    push_bytes(&mut v, ac);
    push_bytes(&mut v, bc);
    push_bytes(&mut v, ab ^ ac);
    push_bytes(&mut v, majv);
    push_limbs(&mut v, majv);
    assert(v@ =~= row_maj(state@));
    v
}

fn tail_values(state: [u32; 8], w: &[u32; 80], t: usize, ch_limb: u32, maj_limb: u32) -> (v: Vec<
    u32,
>)
    requires
        t < 64,
    ensures
        v@ == row_tail(state@, w@, t as int, ch_limb, maj_limb),
{
    let s1 = wadd(wadd(state[7], big_sigma_1(state[4])), ch_limb);
    let t1 = wadd(wadd(s1, K[t]), w[t]);
    let t2 = wadd(big_sigma_0(state[0]), maj_limb);
    let mut v: Vec<u32> = Vec::new();
    push_limbs(&mut v, maj_limb);
    push_limbs(&mut v, t2);
    push_limbs(&mut v, w[t + 16]);
    push_limbs(&mut v, wadd(state[3], t1));
    push_limbs(&mut v, wadd(t1, t2));
    v.push(1);
    assert(v@ =~= row_tail(state@, w@, t as int, ch_limb, maj_limb));
    v
}

/// The raw values of one row; `ch_limb` and `maj_limb` are the words written to the
/// consumed Ch/Maj limb columns and added into T1/T2.
fn row_values(
    seq: u32,
    t: usize,
    state: [u32; 8],
    w: &[u32; 80],
    ch_limb: u32,
    maj_limb: u32,
) -> (v: Vec<u32>)
    requires
        t < 64,
    ensures
        v@ == row_with_limbs(seq, t as int, state@, w@, ch_limb, maj_limb),
        v@.len() == N_TRACE_COLUMNS,
{
    proof {
        reveal(row_with_limbs);
        lemma_row_len(seq, t as int, state@, w@, ch_limb, maj_limb);
    }
    let mut v = row_prefix(seq, t, state, w);
    let mut x = sigma_values(state);
    v.append(&mut x);
    let mut x = ch_values(state);
    v.append(&mut x);
    let mut x = t1_values(state, w, t, ch_limb);
    v.append(&mut x);
    let mut x = maj_values(state);
    v.append(&mut x);
    let mut x = tail_values(state, w, t, ch_limb, maj_limb);
    v.append(&mut x);
    v
}

/// A raw value as an M31 column cell, `x mod p`.
pub open spec fn m31_of(x: u32) -> M31 {
    M31((x as int % p()) as u32)
}

/// `cols` is a trace of `N_TRACE_COLUMNS` columns of `n_rows` cells each.
pub open spec fn trace_shape(cols: Seq<Vec<M31>>, n_rows: int) -> bool {
    &&& cols.len() == N_TRACE_COLUMNS
    &&& forall|c: int| 0 <= c < N_TRACE_COLUMNS ==> #[trigger] cols[c]@.len() == n_rows
}

/// `cols` has the round component's columns, each holding a cell at `row`.
pub open spec fn covers_row(cols: Seq<Vec<M31>>, row: int) -> bool {
    &&& cols.len() >= N_TRACE_COLUMNS
    &&& forall|c: int| 0 <= c < N_TRACE_COLUMNS ==> row < #[trigger] cols[c]@.len()
}

/// `new` is `old` with the cells of the round component's columns at `row` replaced by
/// `cell`; every column keeps its length.
pub open spec fn row_written(
    old: Seq<Vec<M31>>,
    new: Seq<Vec<M31>>,
    row: int,
    cell: spec_fn(int) -> M31,
) -> bool {
    &&& new.len() == old.len()
    &&& forall|c: int| 0 <= c < old.len() ==> #[trigger] new[c]@.len() == old[c]@.len()
    &&& forall|c: int, r: int|
        0 <= c < old.len() && 0 <= r < old[c]@.len() ==> #[trigger] new[c]@[r] == if r == row
            && c < N_TRACE_COLUMNS {
            cell(c)
        } else {
            old[c]@[r]
        }
}

/// Writes the raw values `vals` of one row into the trace at `row`.
fn write_row(cols: &mut Vec<Vec<M31>>, row: usize, vals: &Vec<u32>)
    requires
        covers_row(old(cols)@, row as int),
        vals@.len() == N_TRACE_COLUMNS,
    ensures
        row_written(old(cols)@, final(cols)@, row as int, |c: int| m31_of(vals@[c])),
{
    for c in 0..N_TRACE_COLUMNS
        invariant
            covers_row(old(cols)@, row as int),
            vals@.len() == N_TRACE_COLUMNS,
            cols@.len() == old(cols)@.len(),
            forall|c2: int| 0 <= c2 < old(cols)@.len() ==> #[trigger] cols@[c2]@.len() == old(cols)@[c2]@.len(),
            forall|c2: int, r: int|
                0 <= c2 < old(cols)@.len() && 0 <= r < old(cols)@[c2]@.len() ==> #[trigger] cols@[c2]@[r]
                    == if r == row && c2 < c {
                    m31_of(vals@[c2])
                } else {
                    old(cols)@[c2]@[r]
                },
    {
        assert(row < cols@[c as int]@.len());
        cols[c][row] = M31::from_u32(vals[c]);
    }
}

/// Fill one row. `state` = (a..h) entering round `t`; `w` = 80-word extended schedule.
fn fill_row(cols: &mut Vec<Vec<M31>>, row: usize, seq: u32, t: usize, state: [u32; 8], w: &[u32; 80])
    requires
        covers_row(old(cols)@, row as int),
        t < 64,
    ensures
        row_written(
            old(cols)@,
            final(cols)@,
            row as int,
            |c: int| m31_of(honest_row(seq, t as int, state@, w@)[c]),
        ),
{
    let vals = row_values(
        seq,
        t,
        state,
        w,
        ch(state[4], state[5], state[6]),
        maj(state[0], state[1], state[2]),
    );
    write_row(cols, row, &vals);
}

/// One compression's worth of round-component inputs.
#[derive(Clone, Copy)]
pub struct CompressionInput {
    pub h_in: [u32; 8],
    pub block: [u32; 16],
}

/// The base trace (125 columns) plus per-compression reference outputs.
pub struct RoundTrace {
    pub log_size: u32,
    /// `N_TRACE_COLUMNS` columns of `1 << log_size` rows.
    pub cols: Vec<Vec<M31>>,
    /// Reference state after 64 rounds (pre-feed-forward), one per compression.
    pub final_states: Vec<[u32; 8]>,
}

/// `n` is a power of two.
pub open spec fn is_power_of_two(n: nat) -> bool
    decreases n,
{
    if n == 1 {
        true
    } else if n == 0 || n % 2 == 1 {
        false
    } else {
        is_power_of_two(n / 2)
    }
}

/// The base-2 logarithm of a power of two.
pub open spec fn log2(n: nat) -> nat
    decreases n,
{
    if n <= 1 {
        0
    } else {
        1 + log2(n / 2)
    }
}

/// The 80-word extended schedule of a block.
pub open spec fn schedule80(block: Seq<u32>) -> Seq<u32> {
    Seq::new(80, |i: int| schedule_word(block, i as nat))
}

/// The honest value of cell `c` of row `r` of the trace of `inputs`: row `r` is round
/// `r % 64` of compression `r / 64`.
pub open spec fn honest_cell(inputs: Seq<CompressionInput>, r: int, c: int) -> M31 {
    let s = r / 64;
    let t = r % 64;
    m31_of(
        honest_row(
            s as u32,
            t,
            rounds(inputs[s].h_in@, inputs[s].block@, t as nat),
            schedule80(inputs[s].block@),
        )[c],
    )
}

proof fn lemma_row_index(s: int, t: int)
    requires
        0 <= s,
        0 <= t < 64,
    ensures
        (s * 64 + t) / 64 == s,
        (s * 64 + t) % 64 == t,
{
    vstd::arithmetic::div_mod::lemma_fundamental_div_mod(s * 64 + t, 64);
    let q = (s * 64 + t) / 64;
    let m = (s * 64 + t) % 64;
    assert(q == s) by (nonlinear_arith)
        requires
            s * 64 + t == 64 * q + m,
            0 <= m < 64,
            0 <= t < 64,
    ;
}

fn log_size_of(n: usize) -> (r: u32)
    requires
        is_power_of_two(n as nat),
    ensures
        r == log2(n as nat),
{
    proof {
        vstd::arithmetic::power2::lemma2_to64();
        lemma_log2_lt(n as nat, 64);
    }
    let mut m = n;
    let mut log: u32 = 0;
    while m > 1
        invariant
            is_power_of_two(m as nat),
            log + log2(m as nat) == log2(n as nat),
            log2(n as nat) <= 64,
        decreases m,
    {
        m = m / 2;
        log = log + 1;
    }
    log
}

proof fn lemma_log2_lt(n: nat, k: nat)
    requires
        1 <= n < vstd::arithmetic::power2::pow2(k),
    ensures
        log2(n) < k,
    decreases n,
{
    vstd::arithmetic::power2::lemma2_to64();
    if n > 1 {
        vstd::arithmetic::power2::lemma_pow2_unfold(k);
        lemma_log2_lt(n / 2, (k - 1) as nat);
    }
}

proof fn lemma_power_of_two_times_64(n: nat)
    requires
        is_power_of_two(n),
    ensures
        is_power_of_two(n * 64),
{
    assert(is_power_of_two(n * 2)) by {
        assert((n * 2) / 2 == n);
    }
    assert(is_power_of_two(n * 4)) by {
        assert((n * 4) / 2 == n * 2);
    }
    assert(is_power_of_two(n * 8)) by {
        assert((n * 8) / 2 == n * 4);
    }
    assert(is_power_of_two(n * 16)) by {
        assert((n * 16) / 2 == n * 8);
    }
    assert(is_power_of_two(n * 32)) by {
        assert((n * 32) / 2 == n * 16);
    }
    assert((n * 64) / 2 == n * 32);
}

fn zero_trace(n_rows: usize) -> (cols: Vec<Vec<M31>>)
    ensures
        trace_shape(cols@, n_rows as int),
{
    let mut cols: Vec<Vec<M31>> = Vec::new();
    for c in 0..N_TRACE_COLUMNS
        invariant
            cols@.len() == c,
            forall|c2: int| 0 <= c2 < c ==> #[trigger] cols@[c2]@.len() == n_rows,
    {
        let mut col: Vec<M31> = Vec::new();
        for r in 0..n_rows
            invariant
                col@.len() == r,
        {
            col.push(M31(0));
        }
        cols.push(col);
    }
    cols
}

/// Fill the 125-column base trace for `inputs.len()` compressions (a power of two, so
/// rows = 64 * n fills the domain exactly and every row is enabled).
pub fn build_round_trace(inputs: &[CompressionInput]) -> (r: RoundTrace)
    requires
        is_power_of_two(inputs@.len() as nat),
        inputs@.len() * 64 <= usize::MAX,
    ensures
        r.log_size == log2(inputs@.len() * 64),
        trace_shape(r.cols@, (inputs@.len() * 64) as int),
        forall|c: int, row: int|
            0 <= c < N_TRACE_COLUMNS && 0 <= row < inputs@.len() * 64 ==> #[trigger] r.cols@[c]@[row]
                == honest_cell(inputs@, row, c),
        r.final_states@.len() == inputs@.len(),
        forall|s: int|
            0 <= s < inputs@.len() ==> #[trigger] r.final_states@[s]@ == rounds(
                inputs@[s].h_in@,
                inputs@[s].block@,
                64,
            ),
{
    let n = inputs.len();
    let n_rows = n * 64;
    proof {
        lemma_power_of_two_times_64(n as nat);
    }
    let log_size = log_size_of(n_rows);
    let mut cols = zero_trace(n_rows);
    let mut final_states: Vec<[u32; 8]> = Vec::new();
    for s in 0..n
        invariant
            n == inputs@.len(),
            n_rows == n * 64,
            trace_shape(cols@, n_rows as int),
            forall|c: int, row: int|
                0 <= c < N_TRACE_COLUMNS && 0 <= row < s * 64 ==> #[trigger] cols@[c]@[row]
                    == honest_cell(inputs@, row, c),
            final_states@.len() == s,
            forall|s2: int|
                0 <= s2 < s ==> #[trigger] final_states@[s2]@ == rounds(
                    inputs@[s2].h_in@,
                    inputs@[s2].block@,
                    64,
                ),
    {
        let input = inputs[s];
        let w = message_schedule_80(&input.block);
        assert(w@ =~= schedule80(input.block@));
        let mut state = input.h_in;
        assert(state@ == rounds(input.h_in@, input.block@, 0));
        for t in 0..64
            invariant
                n == inputs@.len(),
                n_rows == n * 64,
                s < n,
                input == inputs@[s as int],
                w@ == schedule80(input.block@),
                state@ == rounds(input.h_in@, input.block@, t as nat),
                trace_shape(cols@, n_rows as int),
                forall|c: int, row: int|
                    0 <= c < N_TRACE_COLUMNS && 0 <= row < s * 64 + t ==> #[trigger] cols@[c]@[row]
                        == honest_cell(inputs@, row, c),
        {
            let row = s * 64 + t;
            proof {
                lemma_row_index(s as int, t as int);
            }
            fill_row(&mut cols, row, s as u32, t, state, &w);
            state = round(state, w[t], K[t]);
        }
        final_states.push(state);
    }
    RoundTrace { log_size, cols, final_states }
}


/// The 32-bit word held by the limb pair `(lo_col, hi_col)` at `row`, read as
/// `lo | (hi << 16)`.
pub open spec fn word_at(cols: Seq<Vec<M31>>, row: int, lo_col: int, hi_col: int) -> u32 {
    cols[lo_col]@[row].0 | (cols[hi_col]@[row].0 << 16u32)
}

fn u32_at(cols: &Vec<Vec<M31>>, row: usize, lo_col: usize, hi_col: usize) -> (r: u32)
    requires
        lo_col < cols@.len(),
        hi_col < cols@.len(),
        row < cols@[lo_col as int]@.len(),
        row < cols@[hi_col as int]@.len(),
    ensures
        r == word_at(cols@, row as int, lo_col as int, hi_col as int),
{
    cols[lo_col][row].0 | (cols[hi_col][row].0 << 16)
}

fn m(x: u32) -> (r: M31)
    ensures
        r == m31_of(x),
{
    M31::from_u32(x)
}

/// The raw values a Ch forgery to `forged` writes into `row`, by column: the consumed Ch
/// limbs, then h + Σ1 + Ch, T1, new e and new a recomputed from the row's words.
pub open spec fn forged_ch_cell(cols: Seq<Vec<M31>>, row: int, forged: u32, c: int) -> Option<u32> {
    let s1 = add32(add32(word_at(cols, row, 16, 17), word_at(cols, row, 50, 51)), forged);
    let t1 = add32(add32(s1, word_at(cols, row, 80, 81)), word_at(cols, row, 18, 19));
    let new_e = add32(word_at(cols, row, 8, 9), t1);
    let new_a = add32(t1, word_at(cols, row, 116, 117));
    if c == 78 {
        Some(lo(forged))
    } else if c == 79 {
        Some(hi(forged))
    } else if c == 82 {
        Some(lo(s1))
    } else if c == 83 {
        Some(hi(s1))
    } else if c == 84 {
        Some(lo(t1))
    } else if c == 85 {
        Some(hi(t1))
    } else if c == 120 {
        Some(lo(new_e))
    } else if c == 121 {
        Some(hi(new_e))
    } else if c == 122 {
        Some(lo(new_a))
    } else if c == 123 {
        Some(hi(new_a))
    } else {
        None
    }
}

/// The state entering the next round after a Ch forgery of `row`: (new a, a, b, c,
/// new e, e, f, g).
pub open spec fn forged_ch_next(cols: Seq<Vec<M31>>, row: int, forged: u32) -> Seq<u32> {
    let s1 = add32(add32(word_at(cols, row, 16, 17), word_at(cols, row, 50, 51)), forged);
    let t1 = add32(add32(s1, word_at(cols, row, 80, 81)), word_at(cols, row, 18, 19));
    seq![
        add32(t1, word_at(cols, row, 116, 117)),
        word_at(cols, row, 2, 3),
        word_at(cols, row, 4, 5),
        word_at(cols, row, 6, 7),
        add32(word_at(cols, row, 8, 9), t1),
        word_at(cols, row, 10, 11),
        word_at(cols, row, 12, 13),
        word_at(cols, row, 14, 15),
    ]
}

/// The raw values a Maj forgery to `forged` writes into `row`: the consumed Maj limbs,
/// then T2 and new a recomputed from the row's words.
pub open spec fn forged_maj_cell(cols: Seq<Vec<M31>>, row: int, forged: u32, c: int) -> Option<u32> {
    let t2 = add32(word_at(cols, row, 52, 53), forged);
    let new_a = add32(word_at(cols, row, 84, 85), t2);
    if c == 114 {
        Some(lo(forged))
    } else if c == 115 {
        Some(hi(forged))
    } else if c == 116 {
        Some(lo(t2))
    } else if c == 117 {
        Some(hi(t2))
    } else if c == 122 {
        Some(lo(new_a))
    } else if c == 123 {
        Some(hi(new_a))
    } else {
        None
    }
}

/// The state entering the next round after a Maj forgery of `row`.
pub open spec fn forged_maj_next(cols: Seq<Vec<M31>>, row: int, forged: u32) -> Seq<u32> {
    let t2 = add32(word_at(cols, row, 52, 53), forged);
    seq![
        add32(word_at(cols, row, 84, 85), t2),
        word_at(cols, row, 2, 3),
        word_at(cols, row, 4, 5),
        word_at(cols, row, 6, 7),
        word_at(cols, row, 120, 121),
        word_at(cols, row, 10, 11),
        word_at(cols, row, 12, 13),
        word_at(cols, row, 14, 15),
    ]
}

/// `new` is `old` with the cells of `row` that `cell` names replaced.
pub open spec fn overwritten(
    old: Seq<Vec<M31>>,
    new: Seq<Vec<M31>>,
    row: int,
    cell: spec_fn(int) -> Option<u32>,
) -> bool {
    &&& new.len() == old.len()
    &&& forall|c: int| 0 <= c < old.len() ==> #[trigger] new[c]@.len() == old[c]@.len()
    &&& forall|c: int, r: int|
        0 <= c < old.len() && 0 <= r < old[c]@.len() ==> #[trigger] new[c]@[r] == if r == row
            && cell(c) is Some {
            m31_of(cell(c)->0)
        } else {
            old[c]@[r]
        }
}

fn set_cell(cols: &mut Vec<Vec<M31>>, c: usize, row: usize, v: M31)
    requires
        c < old(cols)@.len(),
        row < old(cols)@[c as int]@.len(),
    ensures
        final(cols)@.len() == old(cols)@.len(),
        forall|c2: int|
            0 <= c2 < old(cols)@.len() ==> #[trigger] final(cols)@[c2]@.len() == old(cols)@[c2]@.len(),
        forall|c2: int, r: int|
            0 <= c2 < old(cols)@.len() && 0 <= r < old(cols)@[c2]@.len()
                ==> #[trigger] final(cols)@[c2]@[r] == if c2 == c && r == row {
                v
            } else {
                old(cols)@[c2]@[r]
            },
{
    cols[c][row] = v;
}

/// Overwrite one row's Ch to `forged_ch`: set the consumed `ch_limb` columns (78/79) and
/// recompute the row's T1 chain, new e and new a. `chl`/`chh` (76/77) stay honest.
/// Returns the forged state (a..h) entering the next round.
fn overwrite_row_forged_ch(cols: &mut Vec<Vec<M31>>, row: usize, forged_ch: u32) -> (r: [u32; 8])
    requires
        covers_row(old(cols)@, row as int),
    ensures
        overwritten(old(cols)@, final(cols)@, row as int, |c: int| forged_ch_cell(old(cols)@, row as int, forged_ch, c)),
        r@ == forged_ch_next(old(cols)@, row as int, forged_ch),
{
    let ghost old_cols = cols@;
    let a = u32_at(cols, row, 2, 3);
    let b = u32_at(cols, row, 4, 5);
    let c = u32_at(cols, row, 6, 7);
    let d = u32_at(cols, row, 8, 9);
    let e = u32_at(cols, row, 10, 11);
    let f = u32_at(cols, row, 12, 13);
    let g = u32_at(cols, row, 14, 15);
    let h = u32_at(cols, row, 16, 17);
    let bs1 = u32_at(cols, row, 50, 51);
    let k = u32_at(cols, row, 80, 81);
    let wt = u32_at(cols, row, 18, 19);
    let t2 = u32_at(cols, row, 116, 117);
    let s1 = wadd(wadd(h, bs1), forged_ch);
    let t1 = wadd(wadd(s1, k), wt);
    let new_e = wadd(d, t1);
    let new_a = wadd(t1, t2);
    set_cell(cols, 78, row, m(lo16(forged_ch)));
    set_cell(cols, 79, row, m(hi16(forged_ch)));
    set_cell(cols, 82, row, m(lo16(s1)));
    set_cell(cols, 83, row, m(hi16(s1)));
    set_cell(cols, 84, row, m(lo16(t1)));
    set_cell(cols, 85, row, m(hi16(t1)));
    set_cell(cols, 120, row, m(lo16(new_e)));
    set_cell(cols, 121, row, m(hi16(new_e)));
    set_cell(cols, 122, row, m(lo16(new_a)));
    set_cell(cols, 123, row, m(hi16(new_a)));
    let r = [new_a, a, b, c, new_e, e, f, g];
    assert(r@ =~= forged_ch_next(old_cols, row as int, forged_ch));
    r
}

/// Overwrite one row's Maj to `forged_maj`: set the consumed `maj_limb` columns
/// (114/115) and recompute T2 (116/117) and new a (122/123). `majl`/`majh` (112/113)
/// stay honest; T1 and new e do not depend on Maj. Returns the forged next state.
fn overwrite_row_forged_maj(cols: &mut Vec<Vec<M31>>, row: usize, forged_maj: u32) -> (r: [u32; 8])
    requires
        covers_row(old(cols)@, row as int),
    ensures
        overwritten(old(cols)@, final(cols)@, row as int, |c: int| forged_maj_cell(old(cols)@, row as int, forged_maj, c)),
        r@ == forged_maj_next(old(cols)@, row as int, forged_maj),
{
    let ghost old_cols = cols@;
    let a = u32_at(cols, row, 2, 3);
    let b = u32_at(cols, row, 4, 5);
    let c = u32_at(cols, row, 6, 7);
    let e = u32_at(cols, row, 10, 11);
    let f = u32_at(cols, row, 12, 13);
    let g = u32_at(cols, row, 14, 15);
    let bs0 = u32_at(cols, row, 52, 53);
    let t1 = u32_at(cols, row, 84, 85);
    let new_e = u32_at(cols, row, 120, 121);
    let t2 = wadd(bs0, forged_maj);
    let new_a = wadd(t1, t2);
    set_cell(cols, 114, row, m(lo16(forged_maj)));
    set_cell(cols, 115, row, m(hi16(forged_maj)));
    set_cell(cols, 116, row, m(lo16(t2)));
    set_cell(cols, 117, row, m(hi16(t2)));
    set_cell(cols, 122, row, m(lo16(new_a)));
    set_cell(cols, 123, row, m(hi16(new_a)));
    let r = [new_a, a, b, c, new_e, e, f, g];
    assert(r@ =~= forged_maj_next(old_cols, row as int, forged_maj));
    r
}

/// Forge the Ch value of a single row the way a malicious prover would: overwrite the
/// unconstrained ch_limb columns (78/79) and recompute that row's downstream columns
/// (T1 chain, new e, new a). The next row's input state is left as it was.
pub fn forge_ch(trace: &mut RoundTrace, row: usize, forged_ch: u32)
    requires
        covers_row(old(trace).cols@, row as int),
    ensures
        final(trace).log_size == old(trace).log_size,
        final(trace).final_states@ == old(trace).final_states@,
        overwritten(
            old(trace).cols@,
            final(trace).cols@,
            row as int,
            |c: int| forged_ch_cell(old(trace).cols@, row as int, forged_ch, c),
        ),
{
    let _ = overwrite_row_forged_ch(&mut trace.cols, row, forged_ch);
}


/// Which round-choice function to forge, and to what value.
#[derive(Clone, Copy)]
pub enum Forge {
    Ch(u32),
    Maj(u32),
}

/// One round computed with the given consumed Ch and Maj words in place of Ch(e, f, g)
/// and Maj(a, b, c).
pub open spec fn round_with_limbs(s: Seq<u32>, wt: u32, kt: u32, ch_limb: u32, maj_limb: u32) -> Seq<
    u32,
> {
    let t1 = add32(add32(add32(add32(s[7], spec_big_sigma_1(s[4])), ch_limb), kt), wt);
    let t2 = add32(spec_big_sigma_0(s[0]), maj_limb);
    seq![add32(t1, t2), s[0], s[1], s[2], add32(s[3], t1), s[4], s[5], s[6]]
}

/// The consumed (Ch, Maj) words of a forged round entered with state `s`.
pub open spec fn forge_limbs(s: Seq<u32>, forge: Forge) -> (u32, u32) {
    match forge {
        Forge::Ch(v) => (v, spec_maj(s[0], s[1], s[2])),
        Forge::Maj(v) => (spec_ch(s[4], s[5], s[6]), v),
    }
}

/// The state after the first `n` rounds of compressing `block` from `h` when round
/// `forge_t` is forged and every later round is computed honestly on the forged state.
pub open spec fn forged_rounds(h: Seq<u32>, block: Seq<u32>, n: nat, forge_t: int, forge: Forge) -> Seq<
    u32,
>
    decreases n,
{
    if n == 0 {
        h
    } else {
        let s = forged_rounds(h, block, (n - 1) as nat, forge_t, forge);
        let wt = schedule_word(block, (n - 1) as nat);
        if n - 1 == forge_t {
            round_with_limbs(s, wt, K[n - 1], forge_limbs(s, forge).0, forge_limbs(s, forge).1)
        } else {
            spec_round(s, wt, K[n - 1])
        }
    }
}

/// Cell `c` of row `r` of the trace of `inputs` with round `forge_t` of compression
/// `forge_seq` forged and the forgery propagated through the later rounds.
pub open spec fn forged_cell(
    inputs: Seq<CompressionInput>,
    forge_seq: int,
    forge_t: int,
    forge: Forge,
    r: int,
    c: int,
) -> M31 {
    let s = r / 64;
    let t = r % 64;
    if s != forge_seq {
        honest_cell(inputs, r, c)
    } else {
        let block = inputs[s].block@;
        let st = forged_rounds(inputs[s].h_in@, block, t as nat, forge_t, forge);
        if t == forge_t {
            m31_of(
                row_with_limbs(
                    s as u32,
                    t,
                    st,
                    schedule80(block),
                    forge_limbs(st, forge).0,
                    forge_limbs(st, forge).1,
                )[c],
            )
        } else {
            m31_of(honest_row(s as u32, t, st, schedule80(block))[c])
        }
    }
}

/// The honest round is the round with the honest Ch and Maj words.
pub proof fn lemma_round_is_round_with_limbs(s: Seq<u32>, wt: u32, kt: u32)
    ensures
        spec_round(s, wt, kt) == round_with_limbs(
            s,
            wt,
            kt,
            spec_ch(s[4], s[5], s[6]),
            spec_maj(s[0], s[1], s[2]),
        ),
{
}

proof fn lemma_word_of_limbs(x: u32)
    ensures
        (lo(x) | (hi(x) << 16u32)) == x,
        lo(x) < 65536,
        hi(x) < 65536,
{
    assert((x & 0xffff) | ((x >> 16u32) << 16u32) == x) by (bit_vector);
    assert(x & 0xffff == x % 65536) by (bit_vector);
    assert(x >> 16u32 == x / 65536) by (bit_vector);
}

proof fn lemma_small_cell(v: u32)
    requires
        v < 65536,
    ensures
        m31_of(v) == M31(v),
{
    vstd::arithmetic::div_mod::lemma_small_mod(v as nat, p() as nat);
}

/// Columns outside the ones a Ch or Maj forgery rewrites do not depend on the consumed
/// Ch and Maj words.
#[verifier::spinoff_prover]
#[verifier::rlimit(100)]
pub proof fn lemma_row_limb_independence(
    seq: u32,
    t: int,
    s: Seq<u32>,
    w: Seq<u32>,
    cl1: u32,
    ml1: u32,
    cl2: u32,
    ml2: u32,
    c: int,
)
    requires
        0 <= c < N_TRACE_COLUMNS,
        cl1 != cl2 ==> !(c == 78 || c == 79 || (82 <= c <= 85) || (120 <= c <= 123)),
        ml1 != ml2 ==> !((114 <= c <= 117) || c == 122 || c == 123),
    ensures
        row_with_limbs(seq, t, s, w, cl1, ml1)[c] == row_with_limbs(seq, t, s, w, cl2, ml2)[c],
{
    let head = row_head(seq, t, s, w) + row_sigmas(s) + row_ch(s);
    assert(head.len() == 78);
    let r1 = head + row_t1(s, w, t, cl1) + row_maj(s) + row_tail(s, w, t, cl1, ml1);
    let r2 = head + row_t1(s, w, t, cl2) + row_maj(s) + row_tail(s, w, t, cl2, ml2);
    assert(r1 == row_with_limbs(seq, t, s, w, cl1, ml1)) by {
        reveal(row_with_limbs);
    }
    assert(r2 == row_with_limbs(seq, t, s, w, cl2, ml2)) by {
        reveal(row_with_limbs);
    }
    assert(row_t1(s, w, t, cl1).len() == 8);
    assert(row_t1(s, w, t, cl2).len() == 8);
    assert(row_maj(s).len() == 28);
    if c < 78 {
        assert(r1[c] == head[c]);
        assert(r2[c] == head[c]);
    } else if c < 86 {
        assert(r1[c] == row_t1(s, w, t, cl1)[c - 78]);
        assert(r2[c] == row_t1(s, w, t, cl2)[c - 78]);
    } else if c < 114 {
        assert(r1[c] == row_maj(s)[c - 86]);
        assert(r2[c] == row_maj(s)[c - 86]);
    } else {
        assert(r1[c] == row_tail(s, w, t, cl1, ml1)[c - 114]);
        assert(r2[c] == row_tail(s, w, t, cl2, ml2)[c - 114]);
    }
}


/// On an honest row, the word of each limb pair the forgeries read is the word the row
/// was built from.
#[verifier::spinoff_prover]
proof fn lemma_honest_words(cols: Seq<Vec<M31>>, row: int, seq: u32, t: int, s: Seq<u32>, w: Seq<u32>)
    requires
        trace_shape(cols, cols[0]@.len() as int),
        0 <= row < cols[0]@.len(),
        forall|c: int|
            0 <= c < N_TRACE_COLUMNS ==> #[trigger] cols[c]@[row] == m31_of(
                honest_row(seq, t, s, w)[c],
            ),
    ensures
        forall|i: int| 0 <= i < 8 ==> word_at(cols, row, 2 + 2 * i, 3 + 2 * i) == #[trigger] s[i],
        word_at(cols, row, 18, 19) == w[t],
        word_at(cols, row, 50, 51) == spec_big_sigma_1(s[4]),
        word_at(cols, row, 52, 53) == spec_big_sigma_0(s[0]),
        word_at(cols, row, 80, 81) == K[t],
        word_at(cols, row, 84, 85) == t1_with(s, w, t, spec_ch(s[4], s[5], s[6])),
        word_at(cols, row, 116, 117) == t2_with(s, spec_maj(s[0], s[1], s[2])),
        word_at(cols, row, 120, 121) == add32(s[3], t1_with(s, w, t, spec_ch(s[4], s[5], s[6]))),
{
    let ch = spec_ch(s[4], s[5], s[6]);
    let maj = spec_maj(s[0], s[1], s[2]);
    lemma_row_cells(seq, t, s, w, ch, maj);
    let hr = honest_row(seq, t, s, w);
    assert forall|i: int| 0 <= i < 8 implies word_at(cols, row, 2 + 2 * i, 3 + 2 * i) == #[trigger] s[i] by {
        lemma_word_at_limbs(cols, row, 2 + 2 * i, 3 + 2 * i, s[i]);
    }
    assert(hr[18int] == lo(w[t]) && hr[19int] == hi(w[t]));
    lemma_word_at_limbs(cols, row, 18, 19, w[t]);
    lemma_word_at_limbs(cols, row, 50, 51, spec_big_sigma_1(s[4]));
    lemma_word_at_limbs(cols, row, 52, 53, spec_big_sigma_0(s[0]));
    lemma_word_at_limbs(cols, row, 80, 81, K[t]);
    lemma_word_at_limbs(cols, row, 84, 85, t1_with(s, w, t, ch));
    lemma_word_at_limbs(cols, row, 116, 117, t2_with(s, maj));
    lemma_word_at_limbs(cols, row, 120, 121, add32(s[3], t1_with(s, w, t, ch)));
}

/// A limb pair whose cells hold the limbs of `x` reads back as `x`.
pub proof fn lemma_word_at_limbs(cols: Seq<Vec<M31>>, row: int, lo_col: int, hi_col: int, x: u32)
    requires
        cols[lo_col]@[row] == m31_of(lo(x)),
        cols[hi_col]@[row] == m31_of(hi(x)),
    ensures
        word_at(cols, row, lo_col, hi_col) == x,
{
    lemma_word_of_limbs(x);
    lemma_small_cell(lo(x));
    lemma_small_cell(hi(x));
}

/// A Ch forgery of an honest row gives the row built with the forged Ch word, and the
/// round computed with it.
#[verifier::spinoff_prover]
pub proof fn lemma_forge_ch_on_honest_row(
    cols: Seq<Vec<M31>>,
    row: int,
    seq: u32,
    t: int,
    s: Seq<u32>,
    w: Seq<u32>,
    forged: u32,
)
    requires
        trace_shape(cols, cols[0]@.len() as int),
        0 <= row < cols[0]@.len(),
        forall|c: int|
            0 <= c < N_TRACE_COLUMNS ==> #[trigger] cols[c]@[row] == m31_of(
                honest_row(seq, t, s, w)[c],
            ),
    ensures
        forall|c: int|
            0 <= c < N_TRACE_COLUMNS ==> (if forged_ch_cell(cols, row, forged, c) is Some {
                m31_of(forged_ch_cell(cols, row, forged, c)->0)
            } else {
                cols[c]@[row]
            }) == m31_of(
                #[trigger] row_with_limbs(seq, t, s, w, forged, spec_maj(s[0], s[1], s[2]))[c],
            ),
        forged_ch_next(cols, row, forged) == round_with_limbs(
            s,
            w[t],
            K[t],
            forged,
            spec_maj(s[0], s[1], s[2]),
        ),
{
    let ch = spec_ch(s[4], s[5], s[6]);
    let maj = spec_maj(s[0], s[1], s[2]);
    lemma_honest_words(cols, row, seq, t, s, w);
    lemma_row_cells(seq, t, s, w, forged, maj);
    assert(word_at(cols, row, 16, 17) == s[7]);
    assert(word_at(cols, row, 8, 9) == s[3]);
    assert(word_at(cols, row, 2, 3) == s[0]);
    assert(word_at(cols, row, 4, 5) == s[1]);
    assert(word_at(cols, row, 6, 7) == s[2]);
    assert(word_at(cols, row, 10, 11) == s[4]);
    assert(word_at(cols, row, 12, 13) == s[5]);
    assert(word_at(cols, row, 14, 15) == s[6]);
    assert forall|c: int| 0 <= c < N_TRACE_COLUMNS implies (if forged_ch_cell(cols, row, forged, c) is Some {
        m31_of(forged_ch_cell(cols, row, forged, c)->0)
    } else {
        cols[c]@[row]
    }) == m31_of(#[trigger] row_with_limbs(seq, t, s, w, forged, maj)[c]) by {
        if forged_ch_cell(cols, row, forged, c) is None {
            lemma_row_limb_independence(seq, t, s, w, ch, maj, forged, maj, c);
        }
    }
    assert(forged_ch_next(cols, row, forged) =~= round_with_limbs(s, w[t], K[t], forged, maj));
}

/// A Maj forgery of an honest row gives the row built with the forged Maj word, and the
/// round computed with it.
#[verifier::spinoff_prover]
pub proof fn lemma_forge_maj_on_honest_row(
    cols: Seq<Vec<M31>>,
    row: int,
    seq: u32,
    t: int,
    s: Seq<u32>,
    w: Seq<u32>,
    forged: u32,
)
    requires
        trace_shape(cols, cols[0]@.len() as int),
        0 <= row < cols[0]@.len(),
        forall|c: int|
            0 <= c < N_TRACE_COLUMNS ==> #[trigger] cols[c]@[row] == m31_of(
                honest_row(seq, t, s, w)[c],
            ),
    ensures
        forall|c: int|
            0 <= c < N_TRACE_COLUMNS ==> (if forged_maj_cell(cols, row, forged, c) is Some {
                m31_of(forged_maj_cell(cols, row, forged, c)->0)
            } else {
                cols[c]@[row]
            }) == m31_of(
                #[trigger] row_with_limbs(seq, t, s, w, spec_ch(s[4], s[5], s[6]), forged)[c],
            ),
        forged_maj_next(cols, row, forged) == round_with_limbs(
            s,
            w[t],
            K[t],
            spec_ch(s[4], s[5], s[6]),
            forged,
        ),
{
    let ch = spec_ch(s[4], s[5], s[6]);
    let maj = spec_maj(s[0], s[1], s[2]);
    lemma_honest_words(cols, row, seq, t, s, w);
    lemma_row_cells(seq, t, s, w, ch, forged);
    lemma_row_cells(seq, t, s, w, ch, maj);
    assert(word_at(cols, row, 2, 3) == s[0]);
    assert(word_at(cols, row, 4, 5) == s[1]);
    assert(word_at(cols, row, 6, 7) == s[2]);
    assert(word_at(cols, row, 10, 11) == s[4]);
    assert(word_at(cols, row, 12, 13) == s[5]);
    assert(word_at(cols, row, 14, 15) == s[6]);
    assert forall|c: int| 0 <= c < N_TRACE_COLUMNS implies (if forged_maj_cell(cols, row, forged, c) is Some {
        m31_of(forged_maj_cell(cols, row, forged, c)->0)
    } else {
        cols[c]@[row]
    }) == m31_of(#[trigger] row_with_limbs(seq, t, s, w, ch, forged)[c]) by {
        if forged_maj_cell(cols, row, forged, c) is None {
            lemma_row_limb_independence(seq, t, s, w, ch, maj, ch, forged, c);
        }
    }
    assert(forged_maj_next(cols, row, forged) =~= round_with_limbs(s, w[t], K[t], ch, forged));
}


/// Build a trace with a propagated forgery: the Ch (or Maj) of round `forge_t` of
/// compression `forge_seq` is forged, and the corrupted state is carried honestly through
/// every later round, so the round chain stays consistent across all rows.
/// `final_states[forge_seq]` is the forged post-64-round state.
pub fn build_round_trace_forge(
    inputs: &[CompressionInput],
    forge_seq: usize,
    forge_t: usize,
    forge: Forge,
) -> (r: RoundTrace)
    requires
        is_power_of_two(inputs@.len() as nat),
        inputs@.len() * 64 <= usize::MAX,
    ensures
        r.log_size == log2(inputs@.len() * 64),
        trace_shape(r.cols@, (inputs@.len() * 64) as int),
        forall|c: int, row: int|
            0 <= c < N_TRACE_COLUMNS && 0 <= row < inputs@.len() * 64 ==> #[trigger] r.cols@[c]@[row]
                == forged_cell(inputs@, forge_seq as int, forge_t as int, forge, row, c),
        r.final_states@.len() == inputs@.len(),
        forall|s: int|
            0 <= s < inputs@.len() ==> #[trigger] r.final_states@[s]@ == if s == forge_seq {
                forged_rounds(inputs@[s].h_in@, inputs@[s].block@, 64, forge_t as int, forge)
            } else {
                rounds(inputs@[s].h_in@, inputs@[s].block@, 64)
            },
{
    let n = inputs.len();
    let n_rows = n * 64;
    proof {
        lemma_power_of_two_times_64(n as nat);
    }
    let log_size = log_size_of(n_rows);
    let mut cols = zero_trace(n_rows);
    let mut final_states: Vec<[u32; 8]> = Vec::new();
    for s in 0..n
        invariant
            n == inputs@.len(),
            n_rows == n * 64,
            trace_shape(cols@, n_rows as int),
            forall|c: int, row: int|
                0 <= c < N_TRACE_COLUMNS && 0 <= row < s * 64 ==> #[trigger] cols@[c]@[row]
                    == forged_cell(inputs@, forge_seq as int, forge_t as int, forge, row, c),
            final_states@.len() == s,
            forall|s2: int|
                0 <= s2 < s ==> #[trigger] final_states@[s2]@ == if s2 == forge_seq {
                    forged_rounds(inputs@[s2].h_in@, inputs@[s2].block@, 64, forge_t as int, forge)
                } else {
                    rounds(inputs@[s2].h_in@, inputs@[s2].block@, 64)
                },
    {
        let input = inputs[s];
        let w = message_schedule_80(&input.block);
        assert(w@ =~= schedule80(input.block@));
        let mut state = input.h_in;
        let ghost forged_here = s == forge_seq;
        for t in 0..64
            invariant
                n == inputs@.len(),
                n_rows == n * 64,
                s < n,
                forged_here == (s == forge_seq),
                input == inputs@[s as int],
                w@ == schedule80(input.block@),
                state@ == if forged_here {
                    forged_rounds(input.h_in@, input.block@, t as nat, forge_t as int, forge)
                } else {
                    rounds(input.h_in@, input.block@, t as nat)
                },
                trace_shape(cols@, n_rows as int),
                forall|c: int, row: int|
                    0 <= c < N_TRACE_COLUMNS && 0 <= row < s * 64 + t ==> #[trigger] cols@[c]@[row]
                        == forged_cell(inputs@, forge_seq as int, forge_t as int, forge, row, c),
        {
            let row = s * 64 + t;
            proof {
                lemma_row_index(s as int, t as int);
            }
            fill_row(&mut cols, row, s as u32, t, state, &w);
            let ghost filled = cols@;
            if s == forge_seq && t == forge_t {
                let next = match forge {
                    Forge::Ch(v) => overwrite_row_forged_ch(&mut cols, row, v),
                    Forge::Maj(v) => overwrite_row_forged_maj(&mut cols, row, v),
                };
                proof {
                    lemma_forged_row(filled, cols@, row as int, s as u32, t as int, state@, w@, forge, next@);
                }
                state = next;
            } else {
                state = round(state, w[t as usize], K[t]);
            }
            assert forall|c: int, r2: int|
                0 <= c < N_TRACE_COLUMNS && 0 <= r2 < s * 64 + t + 1 implies #[trigger] cols@[c]@[r2]
                    == forged_cell(inputs@, forge_seq as int, forge_t as int, forge, r2, c) by {
                if r2 == row {
                    assert(r2 / 64 == s && r2 % 64 == t);
                }
            }
        }
        final_states.push(state);
    }
    RoundTrace { log_size, cols, final_states }
}

/// A forgery applied to an honest row yields the forged row's cells and the forged
/// round's next state.
#[verifier::spinoff_prover]
proof fn lemma_forged_row(
    filled: Seq<Vec<M31>>,
    after: Seq<Vec<M31>>,
    row: int,
    seq: u32,
    t: int,
    s: Seq<u32>,
    w: Seq<u32>,
    forge: Forge,
    next: Seq<u32>,
)
    requires
        trace_shape(filled, filled[0]@.len() as int),
        0 <= row < filled[0]@.len(),
        forall|c: int|
            0 <= c < N_TRACE_COLUMNS ==> #[trigger] filled[c]@[row] == m31_of(
                honest_row(seq, t, s, w)[c],
            ),
        match forge {
            Forge::Ch(v) => overwritten(filled, after, row, |c: int| forged_ch_cell(filled, row, v, c))
                && next == forged_ch_next(filled, row, v),
            Forge::Maj(v) => overwritten(filled, after, row, |c: int| forged_maj_cell(filled, row, v, c))
                && next == forged_maj_next(filled, row, v),
        },
    ensures
        trace_shape(after, filled[0]@.len() as int),
        forall|c: int, r: int|
            0 <= c < N_TRACE_COLUMNS && 0 <= r < filled[0]@.len() && r != row ==> #[trigger] after[c]@[r]
                == filled[c]@[r],
        forall|c: int|
            0 <= c < N_TRACE_COLUMNS ==> #[trigger] after[c]@[row] == m31_of(
                row_with_limbs(seq, t, s, w, forge_limbs(s, forge).0, forge_limbs(s, forge).1)[c],
            ),
        next == round_with_limbs(s, w[t], K[t], forge_limbs(s, forge).0, forge_limbs(s, forge).1),
{
    match forge {
        Forge::Ch(v) => {
            lemma_forge_ch_on_honest_row(filled, row, seq, t, s, w, v);
            assert forall|c: int| 0 <= c < N_TRACE_COLUMNS implies #[trigger] after[c]@[row] == m31_of(
                row_with_limbs(seq, t, s, w, v, spec_maj(s[0], s[1], s[2]))[c],
            ) by {
                assert(after[c]@[row] == (if forged_ch_cell(filled, row, v, c) is Some {
                    m31_of(forged_ch_cell(filled, row, v, c)->0)
                } else {
                    filled[c]@[row]
                }));
            }
        },
        Forge::Maj(v) => {
            lemma_forge_maj_on_honest_row(filled, row, seq, t, s, w, v);
            assert forall|c: int| 0 <= c < N_TRACE_COLUMNS implies #[trigger] after[c]@[row] == m31_of(
                row_with_limbs(seq, t, s, w, spec_ch(s[4], s[5], s[6]), v)[c],
            ) by {
                assert(after[c]@[row] == (if forged_maj_cell(filled, row, v, c) is Some {
                    m31_of(forged_maj_cell(filled, row, v, c)->0)
                } else {
                    filled[c]@[row]
                }));
            }
        },
    }
}

} // verus!
