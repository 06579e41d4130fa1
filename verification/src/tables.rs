//! Every table lookup that a row of a built trace makes is a true entry of its table: the
//! bitwise AND/XOR byte triples, the Σ words, the round constant and the schedule window.
//! With the round self-relation balancing along the chain (`soundness`), nothing the
//! lookups check tells a forged trace from an honest one.
use crate::lookups::{
    ch_lookups, chain_lookups, k_lookups, lo8, maj_and_lookups, maj_xor_lookups, mmul, msub,
    all_16_bit, col_range, pair_word, row_lookup_spec, sigma_lookups, table_entry_holds,
};
use crate::m31::{p, M31};
use crate::reference::{schedule_word, spec_big_sigma_0, spec_big_sigma_1, spec_ch, spec_maj, K};
use crate::relations::Relation;
use crate::soundness::{trace_cells, trace_limbs, trace_state};
use crate::witness::{
    bytes, hi, high_bytes, lemma_byte_cells, lemma_row_cells, lo, m31_of, row_ch, row_maj,
    row_with_limbs, schedule80, CompressionInput, Forge,
};
use vstd::prelude::*;

verus! {

/// A 16-bit raw value is its own field element.
proof fn lemma_small(v: u32)
    requires
        v < 65536,
    ensures
        m31_of(v) == M31(v),
{
    vstd::arithmetic::div_mod::lemma_small_mod(v as nat, p() as nat);
}

/// The bytes of a word, through its limbs.
proof fn lemma_byte_split(x: u32)
    ensures
        lo(x) < 65536,
        hi(x) < 65536,
        bytes(x)[0] == lo(x) % 256,
        bytes(x)[1] == lo(x) / 256,
        bytes(x)[2] == hi(x) % 256,
        bytes(x)[3] == hi(x) / 256,
        high_bytes(x)[0] == lo(x) / 256,
        high_bytes(x)[1] == hi(x) / 256,
        bytes(x)[0] < 256,
        bytes(x)[1] < 256,
        bytes(x)[2] < 256,
        bytes(x)[3] < 256,
{
}

/// The low byte of a 16-bit limb, as the field computes it from the limb and its high byte.
proof fn lemma_lo8(l: u32)
    requires
        l < 65536,
    ensures
        lo8(M31(l), M31(l / 256)) == M31(l % 256),
{
    let q = l / 256;
    vstd::arithmetic::div_mod::lemma_fundamental_div_mod(l as int, 256);
    assert(q * 256 < p());
    vstd::arithmetic::div_mod::lemma_small_mod((q * 256) as nat, p() as nat);
    assert(mmul(M31(q), M31(256)) == M31((q * 256) as u32));
    vstd::arithmetic::div_mod::lemma_small_mod((l % 256) as nat, p() as nat);
    assert(l - q * 256 == l % 256);
    assert(msub(M31(l), M31((q * 256) as u32)) == M31(l % 256));
}

/// The bytes of `x & y` are the ANDs of the bytes.
proof fn lemma_and_bytes(x: u32, y: u32)
    ensures
        bytes(x & y)[0] == bytes(x)[0] & bytes(y)[0],
        bytes(x & y)[1] == bytes(x)[1] & bytes(y)[1],
        bytes(x & y)[2] == bytes(x)[2] & bytes(y)[2],
        bytes(x & y)[3] == bytes(x)[3] & bytes(y)[3],
{
    assert(((x & y) % 65536) % 256 == ((x % 65536) % 256) & ((y % 65536) % 256)) by (bit_vector);
    assert(((x & y) % 65536) / 256 == ((x % 65536) / 256) & ((y % 65536) / 256)) by (bit_vector);
    assert(((x & y) / 65536) % 256 == ((x / 65536) % 256) & ((y / 65536) % 256)) by (bit_vector);
    assert(((x & y) / 65536) / 256 == ((x / 65536) / 256) & ((y / 65536) / 256)) by (bit_vector);
}

/// The bytes of `x ^ y` are the XORs of the bytes.
proof fn lemma_xor_bytes(x: u32, y: u32)
    ensures
        bytes(x ^ y)[0] == bytes(x)[0] ^ bytes(y)[0],
        bytes(x ^ y)[1] == bytes(x)[1] ^ bytes(y)[1],
        bytes(x ^ y)[2] == bytes(x)[2] ^ bytes(y)[2],
        bytes(x ^ y)[3] == bytes(x)[3] ^ bytes(y)[3],
{
    assert(((x ^ y) % 65536) % 256 == ((x % 65536) % 256) ^ ((y % 65536) % 256)) by (bit_vector);
    assert(((x ^ y) % 65536) / 256 == ((x % 65536) / 256) ^ ((y % 65536) / 256)) by (bit_vector);
    assert(((x ^ y) / 65536) % 256 == ((x / 65536) % 256) ^ ((y / 65536) % 256)) by (bit_vector);
    assert(((x ^ y) / 65536) / 256 == ((x / 65536) / 256) ^ ((y / 65536) / 256)) by (bit_vector);
}

/// The cells of a raw row, taken into the field.
pub open spec fn cells_of(row: Seq<u32>) -> spec_fn(int) -> M31 {
    |i: int| m31_of(row[i])
}

/// The field elements of the limbs and the low bytes of the limbs of a word that the AND
/// lookups read: `lo8` of each limb with its high byte.
proof fn lemma_word_bytes_in_field(x: u32)
    ensures
        m31_of(lo(x)) == M31(lo(x)),
        m31_of(hi(x)) == M31(hi(x)),
        m31_of(lo(x) / 256) == M31(bytes(x)[1]),
        m31_of(hi(x) / 256) == M31(bytes(x)[3]),
        lo8(M31(lo(x)), M31(lo(x) / 256)) == M31(bytes(x)[0]),
        lo8(M31(hi(x)), M31(hi(x) / 256)) == M31(bytes(x)[2]),
        m31_of(bytes(x)[0]) == M31(bytes(x)[0]),
        m31_of(bytes(x)[1]) == M31(bytes(x)[1]),
        m31_of(bytes(x)[2]) == M31(bytes(x)[2]),
        m31_of(bytes(x)[3]) == M31(bytes(x)[3]),
{
    lemma_byte_split(x);
    lemma_small(lo(x));
    lemma_small(hi(x));
    lemma_small(bytes(x)[0]);
    lemma_small(bytes(x)[1]);
    lemma_small(bytes(x)[2]);
    lemma_small(bytes(x)[3]);
    lemma_lo8(lo(x));
    lemma_lo8(hi(x));
}

/// An AND lookup of byte `k` of two words is a table entry.
proof fn lemma_and_triple(x: u32, y: u32, k: int)
    requires
        0 <= k < 4,
    ensures
        table_entry_holds(
            Relation::VerifyBitwiseAnd_8,
            seq![M31(bytes(x)[k]), M31(bytes(y)[k]), M31(bytes(x & y)[k])],
        ),
{
    lemma_byte_split(x);
    lemma_byte_split(y);
    lemma_and_bytes(x, y);
}

/// An XOR lookup of byte `k` of two words is a table entry.
proof fn lemma_xor_triple(x: u32, y: u32, k: int)
    requires
        0 <= k < 4,
    ensures
        table_entry_holds(
            Relation::VerifyBitwiseXor_8,
            seq![M31(bytes(x)[k]), M31(bytes(y)[k]), M31(bytes(x ^ y)[k])],
        ),
{
    lemma_byte_split(x);
    lemma_byte_split(y);
    lemma_xor_bytes(x, y);
}

/// The cells of the Ch region of a raw row.
#[verifier::spinoff_prover]
proof fn lemma_ch_cells(seq: u32, t: int, s: Seq<u32>, w: Seq<u32>, cl: u32, ml: u32)
    ensures
        ({
            let c = cells_of(row_with_limbs(seq, t, s, w, cl, ml));
            let (e, f, g) = (s[4], s[5], s[6]);
            let ne = !e;
            let ch = spec_ch(e, f, g);
            &&& c(10) == M31(lo(e)) && c(11) == M31(hi(e))
            &&& c(12) == M31(lo(f)) && c(13) == M31(hi(f))
            &&& c(14) == M31(lo(g)) && c(15) == M31(hi(g))
            &&& c(54) == M31(bytes(e)[1]) && c(55) == M31(bytes(e)[3])
            &&& c(56) == M31(bytes(f)[1]) && c(57) == M31(bytes(f)[3])
            &&& c(58) == M31(bytes(e & f)[0]) && c(59) == M31(bytes(e & f)[1])
            &&& c(60) == M31(bytes(e & f)[2]) && c(61) == M31(bytes(e & f)[3])
            &&& c(62) == M31(lo(ne)) && c(63) == M31(hi(ne))
            &&& c(64) == M31(bytes(ne)[1]) && c(65) == M31(bytes(ne)[3])
            &&& c(66) == M31(bytes(g)[1]) && c(67) == M31(bytes(g)[3])
            &&& c(68) == M31(bytes(ne & g)[0]) && c(69) == M31(bytes(ne & g)[1])
            &&& c(70) == M31(bytes(ne & g)[2]) && c(71) == M31(bytes(ne & g)[3])
            &&& c(72) == M31(bytes(ch)[0]) && c(73) == M31(bytes(ch)[1])
            &&& c(74) == M31(bytes(ch)[2]) && c(75) == M31(bytes(ch)[3])
        }),
{
    let row = row_with_limbs(seq, t, s, w, cl, ml);
    let (e, f, g) = (s[4], s[5], s[6]);
    let ne = !e;
    lemma_state_cells(seq, t, s, w, cl, ml);
    lemma_byte_cells(seq, t, s, w, cl, ml);
    lemma_row_ch_elements(s);
    assert(row[10] == lo(e) && row[11] == hi(e));
    assert(row[12] == lo(f) && row[13] == hi(f));
    assert(row[14] == lo(g) && row[15] == hi(g));
    let rc = row_ch(s);
    assert(row[54] == rc[0] && row[55] == rc[1] && row[56] == rc[2] && row[57] == rc[3]);
    assert(row[58] == rc[4] && row[59] == rc[5] && row[60] == rc[6] && row[61] == rc[7]);
    assert(row[62] == rc[8] && row[63] == rc[9] && row[64] == rc[10] && row[65] == rc[11]);
    assert(row[66] == rc[12] && row[67] == rc[13] && row[68] == rc[14] && row[69] == rc[15]);
    assert(row[70] == rc[16] && row[71] == rc[17] && row[72] == rc[18] && row[73] == rc[19]);
    assert(row[74] == rc[20] && row[75] == rc[21]);
    lemma_word_bytes_in_field(e);
    lemma_word_bytes_in_field(f);
    lemma_word_bytes_in_field(g);
    lemma_word_bytes_in_field(ne);
    lemma_word_bytes_in_field(e & f);
    lemma_word_bytes_in_field(ne & g);
    lemma_word_bytes_in_field(spec_ch(e, f, g));
}

/// The state-limb cells of a raw row.
#[verifier::spinoff_prover]
proof fn lemma_state_cells(seq: u32, t: int, s: Seq<u32>, w: Seq<u32>, cl: u32, ml: u32)
    ensures
        forall|i: int|
            0 <= i < 8 ==> row_with_limbs(seq, t, s, w, cl, ml)[2 + 2 * i] == lo(#[trigger] s[i])
                && row_with_limbs(seq, t, s, w, cl, ml)[3 + 2 * i] == hi(s[i]),
{
    lemma_row_cells(seq, t, s, w, cl, ml);
}

/// The elements of the Ch region, one by one.
proof fn lemma_row_ch_elements(s: Seq<u32>)
    ensures
        ({
            let rc = row_ch(s);
            let (e, f, g) = (s[4], s[5], s[6]);
            let ne = !e;
            &&& rc[0] == bytes(e)[1] && rc[1] == bytes(e)[3]
            &&& rc[2] == bytes(f)[1] && rc[3] == bytes(f)[3]
            &&& rc[4] == bytes(e & f)[0] && rc[5] == bytes(e & f)[1]
            &&& rc[6] == bytes(e & f)[2] && rc[7] == bytes(e & f)[3]
            &&& rc[8] == lo(ne) && rc[9] == hi(ne)
            &&& rc[10] == bytes(ne)[1] && rc[11] == bytes(ne)[3]
            &&& rc[12] == bytes(g)[1] && rc[13] == bytes(g)[3]
            &&& rc[14] == bytes(ne & g)[0] && rc[15] == bytes(ne & g)[1]
            &&& rc[16] == bytes(ne & g)[2] && rc[17] == bytes(ne & g)[3]
            &&& rc[18] == bytes(spec_ch(e, f, g))[0] && rc[19] == bytes(spec_ch(e, f, g))[1]
            &&& rc[20] == bytes(spec_ch(e, f, g))[2] && rc[21] == bytes(spec_ch(e, f, g))[3]
        }),
{
    let (e, f, g) = (s[4], s[5], s[6]);
    let ne = !e;
    lemma_byte_split(e);
    lemma_byte_split(f);
    lemma_byte_split(g);
    lemma_byte_split(ne);
}

/// The Ch lookups of a row are table entries.
#[verifier::spinoff_prover]
proof fn lemma_ch_tables(seq: u32, t: int, s: Seq<u32>, w: Seq<u32>, cl: u32, ml: u32)
    ensures
        forall|j: int|
            0 <= j < 12 ==> table_entry_holds(
                #[trigger] ch_lookups(cells_of(row_with_limbs(seq, t, s, w, cl, ml)))[j].0,
                ch_lookups(cells_of(row_with_limbs(seq, t, s, w, cl, ml)))[j].2,
            ),
{
    let c = cells_of(row_with_limbs(seq, t, s, w, cl, ml));
    let (e, f, g) = (s[4], s[5], s[6]);
    let ne = !e;
    lemma_ch_cells(seq, t, s, w, cl, ml);
    lemma_word_bytes_in_field(e);
    lemma_word_bytes_in_field(f);
    lemma_word_bytes_in_field(g);
    lemma_word_bytes_in_field(ne);
    lemma_byte_split(e);
    lemma_byte_split(f);
    lemma_byte_split(g);
    lemma_byte_split(ne);
    let ls = ch_lookups(c);
    assert forall|j: int| 0 <= j < 12 implies table_entry_holds(#[trigger] ls[j].0, ls[j].2) by {
        if j < 4 {
            lemma_and_triple(e, f, j);
        } else if j < 8 {
            lemma_and_triple(ne, g, j - 4);
        } else {
            lemma_xor_triple(e & f, ne & g, j - 8);
        }
    }
}

/// A word is the pair word of its limbs.
proof fn lemma_pair_word(x: u32)
    ensures
        pair_word(M31(lo(x)), M31(hi(x))) == x,
        lo(x) < 65536,
        hi(x) < 65536,
{
    vstd::arithmetic::div_mod::lemma_fundamental_div_mod(x as int, 65536);
}

/// The elements of the Maj region, one by one.
proof fn lemma_row_maj_elements(s: Seq<u32>)
    ensures
        ({
            let rm = row_maj(s);
            let (a, b, c) = (s[0], s[1], s[2]);
            &&& rm[0] == bytes(a)[1] && rm[1] == bytes(a)[3]
            &&& rm[2] == bytes(b)[1] && rm[3] == bytes(b)[3]
            &&& rm[4] == bytes(c)[1] && rm[5] == bytes(c)[3]
            &&& forall|k: int| 0 <= k < 4 ==> rm[6 + k] == #[trigger] bytes(a & b)[k]
            &&& forall|k: int| 0 <= k < 4 ==> rm[10 + k] == #[trigger] bytes(a & c)[k]
            &&& forall|k: int| 0 <= k < 4 ==> rm[14 + k] == #[trigger] bytes(b & c)[k]
            &&& forall|k: int| 0 <= k < 4 ==> rm[18 + k] == #[trigger] bytes((a & b) ^ (a & c))[k]
            &&& forall|k: int| 0 <= k < 4 ==> rm[22 + k] == #[trigger] bytes(spec_maj(a, b, c))[k]
        }),
{
    let (a, b, c) = (s[0], s[1], s[2]);
    lemma_byte_split(a);
    lemma_byte_split(b);
    lemma_byte_split(c);
}

/// The cells of the Maj region of a raw row.
#[verifier::spinoff_prover]
proof fn lemma_maj_cells(seq: u32, t: int, s: Seq<u32>, w: Seq<u32>, cl: u32, ml: u32)
    ensures
        ({
            let cc = cells_of(row_with_limbs(seq, t, s, w, cl, ml));
            let (a, b, c) = (s[0], s[1], s[2]);
            &&& cc(2) == M31(lo(a)) && cc(3) == M31(hi(a))
            &&& cc(4) == M31(lo(b)) && cc(5) == M31(hi(b))
            &&& cc(6) == M31(lo(c)) && cc(7) == M31(hi(c))
            &&& cc(86) == M31(bytes(a)[1]) && cc(87) == M31(bytes(a)[3])
            &&& cc(88) == M31(bytes(b)[1]) && cc(89) == M31(bytes(b)[3])
            &&& cc(90) == M31(bytes(c)[1]) && cc(91) == M31(bytes(c)[3])
            &&& forall|k: int| 0 <= k < 4 ==> cc(92 + k) == M31(#[trigger] bytes(a & b)[k])
            &&& forall|k: int| 0 <= k < 4 ==> cc(96 + k) == M31(#[trigger] bytes(a & c)[k])
            &&& forall|k: int| 0 <= k < 4 ==> cc(100 + k) == M31(#[trigger] bytes(b & c)[k])
            &&& forall|k: int| 0 <= k < 4 ==> cc(104 + k) == M31(
                #[trigger] bytes((a & b) ^ (a & c))[k],
            )
            &&& forall|k: int| 0 <= k < 4 ==> cc(108 + k) == M31(#[trigger] bytes(spec_maj(a, b, c))[k])
        }),
{
    let row = row_with_limbs(seq, t, s, w, cl, ml);
    let cc = cells_of(row);
    let (a, b, c) = (s[0], s[1], s[2]);
    lemma_state_cells(seq, t, s, w, cl, ml);
    lemma_byte_cells(seq, t, s, w, cl, ml);
    lemma_row_maj_elements(s);
    assert(row[2] == lo(a) && row[3] == hi(a));
    assert(row[4] == lo(b) && row[5] == hi(b));
    assert(row[6] == lo(c) && row[7] == hi(c));
    lemma_word_bytes_in_field(a);
    lemma_word_bytes_in_field(b);
    lemma_word_bytes_in_field(c);
    lemma_word_bytes_in_field(a & b);
    lemma_word_bytes_in_field(a & c);
    lemma_word_bytes_in_field(b & c);
    lemma_word_bytes_in_field((a & b) ^ (a & c));
    lemma_word_bytes_in_field(spec_maj(a, b, c));
    let rm = row_maj(s);
    assert(row[86] == rm[0] && row[87] == rm[1] && row[88] == rm[2] && row[89] == rm[3]);
    assert(row[90] == rm[4] && row[91] == rm[5]);
    assert forall|k: int| 0 <= k < 4 implies cc(92 + k) == M31(#[trigger] bytes(a & b)[k]) by {
        assert(row[86 + (6 + k)] == rm[6 + k]);
    }
    assert forall|k: int| 0 <= k < 4 implies cc(96 + k) == M31(#[trigger] bytes(a & c)[k]) by {
        assert(row[86 + (10 + k)] == rm[10 + k]);
    }
    assert forall|k: int| 0 <= k < 4 implies cc(100 + k) == M31(#[trigger] bytes(b & c)[k]) by {
        assert(row[86 + (14 + k)] == rm[14 + k]);
    }
    assert forall|k: int| 0 <= k < 4 implies cc(104 + k) == M31(#[trigger] bytes((a & b) ^ (a & c))[k]) by {
        assert(row[86 + (18 + k)] == rm[18 + k]);
    }
    assert forall|k: int| 0 <= k < 4 implies cc(108 + k) == M31(#[trigger] bytes(spec_maj(a, b, c))[k]) by {
        assert(row[86 + (22 + k)] == rm[22 + k]);
    }
}

/// The Maj AND and XOR lookups of a row are table entries.
#[verifier::spinoff_prover]
proof fn lemma_maj_tables(seq: u32, t: int, s: Seq<u32>, w: Seq<u32>, cl: u32, ml: u32)
    ensures
        forall|j: int|
            0 <= j < 12 ==> table_entry_holds(
                #[trigger] maj_and_lookups(cells_of(row_with_limbs(seq, t, s, w, cl, ml)))[j].0,
                maj_and_lookups(cells_of(row_with_limbs(seq, t, s, w, cl, ml)))[j].2,
            ),
        forall|j: int|
            0 <= j < 8 ==> table_entry_holds(
                #[trigger] maj_xor_lookups(cells_of(row_with_limbs(seq, t, s, w, cl, ml)))[j].0,
                maj_xor_lookups(cells_of(row_with_limbs(seq, t, s, w, cl, ml)))[j].2,
            ),
{
    let cc = cells_of(row_with_limbs(seq, t, s, w, cl, ml));
    let (a, b, c) = (s[0], s[1], s[2]);
    lemma_maj_cells(seq, t, s, w, cl, ml);
    lemma_word_bytes_in_field(a);
    lemma_word_bytes_in_field(b);
    lemma_word_bytes_in_field(c);
    lemma_byte_split(a);
    lemma_byte_split(b);
    lemma_byte_split(c);
    let la = maj_and_lookups(cc);
    assert forall|j: int| 0 <= j < 12 implies table_entry_holds(#[trigger] la[j].0, la[j].2) by {
        if j < 4 {
            assert(cc(92 + j) == M31(bytes(a & b)[j]));
            lemma_and_triple(a, b, j);
        } else if j < 8 {
            assert(cc(96 + (j - 4)) == M31(bytes(a & c)[j - 4]));
            lemma_and_triple(a, c, j - 4);
        } else {
            assert(cc(100 + (j - 8)) == M31(bytes(b & c)[j - 8]));
            lemma_and_triple(b, c, j - 8);
        }
    }
    let lx = maj_xor_lookups(cc);
    assert forall|j: int| 0 <= j < 8 implies table_entry_holds(#[trigger] lx[j].0, lx[j].2) by {
        if j < 4 {
            assert(cc(92 + j) == M31(bytes(a & b)[j]));
            assert(cc(96 + j) == M31(bytes(a & c)[j]));
            assert(cc(104 + j) == M31(bytes((a & b) ^ (a & c))[j]));
            lemma_xor_triple(a & b, a & c, j);
        } else {
            let k = j - 4;
            assert(cc(104 + k) == M31(bytes((a & b) ^ (a & c))[k]));
            assert(cc(100 + k) == M31(bytes(b & c)[k]));
            assert(cc(108 + k) == M31(bytes(spec_maj(a, b, c))[k]));
            lemma_xor_triple((a & b) ^ (a & c), b & c, k);
        }
    }
}

/// The limbs of a word are their own field elements.
proof fn lemma_limbs_in_field(x: u32)
    ensures
        m31_of(lo(x)) == M31(lo(x)),
        m31_of(hi(x)) == M31(hi(x)),
{
    lemma_pair_word(x);
    lemma_small(lo(x));
    lemma_small(hi(x));
}

/// A Σ1 lookup of a word is a table entry.
proof fn lemma_sigma1_entry(x: u32)
    ensures
        table_entry_holds(
            Relation::Sha256BigSigma1,
            seq![M31(lo(x)), M31(hi(x)), M31(lo(spec_big_sigma_1(x))), M31(hi(spec_big_sigma_1(x)))],
        ),
{
    lemma_pair_word(x);
    lemma_pair_word(spec_big_sigma_1(x));
    let tu = seq![M31(lo(x)), M31(hi(x)), M31(lo(spec_big_sigma_1(x))), M31(hi(spec_big_sigma_1(x)))];
    assert(all_16_bit(tu));
}

/// A Σ0 lookup of a word is a table entry.
proof fn lemma_sigma0_entry(x: u32)
    ensures
        table_entry_holds(
            Relation::Sha256BigSigma0,
            seq![M31(lo(x)), M31(hi(x)), M31(lo(spec_big_sigma_0(x))), M31(hi(spec_big_sigma_0(x)))],
        ),
{
    lemma_pair_word(x);
    lemma_pair_word(spec_big_sigma_0(x));
    let tu = seq![M31(lo(x)), M31(hi(x)), M31(lo(spec_big_sigma_0(x))), M31(hi(spec_big_sigma_0(x)))];
    assert(all_16_bit(tu));
}

/// A K-table lookup of round `t` is a table entry.
proof fn lemma_k_entry(t: int)
    requires
        0 <= t < 64,
    ensures
        table_entry_holds(Relation::Sha256KTable, seq![M31(t as u32), M31(lo(K[t])), M31(hi(K[t]))]),
{
    lemma_pair_word(K[t]);
    let tu = seq![M31(t as u32), M31(lo(K[t])), M31(hi(K[t]))];
    assert(all_16_bit(tu));
}

/// The Σ and K-table lookups of a row are table entries.
proof fn lemma_sigma_k_tables(seq: u32, t: int, s: Seq<u32>, w: Seq<u32>, cl: u32, ml: u32)
    requires
        0 <= t < 64,
    ensures
        ({
            let cc = cells_of(row_with_limbs(seq, t, s, w, cl, ml));
            &&& table_entry_holds(sigma_lookups(cc)[0].0, sigma_lookups(cc)[0].2)
            &&& table_entry_holds(sigma_lookups(cc)[1].0, sigma_lookups(cc)[1].2)
            &&& table_entry_holds(k_lookups(cc)[0].0, k_lookups(cc)[0].2)
        }),
{
    let row = row_with_limbs(seq, t, s, w, cl, ml);
    let cc = cells_of(row);
    lemma_state_cells(seq, t, s, w, cl, ml);
    lemma_sigma_k_cells(seq, t, s, w, cl, ml);
    let bs1 = spec_big_sigma_1(s[4]);
    let bs0 = spec_big_sigma_0(s[0]);
    assert(row[10] == lo(s[4]) && row[11] == hi(s[4]));
    assert(row[2] == lo(s[0]) && row[3] == hi(s[0]));
    lemma_limbs_in_field(s[4]);
    lemma_limbs_in_field(s[0]);
    lemma_limbs_in_field(bs1);
    lemma_limbs_in_field(bs0);
    lemma_limbs_in_field(K[t]);
    lemma_small(t as u32);
    lemma_sigma1_entry(s[4]);
    lemma_sigma0_entry(s[0]);
    lemma_k_entry(t);
    assert(sigma_lookups(cc)[0].2 == seq![M31(lo(s[4])), M31(hi(s[4])), M31(lo(bs1)), M31(hi(bs1))]);
    assert(sigma_lookups(cc)[1].2 == seq![M31(lo(s[0])), M31(hi(s[0])), M31(lo(bs0)), M31(hi(bs0))]);
    assert(k_lookups(cc)[0].2 == seq![M31(t as u32), M31(lo(K[t])), M31(hi(K[t]))]);
}

/// The round-counter, Σ and K cells of a raw row.
#[verifier::spinoff_prover]
proof fn lemma_sigma_k_cells(seq: u32, t: int, s: Seq<u32>, w: Seq<u32>, cl: u32, ml: u32)
    ensures
        row_with_limbs(seq, t, s, w, cl, ml)[1] == t as u32,
        row_with_limbs(seq, t, s, w, cl, ml)[50] == lo(spec_big_sigma_1(s[4])),
        row_with_limbs(seq, t, s, w, cl, ml)[51] == hi(spec_big_sigma_1(s[4])),
        row_with_limbs(seq, t, s, w, cl, ml)[52] == lo(spec_big_sigma_0(s[0])),
        row_with_limbs(seq, t, s, w, cl, ml)[53] == hi(spec_big_sigma_0(s[0])),
        row_with_limbs(seq, t, s, w, cl, ml)[80] == lo(K[t]),
        row_with_limbs(seq, t, s, w, cl, ml)[81] == hi(K[t]),
{
    lemma_row_cells(seq, t, s, w, cl, ml);
}

/// The schedule-window cells of a raw row.
#[verifier::spinoff_prover]
proof fn lemma_window_cells(seq: u32, t: int, s: Seq<u32>, w: Seq<u32>, cl: u32, ml: u32)
    ensures
        forall|i: int|
            0 <= i < 16 ==> row_with_limbs(seq, t, s, w, cl, ml)[18 + 2 * i] == lo(#[trigger] w[t + i])
                && row_with_limbs(seq, t, s, w, cl, ml)[19 + 2 * i] == hi(w[t + i]),
        row_with_limbs(seq, t, s, w, cl, ml)[118] == lo(w[t + 16]),
        row_with_limbs(seq, t, s, w, cl, ml)[119] == hi(w[t + 16]),
{
    lemma_row_cells(seq, t, s, w, cl, ml);
}

/// The schedule lookup of a row is a table entry: its window is followed by the next
/// schedule word.
proof fn lemma_schedule_table(seq: u32, t: int, s: Seq<u32>, block: Seq<u32>, cl: u32, ml: u32)
    requires
        0 <= t < 64,
    ensures
        ({
            let cc = cells_of(row_with_limbs(seq, t, s, schedule80(block), cl, ml));
            table_entry_holds(chain_lookups(cc)[0].0, chain_lookups(cc)[0].2)
        }),
{
    let w = schedule80(block);
    let row = row_with_limbs(seq, t, s, w, cl, ml);
    let cc = cells_of(row);
    lemma_window_cells(seq, t, s, w, cl, ml);
    let ts = chain_lookups(cc)[0].2;
    assert(ts == col_range(cc, 18, 50) + seq![cc(118), cc(119)]);
    assert forall|i: int| 0 <= i < 16 implies ts[2 * i] == M31(lo(#[trigger] w[t + i])) && ts[2 * i + 1]
        == M31(hi(w[t + i])) && lo(w[t + i]) < 65536 && hi(w[t + i]) < 65536 by {
        lemma_word_bytes_in_field(w[t + i]);
        lemma_pair_word(w[t + i]);
        assert(ts[2 * i] == cc(18 + 2 * i));
        assert(ts[2 * i + 1] == cc(19 + 2 * i));
    }
    lemma_word_bytes_in_field(w[t + 16]);
    lemma_pair_word(w[t + 16]);
    assert(ts[32] == M31(lo(w[t + 16])) && ts[33] == M31(hi(w[t + 16])));
    assert(all_16_bit(ts)) by {
        assert forall|k: int| 0 <= k < ts.len() implies #[trigger] ts[k].0 < 65536 by {
            if k < 32 {
                let i = k / 2;
                assert(ts[2 * i] == M31(lo(w[t + i])) && ts[2 * i + 1] == M31(hi(w[t + i])));
            }
        }
    }
    lemma_pair_word(w[t]);
    lemma_pair_word(w[t + 1]);
    lemma_pair_word(w[t + 9]);
    lemma_pair_word(w[t + 14]);
    assert(ts[0] == M31(lo(w[t + 0])) && ts[1] == M31(hi(w[t + 0])));
    assert(ts[2] == M31(lo(w[t + 1])) && ts[3] == M31(hi(w[t + 1])));
    assert(ts[18] == M31(lo(w[t + 9])) && ts[19] == M31(hi(w[t + 9])));
    assert(ts[28] == M31(lo(w[t + 14])) && ts[29] == M31(hi(w[t + 14])));
    assert(w[t + 16] == schedule_word(block, (t + 16) as nat));
}

/// Where each group of lookups sits among the 38 lookups of a row.
proof fn lemma_lookup_groups(c: spec_fn(int) -> M31)
    ensures
        forall|i: int| 0 <= i < 2 ==> #[trigger] row_lookup_spec(c)[i] == sigma_lookups(c)[i],
        forall|i: int| 2 <= i < 14 ==> #[trigger] row_lookup_spec(c)[i] == ch_lookups(c)[i - 2],
        row_lookup_spec(c)[14] == k_lookups(c)[0],
        forall|i: int| 15 <= i < 27 ==> #[trigger] row_lookup_spec(c)[i] == maj_and_lookups(c)[i - 15],
        forall|i: int| 27 <= i < 35 ==> #[trigger] row_lookup_spec(c)[i] == maj_xor_lookups(c)[i - 27],
        row_lookup_spec(c)[35] == chain_lookups(c)[0],
{
    let a = sigma_lookups(c);
    let b = a + ch_lookups(c);
    let d = b + k_lookups(c);
    let e = d + maj_and_lookups(c);
    let f = e + maj_xor_lookups(c);
    assert(a.len() == 2 && b.len() == 14 && d.len() == 15 && e.len() == 27 && f.len() == 35);
    assert(row_lookup_spec(c) == f + chain_lookups(c));
}

/// Every table lookup of every row of a built trace, forged or not, is a true entry of its
/// table: the AND/XOR byte triples, the Σ words, the round constant and the schedule window.
/// Only the round self-relation (lookups 36 and 37) is not a table lookup.
pub proof fn lemma_table_lookups_hold(
    inputs: Seq<CompressionInput>,
    forge_seq: int,
    forge_t: int,
    forge: Forge,
    r: int,
)
    requires
        0 <= r,
    ensures
        forall|i: int|
            0 <= i < 36 ==> table_entry_holds(
                #[trigger] row_lookup_spec(trace_cells(inputs, forge_seq, forge_t, forge, r))[i].0,
                row_lookup_spec(trace_cells(inputs, forge_seq, forge_t, forge, r))[i].2,
            ),
{
    let s = r / 64;
    let t = r % 64;
    let st = trace_state(inputs, forge_seq, forge_t, forge, s, t);
    let l = trace_limbs(inputs, forge_seq, forge_t, forge, s, t);
    let block = inputs[s].block@;
    let row = row_with_limbs(s as u32, t, st, schedule80(block), l.0, l.1);
    let c = trace_cells(inputs, forge_seq, forge_t, forge, r);
    assert(c =~= cells_of(row));
    lemma_ch_tables(s as u32, t, st, schedule80(block), l.0, l.1);
    lemma_maj_tables(s as u32, t, st, schedule80(block), l.0, l.1);
    lemma_sigma_k_tables(s as u32, t, st, schedule80(block), l.0, l.1);
    lemma_schedule_table(s as u32, t, st, block, l.0, l.1);
    lemma_lookup_groups(c);
    assert forall|i: int| 0 <= i < 36 implies table_entry_holds(
        #[trigger] row_lookup_spec(c)[i].0,
        row_lookup_spec(c)[i].2,
    ) by {
        if 2 <= i < 14 {
            assert(ch_lookups(c)[i - 2] == row_lookup_spec(c)[i]);
        } else if 15 <= i < 27 {
            assert(maj_and_lookups(c)[i - 15] == row_lookup_spec(c)[i]);
        } else if 27 <= i < 35 {
            assert(maj_xor_lookups(c)[i - 27] == row_lookup_spec(c)[i]);
        }
    }
}

} // verus!
