//! What the round traces built by `witness` guarantee, row by row and across rows.
//!
//! Every statement here is about `forged_cell`, the cells of the trace that
//! `build_round_trace_forge` builds; with `forge_seq` outside the inputs that trace is the
//! honest one `build_round_trace` builds (`lemma_unforged_trace_is_honest`).
//!
//! The laws: the round chain is consistent (each row's pushed state is the next row's
//! input state, the last row pushes the reported final state, and the round self-relation
//! pull of a row is the push of the next); each row's T1/T2 sums, Σ values and Ch/Maj
//! recombinations hold whatever the consumed Ch/Maj words are, and so do the `TripleSum32`
//! carry constraints of its T1 sums; the binding equalities `ch_limb == chl/chh`,
//! `maj_limb == majl/majh` hold on every honest row and fail exactly at a forged row whose
//! forged word differs from the honest one; and such a forgery changes the post-64-round
//! state, while one that changes nothing builds the honest trace. The table lookups are in
//! `tables`.
use crate::components::subroutines::verify_triple_sum_32::{
    carry_cubic, carry_high, carry_low, lemma_verify_triple_sum_32, limb_word, limbs_16_bit,
};
use crate::lookups::{
    ch_lookups, chain_lookups, col_range, k_lookups, madd, maj_and_lookups, maj_xor_lookups, mneg,
    row_lookup_spec, sigma_lookups,
};
use crate::m31::{p, M31};
use crate::relations::Relation;
use crate::reference::{add32, rounds, schedule_word, spec_big_sigma_0, spec_big_sigma_1, spec_ch, spec_maj, spec_round, K};
use crate::witness::{
    forge_limbs, forged_cell, forged_rounds, honest_cell, hi, lo, lemma_round_is_round_with_limbs,
    lemma_row_cells, m31_of, round_with_limbs, row_with_limbs, schedule80, t1_with, t2_with,
    partial_t1, CompressionInput, Forge, N_TRACE_COLUMNS, forged_ch_cell, forged_ch_next,
    honest_row, lemma_forge_ch_on_honest_row, lemma_word_at_limbs, overwritten, trace_shape,
    word_at,
};
use vstd::prelude::*;

verus! {

/// The working state entering round `t` of compression `s` of the trace with round
/// `forge_t` of compression `forge_seq` forged.
pub open spec fn trace_state(
    inputs: Seq<CompressionInput>,
    forge_seq: int,
    forge_t: int,
    forge: Forge,
    s: int,
    t: int,
) -> Seq<u32> {
    if s == forge_seq {
        forged_rounds(inputs[s].h_in@, inputs[s].block@, t as nat, forge_t, forge)
    } else {
        rounds(inputs[s].h_in@, inputs[s].block@, t as nat)
    }
}

/// The (Ch, Maj) words consumed by round `t` of compression `s` of that trace.
pub open spec fn trace_limbs(
    inputs: Seq<CompressionInput>,
    forge_seq: int,
    forge_t: int,
    forge: Forge,
    s: int,
    t: int,
) -> (u32, u32) {
    let st = trace_state(inputs, forge_seq, forge_t, forge, s, t);
    if s == forge_seq && t == forge_t {
        forge_limbs(st, forge)
    } else {
        (spec_ch(st[4], st[5], st[6]), spec_maj(st[0], st[1], st[2]))
    }
}

/// The raw values of row `r` of that trace.
pub open spec fn trace_row(
    inputs: Seq<CompressionInput>,
    forge_seq: int,
    forge_t: int,
    forge: Forge,
    r: int,
) -> Seq<u32> {
    let s = r / 64;
    let t = r % 64;
    let l = trace_limbs(inputs, forge_seq, forge_t, forge, s, t);
    row_with_limbs(
        s as u32,
        t,
        trace_state(inputs, forge_seq, forge_t, forge, s, t),
        schedule80(inputs[s].block@),
        l.0,
        l.1,
    )
}

/// The 32-bit word held by the limb pair `(lo_col, lo_col + 1)` of row `r` of that trace.
pub open spec fn trace_word(
    inputs: Seq<CompressionInput>,
    forge_seq: int,
    forge_t: int,
    forge: Forge,
    r: int,
    lo_col: int,
) -> u32 {
    limb_word(
        forged_cell(inputs, forge_seq, forge_t, forge, r, lo_col),
        forged_cell(inputs, forge_seq, forge_t, forge, r, lo_col + 1),
    ) as u32
}

/// The low limb column of word `i` of the state a row pushes to the next round:
/// new a, a, b, c, new e, e, f, g.
pub open spec fn pushed_col(i: int) -> int {
    seq![122int, 2, 4, 6, 120, 10, 12, 14][i]
}

/// The post-64-round state the trace reports for compression `s`.
pub open spec fn reported_final_state(
    inputs: Seq<CompressionInput>,
    forge_seq: int,
    forge_t: int,
    forge: Forge,
    s: int,
) -> Seq<u32> {
    trace_state(inputs, forge_seq, forge_t, forge, s, 64)
}

/// Each cell of the trace is its raw row value taken into the field.
pub proof fn lemma_forged_cell_is_trace_row(
    inputs: Seq<CompressionInput>,
    forge_seq: int,
    forge_t: int,
    forge: Forge,
    r: int,
    c: int,
)
    ensures
        forged_cell(inputs, forge_seq, forge_t, forge, r, c) == m31_of(
            trace_row(inputs, forge_seq, forge_t, forge, r)[c],
        ),
{
}

/// A limb pair written from the limbs of `x` reads back as `x`.
proof fn lemma_cells_word(x: u32)
    ensures
        limb_word(m31_of(lo(x)), m31_of(hi(x))) as u32 == x,
        m31_of(lo(x)) == M31(lo(x)),
        m31_of(hi(x)) == M31(hi(x)),
{
    vstd::arithmetic::div_mod::lemma_small_mod(lo(x) as nat, p() as nat);
    vstd::arithmetic::div_mod::lemma_small_mod(hi(x) as nat, p() as nat);
    vstd::arithmetic::div_mod::lemma_fundamental_div_mod(x as int, 65536);
}

/// Every state of the honest chain has eight words.
proof fn lemma_rounds_len(h: Seq<u32>, b: Seq<u32>, n: nat)
    requires
        h.len() == 8,
    ensures
        rounds(h, b, n).len() == 8,
    decreases n,
{
    if n > 0 {
        lemma_rounds_len(h, b, (n - 1) as nat);
        let prev = rounds(h, b, (n - 1) as nat);
        assert(rounds(h, b, n) == spec_round(prev, schedule_word(b, (n - 1) as nat), K[n - 1]));
    }
}

/// Every state of the forged chain has eight words.
#[verifier::spinoff_prover]
proof fn lemma_forged_rounds_len(h: Seq<u32>, b: Seq<u32>, n: nat, forge_t: int, forge: Forge)
    requires
        h.len() == 8,
    ensures
        forged_rounds(h, b, n, forge_t, forge).len() == 8,
    decreases n,
{
    if n > 0 {
        lemma_forged_rounds_len(h, b, (n - 1) as nat, forge_t, forge);
        let s = forged_rounds(h, b, (n - 1) as nat, forge_t, forge);
        let wt = schedule_word(b, (n - 1) as nat);
        if n - 1 == forge_t {
            let (ch, maj) = forge_limbs(s, forge);
            assert(forged_rounds(h, b, n, forge_t, forge) == round_with_limbs(s, wt, K[n - 1], ch, maj));
        } else {
            assert(forged_rounds(h, b, n, forge_t, forge) == spec_round(s, wt, K[n - 1]));
        }
    }
}

/// Round `t` of compression `s` maps the state entering it to the state entering round
/// `t + 1`, with the round's consumed Ch and Maj words.
proof fn lemma_trace_step(
    inputs: Seq<CompressionInput>,
    forge_seq: int,
    forge_t: int,
    forge: Forge,
    s: int,
    t: int,
)
    requires
        0 <= t < 64,
    ensures
        trace_state(inputs, forge_seq, forge_t, forge, s, t + 1) == round_with_limbs(
            trace_state(inputs, forge_seq, forge_t, forge, s, t),
            schedule80(inputs[s].block@)[t],
            K[t],
            trace_limbs(inputs, forge_seq, forge_t, forge, s, t).0,
            trace_limbs(inputs, forge_seq, forge_t, forge, s, t).1,
        ),
{
    let st = trace_state(inputs, forge_seq, forge_t, forge, s, t);
    lemma_round_is_round_with_limbs(st, schedule_word(inputs[s].block@, t as nat), K[t]);
    assert(((t + 1) - 1) as nat == t as nat);
}

/// The words a row pushes are the next state of its round.
#[verifier::spinoff_prover]
proof fn lemma_pushed_words(
    inputs: Seq<CompressionInput>,
    forge_seq: int,
    forge_t: int,
    forge: Forge,
    r: int,
)
    requires
        0 <= r,
    ensures
        forall|i: int|
            0 <= i < 8 ==> trace_word(inputs, forge_seq, forge_t, forge, r, #[trigger] pushed_col(i))
                == trace_state(inputs, forge_seq, forge_t, forge, r / 64, r % 64 + 1)[i],
        forall|i: int|
            0 <= i < 8 ==> trace_word(inputs, forge_seq, forge_t, forge, r, 2 + 2 * i)
                == #[trigger] trace_state(inputs, forge_seq, forge_t, forge, r / 64, r % 64)[i],
{
    let s = r / 64;
    let t = r % 64;
    let st = trace_state(inputs, forge_seq, forge_t, forge, s, t);
    let l = trace_limbs(inputs, forge_seq, forge_t, forge, s, t);
    let w = schedule80(inputs[s].block@);
    lemma_trace_step(inputs, forge_seq, forge_t, forge, s, t);
    lemma_row_cells(s as u32, t, st, w, l.0, l.1);
    let next = round_with_limbs(st, w[t], K[t], l.0, l.1);
    assert(t1_with(st, w, t, l.0) == add32(add32(add32(add32(st[7], spec_big_sigma_1(st[4])), l.0), K[t]), w[t]));
    assert forall|i: int| 0 <= i < 8 implies trace_word(inputs, forge_seq, forge_t, forge, r, #[trigger] pushed_col(i))
        == next[i] by {
        lemma_cells_word(next[i]);
    }
    assert forall|i: int| 0 <= i < 8 implies trace_word(inputs, forge_seq, forge_t, forge, r, 2 + 2 * i)
        == #[trigger] st[i] by {
        lemma_cells_word(st[i]);
    }
}

/// The round chain is consistent: every row but the last of a compression pushes exactly
/// the state the next row takes as input.
#[verifier::spinoff_prover]
pub proof fn lemma_round_chain(
    inputs: Seq<CompressionInput>,
    forge_seq: int,
    forge_t: int,
    forge: Forge,
    r: int,
)
    requires
        0 <= r,
        r % 64 < 63,
    ensures
        forall|i: int|
            0 <= i < 8 ==> trace_word(inputs, forge_seq, forge_t, forge, r, #[trigger] pushed_col(i))
                == trace_word(inputs, forge_seq, forge_t, forge, r + 1, 2 + 2 * i),
{
    lemma_pushed_words(inputs, forge_seq, forge_t, forge, r);
    lemma_pushed_words(inputs, forge_seq, forge_t, forge, r + 1);
    assert((r + 1) / 64 == r / 64 && (r + 1) % 64 == r % 64 + 1) by {
        vstd::arithmetic::div_mod::lemma_fundamental_div_mod(r, 64);
        vstd::arithmetic::div_mod::lemma_fundamental_div_mod(r + 1, 64);
        assert((r + 1) / 64 == r / 64) by (nonlinear_arith)
            requires
                r == 64 * (r / 64) + r % 64,
                r + 1 == 64 * ((r + 1) / 64) + (r + 1) % 64,
                0 <= r % 64 < 63,
                0 <= (r + 1) % 64 < 64,
        ;
    }
    assert forall|i: int| 0 <= i < 8 implies trace_word(inputs, forge_seq, forge_t, forge, r, #[trigger] pushed_col(i))
        == trace_word(inputs, forge_seq, forge_t, forge, r + 1, 2 + 2 * i) by {
        assert(trace_state(inputs, forge_seq, forge_t, forge, (r + 1) / 64, (r + 1) % 64)[i]
            == trace_word(inputs, forge_seq, forge_t, forge, r + 1, 2 + 2 * i));
    }
}

/// The last row of each compression pushes the post-64-round state the trace reports.
#[verifier::spinoff_prover]
pub proof fn lemma_round_chain_end(
    inputs: Seq<CompressionInput>,
    forge_seq: int,
    forge_t: int,
    forge: Forge,
    r: int,
)
    requires
        0 <= r,
        r % 64 == 63,
    ensures
        forall|i: int|
            0 <= i < 8 ==> trace_word(inputs, forge_seq, forge_t, forge, r, #[trigger] pushed_col(i))
                == reported_final_state(inputs, forge_seq, forge_t, forge, r / 64)[i],
{
    lemma_pushed_words(inputs, forge_seq, forge_t, forge, r);
}

/// The forgery changes nothing: the forged word is the honest Ch (or Maj) of the state
/// entering round `forge_t`.
pub open spec fn forge_is_noop(h: Seq<u32>, block: Seq<u32>, forge_t: int, forge: Forge) -> bool {
    let st = rounds(h, block, forge_t as nat);
    match forge {
        Forge::Ch(v) => v == spec_ch(st[4], st[5], st[6]),
        Forge::Maj(v) => v == spec_maj(st[0], st[1], st[2]),
    }
}

/// The binding equalities of row `r`: the consumed Ch/Maj limbs (columns 78/79, 114/115)
/// equal the checked halves (76/77, 112/113).
pub open spec fn row_binds(
    inputs: Seq<CompressionInput>,
    forge_seq: int,
    forge_t: int,
    forge: Forge,
    r: int,
) -> bool {
    &&& forged_cell(inputs, forge_seq, forge_t, forge, r, 78) == forged_cell(inputs, forge_seq, forge_t, forge, r, 76)
    &&& forged_cell(inputs, forge_seq, forge_t, forge, r, 79) == forged_cell(inputs, forge_seq, forge_t, forge, r, 77)
    &&& forged_cell(inputs, forge_seq, forge_t, forge, r, 114) == forged_cell(inputs, forge_seq, forge_t, forge, r, 112)
    &&& forged_cell(inputs, forge_seq, forge_t, forge, r, 115) == forged_cell(inputs, forge_seq, forge_t, forge, r, 113)
}

/// Before the forged round the forged chain is the honest one.
pub proof fn lemma_forged_rounds_prefix(h: Seq<u32>, b: Seq<u32>, n: nat, forge_t: int, forge: Forge)
    requires
        n <= forge_t,
    ensures
        forged_rounds(h, b, n, forge_t, forge) == rounds(h, b, n),
    decreases n,
{
    if n > 0 {
        lemma_forged_rounds_prefix(h, b, (n - 1) as nat, forge_t, forge);
    }
}

/// Two words with the same limbs are equal.
proof fn lemma_limbs_determine_word(x: u32, y: u32)
    ensures
        (lo(x) == lo(y) && hi(x) == hi(y)) <==> x == y,
{
    lemma_cells_word(x);
    lemma_cells_word(y);
}

/// `r` is the row of round `t` of compression `s`.
proof fn lemma_row_of(r: int, s: int, t: int)
    requires
        0 <= r,
        0 <= t < 64,
    ensures
        (r == s * 64 + t) <==> (r / 64 == s && r % 64 == t),
{
    vstd::arithmetic::div_mod::lemma_fundamental_div_mod(r, 64);
    if r / 64 == s && r % 64 == t {
        assert(r == s * 64 + t);
    }
    if r == s * 64 + t {
        assert(r / 64 == s && r % 64 == t) by (nonlinear_arith)
            requires
                r == s * 64 + t,
                r == 64 * (r / 64) + r % 64,
                0 <= r % 64 < 64,
                0 <= t < 64,
        ;
    }
}

/// The binding equalities hold on every row of the trace but the forged one, and on the
/// forged row exactly when the forged word equals the honest one.
#[verifier::spinoff_prover]
pub proof fn lemma_binding_fails_only_at_forged_row(
    inputs: Seq<CompressionInput>,
    forge_seq: int,
    forge_t: int,
    forge: Forge,
    r: int,
)
    requires
        0 <= r,
        0 <= forge_t < 64,
    ensures
        row_binds(inputs, forge_seq, forge_t, forge, r) <==> (r != forge_seq * 64 + forge_t
            || forge_is_noop(inputs[forge_seq].h_in@, inputs[forge_seq].block@, forge_t, forge)),
{
    let s = r / 64;
    let t = r % 64;
    let st = trace_state(inputs, forge_seq, forge_t, forge, s, t);
    let l = trace_limbs(inputs, forge_seq, forge_t, forge, s, t);
    let w = schedule80(inputs[s].block@);
    let ch = spec_ch(st[4], st[5], st[6]);
    let maj = spec_maj(st[0], st[1], st[2]);
    lemma_row_cells(s as u32, t, st, w, l.0, l.1);
    lemma_cells_word(ch);
    lemma_cells_word(maj);
    lemma_cells_word(l.0);
    lemma_cells_word(l.1);
    lemma_limbs_determine_word(l.0, ch);
    lemma_limbs_determine_word(l.1, maj);
    assert(row_binds(inputs, forge_seq, forge_t, forge, r) <==> (l.0 == ch && l.1 == maj));
    lemma_row_of(r, forge_seq, forge_t);
    if s == forge_seq && t == forge_t {
        lemma_forged_rounds_prefix(inputs[s].h_in@, inputs[s].block@, t as nat, forge_t, forge);
    }
}

/// Adding the same word on the right is injective modulo 2^32.
proof fn lemma_add32_cancel_right(x: u32, y: u32, z: u32)
    requires
        add32(x, z) == add32(y, z),
    ensures
        x == y,
{
    assert(((x + z) % 0x1_0000_0000) as u32 == ((y + z) % 0x1_0000_0000) as u32 ==> x == y)
        by (bit_vector);
}

/// Adding the same word on the left is injective modulo 2^32.
proof fn lemma_add32_cancel_left(x: u32, y: u32, z: u32)
    requires
        add32(z, x) == add32(z, y),
    ensures
        x == y,
{
    assert(((z + x) % 0x1_0000_0000) as u32 == ((z + y) % 0x1_0000_0000) as u32 ==> x == y)
        by (bit_vector);
}

/// A SHA-256 round is injective on eight-word states.
pub proof fn lemma_round_injective(x: Seq<u32>, y: Seq<u32>, wt: u32, kt: u32)
    requires
        x.len() == 8,
        y.len() == 8,
        spec_round(x, wt, kt) == spec_round(y, wt, kt),
    ensures
        x == y,
{
    let ox = spec_round(x, wt, kt);
    let oy = spec_round(y, wt, kt);
    assert(ox[1] == oy[1] && ox[2] == oy[2] && ox[3] == oy[3]);
    assert(ox[5] == oy[5] && ox[6] == oy[6] && ox[7] == oy[7]);
    assert(x[0] == y[0] && x[1] == y[1] && x[2] == y[2]);
    assert(x[4] == y[4] && x[5] == y[5] && x[6] == y[6]);
    let t2 = add32(spec_big_sigma_0(x[0]), spec_maj(x[0], x[1], x[2]));
    let bs1 = spec_big_sigma_1(x[4]);
    let ch = spec_ch(x[4], x[5], x[6]);
    let t1x = add32(add32(add32(add32(x[7], bs1), ch), kt), wt);
    let t1y = add32(add32(add32(add32(y[7], bs1), ch), kt), wt);
    assert(ox[0] == add32(t1x, t2) && oy[0] == add32(t1y, t2));
    lemma_add32_cancel_right(t1x, t1y, t2);
    assert(ox[4] == add32(x[3], t1x) && oy[4] == add32(y[3], t1y));
    lemma_add32_cancel_right(x[3], y[3], t1x);
    lemma_add32_cancel_right(add32(add32(add32(x[7], bs1), ch), kt), add32(add32(add32(y[7], bs1), ch), kt), wt);
    lemma_add32_cancel_right(add32(add32(x[7], bs1), ch), add32(add32(y[7], bs1), ch), kt);
    lemma_add32_cancel_right(add32(x[7], bs1), add32(y[7], bs1), ch);
    lemma_add32_cancel_right(x[7], y[7], bs1);
    assert(x =~= y);
}

/// A round computed with a Ch (or Maj) word other than the honest one gives a different
/// next state.
proof fn lemma_forged_round_differs(s: Seq<u32>, wt: u32, kt: u32, forge: Forge)
    requires
        s.len() == 8,
        forge_limbs(s, forge) != (spec_ch(s[4], s[5], s[6]), spec_maj(s[0], s[1], s[2])),
    ensures
        round_with_limbs(s, wt, kt, forge_limbs(s, forge).0, forge_limbs(s, forge).1) != spec_round(
            s,
            wt,
            kt,
        ),
{
    let ch = spec_ch(s[4], s[5], s[6]);
    let maj = spec_maj(s[0], s[1], s[2]);
    let l = forge_limbs(s, forge);
    let bs1 = spec_big_sigma_1(s[4]);
    let f = round_with_limbs(s, wt, kt, l.0, l.1);
    let h = spec_round(s, wt, kt);
    let t1f = add32(add32(add32(add32(s[7], bs1), l.0), kt), wt);
    let t1h = add32(add32(add32(add32(s[7], bs1), ch), kt), wt);
    let t2f = add32(spec_big_sigma_0(s[0]), l.1);
    let t2h = add32(spec_big_sigma_0(s[0]), maj);
    if f == h {
        assert(f[4] == h[4]);
        lemma_add32_cancel_left(t1f, t1h, s[3]);
        lemma_add32_cancel_right(add32(add32(add32(s[7], bs1), l.0), kt), add32(add32(add32(s[7], bs1), ch), kt), wt);
        lemma_add32_cancel_right(add32(add32(s[7], bs1), l.0), add32(add32(s[7], bs1), ch), kt);
        lemma_add32_cancel_left(l.0, ch, add32(s[7], bs1));
        assert(f[0] == h[0]);
        lemma_add32_cancel_left(t2f, t2h, t1f);
        lemma_add32_cancel_left(l.1, maj, spec_big_sigma_0(s[0]));
        assert(false);
    }
}

/// Once two chains differ, the honest rounds after keep them apart.
proof fn lemma_chains_stay_apart(h: Seq<u32>, b: Seq<u32>, n: nat, forge_t: int, forge: Forge)
    requires
        h.len() == 8,
        0 <= forge_t < n,
        forged_rounds(h, b, (forge_t + 1) as nat, forge_t, forge) != rounds(h, b, (forge_t + 1) as nat),
    ensures
        forged_rounds(h, b, n, forge_t, forge) != rounds(h, b, n),
    decreases n,
{
    if n > forge_t + 1 {
        let m = (n - 1) as nat;
        lemma_chains_stay_apart(h, b, m, forge_t, forge);
        lemma_rounds_len(h, b, m);
        lemma_forged_rounds_len(h, b, m, forge_t, forge);
        let wt = schedule_word(b, m);
        if forged_rounds(h, b, n, forge_t, forge) == rounds(h, b, n) {
            lemma_round_injective(forged_rounds(h, b, m, forge_t, forge), rounds(h, b, m), wt, K[m as int]);
        }
    }
}

/// A no-op forgery leaves every state of the chain honest.
proof fn lemma_noop_forgery(h: Seq<u32>, b: Seq<u32>, n: nat, forge_t: int, forge: Forge)
    requires
        0 <= forge_t,
        forge_is_noop(h, b, forge_t, forge),
    ensures
        forged_rounds(h, b, n, forge_t, forge) == rounds(h, b, n),
    decreases n,
{
    if n > 0 {
        let m = (n - 1) as nat;
        lemma_noop_forgery(h, b, m, forge_t, forge);
        let st = rounds(h, b, m);
        lemma_round_is_round_with_limbs(st, schedule_word(b, m), K[m as int]);
    }
}

/// A propagated forgery changes the post-64-round state exactly when the forged word
/// differs from the honest one: the trace then encodes a digest that is not SHA-256.
pub proof fn lemma_forgery_changes_final_state(h: Seq<u32>, b: Seq<u32>, forge_t: int, forge: Forge)
    requires
        h.len() == 8,
        0 <= forge_t < 64,
    ensures
        forged_rounds(h, b, 64, forge_t, forge) == rounds(h, b, 64) <==> forge_is_noop(h, b, forge_t, forge),
{
    if forge_is_noop(h, b, forge_t, forge) {
        lemma_noop_forgery(h, b, 64, forge_t, forge);
    } else {
        let st = rounds(h, b, forge_t as nat);
        lemma_forged_rounds_prefix(h, b, forge_t as nat, forge_t, forge);
        lemma_rounds_len(h, b, forge_t as nat);
        let wt = schedule_word(b, forge_t as nat);
        lemma_forged_round_differs(st, wt, K[forge_t], forge);
        assert(((forge_t + 1) - 1) as nat == forge_t as nat);
        lemma_chains_stay_apart(h, b, 64, forge_t, forge);
    }
}

/// Every row of the trace, forged or not, satisfies the row-local relations of a round:
/// the Σ values, K[t] and W[t] of its input words, the Ch/Maj recombinations (columns
/// 76/77, 112/113) of its input words, and the T1/T2 sums, new e and new a computed from
/// the consumed Ch/Maj limbs (columns 78/79, 114/115).
#[verifier::spinoff_prover]
pub proof fn lemma_row_relations_hold(
    inputs: Seq<CompressionInput>,
    forge_seq: int,
    forge_t: int,
    forge: Forge,
    r: int,
)
    requires
        0 <= r,
    ensures
        ({
            let tw = |c: int| trace_word(inputs, forge_seq, forge_t, forge, r, c);
            &&& tw(50) == spec_big_sigma_1(tw(10))
            &&& tw(52) == spec_big_sigma_0(tw(2))
            &&& tw(80) == K[r % 64]
            &&& tw(18) == schedule_word(inputs[r / 64].block@, (r % 64) as nat)
            &&& tw(76) == spec_ch(tw(10), tw(12), tw(14))
            &&& tw(112) == spec_maj(tw(2), tw(4), tw(6))
            &&& tw(82) == add32(add32(tw(16), tw(50)), tw(78))
            &&& tw(84) == add32(add32(tw(82), tw(80)), tw(18))
            &&& tw(116) == add32(tw(52), tw(114))
            &&& tw(120) == add32(tw(8), tw(84))
            &&& tw(122) == add32(tw(84), tw(116))
        }),
{
    let s = r / 64;
    let t = r % 64;
    let st = trace_state(inputs, forge_seq, forge_t, forge, s, t);
    let l = trace_limbs(inputs, forge_seq, forge_t, forge, s, t);
    let w = schedule80(inputs[s].block@);
    lemma_row_cells(s as u32, t, st, w, l.0, l.1);
    let s1 = partial_t1(st, l.0);
    let t1 = t1_with(st, w, t, l.0);
    let t2 = t2_with(st, l.1);
    lemma_cells_word(st[0]);
    lemma_cells_word(st[1]);
    lemma_cells_word(st[2]);
    lemma_cells_word(st[3]);
    lemma_cells_word(st[4]);
    lemma_cells_word(st[5]);
    lemma_cells_word(st[6]);
    lemma_cells_word(st[7]);
    lemma_cells_word(w[t]);
    lemma_cells_word(spec_big_sigma_1(st[4]));
    lemma_cells_word(spec_big_sigma_0(st[0]));
    lemma_cells_word(spec_ch(st[4], st[5], st[6]));
    lemma_cells_word(spec_maj(st[0], st[1], st[2]));
    lemma_cells_word(l.0);
    lemma_cells_word(l.1);
    lemma_cells_word(K[t]);
    lemma_cells_word(s1);
    lemma_cells_word(t1);
    lemma_cells_word(t2);
    lemma_cells_word(add32(st[3], t1));
    lemma_cells_word(add32(t1, t2));
    let tw = |c: int| trace_word(inputs, forge_seq, forge_t, forge, r, c);
    assert(tw(2) == st[0] && tw(4) == st[1] && tw(6) == st[2] && tw(8) == st[3]);
    assert(tw(10) == st[4] && tw(12) == st[5] && tw(14) == st[6] && tw(16) == st[7]);
    assert(tw(18) == w[t]);
}

/// The forged trace is the honest trace outside the forged compression and on every row
/// of it before the forged round.
pub proof fn lemma_forged_trace_agrees_before_forgery(
    inputs: Seq<CompressionInput>,
    forge_seq: int,
    forge_t: int,
    forge: Forge,
    r: int,
    c: int,
)
    requires
        0 <= r,
        r / 64 != forge_seq || r % 64 < forge_t,
    ensures
        forged_cell(inputs, forge_seq, forge_t, forge, r, c) == honest_cell(inputs, r, c),
{
    if r / 64 == forge_seq {
        lemma_forged_rounds_prefix(
            inputs[forge_seq].h_in@,
            inputs[forge_seq].block@,
            (r % 64) as nat,
            forge_t,
            forge,
        );
    }
}

/// A no-op forgery, or one of a round outside 0..64, builds the honest trace.
pub proof fn lemma_unforged_trace_is_honest(
    inputs: Seq<CompressionInput>,
    forge_seq: int,
    forge_t: int,
    forge: Forge,
    r: int,
    c: int,
)
    requires
        0 <= r,
        forge_t < 0 || forge_t >= 64 || (0 <= forge_seq && forge_is_noop(
            inputs[forge_seq].h_in@,
            inputs[forge_seq].block@,
            forge_t,
            forge,
        )),
    ensures
        forged_cell(inputs, forge_seq, forge_t, forge, r, c) == honest_cell(inputs, r, c),
{
    let s = r / 64;
    let t = r % 64;
    if s == forge_seq {
        let h = inputs[s].h_in@;
        let b = inputs[s].block@;
        if 0 <= forge_t < 64 {
            lemma_noop_forgery(h, b, t as nat, forge_t, forge);
            lemma_forged_rounds_prefix(h, b, forge_t as nat, forge_t, forge);
        } else if forge_t >= 64 {
            lemma_forged_rounds_prefix(h, b, t as nat, forge_t, forge);
        } else {
            lemma_negative_forge_round(h, b, t as nat, forge_t, forge);
        }
    }
}

/// A forgery that changes nothing builds the honest trace: when the forged compression is
/// outside the inputs, the forged round outside `0..64`, or the forged word the honest
/// one, every cell of the trace `build_round_trace_forge` builds is the cell
/// `build_round_trace` builds, and the forged compression's final state is the honest one.
pub proof fn lemma_noop_forgery_builds_honest_trace(
    inputs: Seq<CompressionInput>,
    forge_seq: int,
    forge_t: int,
    forge: Forge,
)
    requires
        0 <= forge_seq,
        0 <= forge_t,
        forge_seq >= inputs.len() || forge_t >= 64 || forge_is_noop(
            inputs[forge_seq].h_in@,
            inputs[forge_seq].block@,
            forge_t,
            forge,
        ),
    ensures
        forall|r: int, c: int|
            0 <= r < inputs.len() * 64 ==> #[trigger] forged_cell(inputs, forge_seq, forge_t, forge, r, c)
                == honest_cell(inputs, r, c),
        forge_seq < inputs.len() ==> forged_rounds(
            inputs[forge_seq].h_in@,
            inputs[forge_seq].block@,
            64,
            forge_t,
            forge,
        ) == rounds(inputs[forge_seq].h_in@, inputs[forge_seq].block@, 64),
{
    assert forall|r: int, c: int| 0 <= r < inputs.len() * 64 implies #[trigger] forged_cell(
        inputs,
        forge_seq,
        forge_t,
        forge,
        r,
        c,
    ) == honest_cell(inputs, r, c) by {
        if forge_seq >= inputs.len() {
            assert(r / 64 < inputs.len()) by (nonlinear_arith)
                requires
                    0 <= r < inputs.len() * 64,
            ;
        } else {
            lemma_unforged_trace_is_honest(inputs, forge_seq, forge_t, forge, r, c);
        }
    }
    if forge_seq < inputs.len() {
        let h = inputs[forge_seq].h_in@;
        let b = inputs[forge_seq].block@;
        if forge_t >= 64 {
            lemma_forged_rounds_prefix(h, b, 64, forge_t, forge);
        } else {
            lemma_noop_forgery(h, b, 64, forge_t, forge);
        }
    }
}

/// On the forged row the trace holds the forged word in the consumed limb columns (78/79
/// for Ch, 114/115 for Maj), while the checked halves (76/77, 112/113) keep their honest
/// values: the forgery is exactly a disagreement between the two.
pub proof fn lemma_forged_row_words(inputs: Seq<CompressionInput>, forge_seq: int, forge_t: int, forge: Forge)
    requires
        0 <= forge_seq,
        0 <= forge_t < 64,
    ensures
        ({
            let fr = forge_seq * 64 + forge_t;
            let cell = |c: int| forged_cell(inputs, forge_seq, forge_t, forge, fr, c);
            &&& forge matches Forge::Ch(v) ==> trace_word(inputs, forge_seq, forge_t, forge, fr, 78) == v
            &&& forge matches Forge::Maj(v) ==> trace_word(inputs, forge_seq, forge_t, forge, fr, 114) == v
            &&& cell(76) == honest_cell(inputs, fr, 76) && cell(77) == honest_cell(inputs, fr, 77)
            &&& cell(112) == honest_cell(inputs, fr, 112) && cell(113) == honest_cell(inputs, fr, 113)
        }),
{
    let fr = forge_seq * 64 + forge_t;
    lemma_row_of(fr, forge_seq, forge_t);
    let h = inputs[forge_seq].h_in@;
    let b = inputs[forge_seq].block@;
    let w = schedule80(b);
    lemma_forged_rounds_prefix(h, b, forge_t as nat, forge_t, forge);
    let st = rounds(h, b, forge_t as nat);
    let l = forge_limbs(st, forge);
    lemma_row_cells(forge_seq as u32, forge_t, st, w, l.0, l.1);
    lemma_row_cells(
        forge_seq as u32,
        forge_t,
        st,
        w,
        spec_ch(st[4], st[5], st[6]),
        spec_maj(st[0], st[1], st[2]),
    );
    lemma_cells_word(l.0);
    lemma_cells_word(l.1);
}

/// A forged round index below zero is never reached.
proof fn lemma_negative_forge_round(h: Seq<u32>, b: Seq<u32>, n: nat, forge_t: int, forge: Forge)
    requires
        forge_t < 0,
    ensures
        forged_rounds(h, b, n, forge_t, forge) == rounds(h, b, n),
    decreases n,
{
    if n > 0 {
        lemma_negative_forge_round(h, b, (n - 1) as nat, forge_t, forge);
    }
}

/// The limbs `[a0, a1, b0, b1, c0, c1, res0, res1]` of row `r` that a `TripleSum32` of the
/// limb pairs starting at columns `a`, `b`, `c` into `res` reads.
pub open spec fn triple_sum_limbs(
    inputs: Seq<CompressionInput>,
    forge_seq: int,
    forge_t: int,
    forge: Forge,
    r: int,
    a: int,
    b: int,
    c: int,
    res: int,
) -> Seq<M31> {
    let f = |col: int| forged_cell(inputs, forge_seq, forge_t, forge, r, col);
    seq![f(a), f(a + 1), f(b), f(b + 1), f(c), f(c + 1), f(res), f(res + 1)]
}

/// `add32(add32(a, b), c)` is the sum of the three words modulo 2^32.
proof fn lemma_add32_three(a: u32, b: u32, c: u32)
    ensures
        add32(add32(a, b), c) as int == (a + b + c) % 0x1_0000_0000,
{
    vstd::arithmetic::div_mod::lemma_add_mod_noop(a + b, c as int, 0x1_0000_0000);
    vstd::arithmetic::div_mod::lemma_small_mod(c as nat, 0x1_0000_0000);
}

/// Both `TripleSum32` carry constraints of a sum `res = a + b + c` whose words are written
/// as limb pairs vanish.
proof fn lemma_triple_sum_cells(l: Seq<M31>, a: u32, b: u32, c: u32)
    requires
        l == seq![
            m31_of(lo(a)),
            m31_of(hi(a)),
            m31_of(lo(b)),
            m31_of(hi(b)),
            m31_of(lo(c)),
            m31_of(hi(c)),
            m31_of(lo(add32(add32(a, b), c))),
            m31_of(hi(add32(add32(a, b), c))),
        ],
    ensures
        carry_cubic(carry_low(l)) == 0,
        carry_cubic(carry_high(l)) == 0,
{
    let res = add32(add32(a, b), c);
    lemma_cells_word(a);
    lemma_cells_word(b);
    lemma_cells_word(c);
    lemma_cells_word(res);
    lemma_add32_three(a, b, c);
    vstd::arithmetic::div_mod::lemma_fundamental_div_mod(a as int, 65536);
    vstd::arithmetic::div_mod::lemma_fundamental_div_mod(b as int, 65536);
    vstd::arithmetic::div_mod::lemma_fundamental_div_mod(c as int, 65536);
    vstd::arithmetic::div_mod::lemma_fundamental_div_mod(res as int, 65536);
    assert(limbs_16_bit(l));
    lemma_verify_triple_sum_32(l);
}

/// Every row of the trace, forged or not, satisfies the `TripleSum32` carry constraints of
/// its two T1 sums: h + Σ1(e) + ch_limb (columns 82/83) and that + K[t] + W[t] (84/85).
/// Nothing in these sums looks at the checked Ch halves (76/77).
#[verifier::spinoff_prover]
pub proof fn lemma_t1_sums_accepted(
    inputs: Seq<CompressionInput>,
    forge_seq: int,
    forge_t: int,
    forge: Forge,
    r: int,
)
    requires
        0 <= r,
    ensures
        ({
            let l1 = triple_sum_limbs(inputs, forge_seq, forge_t, forge, r, 16, 50, 78, 82);
            let l2 = triple_sum_limbs(inputs, forge_seq, forge_t, forge, r, 82, 80, 18, 84);
            &&& carry_cubic(carry_low(l1)) == 0
            &&& carry_cubic(carry_high(l1)) == 0
            &&& carry_cubic(carry_low(l2)) == 0
            &&& carry_cubic(carry_high(l2)) == 0
        }),
{
    let s = r / 64;
    let t = r % 64;
    let st = trace_state(inputs, forge_seq, forge_t, forge, s, t);
    let l = trace_limbs(inputs, forge_seq, forge_t, forge, s, t);
    let w = schedule80(inputs[s].block@);
    lemma_row_cells(s as u32, t, st, w, l.0, l.1);
    let bs1 = spec_big_sigma_1(st[4]);
    let s1 = partial_t1(st, l.0);
    lemma_triple_sum_cells(
        triple_sum_limbs(inputs, forge_seq, forge_t, forge, r, 16, 50, 78, 82),
        st[7],
        bs1,
        l.0,
    );
    lemma_triple_sum_cells(
        triple_sum_limbs(inputs, forge_seq, forge_t, forge, r, 82, 80, 18, 84),
        s1,
        K[t],
        w[t],
    );
}

/// The cells of row `r` of the trace, column by column.
pub open spec fn trace_cells(
    inputs: Seq<CompressionInput>,
    forge_seq: int,
    forge_t: int,
    forge: Forge,
    r: int,
) -> spec_fn(int) -> M31 {
    |c: int| forged_cell(inputs, forge_seq, forge_t, forge, r, c)
}

/// The column the round pull reads at position `k` of its tuple (position 1, the round
/// counter, is `t + 1` and reads no column).
pub open spec fn pull_col(k: int) -> int {
    if k < 2 {
        k
    } else if k < 18 {
        seq![122int, 123, 2, 3, 4, 5, 6, 7, 120, 121, 10, 11, 12, 13, 14, 15][k - 2]
    } else if k < 48 {
        k + 2
    } else {
        k + 70
    }
}

/// The round pull tuple of a row, position by position.
proof fn lemma_pull_tuple(c: spec_fn(int) -> M31)
    ensures
        chain_lookups(c)[2].2.len() == 50,
        forall|k: int|
            0 <= k < 50 && k != 1 ==> #[trigger] chain_lookups(c)[2].2[k] == c(pull_col(k)),
        chain_lookups(c)[2].2[1] == madd(c(1), M31(1)),
        chain_lookups(c)[1].2.len() == 50,
        forall|k: int| 0 <= k < 50 ==> #[trigger] chain_lookups(c)[1].2[k] == c(k),
{
    let pull = chain_lookups(c)[2].2;
    let head = seq![
        c(0),
        madd(c(1), M31(1)),
        c(122),
        c(123),
        c(2),
        c(3),
        c(4),
        c(5),
        c(6),
        c(7),
        c(120),
        c(121),
        c(10),
        c(11),
        c(12),
        c(13),
        c(14),
        c(15),
    ];
    assert(pull == head + col_range(c, 20, 50) + seq![c(118), c(119)]);
    assert forall|k: int| 0 <= k < 50 && k != 1 implies #[trigger] pull[k] == c(pull_col(k)) by {
        if k < 18 {
            assert(pull[k] == head[k]);
        } else if k < 48 {
            assert(pull[k] == col_range(c, 20, 50)[k - 18]);
        }
    }
}

/// On raw rows: the cell the round pull of round `t` reads at position `k` is the cell at
/// column `k` of round `t + 1`, entered with the state round `t` computes.
#[verifier::spinoff_prover]
#[verifier::rlimit(40)]
proof fn lemma_raw_chain(
    seq: u32,
    t: int,
    st: Seq<u32>,
    w: Seq<u32>,
    l: (u32, u32),
    l2: (u32, u32),
    k: int,
)
    requires
        0 <= t < 63,
        0 <= k < 50,
        k != 1,
    ensures
        row_with_limbs(seq, t, st, w, l.0, l.1)[pull_col(k)] == row_with_limbs(
            seq,
            t + 1,
            round_with_limbs(st, w[t], K[t], l.0, l.1),
            w,
            l2.0,
            l2.1,
        )[k],
{
    let st2 = round_with_limbs(st, w[t], K[t], l.0, l.1);
    lemma_row_cells(seq, t, st, w, l.0, l.1);
    lemma_row_cells(seq, t + 1, st2, w, l2.0, l2.1);
    let rr = row_with_limbs(seq, t, st, w, l.0, l.1);
    let rn = row_with_limbs(seq, t + 1, st2, w, l2.0, l2.1);
    if 18 <= k < 48 {
        let i = (k - 18) / 2;
        assert(rr[18 + 2 * (i + 1)] == lo(w[t + (i + 1)]));
        assert(rn[18 + 2 * i] == lo(w[(t + 1) + i]));
    } else if k >= 48 {
        assert(rn[48int] == lo(w[(t + 1) + 15]) && rn[49int] == hi(w[(t + 1) + 15]));
    } else if k >= 2 {
        let i = (k - 2) / 2;
        assert(rn[2 + 2 * i] == lo(st2[i]) && rn[3 + 2 * i] == hi(st2[i]));
        if i != 0 && i != 4 {
            assert(rr[2 + 2 * (i - 1)] == lo(st[i - 1]) && rr[3 + 2 * (i - 1)] == hi(st[i - 1]));
        }
    }
}

/// The seq, round-counter and enabler cells of a raw row.
#[verifier::spinoff_prover]
proof fn lemma_counter_and_enabler(seq: u32, t: int, st: Seq<u32>, w: Seq<u32>, l: (u32, u32))
    ensures
        row_with_limbs(seq, t, st, w, l.0, l.1)[0] == seq,
        row_with_limbs(seq, t, st, w, l.0, l.1)[1] == t as u32,
        row_with_limbs(seq, t, st, w, l.0, l.1)[124] == 1,
{
    lemma_row_cells(seq, t, st, w, l.0, l.1);
}

/// The last two lookups of a row are the round push and pull.
proof fn lemma_chain_lookups_at_end(c: spec_fn(int) -> M31)
    ensures
        row_lookup_spec(c)[36] == chain_lookups(c)[1],
        row_lookup_spec(c)[37] == chain_lookups(c)[2],
{
    let front = sigma_lookups(c) + ch_lookups(c) + k_lookups(c) + maj_and_lookups(c) + maj_xor_lookups(c);
    assert(front.len() == 35);
    assert(row_lookup_spec(c) == front + chain_lookups(c));
}

/// The round self-relation balances along the chain: the pull that row `r` emits (with
/// multiplicity minus the enabler) is the push that row `r + 1` emits (with the enabler,
/// which is one), for every row but the last of a compression.
#[verifier::spinoff_prover]
#[verifier::rlimit(40)]
pub proof fn lemma_round_relation_balances(
    inputs: Seq<CompressionInput>,
    forge_seq: int,
    forge_t: int,
    forge: Forge,
    r: int,
)
    requires
        0 <= r,
        r % 64 < 63,
    ensures
        ({
            let pull = row_lookup_spec(trace_cells(inputs, forge_seq, forge_t, forge, r))[37];
            let push = row_lookup_spec(trace_cells(inputs, forge_seq, forge_t, forge, r + 1))[36];
            &&& pull.0 == Relation::Sha256Round
            &&& push.0 == Relation::Sha256Round
            &&& push.1 == M31(1)
            &&& pull.1 == mneg(M31(1))
            &&& pull.2 == push.2
        }),
{
    let s = r / 64;
    let t = r % 64;
    assert((r + 1) / 64 == s && (r + 1) % 64 == t + 1) by {
        vstd::arithmetic::div_mod::lemma_fundamental_div_mod(r, 64);
        vstd::arithmetic::div_mod::lemma_fundamental_div_mod(r + 1, 64);
        assert((r + 1) / 64 == r / 64) by (nonlinear_arith)
            requires
                r == 64 * (r / 64) + r % 64,
                r + 1 == 64 * ((r + 1) / 64) + (r + 1) % 64,
                0 <= r % 64 < 63,
                0 <= (r + 1) % 64 < 64,
        ;
    }
    let st = trace_state(inputs, forge_seq, forge_t, forge, s, t);
    let l = trace_limbs(inputs, forge_seq, forge_t, forge, s, t);
    let l2 = trace_limbs(inputs, forge_seq, forge_t, forge, s, t + 1);
    let w = schedule80(inputs[s].block@);
    lemma_trace_step(inputs, forge_seq, forge_t, forge, s, t);
    let cr = trace_cells(inputs, forge_seq, forge_t, forge, r);
    let cn = trace_cells(inputs, forge_seq, forge_t, forge, r + 1);
    lemma_pull_tuple(cr);
    lemma_pull_tuple(cn);
    let pull = chain_lookups(cr)[2].2;
    let push = chain_lookups(cn)[1].2;
    lemma_chain_lookups_at_end(cr);
    lemma_chain_lookups_at_end(cn);
    lemma_counter_and_enabler(s as u32, t, st, w, l);
    lemma_counter_and_enabler(s as u32, t + 1, trace_state(inputs, forge_seq, forge_t, forge, s, t + 1), w, l2);
    assert(cr(124) == M31(1) && cn(124) == M31(1));
    assert(madd(cr(1), M31(1)) == cn(1)) by {
        vstd::arithmetic::div_mod::lemma_small_mod(t as nat, p() as nat);
        vstd::arithmetic::div_mod::lemma_small_mod((t + 1) as nat, p() as nat);
    }
    assert forall|k: int| 0 <= k < 50 implies pull[k] == push[k] by {
        if k != 1 {
            lemma_raw_chain(s as u32, t, st, w, l, l2, k);
        }
    }
    assert(pull =~= push);
}

/// Every row of an honest trace binds the consumed Ch/Maj limbs to the checked halves.
pub proof fn lemma_honest_rows_bind(inputs: Seq<CompressionInput>, r: int)
    requires
        0 <= r,
    ensures
        honest_cell(inputs, r, 78) == honest_cell(inputs, r, 76),
        honest_cell(inputs, r, 79) == honest_cell(inputs, r, 77),
        honest_cell(inputs, r, 114) == honest_cell(inputs, r, 112),
        honest_cell(inputs, r, 115) == honest_cell(inputs, r, 113),
{
    let forge = Forge::Ch(0);
    lemma_binding_fails_only_at_forged_row(inputs, -1, 0, forge, r);
    assert(r != -1 * 64 + 0);
    assert(r / 64 != -1) by {
        vstd::arithmetic::div_mod::lemma_fundamental_div_mod(r, 64);
    }
}

/// A Ch forgery of a single row of an honest trace, as `forge_ch` makes it, breaks the round
/// chain at that row when the forged word differs from the honest one: the new a the row
/// pushes is not the a the next row takes as input.
#[verifier::spinoff_prover]
pub proof fn lemma_single_row_forgery_breaks_chain(
    inputs: Seq<CompressionInput>,
    cols: Seq<Vec<M31>>,
    forged_cols: Seq<Vec<M31>>,
    r: int,
    forged: u32,
)
    requires
        trace_shape(cols, cols[0]@.len() as int),
        0 <= r,
        r % 64 < 63,
        r + 1 < cols[0]@.len(),
        forall|c: int, row: int|
            0 <= c < N_TRACE_COLUMNS && 0 <= row < cols[0]@.len() ==> #[trigger] cols[c]@[row]
                == honest_cell(inputs, row, c),
        overwritten(cols, forged_cols, r, |c: int| forged_ch_cell(cols, r, forged, c)),
        forged != spec_ch(
            rounds(inputs[r / 64].h_in@, inputs[r / 64].block@, (r % 64) as nat)[4],
            rounds(inputs[r / 64].h_in@, inputs[r / 64].block@, (r % 64) as nat)[5],
            rounds(inputs[r / 64].h_in@, inputs[r / 64].block@, (r % 64) as nat)[6],
        ),
    ensures
        word_at(forged_cols, r, 122, 123) != word_at(forged_cols, r + 1, 2, 3),
{
    let s = r / 64;
    let t = r % 64;
    let h = inputs[s].h_in@;
    let b = inputs[s].block@;
    let st = rounds(h, b, t as nat);
    let w = schedule80(b);
    assert((r + 1) / 64 == s && (r + 1) % 64 == t + 1) by {
        vstd::arithmetic::div_mod::lemma_fundamental_div_mod(r, 64);
        vstd::arithmetic::div_mod::lemma_fundamental_div_mod(r + 1, 64);
        assert((r + 1) / 64 == r / 64) by (nonlinear_arith)
            requires
                r == 64 * (r / 64) + r % 64,
                r + 1 == 64 * ((r + 1) / 64) + (r + 1) % 64,
                0 <= r % 64 < 63,
                0 <= (r + 1) % 64 < 64,
        ;
    }
    assert forall|c: int| 0 <= c < N_TRACE_COLUMNS implies #[trigger] cols[c]@[r] == m31_of(
        honest_row(s as u32, t, st, w)[c],
    ) by {
        assert(cols[c]@[r] == honest_cell(inputs, r, c));
    }
    lemma_forge_ch_on_honest_row(cols, r, s as u32, t, st, w, forged);
    let maj = spec_maj(st[0], st[1], st[2]);
    let next = round_with_limbs(st, w[t], K[t], forged, maj);
    assert(forged_ch_next(cols, r, forged)[0] == next[0]);
    assert(forged_cols[122]@[r] == m31_of(lo(next[0])));
    assert(forged_cols[123]@[r] == m31_of(hi(next[0])));
    lemma_word_at_limbs(forged_cols, r, 122, 123, next[0]);
    let st2 = rounds(h, b, (t + 1) as nat);
    lemma_rounds_len(h, b, t as nat);
    assert(st2 == spec_round(st, w[t], K[t])) by {
        assert(((t + 1) - 1) as nat == t as nat);
    }
    lemma_row_cells(s as u32, t + 1, st2, w, spec_ch(st2[4], st2[5], st2[6]), spec_maj(st2[0], st2[1], st2[2]));
    assert(forged_cols[2]@[r + 1] == cols[2]@[r + 1]);
    assert(forged_cols[3]@[r + 1] == cols[3]@[r + 1]);
    assert(cols[2]@[r + 1] == honest_cell(inputs, r + 1, 2));
    assert(cols[3]@[r + 1] == honest_cell(inputs, r + 1, 3));
    assert(honest_row(s as u32, t + 1, st2, w)[2int] == lo(st2[0]) && honest_row(s as u32, t + 1, st2, w)[3int] == hi(st2[0]));
    lemma_word_at_limbs(forged_cols, r + 1, 2, 3, st2[0]);
    lemma_forged_new_a_differs(st, w[t], K[t], forged);
}

/// A Ch word other than the honest one changes the new a of a round.
proof fn lemma_forged_new_a_differs(s: Seq<u32>, wt: u32, kt: u32, forged: u32)
    requires
        forged != spec_ch(s[4], s[5], s[6]),
    ensures
        round_with_limbs(s, wt, kt, forged, spec_maj(s[0], s[1], s[2]))[0] != spec_round(s, wt, kt)[0],
{
    let bs1 = spec_big_sigma_1(s[4]);
    let ch = spec_ch(s[4], s[5], s[6]);
    let t2 = add32(spec_big_sigma_0(s[0]), spec_maj(s[0], s[1], s[2]));
    let t1f = add32(add32(add32(add32(s[7], bs1), forged), kt), wt);
    let t1h = add32(add32(add32(add32(s[7], bs1), ch), kt), wt);
    if add32(t1f, t2) == add32(t1h, t2) {
        lemma_add32_cancel_right(t1f, t1h, t2);
        lemma_add32_cancel_right(add32(add32(add32(s[7], bs1), forged), kt), add32(add32(add32(s[7], bs1), ch), kt), wt);
        lemma_add32_cancel_right(add32(add32(s[7], bs1), forged), add32(add32(s[7], bs1), ch), kt);
        lemma_add32_cancel_left(forged, ch, add32(s[7], bs1));
    }
}

} // verus!
