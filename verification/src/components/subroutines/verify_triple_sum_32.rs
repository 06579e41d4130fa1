//! Verifies `res = a + b + c (mod 2^32)` over (lo16, hi16) limb pairs.
//!
//! 2^15 is the inverse of 2^16 in the field (2^16 * 2^15 = 2^31 = 1 mod p), so
//! `carry_low = (a0 + b0 + c0 - res0) / 2^16`, constrained to {0, 1, 2} by a cubic; the
//! same for `carry_high`, whose own overflow is dropped (mod-2^32 semantics). The result
//! limbs are not range-checked here: the tower pins them to 16 bits where they are
//! consumed.
use crate::check::CheckEvaluator;
use crate::m31::{fadd, fmul, fsub, lemma_cubic_roots, lemma_times_inverse_of_2_16, p, M31};
use vstd::prelude::*;

verus! {

/// The low carry `(a0 + b0 + c0 - res0) * 2^15` as the field computes it, for the limbs
/// `[a0, a1, b0, b1, c0, c1, res0, res1]`.
pub open spec fn carry_low(l: Seq<M31>) -> int {
    fmul(fsub(fadd(fadd(l[0].0 as int, l[2].0 as int), l[4].0 as int), l[6].0 as int), 32768)
}

/// The high carry `(a1 + b1 + c1 + carry_low - res1) * 2^15` as the field computes it.
pub open spec fn carry_high(l: Seq<M31>) -> int {
    fmul(
        fsub(fadd(fadd(fadd(l[1].0 as int, l[3].0 as int), l[5].0 as int), carry_low(l)), l[7].0 as int),
        32768,
    )
}

/// The constraint `x * (x - 1) * (x - 2)` that pins a carry to {0, 1, 2}.
pub open spec fn carry_cubic(x: int) -> int {
    fmul(fmul(x, fsub(x, 1)), fsub(x, 2))
}

/// The 32-bit word of a (lo16, hi16) limb pair.
pub open spec fn limb_word(lo: M31, hi: M31) -> int {
    lo.0 + 65536 * hi.0
}

/// All eight limbs are 16-bit.
pub open spec fn limbs_16_bit(l: Seq<M31>) -> bool {
    l.len() == 8 && forall|i: int| 0 <= i < 8 ==> #[trigger] l[i].0 < 65536
}

#[derive(Copy, Clone)]
pub struct VerifyTripleSum32 {}

impl VerifyTripleSum32 {
    /// Records the two carries as intermediates and the two carry cubics as constraints,
    /// for the limbs `[a0, a1, b0, b1, c0, c1, res0, res1]`.
    pub fn evaluate(input: [M31; 8], eval: &mut CheckEvaluator) -> (r: [M31; 0])
        requires
            old(eval).wf(),
        ensures
            final(eval).wf(),
            final(eval).row == old(eval).row,
            final(eval).intermediates@ == old(eval).intermediates@.push(
                M31(carry_low(input@) as u32),
            ).push(M31(carry_high(input@) as u32)),
            final(eval).constraints@ == old(eval).constraints@.push(
                M31(carry_cubic(carry_low(input@)) as u32),
            ).push(M31(carry_cubic(carry_high(input@)) as u32)),
            final(eval).relation_entries@ == old(eval).relation_entries@,
    {
        let m31_1 = M31::from_u32(1);
        let m31_2 = M31::from_u32(2);
        let m31_32768 = M31::from_u32(32768);
        assert(m31_1.0 == 1 && m31_2.0 == 2 && m31_32768.0 == 32768);
        let low = input[0].add(input[2]).add(input[4]).sub(input[6]).mul(m31_32768);
        assert(low.0 == carry_low(input@));
        let carry_low_tmp = eval.add_intermediate(low);
        let cubic_low = carry_low_tmp.mul(carry_low_tmp.sub(m31_1)).mul(carry_low_tmp.sub(m31_2));
        assert(cubic_low.0 == carry_cubic(carry_low(input@)));
        // carry low is 0 or 1 or 2.
        eval.add_constraint(cubic_low);
        let high = input[1].add(input[3]).add(input[5]).add(carry_low_tmp).sub(input[7]).mul(m31_32768);
        assert(high.0 == carry_high(input@));
        let carry_high_tmp = eval.add_intermediate(high);
        let cubic_high = carry_high_tmp.mul(carry_high_tmp.sub(m31_1)).mul(carry_high_tmp.sub(m31_2));
        assert(cubic_high.0 == carry_cubic(carry_high(input@)));
        // carry high is 0 or 1 or 2.
        eval.add_constraint(cubic_high);
        []
    }
}

/// One limb of the carry chain: for a limb sum `s < 3 * 2^16` and a 16-bit result limb
/// `r`, the carry cubic vanishes exactly when `r` is `s mod 2^16`, and then the carry is
/// `s / 2^16`.
pub proof fn lemma_limb_carry(s: int, r: int)
    requires
        0 <= s < 3 * 65536,
        0 <= r < 65536,
    ensures
        (carry_cubic(fmul(fsub(s, r), 32768)) == 0) <==> (r == s % 65536),
        r == s % 65536 ==> fmul(fsub(s, r), 32768) == s / 65536,
{
    let d = s - r;
    let c = fmul(fsub(s, r), 32768);
    assert(fsub(s, r) == d % p());
    assert(0 <= c < p());
    lemma_times_inverse_of_2_16(d, c);
    lemma_cubic_roots(c);
    if r == s % 65536 {
        let k = s / 65536;
        vstd::arithmetic::div_mod::lemma_fundamental_div_mod(s, 65536);
        assert(d == 65536 * k);
        assert(0 <= k <= 2);
        assert(d % p() == d) by {
            vstd::arithmetic::div_mod::lemma_small_mod(d as nat, p() as nat);
        }
        assert(c == (d * 32768) % p());
        assert(d * 32768 == p() * k + k) by (nonlinear_arith)
            requires
                d == 65536 * k,
        ;
        vstd::arithmetic::div_mod::lemma_mod_multiples_vanish(k, k, p());
        vstd::arithmetic::div_mod::lemma_small_mod(k as nat, p() as nat);
        assert(c == k);
    } else {
        if carry_cubic(c) == 0 {
            assert(c == 0 || c == 1 || c == 2);
            // c * 2^16 and d agree mod p and are closer than p, so they are equal.
            let e = c * 65536;
            assert(e % p() == d % p());
            assert(e % p() == e) by {
                vstd::arithmetic::div_mod::lemma_small_mod(e as nat, p() as nat);
            }
            let q = d / p();
            vstd::arithmetic::div_mod::lemma_fundamental_div_mod(d, p());
            assert(d == p() * q + e);
            assert(q == 0) by (nonlinear_arith)
                requires
                    d == p() * q + e,
                    -65536 < d < 3 * 65536,
                    0 <= e <= 131072,
                    p() == 2147483647,
            ;
            assert(d == e);
            assert(s == r + 65536 * c);
            vstd::arithmetic::div_mod::lemma_mod_multiples_vanish(c, r, 65536);
            vstd::arithmetic::div_mod::lemma_small_mod(r as nat, 65536);
            assert(false);
        }
    }
}

/// The word `lo + 2^16 * hi` of a low limb `lo < 2^16` taken modulo 2^32.
proof fn lemma_word_mod_2_32(lo: int, hi: int)
    requires
        0 <= lo < 65536,
    ensures
        (lo + 65536 * hi) % 0x1_0000_0000 == lo + 65536 * (hi % 65536),
{
    vstd::arithmetic::div_mod::lemma_fundamental_div_mod(hi, 65536);
    let q = hi / 65536;
    let m = hi % 65536;
    assert(lo + 65536 * hi == 0x1_0000_0000 * q + (lo + 65536 * m)) by (nonlinear_arith)
        requires
            hi == 65536 * q + m,
    ;
    vstd::arithmetic::div_mod::lemma_mod_multiples_vanish(q, lo + 65536 * m, 0x1_0000_0000);
    vstd::arithmetic::div_mod::lemma_small_mod((lo + 65536 * m) as nat, 0x1_0000_0000);
}

/// `VerifyTripleSum32` is sound and complete on 16-bit limbs: both of its constraints
/// vanish exactly when the result word is the sum of the three input words modulo 2^32.
pub proof fn lemma_verify_triple_sum_32(l: Seq<M31>)
    requires
        limbs_16_bit(l),
    ensures
        (carry_cubic(carry_low(l)) == 0 && carry_cubic(carry_high(l)) == 0) <==> limb_word(
            l[6],
            l[7],
        ) == (limb_word(l[0], l[1]) + limb_word(l[2], l[3]) + limb_word(l[4], l[5]))
            % 0x1_0000_0000,
{
    let a0 = l[0].0 as int;
    let a1 = l[1].0 as int;
    let b0 = l[2].0 as int;
    let b1 = l[3].0 as int;
    let c0 = l[4].0 as int;
    let c1 = l[5].0 as int;
    let r0 = l[6].0 as int;
    let r1 = l[7].0 as int;
    assert(l[0].0 < 65536 && l[1].0 < 65536 && l[2].0 < 65536 && l[3].0 < 65536);
    assert(l[4].0 < 65536 && l[5].0 < 65536 && l[6].0 < 65536 && l[7].0 < 65536);
    let s_lo = a0 + b0 + c0;
    let s_hi = a1 + b1 + c1;
    assert(fadd(fadd(a0, b0), c0) == s_lo) by {
        vstd::arithmetic::div_mod::lemma_small_mod((a0 + b0) as nat, p() as nat);
        vstd::arithmetic::div_mod::lemma_small_mod(s_lo as nat, p() as nat);
    }
    lemma_limb_carry(s_lo, r0);
    let total = limb_word(l[0], l[1]) + limb_word(l[2], l[3]) + limb_word(l[4], l[5]);
    vstd::arithmetic::div_mod::lemma_fundamental_div_mod(s_lo, 65536);
    let cl = s_lo / 65536;
    assert(total == s_lo % 65536 + 65536 * (cl + s_hi));
    lemma_word_mod_2_32(s_lo % 65536, cl + s_hi);
    lemma_word_mod_2_32(r0, r1);
    vstd::arithmetic::div_mod::lemma_small_mod(r1 as nat, 65536);
    if r0 == s_lo % 65536 {
        assert(carry_low(l) == cl);
        assert(fadd(fadd(fadd(a1, b1), c1), cl) == s_hi + cl) by {
            vstd::arithmetic::div_mod::lemma_small_mod((a1 + b1) as nat, p() as nat);
            vstd::arithmetic::div_mod::lemma_small_mod(s_hi as nat, p() as nat);
            vstd::arithmetic::div_mod::lemma_small_mod((s_hi + cl) as nat, p() as nat);
        }
        lemma_limb_carry(s_hi + cl, r1);
    } else {
        assert(limb_word(l[6], l[7]) % 65536 == r0) by {
            vstd::arithmetic::div_mod::lemma_mod_multiples_vanish(r1, r0, 65536);
            vstd::arithmetic::div_mod::lemma_small_mod(r0 as nat, 65536);
        }
        assert((total % 0x1_0000_0000) % 65536 == s_lo % 65536) by {
            vstd::arithmetic::div_mod::lemma_mod_multiples_vanish(
                (cl + s_hi) % 65536,
                s_lo % 65536,
                65536,
            );
            vstd::arithmetic::div_mod::lemma_small_mod((s_lo % 65536) as nat, 65536);
        }
    }
}

} // verus!
