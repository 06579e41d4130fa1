//! `res = a + b + c (mod 2^32)` over (lo16, hi16) limb pairs, checked by
//! `VerifyTripleSum32`.
use crate::check::CheckEvaluator;
use crate::components::subroutines::verify_triple_sum_32::{
    carry_cubic, carry_high, carry_low, VerifyTripleSum32,
};
use crate::m31::M31;
use vstd::prelude::*;

verus! {

/// The eight limbs `VerifyTripleSum32` checks: the three input words, then the result.
pub open spec fn triple_sum_limbs(input: Seq<M31>, res0: M31, res1: M31) -> Seq<M31> {
    input.push(res0).push(res1)
}

#[derive(Copy, Clone)]
pub struct TripleSum32 {}

impl TripleSum32 {
    /// Constrains `(res0, res1)` to be the sum of the three input words
    /// `[a0, a1, b0, b1, c0, c1]` modulo 2^32.
    pub fn evaluate(
        input: [M31; 6],
        triple_sum32_res_limb_0_col0: M31,
        triple_sum32_res_limb_1_col1: M31,
        eval: &mut CheckEvaluator,
    ) -> (r: [M31; 0])
        requires
            old(eval).wf(),
        ensures
            final(eval).wf(),
            final(eval).row == old(eval).row,
            final(eval).intermediates@ == old(eval).intermediates@.push(
                M31(
                    carry_low(
                        triple_sum_limbs(
                            input@,
                            triple_sum32_res_limb_0_col0,
                            triple_sum32_res_limb_1_col1,
                        ),
                    ) as u32,
                ),
            ).push(
                M31(
                    carry_high(
                        triple_sum_limbs(
                            input@,
                            triple_sum32_res_limb_0_col0,
                            triple_sum32_res_limb_1_col1,
                        ),
                    ) as u32,
                ),
            ),
            final(eval).constraints@ == old(eval).constraints@.push(
                M31(
                    carry_cubic(
                        carry_low(
                            triple_sum_limbs(
                                input@,
                                triple_sum32_res_limb_0_col0,
                                triple_sum32_res_limb_1_col1,
                            ),
                        ),
                    ) as u32,
                ),
            ).push(
                M31(
                    carry_cubic(
                        carry_high(
                            triple_sum_limbs(
                                input@,
                                triple_sum32_res_limb_0_col0,
                                triple_sum32_res_limb_1_col1,
                            ),
                        ),
                    ) as u32,
                ),
            ),
            final(eval).relation_entries@ == old(eval).relation_entries@,
    {
        let limbs = [
            input[0],
            input[1],
            input[2],
            input[3],
            input[4],
            input[5],
            triple_sum32_res_limb_0_col0,
            triple_sum32_res_limb_1_col1,
        ];
        assert(limbs@ =~= triple_sum_limbs(
            input@,
            triple_sum32_res_limb_0_col0,
            triple_sum32_res_limb_1_col1,
        ));
        VerifyTripleSum32::evaluate(limbs, eval);
        []
    }
}

} // verus!
