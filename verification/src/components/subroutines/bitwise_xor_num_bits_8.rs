//! A use of the 8-bit XOR truth table `(a, b, a ^ b)`. Table membership is enforced
//! globally by the table component; within one component the use shows only in the
//! logup fractions.
use crate::check::CheckEvaluator;
use crate::m31::M31;
use crate::relations::Relation;
use vstd::prelude::*;

verus! {

#[derive(Copy, Clone)]
pub struct BitwiseXorNumBits8 {}

impl BitwiseXorNumBits8 {
    /// Records one use, multiplicity 1, of `VerifyBitwiseXor_8` with
    /// `(input[0], input[1], xor_col0)`.
    pub fn evaluate(input: [M31; 2], xor_col0: M31, eval: &mut CheckEvaluator) -> (r: [M31; 0])
        requires
            old(eval).wf(),
        ensures
            final(eval).wf(),
            final(eval).row == old(eval).row,
            final(eval).constraints@ == old(eval).constraints@,
            final(eval).intermediates@ == old(eval).intermediates@,
            final(eval).violations@ == old(eval).violations@,
            final(eval).relation_entries@.len() == old(eval).relation_entries@.len() + 1,
            final(eval).relation_entries@.drop_last() == old(eval).relation_entries@,
            final(eval).relation_entries@.last().relation == Relation::VerifyBitwiseXor_8,
            final(eval).relation_entries@.last().multiplicity == M31(1),
            final(eval).relation_entries@.last().values@ == seq![input[0], input[1], xor_col0],
    {
        let mut values: Vec<M31> = Vec::new();
        values.push(input[0]);
        values.push(input[1]);
        values.push(xor_col0);
        assert(values@ =~= seq![input[0], input[1], xor_col0]);
        eval.add_to_relation(Relation::VerifyBitwiseXor_8, M31::from_u32(1), values);
        []
    }
}

} // verus!
