//! The low byte of a 16-bit limb given its high byte: `low = input - ms8 * 256`.
//!
//! This subroutine alone range-checks neither the high byte nor the returned low part;
//! both become 8-bit-constrained only when fed into an 8-bit truth-table lookup.
use crate::check::CheckEvaluator;
use crate::m31::{fmul, fsub, p, M31};
use vstd::prelude::*;

verus! {

/// `input - ms8 * 256` in the field.
pub open spec fn split_low(input: M31, ms8: M31) -> int {
    fsub(input.0 as int, fmul(ms8.0 as int, 256))
}

#[derive(Copy, Clone)]
pub struct Split16LowPartSize8 {}

impl Split16LowPartSize8 {
    /// Returns `[input - ms_8_bits_col0 * 256]`; emits nothing.
    pub fn evaluate(input: [M31; 1], ms_8_bits_col0: M31, _eval: &mut CheckEvaluator) -> (r: [M31;
        1])
        ensures
            r[0].wf(),
            r[0].0 == split_low(input[0], ms_8_bits_col0),
            *final(_eval) == *old(_eval),
    {
        let m31_256 = M31::from_u32(256);
        [input[0].sub(ms_8_bits_col0.mul(m31_256))]
    }
}

/// Once the high byte and the low part are both 8-bit (as an 8-bit table lookup forces),
/// the split is exact: the limb is `ms8 * 256 + low`, hence 16-bit.
pub proof fn lemma_split_is_exact(input: M31, ms8: M31)
    requires
        input.wf(),
        ms8.0 < 256,
        split_low(input, ms8) < 256,
    ensures
        input.0 == ms8.0 * 256 + split_low(input, ms8),
        input.0 < 65536,
{
    let low = split_low(input, ms8);
    let x = input.0 as int;
    let m = ms8.0 as int;
    assert(fmul(m, 256) == m * 256) by {
        vstd::arithmetic::div_mod::lemma_small_mod((m * 256) as nat, p() as nat);
    }
    let d = x - m * 256;
    assert(low == d % p());
    vstd::arithmetic::div_mod::lemma_fundamental_div_mod(d, p());
    let q = d / p();
    assert(d == p() * q + low);
    assert(q == 0) by (nonlinear_arith)
        requires
            d == p() * q + low,
            0 <= low < 256,
            0 <= x < p(),
            0 <= m < 256,
            d == x - m * 256,
            p() == 2147483647,
    ;
}

} // verus!
