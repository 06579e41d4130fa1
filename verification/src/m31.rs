//! The Mersenne-31 prime field, elements stored as `u32` residues.
use vstd::prelude::*;

verus! {

/// The field modulus p = 2^31 - 1.
pub const MODULUS: u32 = 2147483647;

/// The field modulus as a mathematical integer.
pub open spec fn p() -> int {
    MODULUS as int
}

/// Field addition on residues.
pub open spec fn fadd(a: int, b: int) -> int {
    (a + b) % p()
}

/// Field subtraction on residues.
pub open spec fn fsub(a: int, b: int) -> int {
    (a - b) % p()
}

/// Field multiplication on residues.
pub open spec fn fmul(a: int, b: int) -> int {
    (a * b) % p()
}

/// An element of the Mersenne-31 field; a canonical element holds its residue in `[0, p)`.
#[derive(Clone, Copy, Debug, PartialEq, Eq, Structural)]
pub struct M31(pub u32);

impl M31 {
    /// The element holds a canonical residue.
    pub open spec fn wf(self) -> bool {
        self.0 < MODULUS
    }

    /// The residue class of the element, as an integer in `[0, p)`.
    pub open spec fn val(self) -> int {
        self.0 as int % p()
    }

    /// The field element `x mod p`.
    pub fn from_u32(x: u32) -> (r: M31)
        ensures
            r.wf(),
            r.0 == x as int % p(),
            x < MODULUS ==> r.0 == x,
    {
        M31(x % MODULUS)
    }

    /// The sum in the field.
    pub fn add(self, rhs: M31) -> (r: M31)
        ensures
            r.wf(),
            r.0 == (self.0 + rhs.0) % p(),
    {
        M31(((self.0 as u64 + rhs.0 as u64) % (MODULUS as u64)) as u32)
    }

    /// The difference in the field.
    pub fn sub(self, rhs: M31) -> (r: M31)
        ensures
            r.wf(),
            r.0 == (self.0 - rhs.0) % p(),
    {
        let a = self.0 as u64 % (MODULUS as u64);
        let b = rhs.0 as u64 % (MODULUS as u64);
        proof {
            assert((self.0 - rhs.0) % p() == (a + p() - b) % p()) by {
                vstd::arithmetic::div_mod::lemma_fundamental_div_mod(self.0 as int, p());
                vstd::arithmetic::div_mod::lemma_fundamental_div_mod(rhs.0 as int, p());
                vstd::arithmetic::div_mod::lemma_mod_multiples_vanish(
                    self.0 as int / p() - rhs.0 as int / p() - 1,
                    a + p() - b,
                    p(),
                );
            }
        }
        M31(((a + (MODULUS as u64) - b) % (MODULUS as u64)) as u32)
    }

    /// The product in the field.
    pub fn mul(self, rhs: M31) -> (r: M31)
        ensures
            r.wf(),
            r.0 == (self.0 * rhs.0) % p(),
    {
        let a = self.0 as u64;
        let b = rhs.0 as u64;
        assert(a * b <= 0xffff_ffff * 0xffff_ffff) by (nonlinear_arith)
            requires
                a <= 0xffff_ffff,
                b <= 0xffff_ffff,
        ;
        M31(((a * b) % (MODULUS as u64)) as u32)
    }

    /// The additive inverse in the field.
    pub fn neg(self) -> (r: M31)
        ensures
            r.wf(),
            r.0 == (0 - self.0) % p(),
    {
        M31(0).sub(self)
    }
}

impl From<u32> for M31 {
    fn from(x: u32) -> (r: M31) {
        M31::from_u32(x)
    }
}

impl vstd::std_specs::convert::FromSpecImpl<u32> for M31 {
    open spec fn obeys_from_spec() -> bool {
        true
    }

    open spec fn from_spec(x: u32) -> M31 {
        M31((x as int % p()) as u32)
    }
}

/// No product of two integers in `[2, 2^31)` and `[2, 2^16)` equals p.
#[verifier::rlimit(100)]
proof fn lemma_no_factor_pair(x: u64, y: u64)
    requires
        2 <= x < 65536,
        2 <= y < 0x8000_0000,
    ensures
        x * y != 2147483647u64,
{
    assert(2 <= x < 65536 && 2 <= y < 0x8000_0000 ==> x * y != 2147483647u64) by (bit_vector);
}

/// p is prime: it has no divisor strictly between 1 and p.
pub proof fn lemma_modulus_is_prime(d: int)
    requires
        1 < d < p(),
    ensures
        p() % d != 0,
{
    if p() % d == 0 {
        let q = p() / d;
        vstd::arithmetic::div_mod::lemma_fundamental_div_mod(p(), d);
        assert(p() == d * q);
        assert(q > 1) by (nonlinear_arith)
            requires
                p() == d * q,
                d < p(),
                d > 1,
        ;
        assert(q < p()) by (nonlinear_arith)
            requires
                p() == d * q,
                d > 1,
                q > 1,
        ;
        if d < 65536 {
            lemma_no_factor_pair(d as u64, q as u64);
            assert(d as u64 * q as u64 == 2147483647u64);
        } else {
            assert(q < 65536) by (nonlinear_arith)
                requires
                    p() == d * q,
                    d >= 65536,
                    q > 1,
            ;
            assert(q * d == p()) by (nonlinear_arith)
                requires
                    p() == d * q,
            ;
            lemma_no_factor_pair(q as u64, d as u64);
        }
    }
}

/// Euclid's lemma for p, in the form used for field reasoning: if `x` is not a multiple
/// of p and `x * y` is, then `y` is.
pub proof fn lemma_cancel(x: int, y: int)
    requires
        x % p() != 0,
        (x * y) % p() == 0,
    ensures
        y % p() == 0,
    decreases x % p(),
{
    let r = x % p();
    vstd::arithmetic::div_mod::lemma_fundamental_div_mod(x, p());
    assert((r * y) % p() == 0) by {
        assert(x * y == (p() * (x / p())) * y + r * y) by (nonlinear_arith)
            requires
                x == p() * (x / p()) + r,
        ;
        assert((p() * (x / p())) * y == p() * ((x / p()) * y)) by (nonlinear_arith);
        vstd::arithmetic::div_mod::lemma_mod_multiples_vanish((x / p()) * y, r * y, p());
    }
    if r == 1 {
        assert(r * y == y) by (nonlinear_arith)
            requires
                r == 1,
        ;
    } else {
        lemma_modulus_is_prime(r);
        let q = p() / r;
        let s = p() % r;
        vstd::arithmetic::div_mod::lemma_fundamental_div_mod(p(), r);
        assert(0 < s < r);
        // s * y = p * y - q * (r * y), a multiple of p
        assert(s * y == p() * y - q * (r * y)) by (nonlinear_arith)
            requires
                p() == r * q + s,
        ;
        assert((s * y) % p() == 0) by {
            let k = (r * y) / p();
            vstd::arithmetic::div_mod::lemma_fundamental_div_mod(r * y, p());
            assert(q * (r * y) == p() * (q * k)) by (nonlinear_arith)
                requires
                    r * y == p() * k,
            ;
            assert(s * y == p() * (y - q * k)) by (nonlinear_arith)
                requires
                    s * y == p() * y - q * (r * y),
                    q * (r * y) == p() * (q * k),
            ;
            vstd::arithmetic::div_mod::lemma_mod_multiples_basic(y - q * k, p());
            assert(p() * (y - q * k) == (y - q * k) * p()) by (nonlinear_arith);
        }
        assert(s % p() == s) by {
            vstd::arithmetic::div_mod::lemma_small_mod(s as nat, p() as nat);
        }
        lemma_cancel(s, y);
    }
}


/// In the field, `x * (x - 1) * (x - 2)` vanishes exactly at 0, 1 and 2.
pub proof fn lemma_cubic_roots(x: int)
    requires
        0 <= x < p(),
    ensures
        (fmul(fmul(x, fsub(x, 1)), fsub(x, 2)) == 0) <==> (x == 0 || x == 1 || x == 2),
{
    let y = fsub(x, 1);
    let z = fsub(x, 2);
    if x >= 3 {
        assert(y == x - 1 && z == x - 2) by {
            vstd::arithmetic::div_mod::lemma_small_mod((x - 1) as nat, p() as nat);
            vstd::arithmetic::div_mod::lemma_small_mod((x - 2) as nat, p() as nat);
        }
        if fmul(fmul(x, y), z) == 0 {
            vstd::arithmetic::div_mod::lemma_mul_mod_noop_left(x * y, z, p());
            assert((x * y) * z == x * (y * z)) by (nonlinear_arith);
            vstd::arithmetic::div_mod::lemma_small_mod(x as nat, p() as nat);
            vstd::arithmetic::div_mod::lemma_small_mod(y as nat, p() as nat);
            vstd::arithmetic::div_mod::lemma_small_mod(z as nat, p() as nat);
            lemma_cancel(x, y * z);
            lemma_cancel(y, z);
        }
    } else if x == 2 {
        assert(z == 0);
        assert(fmul(fmul(x, y), z) == 0);
    } else if x == 1 {
        assert(y == 0);
        assert(fmul(x, y) == 0);
        assert(fmul(fmul(x, y), z) == 0);
    } else {
        assert(fmul(x, y) == 0);
        assert(fmul(fmul(x, y), z) == 0);
    }
}

/// 2^15 is the inverse of 2^16 in the field: 2^16 * 2^15 = 2^31 = p + 1.
pub proof fn lemma_inverse_of_2_16()
    ensures
        fmul(65536, 32768) == 1,
        fmul(32768, 65536) == 1,
{
    assert(65536 * 32768 == 2147483648int) by (nonlinear_arith);
    assert(32768 * 65536 == 2147483648int) by (nonlinear_arith);
    vstd::arithmetic::div_mod::lemma_mod_multiples_vanish(1, 1, p());
    vstd::arithmetic::div_mod::lemma_small_mod(1, p() as nat);
}

/// Multiplying by 2^15 divides by 2^16: if `c = d * 2^15` in the field then
/// `c * 2^16 = d` in the field.
pub proof fn lemma_times_inverse_of_2_16(d: int, c: int)
    requires
        c == fmul(d % p(), 32768),
    ensures
        (c * 65536) % p() == d % p(),
{
    vstd::arithmetic::div_mod::lemma_mul_mod_noop_left(d, 32768, p());
    vstd::arithmetic::div_mod::lemma_mul_mod_noop_left(d * 32768, 65536, p());
    assert((d * 32768) * 65536 == p() * d + d) by (nonlinear_arith);
    vstd::arithmetic::div_mod::lemma_mod_multiples_vanish(d, d, p());
}

} // verus!
