//! Row-by-row constraint checking: records every constraint value and relation use a
//! component emits at one row, and a violation for every constraint that is not zero.
use crate::m31::M31;
use crate::relations::Relation;
use vstd::arithmetic::power2::{lemma_pow2_unfold, pow2};
use vstd::prelude::*;

verus! {

/// One recorded constraint violation.
#[derive(Debug, Clone, Copy, PartialEq, Eq, Structural)]
pub struct Violation {
    pub row: usize,
    pub constraint_index: usize,
}

/// One relation use: the relation, its multiplicity and its tuple of values, before
/// they are combined with the lookup randomness.
#[derive(Debug)]
pub struct RelationEntry {
    pub relation: Relation,
    pub multiplicity: M31,
    pub values: Vec<M31>,
}

/// The violations of a sequence of constraint values evaluated at `row`: one per
/// constraint whose value is not zero in the field, in order.
pub open spec fn violations_of(row: usize, cs: Seq<M31>) -> Seq<Violation>
    decreases cs.len(),
{
    if cs.len() == 0 {
        Seq::empty()
    } else {
        let prev = violations_of(row, cs.drop_last());
        if cs.last().val() != 0 {
            prev.push(Violation { row, constraint_index: (cs.len() - 1) as usize })
        } else {
            prev
        }
    }
}

/// Evaluates a component at one row: records constraint values, intermediates and
/// relation uses, and the violations among the constraints.
#[derive(Debug)]
pub struct CheckEvaluator {
    pub row: usize,
    pub constraints: Vec<M31>,
    pub intermediates: Vec<M31>,
    pub relation_entries: Vec<RelationEntry>,
    pub violations: Vec<Violation>,
}

impl CheckEvaluator {
    /// The recorded violations are exactly those of the recorded constraint values.
    pub open spec fn wf(&self) -> bool {
        self.violations@ == violations_of(self.row, self.constraints@)
    }

    /// A fresh evaluator at `row`, with nothing recorded.
    pub fn new(row: usize) -> (r: CheckEvaluator)
        ensures
            r.wf(),
            r.row == row,
            r.constraints@ == Seq::<M31>::empty(),
            r.intermediates@ == Seq::<M31>::empty(),
            r.relation_entries@.len() == 0,
            r.violations@ == Seq::<Violation>::empty(),
    {
        CheckEvaluator {
            row,
            constraints: Vec::new(),
            intermediates: Vec::new(),
            relation_entries: Vec::new(),
            violations: Vec::new(),
        }
    }

    /// Records a constraint value; a non-zero value is a violation.
    pub fn add_constraint(&mut self, c: M31)
        requires
            old(self).wf(),
        ensures
            final(self).wf(),
            final(self).row == old(self).row,
            final(self).constraints@ == old(self).constraints@.push(c),
            final(self).intermediates@ == old(self).intermediates@,
            final(self).relation_entries@ == old(self).relation_entries@,
    {
        let index = self.constraints.len();
        self.constraints.push(c);
        if c.0 % crate::m31::MODULUS != 0 {
            self.violations.push(Violation { row: self.row, constraint_index: index });
        }
        assert(self.constraints@.drop_last() =~= old(self).constraints@);
    }

    /// Records an intermediate value and hands it back.
    pub fn add_intermediate(&mut self, v: M31) -> (r: M31)
        requires
            old(self).wf(),
        ensures
            r == v,
            final(self).wf(),
            final(self).row == old(self).row,
            final(self).constraints@ == old(self).constraints@,
            final(self).intermediates@ == old(self).intermediates@.push(v),
            final(self).relation_entries@ == old(self).relation_entries@,
            final(self).violations@ == old(self).violations@,
    {
        self.intermediates.push(v);
        v
    }

    /// Records a use of `relation` with the given multiplicity and values.
    pub fn add_to_relation(&mut self, relation: Relation, multiplicity: M31, values: Vec<M31>)
        requires
            old(self).wf(),
        ensures
            final(self).wf(),
            final(self).row == old(self).row,
            final(self).constraints@ == old(self).constraints@,
            final(self).intermediates@ == old(self).intermediates@,
            final(self).violations@ == old(self).violations@,
            final(self).relation_entries@.len() == old(self).relation_entries@.len() + 1,
            final(self).relation_entries@.drop_last() == old(self).relation_entries@,
            final(self).relation_entries@.last().relation == relation,
            final(self).relation_entries@.last().multiplicity == multiplicity,
            final(self).relation_entries@.last().values@ == values@,
    {
        self.relation_entries.push(RelationEntry { relation, multiplicity, values });
        assert(self.relation_entries@.drop_last() =~= old(self).relation_entries@);
    }
}

/// A row is accepted, no violation recorded, exactly when every constraint value is zero
/// in the field.
pub proof fn lemma_no_violations_iff_all_zero(row: usize, cs: Seq<M31>)
    ensures
        violations_of(row, cs).len() == 0 <==> forall|i: int| 0 <= i < cs.len() ==> #[trigger] cs[i].val() == 0,
    decreases cs.len(),
{
    if cs.len() > 0 {
        lemma_no_violations_iff_all_zero(row, cs.drop_last());
        if violations_of(row, cs).len() == 0 {
            assert forall|i: int| 0 <= i < cs.len() implies #[trigger] cs[i].val() == 0 by {
                if i < cs.len() - 1 {
                    assert(cs.drop_last()[i] == cs[i]);
                }
            }
        } else {
            if forall|i: int| 0 <= i < cs.len() ==> #[trigger] cs[i].val() == 0 {
                assert forall|i: int| 0 <= i < cs.drop_last().len() implies #[trigger] cs.drop_last()[i].val() == 0 by {
                    assert(cs.drop_last()[i] == cs[i]);
                }
                assert(cs[cs.len() - 1].val() == 0);
            }
        }
    }
}

/// Bit reversal of the low `k` bits of `i`.
pub open spec fn rev_bits(i: nat, k: nat) -> nat
    decreases k,
{
    if k == 0 {
        0
    } else {
        (i % 2) * pow2((k - 1) as nat) + rev_bits(i / 2, (k - 1) as nat)
    }
}

/// The bit reversal of `k` bits stays below `2^k`.
pub proof fn lemma_rev_bits_range(i: nat, k: nat)
    ensures
        rev_bits(i, k) < pow2(k),
    decreases k,
{
    if k == 0 {
        vstd::arithmetic::power2::lemma2_to64();
    } else {
        lemma_rev_bits_range(i / 2, (k - 1) as nat);
        lemma_pow2_unfold(k);
        let h = pow2((k - 1) as nat);
        assert((i % 2) * h <= h) by (nonlinear_arith)
            requires
                i % 2 <= 1,
        ;
    }
}

/// Reversing `k` bits moves the top bit `b` of `b * 2^(k-1) + x` to the bottom.
proof fn lemma_rev_bits_top(b: nat, x: nat, k: nat)
    requires
        k >= 1,
        b < 2,
        x < pow2((k - 1) as nat),
    ensures
        rev_bits(b * pow2((k - 1) as nat) + x, k) == 2 * rev_bits(x, (k - 1) as nat) + b,
    decreases k,
{
    let i = b * pow2((k - 1) as nat) + x;
    if k == 1 {
        vstd::arithmetic::power2::lemma2_to64();
        assert(x == 0);
        assert(i == b);
        assert(rev_bits(b / 2, 0) == 0);
    } else {
        let h = pow2((k - 2) as nat);
        lemma_pow2_unfold((k - 1) as nat);
        assert(pow2((k - 1) as nat) == 2 * h);
        vstd::arithmetic::power2::lemma_pow2_pos((k - 2) as nat);
        assert(i % 2 == x % 2 && i / 2 == b * h + x / 2) by {
            assert(i == 2 * (b * h + x / 2) + x % 2) by (nonlinear_arith)
                requires
                    i == b * (2 * h) + x,
                    x == 2 * (x / 2) + x % 2,
            ;
        }
        assert(x / 2 < h);
        lemma_rev_bits_top(b, x / 2, (k - 1) as nat);
        assert(rev_bits(x, (k - 1) as nat) == (x % 2) * h + rev_bits(x / 2, (k - 2) as nat));
        assert(rev_bits(i, k) == (x % 2) * (2 * h) + 2 * rev_bits(x / 2, (k - 2) as nat) + b);
        assert((x % 2) * (2 * h) == 2 * ((x % 2) * h)) by (nonlinear_arith);
    }
}

/// Bit reversal of `k` bits is an involution on `0..2^k`.
pub proof fn lemma_rev_bits_involution(i: nat, k: nat)
    requires
        i < pow2(k),
    ensures
        rev_bits(rev_bits(i, k), k) == i,
    decreases k,
{
    if k == 0 {
        vstd::arithmetic::power2::lemma2_to64();
    } else {
        lemma_pow2_unfold(k);
        let q = i / 2;
        let b = i % 2;
        assert(q < pow2((k - 1) as nat));
        lemma_rev_bits_range(q, (k - 1) as nat);
        lemma_rev_bits_top(b, rev_bits(q, (k - 1) as nat), k);
        lemma_rev_bits_involution(q, (k - 1) as nat);
    }
}

/// The index in the half-coset order of the point at index `ci` of a circle domain of
/// size `n`: the first half of the domain goes to the even coset indices, the second half,
/// reversed, to the odd ones.
pub open spec fn circle_to_coset(ci: nat, n: nat) -> nat {
    if ci < n / 2 {
        ci * 2
    } else {
        ((n - 1 - ci) * 2 + 1) as nat
    }
}

/// The inverse of `circle_to_coset`.
pub open spec fn coset_to_circle(co: nat, n: nat) -> nat {
    if co % 2 == 0 {
        co / 2
    } else {
        ((2 * n - co) / 2) as nat
    }
}

/// On an even domain size the two index maps are inverse permutations of `0..n`.
pub proof fn lemma_circle_coset_inverse(x: nat, n: nat)
    requires
        n % 2 == 0,
        x < n,
    ensures
        circle_to_coset(x, n) < n,
        coset_to_circle(x, n) < n,
        coset_to_circle(circle_to_coset(x, n), n) == x,
        circle_to_coset(coset_to_circle(x, n), n) == x,
{
}

/// `stwo::core::utils::bit_reverse_index`: `i.reverse_bits() >> (usize::BITS - log_size)`,
/// the reversal of the low `log_size` bits of `i` (and `i` itself when `log_size` is 0).
/// Stated for `i < 2^log_size`.
#[verifier::external_body]
fn bit_reverse_index(i: usize, log_size: u32) -> (r: usize)
    requires
        2 * pow2(log_size as nat) <= usize::MAX,
        i < pow2(log_size as nat),
    ensures
        r == rev_bits(i as nat, log_size as nat),
{
    stwo::core::utils::bit_reverse_index(i, log_size)
}

/// `stwo::core::utils::circle_domain_index_to_coset_index`: the source computes
/// `circle_to_coset` with `n = 1 << log_domain_size`.
#[verifier::external_body]
fn circle_domain_index_to_coset_index(circle_index: usize, log_domain_size: u32) -> (r: usize)
    requires
        2 * pow2(log_domain_size as nat) <= usize::MAX,
        circle_index < pow2(log_domain_size as nat),
    ensures
        r == circle_to_coset(circle_index as nat, pow2(log_domain_size as nat)),
{
    stwo::core::utils::circle_domain_index_to_coset_index(circle_index, log_domain_size)
}

/// `stwo::core::utils::coset_index_to_circle_domain_index`: the source computes
/// `coset_to_circle` with `n = 1 << log_domain_size` (as `(2 << log) - coset_index) / 2`
/// for odd indices).
#[verifier::external_body]
fn coset_index_to_circle_domain_index(coset_index: usize, log_domain_size: u32) -> (r: usize)
    requires
        2 * pow2(log_domain_size as nat) <= usize::MAX,
        coset_index < pow2(log_domain_size as nat),
    ensures
        r == coset_to_circle(coset_index as nat, pow2(log_domain_size as nat)),
{
    stwo::core::utils::coset_index_to_circle_domain_index(coset_index, log_domain_size)
}

/// The storage row that a mask at `offset` reads from `row`, in a trace of `2^log_size`
/// rows stored in bit-reversed circle-domain order: offsets step through the coset order,
/// cyclically.
pub open spec fn mask_row_spec(row: nat, log_size: nat, offset: int) -> nat {
    let n = pow2(log_size);
    if offset == 0 {
        row
    } else {
        let co = circle_to_coset(rev_bits(row, log_size), n);
        rev_bits(coset_to_circle(((co + offset) % (n as int)) as nat, n), log_size)
    }
}

/// `s mod n`, Euclidean.
fn rem_euclid(s: isize, n: isize) -> (r: usize)
    requires
        n > 0,
    ensures
        r == (s as int) % (n as int),
        r < n,
{
    if s >= 0 {
        ((s as usize) % (n as usize))
    } else {
        let a = (-(s + 1)) as usize;
        let m = a % (n as usize);
        proof {
            vstd::arithmetic::div_mod::lemma_fundamental_div_mod(a as int, n as int);
            let q = a as int / (n as int);
            assert(s == (n as int) * (-(q + 1)) + (n - 1 - m)) by (nonlinear_arith)
                requires
                    a == (n as int) * q + m,
                    s == -(a + 1),
            ;
            vstd::arithmetic::div_mod::lemma_mod_multiples_vanish(-(q + 1), (n - 1 - m) as int, n as int);
            vstd::arithmetic::div_mod::lemma_small_mod((n - 1 - m) as nat, n as nat);
        }
        (n as usize) - 1 - m
    }
}

/// The storage row a mask at `offset` reads when the evaluator sits at `row`: the
/// row's coset index, moved by `offset` cyclically, mapped back to storage order.
pub fn mask_row(row: usize, log_size: u32, offset: isize) -> (r: usize)
    requires
        log_size <= 62,
        2 * pow2(log_size as nat) <= isize::MAX,
        row < pow2(log_size as nat),
        -(isize::MAX - pow2(log_size as nat)) <= offset <= isize::MAX - pow2(log_size as nat),
    ensures
        r == mask_row_spec(row as nat, log_size as nat, offset as int),
        r < pow2(log_size as nat),
{
    if offset == 0 {
        return row;
    }
    let ghost n = pow2(log_size as nat);
    proof {
        vstd::arithmetic::power2::lemma_pow2_pos(log_size as nat);
        if log_size >= 1 {
            lemma_pow2_unfold(log_size as nat);
        }
        lemma_rev_bits_range(row as nat, log_size as nat);
    }
    proof {
        vstd::arithmetic::power2::lemma2_to64();
    }
    let mut size: usize = 1;
    for i in 0..log_size
        invariant
            log_size <= 62,
            size == pow2(i as nat),
            2 * pow2(log_size as nat) <= isize::MAX,
    {
        proof {
            lemma_pow2_unfold((i + 1) as nat);
            if i + 1 < log_size {
                vstd::arithmetic::power2::lemma_pow2_strictly_increases((i + 1) as nat, log_size as nat);
            }
        }
        size = size * 2;
    }
    let circle = bit_reverse_index(row, log_size);
    let coset = circle_domain_index_to_coset_index(circle, log_size);
    proof {
        if log_size >= 1 {
            lemma_circle_coset_inverse(circle as nat, n);
        } else {
            assert(n == 1);
            assert(coset <= 1);
        }
    }
    let moved = rem_euclid(coset as isize + offset, size as isize);
    let back = coset_index_to_circle_domain_index(moved, log_size);
    proof {
        if log_size >= 1 {
            lemma_circle_coset_inverse(moved as nat, n);
        }
        lemma_rev_bits_range(back as nat, log_size as nat);
    }
    bit_reverse_index(back, log_size)
}

/// Reading at `offset` and then at `-offset` comes back to the starting row: the mask
/// map is a cyclic shift in coset order, conjugated by fixed permutations.
pub proof fn lemma_mask_row_inverse(row: nat, log_size: nat, offset: int)
    requires
        row < pow2(log_size),
    ensures
        mask_row_spec(row, log_size, offset) < pow2(log_size),
        mask_row_spec(mask_row_spec(row, log_size, offset), log_size, -offset) == row,
{
    if log_size == 0 {
        assert(pow2(0) == 1) by {
            vstd::arithmetic::power2::lemma2_to64();
        }
    } else {
        lemma_mask_row_inverse_wide(row, log_size, offset);
    }
}

/// The inverse law on a domain of at least two rows.
proof fn lemma_mask_row_inverse_wide(row: nat, log_size: nat, offset: int)
    requires
        log_size >= 1,
        row < pow2(log_size),
    ensures
        mask_row_spec(row, log_size, offset) < pow2(log_size),
        mask_row_spec(mask_row_spec(row, log_size, offset), log_size, -offset) == row,
{
    let n = pow2(log_size);
    lemma_pow2_unfold(log_size);
    vstd::arithmetic::power2::lemma_pow2_pos(log_size);
    if offset != 0 {
        let x0 = rev_bits(row, log_size);
        lemma_rev_bits_range(row, log_size);
        let a = circle_to_coset(x0, n);
        lemma_circle_coset_inverse(x0, n);
        let b = ((a + offset) % (n as int)) as nat;
        let y = coset_to_circle(b, n);
        lemma_circle_coset_inverse(b, n);
        let m1 = rev_bits(y, log_size);
        lemma_rev_bits_range(y, log_size);
        lemma_rev_bits_involution(y, log_size);
        assert(circle_to_coset(rev_bits(m1, log_size), n) == b);
        assert(((b - offset) % (n as int)) == a) by {
            vstd::arithmetic::div_mod::lemma_fundamental_div_mod(a + offset, n as int);
            let q = (a + offset) / (n as int);
            assert(b - offset == (n as int) * (-q) + a) by (nonlinear_arith)
                requires
                    a + offset == (n as int) * q + b,
            ;
            vstd::arithmetic::div_mod::lemma_mod_multiples_vanish(-q, a as int, n as int);
            vstd::arithmetic::div_mod::lemma_small_mod(a, n);
        }
        lemma_rev_bits_involution(row, log_size);
    } else {
        assert(mask_row_spec(row, log_size, offset) == row);
    }
}

} // verus!
