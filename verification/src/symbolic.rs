//! The expression IR of extracted constraints and relation uses, its exact M31
//! interpreter, and the structural checks on an extracted component.
//!
//! A constraint tree reads single-row base columns (`Col`), canonical constants and the
//! four ring operations; every operation is reduced mod p eagerly.
use crate::relations::{relation_at, Relation, N_RELATIONS};
use std::collections::BTreeSet;
use vstd::prelude::*;

verus! {

broadcast use vstd::laws_cmp::group_laws_cmp, vstd::std_specs::btree::group_btree_axioms;

/// M31 modulus, p = 2^31 - 1.
pub const P: u64 = 2147483647;

/// 6-op expression IR over a single row of M31 base columns.
#[derive(Debug, PartialEq, Eq)]
pub enum Node {
    Col { interaction: usize, idx: usize, offset: isize },
    Const { val: u32 },
    Add { lhs: Box<Node>, rhs: Box<Node> },
    Sub { lhs: Box<Node>, rhs: Box<Node> },
    Mul { lhs: Box<Node>, rhs: Box<Node> },
    Neg { arg: Box<Node> },
}

/// One base constraint (index = emission order within its variant).
#[derive(Debug, PartialEq, Eq)]
pub struct ConstraintDump {
    pub index: usize,
    pub expr: Node,
}

/// One relation use, decoded before randomness combination.
#[derive(Debug, PartialEq, Eq)]
pub struct RelationUseDump {
    pub order: usize,
    pub relation: Relation,
    pub declared_size: usize,
    pub mult_sign: i8,
    pub mult: Node,
    pub values: Vec<Node>,
}

/// One extracted variant (binding constraints on or off) of the component.
#[derive(Debug, PartialEq, Eq)]
pub struct VariantDump {
    pub bind_ch_maj_limbs: bool,
    pub constraints: Vec<ConstraintDump>,
    pub relation_uses: Vec<RelationUseDump>,
}

/// The interpreter can evaluate a tree at a row: every column it reads is in range and
/// holds a canonical M31 value, and no difference `a + p - b` or negation `p - a` goes
/// below zero (which only a constant above p, taken as it is, can cause).
pub open spec fn node_evaluable(node: Node, cols: Seq<u32>) -> bool
    decreases node,
{
    match node {
        Node::Col { idx, .. } => idx < cols.len() && cols[idx as int] < P,
        Node::Const { .. } => true,
        Node::Add { lhs, rhs } => node_evaluable(*lhs, cols) && node_evaluable(*rhs, cols),
        Node::Sub { lhs, rhs } => node_evaluable(*lhs, cols) && node_evaluable(*rhs, cols)
            && node_value(*rhs, cols) <= node_value(*lhs, cols) + P,
        Node::Mul { lhs, rhs } => node_evaluable(*lhs, cols) && node_evaluable(*rhs, cols),
        Node::Neg { arg } => node_evaluable(*arg, cols) && node_value(*arg, cols) <= P,
    }
}

/// The value of a tree in M31 at one row, `cols` holding the row's column values.
pub open spec fn node_value(node: Node, cols: Seq<u32>) -> int
    decreases node,
{
    match node {
        Node::Col { idx, .. } => cols[idx as int] as int,
        Node::Const { val } => val as int,
        Node::Add { lhs, rhs } => (node_value(*lhs, cols) + node_value(*rhs, cols)) % (P as int),
        Node::Sub { lhs, rhs } => (node_value(*lhs, cols) - node_value(*rhs, cols)) % (P as int),
        Node::Mul { lhs, rhs } => (node_value(*lhs, cols) * node_value(*rhs, cols)) % (P as int),
        Node::Neg { arg } => (0 - node_value(*arg, cols)) % (P as int),
    }
}

/// The column indices a tree reads.
pub open spec fn node_cols(node: Node) -> Set<usize>
    decreases node,
{
    match node {
        Node::Col { idx, .. } => set![idx],
        Node::Const { .. } => Set::empty(),
        Node::Add { lhs, rhs } => node_cols(*lhs).union(node_cols(*rhs)),
        Node::Sub { lhs, rhs } => node_cols(*lhs).union(node_cols(*rhs)),
        Node::Mul { lhs, rhs } => node_cols(*lhs).union(node_cols(*rhs)),
        Node::Neg { arg } => node_cols(*arg),
    }
}

fn eval_node_u64(node: &Node, cols: &[u32]) -> (r: u64)
    requires
        node_evaluable(*node, cols@),
    ensures
        r == node_value(*node, cols@),
        r <= u32::MAX,
        !(*node is Const) ==> r < P,
    decreases *node,
{
    match node {
        Node::Col { idx, .. } => cols[*idx] as u64,
        Node::Const { val } => *val as u64,
        Node::Add { lhs, rhs } => (eval_node_u64(lhs, cols) + eval_node_u64(rhs, cols)) % P,
        Node::Sub { lhs, rhs } => {
            let a = eval_node_u64(lhs, cols);
            let b = eval_node_u64(rhs, cols);
            proof {
                vstd::arithmetic::div_mod::lemma_mod_multiples_vanish(1, a - b, P as int);
            }
            (a + P - b) % P
        },
        Node::Mul { lhs, rhs } => {
            let a = eval_node_u64(lhs, cols);
            let b = eval_node_u64(rhs, cols);
            assert(a * b <= u32::MAX * u32::MAX) by (nonlinear_arith)
                requires
                    a <= u32::MAX,
                    b <= u32::MAX,
            ;
            (a * b) % P
        },
        Node::Neg { arg } => {
            let a = eval_node_u64(arg, cols);
            proof {
                vstd::arithmetic::div_mod::lemma_mod_multiples_vanish(1, 0 - a, P as int);
            }
            (P - a) % P
        },
    }
}

/// Exact M31 arithmetic over a tree: eager mod-p at every operation; a bare constant comes
/// back as it is.
pub fn eval_node(node: &Node, cols: &[u32]) -> (r: u32)
    requires
        node_evaluable(*node, cols@),
    ensures
        r == node_value(*node, cols@),
        !(*node is Const) ==> r < P,
{
    eval_node_u64(node, cols) as u32
}

/// Whether the interpreter can evaluate a tree at a row, and the value it computes.
fn evaluable_value(node: &Node, cols: &[u32]) -> (r: Option<u64>)
    ensures
        r is Some <==> node_evaluable(*node, cols@),
        r matches Some(v) ==> v == node_value(*node, cols@) && v <= u32::MAX,
    decreases *node,
{
    match node {
        Node::Col { idx, .. } => {
            if *idx < cols.len() && (cols[*idx] as u64) < P {
                Some(cols[*idx] as u64)
            } else {
                None
            }
        },
        Node::Const { val } => Some(*val as u64),
        Node::Add { lhs, rhs } | Node::Mul { lhs, rhs } => {
            let a = evaluable_value(lhs, cols);
            let b = evaluable_value(rhs, cols);
            match (a, b) {
                (Some(_), Some(_)) => Some(eval_node_u64(node, cols)),
                _ => None,
            }
        },
        Node::Sub { lhs, rhs } => {
            let a = evaluable_value(lhs, cols);
            let b = evaluable_value(rhs, cols);
            match (a, b) {
                (Some(x), Some(y)) => {
                    if y <= x + P {
                        Some(eval_node_u64(node, cols))
                    } else {
                        None
                    }
                },
                _ => None,
            }
        },
        Node::Neg { arg } => match evaluable_value(arg, cols) {
            Some(x) => {
                if x <= P {
                    Some(eval_node_u64(node, cols))
                } else {
                    None
                }
            },
            None => None,
        },
    }
}

/// Whether `node_violations` can evaluate every constraint of a dump at a row.
pub fn dump_evaluable(dump: &VariantDump, cols: &[u32]) -> (r: bool)
    ensures
        r == constraints_evaluable(*dump, cols@),
{
    let n = dump.constraints.len();
    for i in 0..n
        invariant
            n == dump.constraints@.len(),
            forall|j: int| 0 <= j < i ==> #[trigger] node_evaluable(dump.constraints@[j].expr, cols@),
    {
        if evaluable_value(&dump.constraints[i].expr, cols).is_none() {
            return false;
        }
    }
    true
}

/// The indices of the constraints whose trees do not evaluate to zero at a row, in order.
pub open spec fn violating_indices(cs: Seq<ConstraintDump>, cols: Seq<u32>) -> Seq<usize>
    decreases cs.len(),
{
    if cs.len() == 0 {
        Seq::empty()
    } else {
        let prev = violating_indices(cs.drop_last(), cols);
        if node_value(cs.last().expr, cols) != 0 {
            prev.push(cs.last().index)
        } else {
            prev
        }
    }
}

/// Every constraint tree of a variant can be evaluated at a row.
pub open spec fn constraints_evaluable(dump: VariantDump, cols: Seq<u32>) -> bool {
    forall|i: int|
        0 <= i < dump.constraints@.len() ==> #[trigger] node_evaluable(
            dump.constraints@[i].expr,
            cols,
        )
}

/// A row satisfies a variant, no constraint index reported, exactly when every
/// constraint tree evaluates to zero.
pub proof fn lemma_no_violating_indices_iff_all_zero(cs: Seq<ConstraintDump>, cols: Seq<u32>)
    ensures
        violating_indices(cs, cols).len() == 0 <==> forall|i: int|
            0 <= i < cs.len() ==> node_value(#[trigger] cs[i].expr, cols) == 0,
    decreases cs.len(),
{
    if cs.len() > 0 {
        lemma_no_violating_indices_iff_all_zero(cs.drop_last(), cols);
        if violating_indices(cs, cols).len() == 0 {
            assert forall|i: int| 0 <= i < cs.len() implies node_value(#[trigger] cs[i].expr, cols) == 0 by {
                if i < cs.len() - 1 {
                    assert(cs.drop_last()[i] == cs[i]);
                }
            }
        } else {
            if forall|i: int| 0 <= i < cs.len() ==> node_value(#[trigger] cs[i].expr, cols) == 0 {
                assert forall|i: int| 0 <= i < cs.drop_last().len() implies node_value(
                    #[trigger] cs.drop_last()[i].expr,
                    cols,
                ) == 0 by {
                    assert(cs.drop_last()[i] == cs[i]);
                }
                assert(node_value(cs[cs.len() - 1].expr, cols) == 0);
            }
        }
    }
}

/// Indices of the constraint trees that do not evaluate to 0 at this row.
pub fn node_violations(dump: &VariantDump, cols: &[u32]) -> (r: Vec<usize>)
    requires
        constraints_evaluable(*dump, cols@),
    ensures
        r@ == violating_indices(dump.constraints@, cols@),
{
    let mut r: Vec<usize> = Vec::new();
    let n = dump.constraints.len();
    for i in 0..n
        invariant
            n == dump.constraints@.len(),
            constraints_evaluable(*dump, cols@),
            r@ == violating_indices(dump.constraints@.take(i as int), cols@),
    {
        assert(dump.constraints@.take(i + 1).drop_last() =~= dump.constraints@.take(i as int));
        let c = &dump.constraints[i];
        assert(node_evaluable(dump.constraints@[i as int].expr, cols@));
        if eval_node(&c.expr, cols) != 0 {
            r.push(c.index);
        }
    }
    assert(dump.constraints@.take(n as int) =~= dump.constraints@);
    r
}

/// Adds every column index the tree reads to `out`.
pub fn collect_cols(node: &Node, out: &mut BTreeSet<usize>)
    ensures
        final(out)@ == old(out)@.union(node_cols(*node)),
    decreases *node,
{
    match node {
        Node::Col { idx, .. } => {
            out.insert(*idx);
            assert(final(out)@ =~= old(out)@.union(node_cols(*node)));
        },
        Node::Const { .. } => {
            assert(old(out)@.union(node_cols(*node)) =~= old(out)@);
        },
        Node::Add { lhs, rhs } | Node::Sub { lhs, rhs } | Node::Mul { lhs, rhs } => {
            collect_cols(lhs, out);
            collect_cols(rhs, out);
            assert(final(out)@ =~= old(out)@.union(node_cols(*node)));
        },
        Node::Neg { arg } => collect_cols(arg, out),
    }
}


/// How many uses of `r` a sequence of relation uses holds.
pub open spec fn use_count(uses: Seq<RelationUseDump>, r: Relation) -> nat
    decreases uses.len(),
{
    if uses.len() == 0 {
        0
    } else {
        use_count(uses.drop_last(), r) + if uses.last().relation == r {
            1nat
        } else {
            0nat
        }
    }
}

/// The `(relation, count)` pairs of the first `k` relations in name order that occur in
/// `uses`, in name order.
pub open spec fn name_counts(uses: Seq<RelationUseDump>, k: int) -> Seq<(Relation, usize)>
    decreases k,
{
    if k <= 0 {
        Seq::empty()
    } else {
        let prev = name_counts(uses, k - 1);
        let r = relation_at(k - 1);
        if use_count(uses, r) > 0 {
            prev.push((r, use_count(uses, r) as usize))
        } else {
            prev
        }
    }
}

proof fn lemma_use_count_bound(uses: Seq<RelationUseDump>, r: Relation)
    ensures
        use_count(uses, r) <= uses.len(),
    decreases uses.len(),
{
    if uses.len() > 0 {
        lemma_use_count_bound(uses.drop_last(), r);
    }
}

fn count_uses(uses: &Vec<RelationUseDump>, r: Relation) -> (c: usize)
    ensures
        c == use_count(uses@, r),
{
    let mut c: usize = 0;
    let n = uses.len();
    for i in 0..n
        invariant
            n == uses@.len(),
            c == use_count(uses@.take(i as int), r),
    {
        assert(uses@.take(i + 1).drop_last() =~= uses@.take(i as int));
        proof {
            lemma_use_count_bound(uses@.take(i as int), r);
        }
        if uses[i].relation == r {
            c = c + 1;
        }
    }
    assert(uses@.take(n as int) =~= uses@);
    c
}

/// Per-relation use counts, in name order, for the relations that occur.
pub fn relation_name_counts(dump: &VariantDump) -> (r: Vec<(Relation, usize)>)
    ensures
        r@ == name_counts(dump.relation_uses@, N_RELATIONS as int),
{
    let mut r: Vec<(Relation, usize)> = Vec::new();
    for k in 0..N_RELATIONS
        invariant
            r@ == name_counts(dump.relation_uses@, k as int),
    {
        let rel = Relation::at(k);
        let c = count_uses(&dump.relation_uses, rel);
        if c > 0 {
            r.push((rel, c));
        }
    }
    r
}

/// The sum of the counts of `(relation, count)` pairs.
pub open spec fn counts_sum(cs: Seq<(Relation, usize)>) -> int
    decreases cs.len(),
{
    if cs.len() == 0 {
        0
    } else {
        counts_sum(cs.drop_last()) + cs.last().1
    }
}

/// How many of the first `k` relations in name order are `r`.
spec fn index_hits(r: Relation, k: int) -> nat
    decreases k,
{
    if k <= 0 {
        0
    } else {
        index_hits(r, k - 1) + if relation_at(k - 1) == r {
            1nat
        } else {
            0nat
        }
    }
}

/// The uses of the first `k` relations in name order.
spec fn uses_upto(uses: Seq<RelationUseDump>, k: int) -> nat
    decreases k,
{
    if k <= 0 {
        0
    } else {
        uses_upto(uses, k - 1) + use_count(uses, relation_at(k - 1))
    }
}

proof fn lemma_index_hits_one(r: Relation)
    ensures
        index_hits(r, N_RELATIONS as int) == 1,
{
    reveal_with_fuel(index_hits, 18);
}

proof fn lemma_uses_upto_step(uses: Seq<RelationUseDump>, k: int)
    requires
        uses.len() > 0,
    ensures
        uses_upto(uses, k) == uses_upto(uses.drop_last(), k) + index_hits(uses.last().relation, k),
    decreases k,
{
    if k > 0 {
        lemma_uses_upto_step(uses, k - 1);
    }
}

proof fn lemma_uses_upto_all(uses: Seq<RelationUseDump>)
    ensures
        uses_upto(uses, N_RELATIONS as int) == uses.len(),
    decreases uses.len(),
{
    if uses.len() > 0 {
        lemma_uses_upto_all(uses.drop_last());
        lemma_uses_upto_step(uses, N_RELATIONS as int);
        lemma_index_hits_one(uses.last().relation);
    } else {
        lemma_uses_upto_empty(uses, N_RELATIONS as int);
    }
}

proof fn lemma_uses_upto_empty(uses: Seq<RelationUseDump>, k: int)
    requires
        uses.len() == 0,
    ensures
        uses_upto(uses, k) == 0,
    decreases k,
{
    if k > 0 {
        lemma_uses_upto_empty(uses, k - 1);
    }
}

proof fn lemma_name_counts_upto(uses: Seq<RelationUseDump>, k: int)
    requires
        uses.len() <= usize::MAX,
    ensures
        counts_sum(name_counts(uses, k)) == uses_upto(uses, k),
        forall|j: int|
            0 <= j < name_counts(uses, k).len() ==> use_count(uses, (#[trigger] name_counts(uses, k)[j]).0)
                > 0 && name_counts(uses, k)[j].1 == use_count(uses, name_counts(uses, k)[j].0) as usize,
        forall|i: int|
            0 <= i < k && use_count(uses, #[trigger] relation_at(i)) > 0 ==> exists|j: int|
                0 <= j < name_counts(uses, k).len() && name_counts(uses, k)[j] == (
                    relation_at(i),
                    use_count(uses, relation_at(i)) as usize,
                ),
    decreases k,
{
    if k > 0 {
        lemma_name_counts_upto(uses, k - 1);
        let prev = name_counts(uses, k - 1);
        let r = relation_at(k - 1);
        lemma_use_count_bound(uses, r);
        if use_count(uses, r) > 0 {
            let cur = prev.push((r, use_count(uses, r) as usize));
            assert(name_counts(uses, k) == cur);
            assert(cur.drop_last() =~= prev);
            assert forall|i: int|
                0 <= i < k && use_count(uses, #[trigger] relation_at(i)) > 0 implies exists|j: int|
                0 <= j < cur.len() && cur[j] == (relation_at(i), use_count(uses, relation_at(i)) as usize) by {
                if i < k - 1 {
                    let j = choose|j: int|
                        0 <= j < prev.len() && prev[j] == (
                            relation_at(i),
                            use_count(uses, relation_at(i)) as usize,
                        );
                    assert(cur[j] == prev[j]);
                } else {
                    assert(cur[prev.len() as int] == (r, use_count(uses, r) as usize));
                }
            }
        } else {
            assert(name_counts(uses, k) == prev);
            assert forall|i: int|
                0 <= i < k && use_count(uses, #[trigger] relation_at(i)) > 0 implies exists|j: int|
                0 <= j < prev.len() && prev[j] == (relation_at(i), use_count(uses, relation_at(i)) as usize) by {
                assert(i < k - 1);
            }
        }
    }
}

/// Every relation is at some position of the name order.
proof fn lemma_relation_at_onto(r: Relation) -> (i: int)
    ensures
        0 <= i < N_RELATIONS,
        relation_at(i) == r,
{
    match r {
        Relation::Sha256BigSigma0 => 0,
        Relation::Sha256BigSigma0O0 => 1,
        Relation::Sha256BigSigma0O1 => 2,
        Relation::Sha256BigSigma1 => 3,
        Relation::Sha256BigSigma1O0 => 4,
        Relation::Sha256BigSigma1O1 => 5,
        Relation::Sha256KTable => 6,
        Relation::Sha256Round => 7,
        Relation::Sha256Schedule => 8,
        Relation::Sha256SmallSigma0 => 9,
        Relation::Sha256SmallSigma0O0 => 10,
        Relation::Sha256SmallSigma0O1 => 11,
        Relation::Sha256SmallSigma1 => 12,
        Relation::Sha256SmallSigma1O0 => 13,
        Relation::Sha256SmallSigma1O1 => 14,
        Relation::VerifyBitwiseAnd_8 => 15,
        Relation::VerifyBitwiseXor_8 => 16,
    }
}

/// The relation counts of a dump add up to its number of relation uses, every relation
/// that occurs is listed with the number of its uses, and one that does not occur is not
/// listed.
pub proof fn lemma_name_counts_partition(uses: Seq<RelationUseDump>)
    requires
        uses.len() <= usize::MAX,
    ensures
        counts_sum(name_counts(uses, N_RELATIONS as int)) == uses.len(),
        forall|r: Relation|
            #![trigger use_count(uses, r)]
            (exists|j: int|
                0 <= j < name_counts(uses, N_RELATIONS as int).len() && name_counts(
                    uses,
                    N_RELATIONS as int,
                )[j] == (r, use_count(uses, r) as usize)) <==> use_count(uses, r) > 0,
{
    let n = N_RELATIONS as int;
    lemma_name_counts_upto(uses, n);
    lemma_uses_upto_all(uses);
    assert forall|r: Relation|
        #![trigger use_count(uses, r)]
        (exists|j: int|
            0 <= j < name_counts(uses, n).len() && name_counts(uses, n)[j] == (
                r,
                use_count(uses, r) as usize,
            )) <==> use_count(uses, r) > 0 by {
        let i = lemma_relation_at_onto(r);
        if exists|j: int|
            0 <= j < name_counts(uses, n).len() && name_counts(uses, n)[j] == (
                r,
                use_count(uses, r) as usize,
            ) {
            let j = choose|j: int|
                0 <= j < name_counts(uses, n).len() && name_counts(uses, n)[j] == (
                    r,
                    use_count(uses, r) as usize,
                );
            assert(use_count(uses, name_counts(uses, n)[j].0) > 0);
        }
        if use_count(uses, r) > 0 {
            assert(use_count(uses, relation_at(i)) > 0);
        }
    }
}

/// The relation of each use, in order.
pub open spec fn relations_of(uses: Seq<RelationUseDump>) -> Seq<Relation> {
    uses.map_values(|u: RelationUseDump| u.relation)
}

proof fn lemma_use_count_multiset(uses: Seq<RelationUseDump>, r: Relation)
    ensures
        use_count(uses, r) == relations_of(uses).to_multiset().count(r),
    decreases uses.len(),
{
    broadcast use vstd::multiset::group_multiset_axioms;
    if uses.len() == 0 {
        vstd::seq_lib::to_multiset_contains(relations_of(uses), r);
        assert(!relations_of(uses).contains(r));
    } else {
        let prev = uses.drop_last();
        lemma_use_count_multiset(prev, r);
        assert(relations_of(uses) =~= relations_of(prev).push(uses.last().relation));
        vstd::seq_lib::to_multiset_build(relations_of(prev), uses.last().relation);
    }
}

proof fn lemma_name_counts_same_uses(u1: Seq<RelationUseDump>, u2: Seq<RelationUseDump>, k: int)
    requires
        forall|r: Relation| #[trigger] use_count(u1, r) == use_count(u2, r),
    ensures
        name_counts(u1, k) == name_counts(u2, k),
    decreases k,
{
    if k > 0 {
        lemma_name_counts_same_uses(u1, u2, k - 1);
        assert(use_count(u1, relation_at(k - 1)) == use_count(u2, relation_at(k - 1)));
    }
}

/// The relation counts of a dump depend only on how often each relation is used: any
/// reordering of the relation uses, which keeps that multiset, gives the same counts.
pub proof fn lemma_name_counts_order_free(u1: Seq<RelationUseDump>, u2: Seq<RelationUseDump>)
    requires
        relations_of(u1).to_multiset() == relations_of(u2).to_multiset(),
    ensures
        name_counts(u1, N_RELATIONS as int) == name_counts(u2, N_RELATIONS as int),
{
    assert forall|r: Relation| #[trigger] use_count(u1, r) == use_count(u2, r) by {
        lemma_use_count_multiset(u1, r);
        lemma_use_count_multiset(u2, r);
    }
    lemma_name_counts_same_uses(u1, u2, N_RELATIONS as int);
}

/// Structural equality of two trees.
pub fn node_eq(a: &Node, b: &Node) -> (r: bool)
    ensures
        r == (*a == *b),
    decreases *a,
{
    match (a, b) {
        (
            Node::Col { interaction: i1, idx: x1, offset: o1 },
            Node::Col { interaction: i2, idx: x2, offset: o2 },
        ) => *i1 == *i2 && *x1 == *x2 && *o1 == *o2,
        (Node::Const { val: v1 }, Node::Const { val: v2 }) => *v1 == *v2,
        (Node::Add { lhs: l1, rhs: r1 }, Node::Add { lhs: l2, rhs: r2 }) => node_eq(l1, l2)
            && node_eq(r1, r2),
        (Node::Sub { lhs: l1, rhs: r1 }, Node::Sub { lhs: l2, rhs: r2 }) => node_eq(l1, l2)
            && node_eq(r1, r2),
        (Node::Mul { lhs: l1, rhs: r1 }, Node::Mul { lhs: l2, rhs: r2 }) => node_eq(l1, l2)
            && node_eq(r1, r2),
        (Node::Neg { arg: a1 }, Node::Neg { arg: a2 }) => node_eq(a1, a2),
        _ => false,
    }
}

/// Every column a tree reads is below `bound`.
pub open spec fn cols_below(node: Node, bound: usize) -> bool
    decreases node,
{
    match node {
        Node::Col { idx, .. } => idx < bound,
        Node::Const { .. } => true,
        Node::Add { lhs, rhs } => cols_below(*lhs, bound) && cols_below(*rhs, bound),
        Node::Sub { lhs, rhs } => cols_below(*lhs, bound) && cols_below(*rhs, bound),
        Node::Mul { lhs, rhs } => cols_below(*lhs, bound) && cols_below(*rhs, bound),
        Node::Neg { arg } => cols_below(*arg, bound),
    }
}

proof fn lemma_cols_below_pair(node: Node, lhs: Node, rhs: Node, bound: usize)
    requires
        node_cols(node) == node_cols(lhs).union(node_cols(rhs)),
        cols_below(lhs, bound) <==> (forall|c: usize| node_cols(lhs).contains(c) ==> c < bound),
        cols_below(rhs, bound) <==> (forall|c: usize| node_cols(rhs).contains(c) ==> c < bound),
    ensures
        (cols_below(lhs, bound) && cols_below(rhs, bound)) <==> (forall|c: usize|
            node_cols(node).contains(c) ==> c < bound),
{
    if cols_below(lhs, bound) && cols_below(rhs, bound) {
        assert forall|c: usize| node_cols(node).contains(c) implies c < bound by {
            assert(node_cols(lhs).contains(c) || node_cols(rhs).contains(c));
        }
    } else if !cols_below(lhs, bound) {
        let c = choose|c: usize| node_cols(lhs).contains(c) && !(c < bound);
        assert(node_cols(node).contains(c));
    } else {
        let c = choose|c: usize| node_cols(rhs).contains(c) && !(c < bound);
        assert(node_cols(node).contains(c));
    }
}

/// `cols_below` says that every column in `node_cols` is below the bound.
pub proof fn lemma_cols_below(node: Node, bound: usize)
    ensures
        cols_below(node, bound) <==> (forall|c: usize| node_cols(node).contains(c) ==> c < bound),
    decreases node,
{
    match node {
        Node::Col { idx, .. } => {
            assert(node_cols(node).contains(idx));
        },
        Node::Const { .. } => {},
        Node::Add { lhs, rhs } => {
            lemma_cols_below(*lhs, bound);
            lemma_cols_below(*rhs, bound);
            lemma_cols_below_pair(node, *lhs, *rhs, bound);
        },
        Node::Sub { lhs, rhs } => {
            lemma_cols_below(*lhs, bound);
            lemma_cols_below(*rhs, bound);
            lemma_cols_below_pair(node, *lhs, *rhs, bound);
        },
        Node::Mul { lhs, rhs } => {
            lemma_cols_below(*lhs, bound);
            lemma_cols_below(*rhs, bound);
            lemma_cols_below_pair(node, *lhs, *rhs, bound);
        },
        Node::Neg { arg } => {
            lemma_cols_below(*arg, bound);
            assert(node_cols(node) == node_cols(*arg));
            assert(cols_below(node, bound) == cols_below(*arg, bound));
        },
    }
}

fn node_cols_below(node: &Node, bound: usize) -> (r: bool)
    ensures
        r == cols_below(*node, bound),
    decreases *node,
{
    match node {
        Node::Col { idx, .. } => *idx < bound,
        Node::Const { .. } => true,
        Node::Add { lhs, rhs } | Node::Sub { lhs, rhs } | Node::Mul { lhs, rhs } => {
            let a = node_cols_below(lhs, bound);
            let b = node_cols_below(rhs, bound);
            a && b
        },
        Node::Neg { arg } => node_cols_below(arg, bound),
    }
}


/// Mechanically derived structure: the enabler column and the binding constraints.
#[derive(Debug, PartialEq, Eq)]
pub struct StructuralInfo {
    pub enabler_col: usize,
    /// bind_on indices of the four binding constraints.
    pub binding_indices: Vec<usize>,
    /// (limb_col, recombined_col) pairs: each binding is Sub(Col(limb), Col(recomb)).
    pub binding_pairs: Vec<(usize, usize)>,
}

/// The first structural check an extracted pair of variants fails.
#[derive(Debug, Clone, Copy, PartialEq, Eq, Structural)]
pub enum StructuralError {
    VariantFlags,
    BindOnConstraintCount,
    BindOffConstraintCount,
    NotInOrderSubsequence,
    BindingCount,
    BindingIndices,
    BindingShape,
    BindingPairs,
    RelationUseCount,
    VariantRelationUsesDiffer,
    RelationCounts,
    RoundEntryCount,
    RoundEntrySigns,
    RoundEntrySize,
    RoundMultiplicity,
    EnablerColumn,
    TableMultiplicity,
    ColumnCoverage,
}

/// The number of constraints with the binding fix.
pub const N_BIND_ON_CONSTRAINTS: usize = 21;
/// The number of constraints without it.
pub const N_BIND_OFF_CONSTRAINTS: usize = 17;
/// The number of relation uses per row.
pub const N_RELATION_USES: usize = 38;
/// The number of base columns of the round component.
pub const N_COLUMNS: usize = 125;
/// The enabler column.
pub const ENABLER_COL: usize = 124;

/// Greedy in-order matching of the bind_off constraints inside the bind_on ones, over
/// the first `k` bind_on constraints: the bind_off cursor, and the bind_on indices left
/// unmatched.
pub open spec fn scan(on: Seq<ConstraintDump>, off: Seq<ConstraintDump>, k: int) -> (int, Seq<usize>)
    decreases k,
{
    if k <= 0 {
        (0, Seq::empty())
    } else {
        let prev = scan(on, off, k - 1);
        if prev.0 < off.len() && off[prev.0].expr == on[k - 1].expr {
            (prev.0 + 1, prev.1)
        } else {
            (prev.0, prev.1.push((k - 1) as usize))
        }
    }
}

/// The column pair of a `Sub(Col(limb), Col(recomb))` tree.
pub open spec fn binding_pair(node: Node) -> Option<(usize, usize)> {
    match node {
        Node::Sub { lhs, rhs } => match (*lhs, *rhs) {
            (Node::Col { idx: a, .. }, Node::Col { idx: b, .. }) => Some((a, b)),
            _ => None,
        },
        _ => None,
    }
}

/// Two relation uses are equal, node for node.
pub open spec fn use_eq(a: RelationUseDump, b: RelationUseDump) -> bool {
    &&& a.order == b.order
    &&& a.relation == b.relation
    &&& a.declared_size == b.declared_size
    &&& a.mult_sign == b.mult_sign
    &&& a.mult == b.mult
    &&& a.values@ == b.values@
}

/// Two sequences of relation uses are equal, use for use.
pub open spec fn uses_eq(a: Seq<RelationUseDump>, b: Seq<RelationUseDump>) -> bool {
    a.len() == b.len() && forall|i: int| 0 <= i < a.len() ==> #[trigger] use_eq(a[i], b[i])
}

/// The per-relation use counts of the round component.
pub open spec fn expected_counts() -> Seq<(Relation, usize)> {
    seq![
        (Relation::Sha256BigSigma0, 1usize),
        (Relation::Sha256BigSigma1, 1usize),
        (Relation::Sha256KTable, 1usize),
        (Relation::Sha256Round, 2usize),
        (Relation::Sha256Schedule, 1usize),
        (Relation::VerifyBitwiseAnd_8, 20usize),
        (Relation::VerifyBitwiseXor_8, 12usize),
    ]
}

/// A round-relation use with the given multiplicity sign.
pub open spec fn is_round_with_sign(u: RelationUseDump, sign: i8) -> bool {
    u.relation == Relation::Sha256Round && u.mult_sign == sign
}

/// How many round-relation uses with the given sign `uses` holds.
pub open spec fn round_sign_count(uses: Seq<RelationUseDump>, sign: i8) -> nat
    decreases uses.len(),
{
    if uses.len() == 0 {
        0
    } else {
        round_sign_count(uses.drop_last(), sign) + if is_round_with_sign(uses.last(), sign) {
            1nat
        } else {
            0nat
        }
    }
}

/// Every round-relation use carries 50 values.
pub open spec fn round_sizes_ok(uses: Seq<RelationUseDump>) -> bool {
    forall|i: int|
        0 <= i < uses.len() && uses[i].relation == Relation::Sha256Round ==> #[trigger] uses[i].values@.len()
            == 50
}

/// The index of the first round-relation use with the given sign.
pub open spec fn first_round_with_sign(uses: Seq<RelationUseDump>, sign: i8) -> int {
    choose|i: int|
        0 <= i < uses.len() && is_round_with_sign(uses[i], sign) && forall|j: int|
            0 <= j < i ==> !#[trigger] is_round_with_sign(uses[j], sign)
}

/// The enabler column: the shared bare column of the +1 and the -1 round multiplicities.
pub open spec fn enabler_of(uses: Seq<RelationUseDump>) -> Option<usize> {
    let plus = uses[first_round_with_sign(uses, 1i8)].mult;
    let minus = uses[first_round_with_sign(uses, -1i8)].mult;
    match (plus, minus) {
        (Node::Col { idx: a, .. }, Node::Col { idx: b, .. }) => if a == b {
            Some(a)
        } else {
            None
        },
        _ => None,
    }
}

/// Every table use (any relation but the round one) has multiplicity `+1 * Const 1`.
pub open spec fn table_mults_ok(uses: Seq<RelationUseDump>) -> bool {
    forall|i: int|
        #![trigger uses[i]]
        0 <= i < uses.len() && uses[i].relation != Relation::Sha256Round ==> {
            &&& uses[i].mult_sign == 1
            &&& uses[i].mult == Node::Const { val: 1 }
        }
}

/// The columns read by a sequence of trees.
pub open spec fn nodes_cols(ns: Seq<Node>) -> Set<usize>
    decreases ns.len(),
{
    if ns.len() == 0 {
        Set::empty()
    } else {
        nodes_cols(ns.drop_last()).union(node_cols(ns.last()))
    }
}

/// The columns read by a sequence of constraints.
pub open spec fn constraint_cols(cs: Seq<ConstraintDump>) -> Set<usize>
    decreases cs.len(),
{
    if cs.len() == 0 {
        Set::empty()
    } else {
        constraint_cols(cs.drop_last()).union(node_cols(cs.last().expr))
    }
}

/// The columns read by a sequence of relation uses (multiplicities and values).
pub open spec fn use_cols(us: Seq<RelationUseDump>) -> Set<usize>
    decreases us.len(),
{
    if us.len() == 0 {
        Set::empty()
    } else {
        use_cols(us.drop_last()).union(node_cols(us.last().mult)).union(
            nodes_cols(us.last().values@),
        )
    }
}

/// The columns read anywhere in a variant.
pub open spec fn variant_cols(v: VariantDump) -> Set<usize> {
    constraint_cols(v.constraints@).union(use_cols(v.relation_uses@))
}

/// The columns `0..n`.
pub open spec fn range_set(n: usize) -> Set<usize> {
    Set::new(|c: usize| c < n)
}

/// `node` is the binding `Col(limb) - Col(recombined)`.
pub open spec fn is_binding(node: Node, limb: usize, recombined: usize) -> bool {
    match node {
        Node::Sub { lhs, rhs } => match (*lhs, *rhs) {
            (Node::Col { idx: a, .. }, Node::Col { idx: b, .. }) => a == limb && b == recombined,
            _ => false,
        },
        _ => false,
    }
}

/// `node` reads the bare column `col`.
pub open spec fn is_col(node: Node, col: usize) -> bool {
    match node {
        Node::Col { idx, .. } => idx == col,
        _ => false,
    }
}

/// What an accepted pair of variants looks like, use by use and constraint by constraint:
/// `bind_on` carries the binding fix and `bind_off` not; 21 and 17 constraints, the four
/// bindings `78 - 76`, `79 - 77`, `114 - 112`, `115 - 113` at indices 5, 6, 13, 14 of
/// `bind_on`, and `bind_off`'s constraints those of `bind_on` without the four, in order; 38 relation uses, the same in both variants; two round uses, one pushed and
/// one pulled, each on the enabler column 124 and each with a 50-value tuple; one use each
/// of Σ0, Σ1, the K table and the schedule, 20 AND and 12 XOR uses; every table
/// use pushed once (`+1 * Const 1`); and every column `0..125` read by each variant.
pub open spec fn accepted_pair(on: VariantDump, off: VariantDump) -> bool {
    let uses = on.relation_uses@;
    let round = Relation::Sha256Round;
    &&& on.bind_ch_maj_limbs && !off.bind_ch_maj_limbs
    &&& on.constraints@.len() == 21 && off.constraints@.len() == 17
    &&& forall|j: int|
        0 <= j < 17 ==> (#[trigger] off.constraints@[j]).expr == on.constraints@[j + if j < 5 {
            0int
        } else if j < 11 {
            2int
        } else {
            4int
        }].expr
    &&& is_binding(on.constraints@[5].expr, 78, 76)
    &&& is_binding(on.constraints@[6].expr, 79, 77)
    &&& is_binding(on.constraints@[13].expr, 114, 112)
    &&& is_binding(on.constraints@[14].expr, 115, 113)
    &&& uses.len() == 38 && off.relation_uses@.len() == 38
    &&& forall|i: int|
        0 <= i < 38 ==> {
            &&& (#[trigger] uses[i]).order == off.relation_uses@[i].order
            &&& uses[i].relation == off.relation_uses@[i].relation
            &&& uses[i].declared_size == off.relation_uses@[i].declared_size
            &&& uses[i].mult_sign == off.relation_uses@[i].mult_sign
            &&& uses[i].mult == off.relation_uses@[i].mult
            &&& uses[i].values@ == off.relation_uses@[i].values@
        }
    &&& use_count(uses, round) == 2
    &&& use_count(uses, Relation::Sha256BigSigma0) == 1 && use_count(uses, Relation::Sha256BigSigma1) == 1
    &&& use_count(uses, Relation::Sha256KTable) == 1 && use_count(uses, Relation::Sha256Schedule) == 1
    &&& use_count(uses, Relation::VerifyBitwiseAnd_8) == 20
    &&& use_count(uses, Relation::VerifyBitwiseXor_8) == 12
    &&& round_sign_count(uses, 1i8) == 1 && round_sign_count(uses, -1i8) == 1
    &&& forall|i: int| 0 <= i < 38 && (#[trigger] uses[i]).relation == round ==> uses[i].values@.len() == 50
    &&& exists|i: int|
        0 <= i < 38 && (#[trigger] uses[i]).relation == round && uses[i].mult_sign == 1 && is_col(
            uses[i].mult,
            124,
        )
    &&& exists|i: int|
        0 <= i < 38 && (#[trigger] uses[i]).relation == round && uses[i].mult_sign == -1 && is_col(
            uses[i].mult,
            124,
        )
    &&& forall|i: int|
        0 <= i < 38 && (#[trigger] uses[i]).relation != round ==> uses[i].mult_sign == 1 && uses[i].mult
            == Node::Const { val: 1 }
    &&& forall|c: usize| c < 125 ==> #[trigger] variant_cols(on).contains(c) && variant_cols(off).contains(c)
}

proof fn lemma_no_round_with_sign(uses: Seq<RelationUseDump>, sign: i8)
    requires
        round_sign_count(uses, sign) == 0,
    ensures
        forall|j: int| 0 <= j < uses.len() ==> !#[trigger] is_round_with_sign(uses[j], sign),
    decreases uses.len(),
{
    if uses.len() > 0 {
        lemma_no_round_with_sign(uses.drop_last(), sign);
        assert forall|j: int| 0 <= j < uses.len() implies !#[trigger] is_round_with_sign(uses[j], sign) by {
            if j < uses.len() - 1 {
                assert(uses[j] == uses.drop_last()[j]);
            }
        }
    }
}

proof fn lemma_first_round_with_sign(uses: Seq<RelationUseDump>, sign: i8)
    requires
        round_sign_count(uses, sign) > 0,
    ensures
        exists|i: int|
            0 <= i < uses.len() && is_round_with_sign(uses[i], sign) && forall|j: int|
                0 <= j < i ==> !#[trigger] is_round_with_sign(uses[j], sign),
    decreases uses.len(),
{
    let prev = uses.drop_last();
    if round_sign_count(prev, sign) > 0 {
        lemma_first_round_with_sign(prev, sign);
        let i = choose|i: int|
            0 <= i < prev.len() && is_round_with_sign(prev[i], sign) && forall|j: int|
                0 <= j < i ==> !#[trigger] is_round_with_sign(prev[j], sign);
        assert(uses[i] == prev[i]);
        assert forall|j: int| 0 <= j < i implies !#[trigger] is_round_with_sign(uses[j], sign) by {
            assert(uses[j] == prev[j]);
        }
    } else {
        lemma_no_round_with_sign(prev, sign);
        let i = uses.len() - 1;
        assert forall|j: int| 0 <= j < i implies !#[trigger] is_round_with_sign(uses[j], sign) by {
            assert(uses[j] == prev[j]);
        }
    }
}

proof fn lemma_scan_len(on: Seq<ConstraintDump>, off: Seq<ConstraintDump>, k: int)
    requires
        k >= 0,
    ensures
        scan(on, off, k).0 + scan(on, off, k).1.len() == k,
        0 <= scan(on, off, k).0 <= off.len(),
        k <= usize::MAX ==> forall|i: int| 0 <= i < scan(on, off, k).1.len() ==> #[trigger] scan(on, off, k).1[i] < k,
    decreases k,
{
    if k > 0 {
        lemma_scan_len(on, off, k - 1);
        let prev = scan(on, off, k - 1).1;
        let cur = scan(on, off, k).1;
        assert forall|i: int| 0 <= i < cur.len() implies #[trigger] cur[i] < k by {
            if i < prev.len() {
                assert(cur[i] == prev[i]);
            }
        }
    }
}

proof fn lemma_scan_prefix(on: Seq<ConstraintDump>, off: Seq<ConstraintDump>, k: int, n: int)
    requires
        0 <= k <= n <= usize::MAX,
    ensures
        scan(on, off, k).1.len() <= scan(on, off, n).1.len(),
        forall|i: int| 0 <= i < scan(on, off, k).1.len() ==> scan(on, off, n).1[i] == #[trigger] scan(on, off, k).1[i],
        forall|i: int|
            scan(on, off, k).1.len() <= i < scan(on, off, n).1.len() ==> #[trigger] scan(on, off, n).1[i] >= k,
    decreases n - k,
{
    if k < n {
        lemma_scan_prefix(on, off, k, n - 1);
        let prev = scan(on, off, n - 1).1;
        let cur = scan(on, off, n).1;
        assert forall|i: int| 0 <= i < prev.len() implies cur[i] == prev[i] by {}
        assert forall|i: int|
            scan(on, off, k).1.len() <= i < cur.len() implies #[trigger] cur[i] >= k by {
            if i < prev.len() {
                assert(cur[i] == prev[i]);
            } else {
                assert(cur[i] == (n - 1) as usize);
            }
        }
    }
}

/// When the greedy scan leaves exactly indices 5, 6, 13, 14 of 21 unmatched and matches
/// all 17 constraints of `off`, `off` is `on` without those four, in order.
proof fn lemma_scan_subsequence(on: Seq<ConstraintDump>, off: Seq<ConstraintDump>)
    requires
        on.len() == 21,
        off.len() == 17,
        scan(on, off, 21).0 == 17,
        scan(on, off, 21).1 == seq![5usize, 6usize, 13usize, 14usize],
    ensures
        forall|j: int|
            0 <= j < 17 ==> (#[trigger] off[j]).expr == on[j + if j < 5 {
                0int
            } else if j < 11 {
                2int
            } else {
                4int
            }].expr,
{
    let d = scan(on, off, 21).1;
    assert forall|k: int|
        0 <= k < 21 && k != 5 && k != 6 && k != 13 && k != 14 implies off[scan(on, off, k).0].expr
        == on[k].expr && scan(on, off, k).0 == k - (if k < 5 {
        0int
    } else if k < 13 {
        2int
    } else {
        4int
    }) by {
        lemma_scan_len(on, off, k);
        lemma_scan_len(on, off, k + 1);
        lemma_scan_prefix(on, off, k, 21);
        lemma_scan_prefix(on, off, k + 1, 21);
        let l = scan(on, off, k).1.len();
        if scan(on, off, k + 1).1.len() != l {
            assert(scan(on, off, k + 1).1[l as int] == k);
            assert(d[l as int] == k);
        }
        assert forall|i: int| 0 <= i < l implies #[trigger] d[i] < k by {
            assert(d[i] == scan(on, off, k).1[i]);
        }
        assert forall|i: int| l <= i < 4 implies #[trigger] d[i] >= k by {}
        assert(d[0] == 5 && d[1] == 6 && d[2] == 13 && d[3] == 14);
    }
    assert forall|j: int| 0 <= j < 17 implies (#[trigger] off[j]).expr == on[j + if j < 5 {
        0int
    } else if j < 11 {
        2int
    } else {
        4int
    }].expr by {
        let k = j + if j < 5 {
            0int
        } else if j < 11 {
            2int
        } else {
            4int
        };
        assert(off[scan(on, off, k).0].expr == on[k].expr);
    }
}

/// A pair the structural checks accept has the shape `accepted_pair` describes.
pub proof fn lemma_accepted_pair(on: VariantDump, off: VariantDump)
    requires
        structural_verdict(on, off) is Ok,
    ensures
        accepted_pair(on, off),
{
    let uses = on.relation_uses@;
    let s = scan(on.constraints@, off.constraints@, on.constraints@.len() as int);
    let diff = s.1;
    let pairs = Seq::new(4, |j: int| binding_pair(on.constraints@[diff[j] as int].expr)->0);
    lemma_scan_subsequence(on.constraints@, off.constraints@);
    assert(binding_pair(on.constraints@[diff[0] as int].expr) is Some);
    assert(binding_pair(on.constraints@[diff[1] as int].expr) is Some);
    assert(binding_pair(on.constraints@[diff[2] as int].expr) is Some);
    assert(binding_pair(on.constraints@[diff[3] as int].expr) is Some);
    assert(pairs[0] == (78usize, 76usize));
    assert(pairs[1] == (79usize, 77usize));
    assert(pairs[2] == (114usize, 112usize));
    assert(pairs[3] == (115usize, 113usize));
    assert forall|i: int| 0 <= i < 38 implies use_eq(#[trigger] uses[i], off.relation_uses@[i]) by {
        assert(use_eq(uses[i], off.relation_uses@[i]));
    }
    lemma_name_counts_upto(uses, N_RELATIONS as int);
    let nc = name_counts(uses, N_RELATIONS as int);
    assert(nc == expected_counts());
    assert forall|j: int| 0 <= j < 7 implies use_count(uses, #[trigger] nc[j].0) == nc[j].1 by {
        lemma_use_count_bound(uses, nc[j].0);
    }
    assert(nc[0].0 == Relation::Sha256BigSigma0 && nc[1].0 == Relation::Sha256BigSigma1);
    assert(nc[2].0 == Relation::Sha256KTable && nc[4].0 == Relation::Sha256Schedule);
    assert(nc[5].0 == Relation::VerifyBitwiseAnd_8 && nc[6].0 == Relation::VerifyBitwiseXor_8);
    lemma_first_round_with_sign(uses, 1i8);
    lemma_first_round_with_sign(uses, -1i8);
    let ip = first_round_with_sign(uses, 1i8);
    let im = first_round_with_sign(uses, -1i8);
    assert(is_col(uses[ip].mult, 124));
    assert(is_col(uses[im].mult, 124));
    assert forall|c: usize| c < 125 implies #[trigger] variant_cols(on).contains(c) && variant_cols(off).contains(c) by {
        assert(range_set(N_COLUMNS).contains(c));
    }
}

/// The outcome of the structural checks, in the order they run: the first failing check,
/// or success.
pub open spec fn structural_verdict(on: VariantDump, off: VariantDump) -> Result<(), StructuralError> {
    let s = scan(on.constraints@, off.constraints@, on.constraints@.len() as int);
    let diff = s.1;
    let uses = on.relation_uses@;
    if !(on.bind_ch_maj_limbs && !off.bind_ch_maj_limbs) {
        Err(StructuralError::VariantFlags)
    } else if on.constraints@.len() != N_BIND_ON_CONSTRAINTS {
        Err(StructuralError::BindOnConstraintCount)
    } else if off.constraints@.len() != N_BIND_OFF_CONSTRAINTS {
        Err(StructuralError::BindOffConstraintCount)
    } else if s.0 != off.constraints@.len() {
        Err(StructuralError::NotInOrderSubsequence)
    } else if diff.len() != 4 {
        Err(StructuralError::BindingCount)
    } else if diff != seq![5usize, 6usize, 13usize, 14usize] {
        Err(StructuralError::BindingIndices)
    } else if !(forall|j: int| 0 <= j < 4 ==> #[trigger] binding_pair(on.constraints@[diff[j] as int].expr) is Some) {
        Err(StructuralError::BindingShape)
    } else if Seq::new(4, |j: int| binding_pair(on.constraints@[diff[j] as int].expr)->0)
        != seq![(78usize, 76usize), (79usize, 77usize), (114usize, 112usize), (115usize, 113usize)] {
        Err(StructuralError::BindingPairs)
    } else if uses.len() != N_RELATION_USES {
        Err(StructuralError::RelationUseCount)
    } else if !uses_eq(uses, off.relation_uses@) {
        Err(StructuralError::VariantRelationUsesDiffer)
    } else if name_counts(uses, N_RELATIONS as int) != expected_counts() {
        Err(StructuralError::RelationCounts)
    } else if use_count(uses, Relation::Sha256Round) != 2 {
        Err(StructuralError::RoundEntryCount)
    } else if round_sign_count(uses, 1i8) != 1 || round_sign_count(uses, -1i8) != 1 {
        Err(StructuralError::RoundEntrySigns)
    } else if !round_sizes_ok(uses) {
        Err(StructuralError::RoundEntrySize)
    } else if enabler_of(uses) is None {
        Err(StructuralError::RoundMultiplicity)
    } else if enabler_of(uses) != Some(ENABLER_COL) {
        Err(StructuralError::EnablerColumn)
    } else if !table_mults_ok(uses) {
        Err(StructuralError::TableMultiplicity)
    } else if variant_cols(on) != range_set(N_COLUMNS) || variant_cols(off) != range_set(N_COLUMNS) {
        Err(StructuralError::ColumnCoverage)
    } else {
        Ok(())
    }
}


fn scan_constraints(on: &Vec<ConstraintDump>, off: &Vec<ConstraintDump>) -> (r: (usize, Vec<usize>))
    ensures
        r.0 == scan(on@, off@, on@.len() as int).0,
        r.1@ == scan(on@, off@, on@.len() as int).1,
{
    let mut cursor: usize = 0;
    let mut diff: Vec<usize> = Vec::new();
    let n = on.len();
    for i in 0..n
        invariant
            n == on@.len(),
            cursor <= off@.len(),
            cursor == scan(on@, off@, i as int).0,
            diff@ == scan(on@, off@, i as int).1,
    {
        if cursor < off.len() && node_eq(&off[cursor].expr, &on[i].expr) {
            cursor = cursor + 1;
        } else {
            diff.push(i);
        }
    }
    (cursor, diff)
}

fn binding_pair_of(node: &Node) -> (r: Option<(usize, usize)>)
    ensures
        r == binding_pair(*node),
{
    match node {
        Node::Sub { lhs, rhs } => match (&**lhs, &**rhs) {
            (Node::Col { idx: a, .. }, Node::Col { idx: b, .. }) => Some((*a, *b)),
            _ => None,
        },
        _ => None,
    }
}

fn nodes_equal(a: &Vec<Node>, b: &Vec<Node>) -> (r: bool)
    ensures
        r == (a@ == b@),
{
    if a.len() != b.len() {
        return false;
    }
    let n = a.len();
    for i in 0..n
        invariant
            n == a@.len(),
            n == b@.len(),
            forall|j: int| 0 <= j < i ==> a@[j] == b@[j],
    {
        if !node_eq(&a[i], &b[i]) {
            return false;
        }
    }
    assert(a@ =~= b@);
    true
}

fn uses_equal(a: &Vec<RelationUseDump>, b: &Vec<RelationUseDump>) -> (r: bool)
    ensures
        r == uses_eq(a@, b@),
{
    if a.len() != b.len() {
        return false;
    }
    let n = a.len();
    for i in 0..n
        invariant
            n == a@.len(),
            n == b@.len(),
            forall|j: int| 0 <= j < i ==> #[trigger] use_eq(a@[j], b@[j]),
    {
        let x = &a[i];
        let y = &b[i];
        let same = x.order == y.order && x.relation == y.relation && x.declared_size
            == y.declared_size && x.mult_sign == y.mult_sign && node_eq(&x.mult, &y.mult)
            && nodes_equal(&x.values, &y.values);
        if !same {
            assert(!use_eq(a@[i as int], b@[i as int]));
            return false;
        }
    }
    true
}

fn counts_are_expected(counts: &Vec<(Relation, usize)>) -> (r: bool)
    ensures
        r == (counts@ == expected_counts()),
{
    let expected: Vec<(Relation, usize)> = vec![
        (Relation::Sha256BigSigma0, 1),
        (Relation::Sha256BigSigma1, 1),
        (Relation::Sha256KTable, 1),
        (Relation::Sha256Round, 2),
        (Relation::Sha256Schedule, 1),
        (Relation::VerifyBitwiseAnd_8, 20),
        (Relation::VerifyBitwiseXor_8, 12),
    ];
    assert(expected@ =~= expected_counts());
    if counts.len() != expected.len() {
        return false;
    }
    for i in 0..expected.len()
        invariant
            counts@.len() == expected@.len(),
            expected@ == expected_counts(),
            forall|j: int| 0 <= j < i ==> counts@[j] == expected@[j],
    {
        if !(counts[i].0 == expected[i].0 && counts[i].1 == expected[i].1) {
            return false;
        }
    }
    assert(counts@ =~= expected@);
    true
}

proof fn lemma_round_sign_count_bound(uses: Seq<RelationUseDump>, sign: i8)
    ensures
        round_sign_count(uses, sign) <= uses.len(),
    decreases uses.len(),
{
    if uses.len() > 0 {
        lemma_round_sign_count_bound(uses.drop_last(), sign);
    }
}

proof fn lemma_round_sign_count_zero(uses: Seq<RelationUseDump>, sign: i8)
    requires
        forall|j: int| 0 <= j < uses.len() ==> !#[trigger] is_round_with_sign(uses[j], sign),
    ensures
        round_sign_count(uses, sign) == 0,
    decreases uses.len(),
{
    if uses.len() > 0 {
        lemma_round_sign_count_zero(uses.drop_last(), sign);
    }
}

fn count_round_sign(uses: &Vec<RelationUseDump>, sign: i8) -> (c: usize)
    ensures
        c == round_sign_count(uses@, sign),
{
    let mut c: usize = 0;
    let n = uses.len();
    for i in 0..n
        invariant
            n == uses@.len(),
            c == round_sign_count(uses@.take(i as int), sign),
    {
        assert(uses@.take(i + 1).drop_last() =~= uses@.take(i as int));
        proof {
            lemma_round_sign_count_bound(uses@.take(i as int), sign);
        }
        if uses[i].relation == Relation::Sha256Round && uses[i].mult_sign == sign {
            c = c + 1;
        }
    }
    assert(uses@.take(n as int) =~= uses@);
    c
}

fn first_round_sign(uses: &Vec<RelationUseDump>, sign: i8) -> (r: Option<usize>)
    ensures
        r matches Some(i) ==> i == first_round_with_sign(uses@, sign) && i < uses@.len(),
        r is None ==> round_sign_count(uses@, sign) == 0,
{
    let n = uses.len();
    for i in 0..n
        invariant
            n == uses@.len(),
            forall|j: int| 0 <= j < i ==> !#[trigger] is_round_with_sign(uses@[j], sign),
    {
        if uses[i].relation == Relation::Sha256Round && uses[i].mult_sign == sign {
            proof {
                let k = first_round_with_sign(uses@, sign);
                assert(is_round_with_sign(uses@[i as int], sign));
                assert(0 <= k < uses@.len() && is_round_with_sign(uses@[k], sign) && forall|j: int|
                    0 <= j < k ==> !#[trigger] is_round_with_sign(uses@[j], sign));
                if k < i {
                    assert(!is_round_with_sign(uses@[k], sign));
                }
                if k > i {
                    assert(!is_round_with_sign(uses@[i as int], sign));
                }
            }
            return Some(i);
        }
    }
    proof {
        lemma_round_sign_count_zero(uses@, sign);
    }
    None
}

fn round_sizes_are_50(uses: &Vec<RelationUseDump>) -> (r: bool)
    ensures
        r == round_sizes_ok(uses@),
{
    let n = uses.len();
    for i in 0..n
        invariant
            n == uses@.len(),
            forall|j: int|
                0 <= j < i && uses@[j].relation == Relation::Sha256Round ==> #[trigger] uses@[j].values@.len()
                    == 50,
    {
        if uses[i].relation == Relation::Sha256Round && uses[i].values.len() != 50 {
            return false;
        }
    }
    true
}

fn table_mults_are_one(uses: &Vec<RelationUseDump>) -> (r: bool)
    ensures
        r == table_mults_ok(uses@),
{
    let n = uses.len();
    for i in 0..n
        invariant
            n == uses@.len(),
            forall|j: int|
                #![trigger uses@[j]]
                0 <= j < i && uses@[j].relation != Relation::Sha256Round ==> {
                    &&& uses@[j].mult_sign == 1
                    &&& uses@[j].mult == Node::Const { val: 1 }
                },
    {
        if uses[i].relation != Relation::Sha256Round {
            let ok = uses[i].mult_sign == 1 && match &uses[i].mult {
                Node::Const { val } => *val == 1,
                _ => false,
            };
            if !ok {
                return false;
            }
        }
    }
    true
}


fn add_node_cols(node: &Node, seen: &mut BTreeSet<usize>, in_range: bool) -> (r: bool)
    requires
        in_range == (forall|c: usize| old(seen)@.contains(c) ==> c < N_COLUMNS),
    ensures
        final(seen)@ == old(seen)@.union(node_cols(*node)),
        r == (forall|c: usize| final(seen)@.contains(c) ==> c < N_COLUMNS),
{
    collect_cols(node, seen);
    let below = node_cols_below(node, N_COLUMNS);
    proof {
        lemma_cols_below(*node, N_COLUMNS);
        if in_range && below {
            assert forall|c: usize| seen@.contains(c) implies c < N_COLUMNS by {
                assert(old(seen)@.contains(c) || node_cols(*node).contains(c));
            }
        } else if !in_range {
            let c = choose|c: usize| old(seen)@.contains(c) && !(c < N_COLUMNS);
            assert(seen@.contains(c));
        } else {
            let c = choose|c: usize| node_cols(*node).contains(c) && !(c < N_COLUMNS);
            assert(seen@.contains(c));
        }
    }
    in_range && below
}

/// Whether the columns read anywhere in a variant are exactly `0..N_COLUMNS`.
fn variant_covers_columns(v: &VariantDump) -> (r: bool)
    ensures
        r == (variant_cols(*v) == range_set(N_COLUMNS)),
{
    let mut seen: BTreeSet<usize> = BTreeSet::new();
    let mut in_range = true;
    let nc = v.constraints.len();
    for i in 0..nc
        invariant
            nc == v.constraints@.len(),
            seen@ == constraint_cols(v.constraints@.take(i as int)),
            in_range == (forall|c: usize| seen@.contains(c) ==> c < N_COLUMNS),
    {
        assert(v.constraints@.take(i + 1).drop_last() =~= v.constraints@.take(i as int));
        in_range = add_node_cols(&v.constraints[i].expr, &mut seen, in_range);
    }
    assert(v.constraints@.take(nc as int) =~= v.constraints@);
    let ghost base = seen@;
    let nu = v.relation_uses.len();
    for i in 0..nu
        invariant
            nu == v.relation_uses@.len(),
            base == constraint_cols(v.constraints@),
            seen@ == base.union(use_cols(v.relation_uses@.take(i as int))),
            in_range == (forall|c: usize| seen@.contains(c) ==> c < N_COLUMNS),
    {
        let u = &v.relation_uses[i];
        let ghost before = seen@;
        in_range = add_node_cols(&u.mult, &mut seen, in_range);
        let ghost with_mult = seen@;
        let nv = u.values.len();
        for k in 0..nv
            invariant
                nv == u.values@.len(),
                seen@ == with_mult.union(nodes_cols(u.values@.take(k as int))),
                in_range == (forall|c: usize| seen@.contains(c) ==> c < N_COLUMNS),
        {
            assert(u.values@.take(k + 1).drop_last() =~= u.values@.take(k as int));
            in_range = add_node_cols(&u.values[k], &mut seen, in_range);
            assert(seen@ =~= with_mult.union(nodes_cols(u.values@.take(k + 1))));
        }
        assert(u.values@.take(nv as int) =~= u.values@);
        assert(v.relation_uses@.take(i + 1).drop_last() =~= v.relation_uses@.take(i as int));
        assert(seen@ =~= base.union(use_cols(v.relation_uses@.take(i + 1))));
    }
    assert(v.relation_uses@.take(nu as int) =~= v.relation_uses@);
    assert(seen@ == variant_cols(*v));
    if !in_range {
        proof {
            let c = choose|c: usize| seen@.contains(c) && !(c < N_COLUMNS);
            assert(!range_set(N_COLUMNS).contains(c));
        }
        return false;
    }
    for k in 0..N_COLUMNS
        invariant
            seen@ == variant_cols(*v),
            forall|j: usize| j < k ==> seen@.contains(j),
    {
        if !seen.contains(&k) {
            assert(range_set(N_COLUMNS).contains(k));
            return false;
        }
    }
    assert(seen@ =~= range_set(N_COLUMNS));
    true
}

/// The checked form of `structural_checks`: every failed check, the variant flags
/// included, is an `Err` naming the first one, in the order the checks run.
#[verifier::loop_isolation(false)]
pub fn try_structural_checks(bind_on: &VariantDump, bind_off: &VariantDump) -> (r: Result<
    StructuralInfo,
    StructuralError,
>)
    ensures
        match r {
            Ok(info) => {
                &&& structural_verdict(*bind_on, *bind_off) is Ok
                &&& accepted_pair(*bind_on, *bind_off)
                &&& info.enabler_col == ENABLER_COL
                &&& info.binding_indices@ == seq![5usize, 6usize, 13usize, 14usize]
                &&& info.binding_pairs@ == seq![
                    (78usize, 76usize),
                    (79usize, 77usize),
                    (114usize, 112usize),
                    (115usize, 113usize),
                ]
            },
            Err(e) => structural_verdict(*bind_on, *bind_off) == Err::<(), StructuralError>(e),
        },
{
    let ghost verdict = structural_verdict(*bind_on, *bind_off);
    if !(bind_on.bind_ch_maj_limbs && !bind_off.bind_ch_maj_limbs) {
        return Err(StructuralError::VariantFlags);
    }
    if bind_on.constraints.len() != N_BIND_ON_CONSTRAINTS {
        return Err(StructuralError::BindOnConstraintCount);
    }
    if bind_off.constraints.len() != N_BIND_OFF_CONSTRAINTS {
        return Err(StructuralError::BindOffConstraintCount);
    }
    let (cursor, binding_indices) = scan_constraints(&bind_on.constraints, &bind_off.constraints);
    if cursor != bind_off.constraints.len() {
        return Err(StructuralError::NotInOrderSubsequence);
    }
    if binding_indices.len() != 4 {
        return Err(StructuralError::BindingCount);
    }
    if !(binding_indices[0] == 5 && binding_indices[1] == 6 && binding_indices[2] == 13
        && binding_indices[3] == 14) {
        proof {
            let d = scan(bind_on.constraints@, bind_off.constraints@, 21).1;
            if d == seq![5usize, 6usize, 13usize, 14usize] {
                assert(d[0] == 5 && d[1] == 6 && d[2] == 13 && d[3] == 14);
            }
        }
        return Err(StructuralError::BindingIndices);
    }
    assert(binding_indices@ =~= seq![5usize, 6usize, 13usize, 14usize]);
    let mut binding_pairs: Vec<(usize, usize)> = Vec::new();
    for j in 0..4
        invariant
            binding_indices@ == seq![5usize, 6usize, 13usize, 14usize],
            bind_on.constraints@.len() == N_BIND_ON_CONSTRAINTS,
            binding_pairs@.len() == j,
            forall|k: int| 0 <= k < j ==> #[trigger] binding_pair(
                bind_on.constraints@[binding_indices@[k] as int].expr,
            ) == Some(binding_pairs@[k]),
    {
        match binding_pair_of(&bind_on.constraints[binding_indices[j]].expr) {
            Some(pair) => binding_pairs.push(pair),
            None => {
                assert(binding_pair(
                    bind_on.constraints@[binding_indices@[j as int] as int].expr,
                ) is None);
                return Err(StructuralError::BindingShape);
            },
        }
    }
    let expected_pairs: Vec<(usize, usize)> = vec![(78, 76), (79, 77), (114, 112), (115, 113)];
    let mut pairs_ok = true;
    for j in 0..4
        invariant
            binding_pairs@.len() == 4,
            expected_pairs@ == seq![
                (78usize, 76usize),
                (79usize, 77usize),
                (114usize, 112usize),
                (115usize, 113usize),
            ],
            pairs_ok == (forall|k: int| 0 <= k < j ==> binding_pairs@[k] == expected_pairs@[k]),
    {
        pairs_ok = pairs_ok && binding_pairs[j].0 == expected_pairs[j].0 && binding_pairs[j].1
            == expected_pairs[j].1;
    }
    assert(Seq::new(4, |j: int| binding_pair(bind_on.constraints@[binding_indices@[j] as int].expr)->0)
        =~= binding_pairs@);
    if !pairs_ok {
        return Err(StructuralError::BindingPairs);
    }
    assert(binding_pairs@ =~= expected_pairs@);
    let uses = &bind_on.relation_uses;
    if uses.len() != N_RELATION_USES {
        return Err(StructuralError::RelationUseCount);
    }
    if !uses_equal(uses, &bind_off.relation_uses) {
        return Err(StructuralError::VariantRelationUsesDiffer);
    }
    let counts = relation_name_counts(bind_on);
    if !counts_are_expected(&counts) {
        return Err(StructuralError::RelationCounts);
    }
    if count_uses(uses, Relation::Sha256Round) != 2 {
        return Err(StructuralError::RoundEntryCount);
    }
    if count_round_sign(uses, 1) != 1 || count_round_sign(uses, -1) != 1 {
        return Err(StructuralError::RoundEntrySigns);
    }
    if !round_sizes_are_50(uses) {
        return Err(StructuralError::RoundEntrySize);
    }
    let plus = match first_round_sign(uses, 1) {
        Some(i) => i,
        None => {
            return Err(StructuralError::RoundEntrySigns);
        },
    };
    let minus = match first_round_sign(uses, -1) {
        Some(i) => i,
        None => {
            return Err(StructuralError::RoundEntrySigns);
        },
    };
    let enabler_col = match (&uses[plus].mult, &uses[minus].mult) {
        (Node::Col { idx: a, .. }, Node::Col { idx: b, .. }) => {
            if *a == *b {
                *a
            } else {
                return Err(StructuralError::RoundMultiplicity);
            }
        },
        _ => {
            return Err(StructuralError::RoundMultiplicity);
        },
    };
    if enabler_col != ENABLER_COL {
        return Err(StructuralError::EnablerColumn);
    }
    if !table_mults_are_one(uses) {
        return Err(StructuralError::TableMultiplicity);
    }
    if !variant_covers_columns(bind_on) || !variant_covers_columns(bind_off) {
        return Err(StructuralError::ColumnCoverage);
    }
    proof {
        lemma_accepted_pair(*bind_on, *bind_off);
    }
    Ok(StructuralInfo { enabler_col, binding_indices, binding_pairs })
}

/// Runs every structural check on the two extracted variants of the round component, in
/// order, on a pair that passes them all (`bind_on` carrying the binding fix and
/// `bind_off` not, and so on: `structural_verdict`), and returns the mechanically derived
/// structure: the enabler column, the binding constraint indices and their column pairs.
pub fn structural_checks(bind_on: &VariantDump, bind_off: &VariantDump) -> (info: StructuralInfo)
    requires
        structural_verdict(*bind_on, *bind_off) is Ok,
    ensures
        accepted_pair(*bind_on, *bind_off),
        info.enabler_col == ENABLER_COL,
        info.binding_indices@ == seq![5usize, 6usize, 13usize, 14usize],
        info.binding_pairs@ == seq![
            (78usize, 76usize),
            (79usize, 77usize),
            (114usize, 112usize),
            (115usize, 113usize),
        ],
{
    match try_structural_checks(bind_on, bind_off) {
        Ok(info) => info,
        Err(_) => {
            proof {
                assert(false);
            }
            StructuralInfo { enabler_col: 0, binding_indices: Vec::new(), binding_pairs: Vec::new() }
        },
    }
}

} // verus!
