use sha256_round_sound_spike::relations::Relation;
use sha256_round_sound_spike::symbolic::{
    collect_cols, dump_evaluable, eval_node, node_eq, node_violations, relation_name_counts, structural_checks,
    try_structural_checks,
    ConstraintDump, Node, RelationUseDump, StructuralError, StructuralInfo, VariantDump, P,
};
use std::collections::BTreeSet;

fn konst(val: u32) -> Node {
    Node::Const { val }
}

fn col(idx: usize) -> Node {
    Node::Col { interaction: 1, idx, offset: 0 }
}

fn sub(lhs: Node, rhs: Node) -> Node {
    Node::Sub { lhs: Box::new(lhs), rhs: Box::new(rhs) }
}

fn mul(lhs: Node, rhs: Node) -> Node {
    Node::Mul { lhs: Box::new(lhs), rhs: Box::new(rhs) }
}

#[test]
fn node_interpreter_is_exact_m31() {
    let c = |val: u32| Node::Const { val };
    let mul = Node::Mul {
        lhs: Box::new(c(1 << 16)),
        rhs: Box::new(c(1 << 15)),
    };
    assert_eq!(eval_node(&mul, &[]), 1);
    let sub = Node::Sub {
        lhs: Box::new(c(0)),
        rhs: Box::new(c(1)),
    };
    assert_eq!(eval_node(&sub, &[]) as u64, P - 1);
    let neg = Node::Neg {
        arg: Box::new(c(0)),
    };
    assert_eq!(eval_node(&neg, &[]), 0);
}

#[test]
fn node_interpreter_reads_columns() {
    let cols = [5u32, 7, (P - 1) as u32];
    let tree = Node::Add { lhs: Box::new(mul(col(0), col(1))), rhs: Box::new(col(2)) };
    assert_eq!(eval_node(&tree, &cols), 34);
    assert_eq!(eval_node(&Node::Neg { arg: Box::new(col(1)) }, &cols) as u64, P - 7);
}

#[test]
fn node_violations_lists_nonzero_constraints() {
    let dump = VariantDump {
        bind_ch_maj_limbs: true,
        constraints: vec![
            ConstraintDump { index: 0, expr: sub(col(0), col(1)) },
            ConstraintDump { index: 1, expr: sub(col(1), col(2)) },
            ConstraintDump { index: 7, expr: konst(3) },
        ],
        relation_uses: vec![],
    };
    assert_eq!(node_violations(&dump, &[4, 4, 9]), vec![1, 7]);
    assert_eq!(node_violations(&dump, &[9, 9, 9]), vec![7]);
}

#[test]
fn collect_cols_gathers_every_column() {
    let tree = sub(mul(col(3), col(9)), Node::Neg { arg: Box::new(col(3)) });
    let mut out = BTreeSet::new();
    out.insert(100);
    collect_cols(&tree, &mut out);
    assert_eq!(out.into_iter().collect::<Vec<_>>(), vec![3, 9, 100]);
}

#[test]
fn node_eq_is_structural() {
    assert!(node_eq(&sub(col(1), konst(2)), &sub(col(1), konst(2))));
    assert!(!node_eq(&sub(col(1), konst(2)), &sub(col(1), konst(3))));
    assert!(!node_eq(&col(1), &Node::Col { interaction: 1, idx: 1, offset: -1 }));
}

fn table_use(order: usize, relation: Relation, values: Vec<Node>) -> RelationUseDump {
    RelationUseDump {
        order,
        relation,
        declared_size: values.len(),
        mult_sign: 1,
        mult: konst(1),
        values,
    }
}

/// The relation uses of a well-formed round component: 38 uses with the expected
/// counts, the round push/pull on the enabler column, and every column 0..125 read.
fn uses(enabler: usize) -> Vec<RelationUseDump> {
    let mut v = Vec::new();
    v.push(table_use(0, Relation::Sha256BigSigma1, vec![col(100), col(101), col(102), col(103)]));
    v.push(table_use(1, Relation::Sha256BigSigma0, vec![col(104), col(105), col(106), col(107)]));
    for i in 0..20 {
        v.push(table_use(2 + i, Relation::VerifyBitwiseAnd_8, vec![col(108), col(109), col(110)]));
    }
    for i in 0..12 {
        v.push(table_use(22 + i, Relation::VerifyBitwiseXor_8, vec![col(111), col(112), col(113)]));
    }
    v.push(table_use(34, Relation::Sha256KTable, vec![col(114), col(115), col(116)]));
    v.push(table_use(35, Relation::Sha256Schedule, (117..124).map(col).collect()));
    v.push(RelationUseDump {
        order: 36,
        relation: Relation::Sha256Round,
        declared_size: 50,
        mult_sign: 1,
        mult: col(enabler),
        values: (0..50).map(col).collect(),
    });
    v.push(RelationUseDump {
        order: 37,
        relation: Relation::Sha256Round,
        declared_size: 50,
        mult_sign: -1,
        mult: col(enabler),
        values: (50..100).map(col).collect(),
    });
    v
}

fn off_constraints() -> Vec<ConstraintDump> {
    (0..17).map(|i| ConstraintDump { index: i, expr: mul(col(i), col(i)) }).collect()
}

fn on_constraints() -> Vec<ConstraintDump> {
    let mut exprs: Vec<Node> = Vec::new();
    for i in 0..5 {
        exprs.push(mul(col(i), col(i)));
    }
    exprs.push(sub(col(78), col(76)));
    exprs.push(sub(col(79), col(77)));
    for i in 5..11 {
        exprs.push(mul(col(i), col(i)));
    }
    exprs.push(sub(col(114), col(112)));
    exprs.push(sub(col(115), col(113)));
    for i in 11..17 {
        exprs.push(mul(col(i), col(i)));
    }
    exprs.into_iter().enumerate().map(|(index, expr)| ConstraintDump { index, expr }).collect()
}

fn variants(enabler: usize) -> (VariantDump, VariantDump) {
    (
        VariantDump { bind_ch_maj_limbs: true, constraints: on_constraints(), relation_uses: uses(enabler) },
        VariantDump { bind_ch_maj_limbs: false, constraints: off_constraints(), relation_uses: uses(enabler) },
    )
}

#[test]
fn relation_name_counts_in_name_order() {
    let (on, _) = variants(124);
    assert_eq!(
        relation_name_counts(&on),
        vec![
            (Relation::Sha256BigSigma0, 1),
            (Relation::Sha256BigSigma1, 1),
            (Relation::Sha256KTable, 1),
            (Relation::Sha256Round, 2),
            (Relation::Sha256Schedule, 1),
            (Relation::VerifyBitwiseAnd_8, 20),
            (Relation::VerifyBitwiseXor_8, 12),
        ]
    );
}

#[test]
fn relation_name_counts_add_up_to_the_uses() {
    let (on, _) = variants(124);
    let counts = relation_name_counts(&on);
    assert_eq!(counts.iter().map(|(_, c)| c).sum::<usize>(), on.relation_uses.len());
    assert!(counts.iter().all(|(_, c)| *c > 0));
    let mut reversed = on;
    reversed.relation_uses.reverse();
    assert_eq!(relation_name_counts(&reversed), counts);
}

#[test]
fn structural_checks_accept_a_well_formed_pair() {
    let (on, off) = variants(124);
    let expected = || StructuralInfo {
        enabler_col: 124,
        binding_indices: vec![5, 6, 13, 14],
        binding_pairs: vec![(78, 76), (79, 77), (114, 112), (115, 113)],
    };
    assert_eq!(try_structural_checks(&on, &off), Ok(expected()));
    assert_eq!(structural_checks(&on, &off), expected());
}

#[test]
fn structural_checks_reject_swapped_flags() {
    let (on, off) = variants(124);
    assert_eq!(try_structural_checks(&off, &on), Err(StructuralError::VariantFlags));
}

#[test]
fn structural_checks_reject_missing_binding() {
    let (mut on, off) = variants(124);
    on.constraints.pop();
    assert_eq!(try_structural_checks(&on, &off), Err(StructuralError::BindOnConstraintCount));
}

#[test]
fn structural_checks_reject_wrong_binding_pair() {
    let (mut on, off) = variants(124);
    on.constraints[6].expr = sub(col(79), col(76));
    assert_eq!(try_structural_checks(&on, &off), Err(StructuralError::BindingPairs));
}

#[test]
fn structural_checks_reject_other_enabler() {
    let (on, off) = variants(123);
    assert_eq!(try_structural_checks(&on, &off), Err(StructuralError::EnablerColumn));
}

#[test]
fn structural_checks_reject_differing_uses() {
    let (on, mut off) = variants(124);
    off.relation_uses[3].values[0] = col(0);
    assert_eq!(try_structural_checks(&on, &off), Err(StructuralError::VariantRelationUsesDiffer));
}

#[test]
fn structural_checks_reject_table_multiplicity() {
    let (mut on, mut off) = variants(124);
    on.relation_uses[0].mult = konst(2);
    off.relation_uses[0].mult = konst(2);
    assert_eq!(try_structural_checks(&on, &off), Err(StructuralError::TableMultiplicity));
}

#[test]
fn node_interpreter_takes_large_constants_as_they_are() {
    let cols = vec![0u32; 4];
    let big = 2147483650u32;
    assert_eq!(eval_node(&konst(big), &cols), big);
    let sum = Node::Add { lhs: Box::new(konst(big)), rhs: Box::new(konst(1)) };
    assert_eq!(eval_node(&sum, &cols), 4);
    assert_eq!(eval_node(&mul(konst(big), konst(2)), &cols), 6);
    let fine = VariantDump {
        bind_ch_maj_limbs: true,
        constraints: vec![ConstraintDump { index: 0, expr: sub(konst(5), konst(big)) }],
        relation_uses: vec![],
    };
    assert!(dump_evaluable(&fine, &cols));
    assert_eq!(eval_node(&fine.constraints[0].expr, &cols), 2);
    let under = VariantDump {
        bind_ch_maj_limbs: true,
        constraints: vec![ConstraintDump { index: 0, expr: Node::Neg { arg: Box::new(konst(big)) } }],
        relation_uses: vec![],
    };
    assert!(!dump_evaluable(&under, &cols));
    let far = VariantDump {
        bind_ch_maj_limbs: true,
        constraints: vec![ConstraintDump { index: 0, expr: col(9) }],
        relation_uses: vec![],
    };
    assert!(!dump_evaluable(&far, &cols));
}
