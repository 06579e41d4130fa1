use sha256_round_sound_spike::convert::{
    convert, decode_base, decode_combine_formal, decode_multiplicity, decode_relation_use,
    decode_variant, try_convert, try_decode_base, try_decode_combine_formal,
    try_decode_multiplicity, try_decode_relation_use, try_decode_variant, ConvertError,
    DecodeError, ExtParam, RawExpr, RawExtExpr,
};
use sha256_round_sound_spike::relations::Relation;
use sha256_round_sound_spike::symbolic::{eval_node, Node};

const PRIME: u64 = 2147483647;

fn rcol(idx: usize) -> RawExpr {
    RawExpr::Col { interaction: 1, idx, offset: 0 }
}

fn rconst(val: u32) -> RawExpr {
    RawExpr::Const { val }
}

fn radd(a: RawExpr, b: RawExpr) -> RawExpr {
    RawExpr::Add { lhs: Box::new(a), rhs: Box::new(b) }
}

fn rmul(a: RawExpr, b: RawExpr) -> RawExpr {
    RawExpr::Mul { lhs: Box::new(a), rhs: Box::new(b) }
}

fn lift(b: RawExpr) -> RawExtExpr {
    RawExtExpr::SecureCol {
        c0: Box::new(b),
        c1: Box::new(rconst(0)),
        c2: Box::new(rconst(0)),
        c3: Box::new(rconst(0)),
    }
}

fn ext_add(a: RawExtExpr, b: RawExtExpr) -> RawExtExpr {
    RawExtExpr::Add { lhs: Box::new(a), rhs: Box::new(b) }
}

fn alpha(relation: Relation, i: usize) -> RawExtExpr {
    RawExtExpr::Lookup { relation, which: ExtParam::Alpha { i } }
}

/// `fold(0, Add(acc, Mul(alpha_i, lift(v_i)))) - z` over the given relation.
fn formal_combination(relation: Relation, values: Vec<RawExpr>) -> RawExtExpr {
    let mut acc = lift(rconst(0));
    for (i, v) in values.into_iter().enumerate() {
        let term = RawExtExpr::Mul { lhs: Box::new(alpha(relation, i)), rhs: Box::new(lift(v)) };
        acc = ext_add(acc, term);
    }
    RawExtExpr::Sub {
        lhs: Box::new(acc),
        rhs: Box::new(RawExtExpr::Lookup { relation, which: ExtParam::Z }),
    }
}

fn node_col(idx: usize) -> Node {
    Node::Col { interaction: 1, idx, offset: 0 }
}

#[test]
fn convert_inlines_intermediates() {
    let defs = vec![radd(rcol(3), rconst(7)), RawExpr::Param { id: 0 }];
    let e = rmul(RawExpr::Param { id: 1 }, rcol(5));
    let n = try_convert(&e, &defs, 0).unwrap();
    let expected = Node::Mul {
        lhs: Box::new(Node::Add { lhs: Box::new(node_col(3)), rhs: Box::new(Node::Const { val: 7 }) }),
        rhs: Box::new(node_col(5)),
    };
    assert_eq!(n, expected);
    assert_eq!(convert(&e, &defs, 0), expected);
}

#[test]
fn converted_tree_computes_the_expression_mod_p() {
    let defs = vec![rmul(rcol(0), rcol(1))];
    let e = RawExpr::Neg {
        arg: Box::new(RawExpr::Sub {
            lhs: Box::new(RawExpr::Param { id: 0 }),
            rhs: Box::new(rconst(5)),
        }),
    };
    let n = try_convert(&e, &defs, 0).unwrap();
    let mut cols = vec![0u32; 125];
    cols[0] = 2147483646;
    cols[1] = 3;
    let raw: i128 = -((2147483646i128 * 3) - 5);
    let expected = raw.rem_euclid(PRIME as i128) as u32;
    assert_eq!(eval_node(&n, &cols), expected);
    assert_eq!(expected, 8);
}

#[test]
fn convert_reports_each_violation() {
    let defs: Vec<RawExpr> = vec![];
    let far = RawExpr::Col { interaction: 1, idx: 125, offset: 0 };
    assert_eq!(
        try_convert(&far, &defs, 0),
        Err(ConvertError::ColumnOutsideRow { interaction: 1, idx: 125, offset: 0 })
    );
    let next_row = RawExpr::Col { interaction: 1, idx: 4, offset: 1 };
    assert_eq!(
        try_convert(&next_row, &defs, 0),
        Err(ConvertError::ColumnOutsideRow { interaction: 1, idx: 4, offset: 1 })
    );
    let preprocessed = RawExpr::Col { interaction: 0, idx: 4, offset: 0 };
    assert!(matches!(try_convert(&preprocessed, &defs, 0), Err(ConvertError::ColumnOutsideRow { .. })));
    assert_eq!(
        try_convert(&rconst(2147483647), &defs, 0),
        Err(ConvertError::NonCanonicalConst { val: 2147483647 })
    );
    assert_eq!(
        try_convert(&RawExpr::Param { id: 0 }, &defs, 0),
        Err(ConvertError::UnresolvedParam { id: 0 })
    );
    assert_eq!(
        try_convert(&RawExpr::Inv { arg: Box::new(rcol(1)) }, &defs, 0),
        Err(ConvertError::Inverse)
    );
    assert_eq!(try_convert(&rcol(1), &defs, 64), Err(ConvertError::DepthExceeded));
}

#[test]
fn convert_reports_the_first_violation_left_to_right() {
    let defs: Vec<RawExpr> = vec![];
    let e = radd(rconst(2147483648), RawExpr::Inv { arg: Box::new(rcol(0)) });
    assert_eq!(try_convert(&e, &defs, 0), Err(ConvertError::NonCanonicalConst { val: 2147483648 }));
}

#[test]
fn self_referencing_intermediate_hits_the_depth_guard() {
    let defs = vec![radd(RawExpr::Param { id: 0 }, rconst(1))];
    assert_eq!(try_convert(&RawExpr::Param { id: 0 }, &defs, 0), Err(ConvertError::DepthExceeded));
}

#[test]
fn decode_base_requires_zero_residues() {
    let defs: Vec<RawExpr> = vec![];
    assert_eq!(try_decode_base(&lift(rcol(9)), &defs), Ok(node_col(9)));
    assert_eq!(decode_base(&lift(rcol(9)), &defs), node_col(9));
    let residue = RawExtExpr::SecureCol {
        c0: Box::new(rcol(9)),
        c1: Box::new(rconst(1)),
        c2: Box::new(rconst(0)),
        c3: Box::new(rconst(0)),
    };
    assert_eq!(try_decode_base(&residue, &defs), Err(DecodeError::NotBase));
    assert_eq!(try_decode_base(&RawExtExpr::Other, &defs), Err(DecodeError::NotBase));
    assert_eq!(
        try_decode_base(&lift(rconst(2147483647)), &defs),
        Err(DecodeError::Convert { err: ConvertError::NonCanonicalConst { val: 2147483647 } })
    );
}

#[test]
fn decode_multiplicity_reads_the_sign() {
    let defs: Vec<RawExpr> = vec![];
    assert_eq!(try_decode_multiplicity(&lift(rcol(124)), &defs), Ok((1, node_col(124))));
    let pulled = RawExtExpr::Neg { arg: Box::new(lift(rcol(124))) };
    assert_eq!(try_decode_multiplicity(&pulled, &defs), Ok((-1, node_col(124))));
    assert_eq!(decode_multiplicity(&pulled, &defs), (-1, node_col(124)));
    let other = ext_add(lift(rcol(1)), lift(rcol(2)));
    assert_eq!(try_decode_multiplicity(&other, &defs), Err(DecodeError::BadMultiplicity));
}

#[test]
fn decode_combine_formal_returns_values_in_alpha_order() {
    let defs: Vec<RawExpr> = vec![];
    let def = formal_combination(Relation::VerifyBitwiseXor_8, vec![rcol(58), rcol(68), rcol(72)]);
    let (relation, values) = try_decode_combine_formal(&def, &defs).unwrap();
    assert_eq!(relation, Relation::VerifyBitwiseXor_8);
    assert_eq!(values, vec![node_col(58), node_col(68), node_col(72)]);
    assert_eq!(decode_combine_formal(&def, &defs), (relation, values));
}

#[test]
fn decode_combine_formal_rejects_other_shapes() {
    let defs: Vec<RawExpr> = vec![];
    // Term 1 weighted by another relation's alpha.
    let mut acc = lift(rconst(0));
    acc = ext_add(acc, RawExtExpr::Mul {
        lhs: Box::new(alpha(Relation::Sha256KTable, 0)),
        rhs: Box::new(lift(rcol(1))),
    });
    acc = ext_add(acc, RawExtExpr::Mul {
        lhs: Box::new(alpha(Relation::Sha256Round, 1)),
        rhs: Box::new(lift(rcol(80))),
    });
    let mixed = RawExtExpr::Sub {
        lhs: Box::new(acc),
        rhs: Box::new(RawExtExpr::Lookup { relation: Relation::Sha256KTable, which: ExtParam::Z }),
    };
    assert_eq!(try_decode_combine_formal(&mixed, &defs), Err(DecodeError::AlphaMismatch { index: 1 }));
    // A non-zero fold seed.
    let seeded = RawExtExpr::Sub {
        lhs: Box::new(lift(rconst(3))),
        rhs: Box::new(RawExtExpr::Lookup { relation: Relation::Sha256KTable, which: ExtParam::Z }),
    };
    assert_eq!(try_decode_combine_formal(&seeded, &defs), Err(DecodeError::NotCombine));
    // Subtracting an alpha instead of z.
    let no_z = RawExtExpr::Sub {
        lhs: Box::new(lift(rconst(0))),
        rhs: Box::new(alpha(Relation::Sha256KTable, 0)),
    };
    assert_eq!(try_decode_combine_formal(&no_z, &defs), Err(DecodeError::NotCombine));
    assert_eq!(try_decode_combine_formal(&RawExtExpr::Other, &defs), Err(DecodeError::NotCombine));
}

#[test]
fn decode_relation_use_checks_the_width() {
    let defs: Vec<RawExpr> = vec![];
    let ext_defs = vec![
        formal_combination(Relation::Sha256KTable, vec![rcol(1), rcol(80), rcol(81)]),
        formal_combination(Relation::Sha256KTable, vec![rcol(1), rcol(80)]),
    ];
    let u = try_decode_relation_use(4, &lift(rconst(1)), &RawExtExpr::Def { id: 0 }, &defs, &ext_defs)
        .unwrap();
    assert_eq!(u.order, 4);
    assert_eq!(u.relation, Relation::Sha256KTable);
    assert_eq!(u.declared_size, 3);
    assert_eq!(u.mult_sign, 1);
    assert_eq!(u.mult, Node::Const { val: 1 });
    assert_eq!(u.values, vec![node_col(1), node_col(80), node_col(81)]);
    let plain = decode_relation_use(4, &lift(rconst(1)), &RawExtExpr::Def { id: 0 }, &defs, &ext_defs);
    assert_eq!(plain, u);
    assert_eq!(
        try_decode_relation_use(4, &lift(rconst(1)), &RawExtExpr::Def { id: 1 }, &defs, &ext_defs),
        Err(DecodeError::WidthMismatch { relation: Relation::Sha256KTable, declared: 3, found: 2 })
    );
    assert_eq!(
        try_decode_relation_use(4, &lift(rconst(1)), &RawExtExpr::Def { id: 2 }, &defs, &ext_defs),
        Err(DecodeError::UnresolvedDef { id: 2 })
    );
    assert_eq!(
        try_decode_relation_use(4, &lift(rconst(1)), &RawExtExpr::Other, &defs, &ext_defs),
        Err(DecodeError::DenominatorNotDef)
    );
}

#[test]
fn decode_variant_orders_constraints_and_uses() {
    let defs = vec![rmul(rcol(124), rcol(124))];
    let ext_defs = vec![formal_combination(Relation::VerifyBitwiseAnd_8, vec![rcol(54), rcol(56), rcol(59)])];
    let constraints = vec![
        lift(RawExpr::Sub { lhs: Box::new(RawExpr::Param { id: 0 }), rhs: Box::new(rcol(124)) }),
        lift(rcol(7)),
    ];
    let fracs = vec![(lift(rcol(124)), RawExtExpr::Def { id: 0 })];
    let d = try_decode_variant(true, &constraints, &fracs, &defs, &ext_defs).unwrap();
    assert!(d.bind_ch_maj_limbs);
    assert_eq!(d.constraints.len(), 2);
    assert_eq!(d.constraints[1].index, 1);
    assert_eq!(d.constraints[1].expr, node_col(7));
    assert_eq!(d.relation_uses.len(), 1);
    assert_eq!(d.relation_uses[0].relation, Relation::VerifyBitwiseAnd_8);
    assert_eq!(decode_variant(true, &constraints, &fracs, &defs, &ext_defs), d);
    let bad = vec![lift(rcol(7)), RawExtExpr::Other];
    assert_eq!(
        try_decode_variant(false, &bad, &fracs, &defs, &ext_defs).map(|_| ()),
        Err(DecodeError::NotBase)
    );
}
