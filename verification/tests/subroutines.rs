use sha256_round_sound_spike::check::{CheckEvaluator, Violation};
use sha256_round_sound_spike::components::subroutines::bitwise_and_num_bits_8::BitwiseAndNumBits8;
use sha256_round_sound_spike::components::subroutines::bitwise_xor_num_bits_8::BitwiseXorNumBits8;
use sha256_round_sound_spike::components::subroutines::split_16_low_part_size_8::Split16LowPartSize8;
use sha256_round_sound_spike::components::subroutines::triple_sum_32::TripleSum32;
use sha256_round_sound_spike::components::subroutines::verify_triple_sum_32::VerifyTripleSum32;
use sha256_round_sound_spike::m31::M31;
use sha256_round_sound_spike::relations::Relation;

fn limbs(x: u32) -> [M31; 2] {
    [M31(x & 0xffff), M31(x >> 16)]
}

#[test]
fn verify_triple_sum_accepts_the_wrapped_sum() {
    let (a, b, c) = (0xffff_ffffu32, 0xffff_fffe, 0x8000_0001);
    let r = a.wrapping_add(b).wrapping_add(c);
    let mut eval = CheckEvaluator::new(3);
    let [a0, a1] = limbs(a);
    let [b0, b1] = limbs(b);
    let [c0, c1] = limbs(c);
    let [r0, r1] = limbs(r);
    VerifyTripleSum32::evaluate([a0, a1, b0, b1, c0, c1, r0, r1], &mut eval);
    assert_eq!(eval.constraints, vec![M31(0), M31(0)]);
    assert_eq!(eval.intermediates, vec![M31(1), M31(2)]);
    assert!(eval.violations.is_empty());
}

#[test]
fn verify_triple_sum_rejects_a_wrong_result() {
    let mut eval = CheckEvaluator::new(9);
    let [a0, a1] = limbs(7);
    let [b0, b1] = limbs(8);
    let [c0, c1] = limbs(9);
    let [r0, r1] = limbs(25);
    VerifyTripleSum32::evaluate([a0, a1, b0, b1, c0, c1, r0, r1], &mut eval);
    assert_eq!(eval.violations[0], Violation { row: 9, constraint_index: 0 });
}

#[test]
fn triple_sum_records_carries() {
    let mut eval = CheckEvaluator::new(0);
    let [a0, a1] = limbs(0x0000_ffff);
    let [b0, b1] = limbs(1);
    let [c0, c1] = limbs(0);
    let [r0, r1] = limbs(0x0001_0000);
    TripleSum32::evaluate([a0, a1, b0, b1, c0, c1], r0, r1, &mut eval);
    assert_eq!(eval.intermediates, vec![M31(1), M31(0)]);
    assert!(eval.violations.is_empty());
}

#[test]
fn bitwise_lookups_record_their_tuples() {
    let mut eval = CheckEvaluator::new(0);
    BitwiseAndNumBits8::evaluate([M31(0xf0), M31(0x3c)], M31(0x30), &mut eval);
    BitwiseXorNumBits8::evaluate([M31(0xf0), M31(0x3c)], M31(0xcc), &mut eval);
    assert_eq!(eval.relation_entries.len(), 2);
    assert_eq!(eval.relation_entries[0].relation, Relation::VerifyBitwiseAnd_8);
    assert_eq!(eval.relation_entries[0].values, vec![M31(0xf0), M31(0x3c), M31(0x30)]);
    assert_eq!(eval.relation_entries[1].relation, Relation::VerifyBitwiseXor_8);
    assert_eq!(eval.relation_entries[1].multiplicity, M31(1));
}

#[test]
fn split_16_low_part() {
    let mut eval = CheckEvaluator::new(0);
    assert_eq!(Split16LowPartSize8::evaluate([M31(0xabcd)], M31(0xab), &mut eval), [M31(0xcd)]);
}

#[test]
fn check_evaluator_flags_nonzero_constraints() {
    let mut eval = CheckEvaluator::new(4);
    eval.add_constraint(M31(0));
    eval.add_constraint(M31(3));
    eval.add_constraint(M31(2147483647));
    assert_eq!(eval.violations, vec![Violation { row: 4, constraint_index: 1 }]);
}
