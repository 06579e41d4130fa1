use sha256_round_sound_spike::interaction::{row_fractions, LookupSet, RoundRelations, SecureFelt};
use sha256_round_sound_spike::lookups::row_lookups;
use sha256_round_sound_spike::m31::{M31, MODULUS};
use sha256_round_sound_spike::reference::{
    big_sigma_0, big_sigma_1, small_sigma_0, small_sigma_1, IV, K,
};
use sha256_round_sound_spike::relations::Relation;
use sha256_round_sound_spike::witness::{build_round_trace, build_round_trace_forge, CompressionInput, Forge};

fn abc_compression() -> CompressionInput {
    let mut block = [0u32; 16];
    block[0] = 0x61626380;
    block[15] = 24;
    CompressionInput { h_in: IV, block }
}

#[test]
fn row_lookups_emit_38_uses_in_order() {
    let trace = build_round_trace(&[abc_compression()]);
    let l = row_lookups(&trace.cols, 5);
    assert_eq!(l.len(), 38);
    assert_eq!(l[0].relation, Relation::Sha256BigSigma1);
    assert_eq!(l[0].values, vec![trace.cols[10][5], trace.cols[11][5], trace.cols[50][5], trace.cols[51][5]]);
    assert_eq!(l[14].relation, Relation::Sha256KTable);
    assert_eq!(l[14].values, vec![M31(5), trace.cols[80][5], trace.cols[81][5]]);
    assert_eq!(l[35].relation, Relation::Sha256Schedule);
    assert_eq!(l[35].values.len(), 34);
    assert_eq!(l[36].multiplicity, M31(1));
    assert_eq!(l[37].multiplicity, M31(MODULUS - 1));
    let and_count = l.iter().filter(|e| e.relation == Relation::VerifyBitwiseAnd_8).count();
    let xor_count = l.iter().filter(|e| e.relation == Relation::VerifyBitwiseXor_8).count();
    assert_eq!((and_count, xor_count), (20, 12));
}

#[test]
fn and_lookup_low_bytes_are_exact() {
    let trace = build_round_trace(&[abc_compression()]);
    let l = row_lookups(&trace.cols, 0);
    let e = IV[4];
    let f = IV[5];
    assert_eq!(l[2].values, vec![M31(e & 0xff), M31(f & 0xff), M31(e & f & 0xff)]);
    assert_eq!(l[3].values, vec![M31((e >> 8) & 0xff), M31((f >> 8) & 0xff), M31(((e & f) >> 8) & 0xff)]);
}

#[test]
fn round_pull_matches_next_push() {
    let trace = build_round_trace_forge(&[abc_compression()], 0, 10, Forge::Ch(0x1234_5678));
    for row in 0..63 {
        let here = row_lookups(&trace.cols, row);
        let next = row_lookups(&trace.cols, row + 1);
        assert_eq!(here[37].values, next[36].values);
    }
}

#[test]
fn row_fractions_pull_cancels_next_push() {
    let trace = build_round_trace(&[abc_compression()]);
    let rels = RoundRelations::draw_test();
    let here = row_fractions(&trace.cols, 20, &rels);
    let next = row_fractions(&trace.cols, 21, &rels);
    assert_eq!(here.len(), 38);
    assert_eq!(here[37].1, next[36].1);
    assert_eq!(here[37].0, SecureFelt(M31(MODULUS - 1), M31(0), M31(0), M31(0)));
    assert_eq!(next[36].0, SecureFelt(M31(1), M31(0), M31(0), M31(0)));
    assert_ne!(here[0].1, here[1].1);
}

fn combined(set: &LookupSet, values: &[M31]) -> SecureFelt {
    let p = MODULUS as u64;
    let coord = |k: usize| {
        let pick = |x: &SecureFelt| [x.0, x.1, x.2, x.3][k].0 as u64;
        let mut acc = 0u64;
        for (i, v) in values.iter().enumerate() {
            acc = (acc + pick(&set.alpha_powers[i]) * (v.0 as u64 % p)) % p;
        }
        M31(((acc + p - pick(&set.z)) % p) as u32)
    };
    SecureFelt(coord(0), coord(1), coord(2), coord(3))
}

#[test]
fn row_fractions_combine_each_tuple_with_its_relation() {
    let trace = build_round_trace(&[abc_compression()]);
    let rels = RoundRelations::draw_test();
    let lookups = row_lookups(&trace.cols, 9);
    let fracs = row_fractions(&trace.cols, 9, &rels);
    for (l, f) in lookups.iter().zip(fracs.iter()) {
        let set = match l.relation {
            Relation::Sha256BigSigma1 => &rels.big_sigma_1,
            Relation::Sha256BigSigma0 => &rels.big_sigma_0,
            Relation::VerifyBitwiseAnd_8 => &rels.and_8,
            Relation::VerifyBitwiseXor_8 => &rels.xor_8,
            Relation::Sha256KTable => &rels.k_table,
            Relation::Sha256Schedule => &rels.schedule,
            _ => &rels.round,
        };
        assert_eq!(f.1, combined(set, &l.values));
        assert_eq!(f.0, SecureFelt(l.multiplicity, M31(0), M31(0), M31(0)));
    }
    assert_ne!(combined(&rels.and_8, &lookups[10].values), fracs[10].1);
}

fn pair(lo: M31, hi: M31) -> u32 {
    lo.0 + (hi.0 << 16)
}

#[test]
fn table_lookups_are_table_entries() {
    let trace = build_round_trace_forge(&[abc_compression()], 0, 10, Forge::Maj(0xdead_beef));
    for row in 0..64 {
        let l = row_lookups(&trace.cols, row);
        for e in &l[..36] {
            let v = &e.values;
            match e.relation {
                Relation::VerifyBitwiseAnd_8 => {
                    assert!(v[0].0 < 256 && v[1].0 < 256);
                    assert_eq!(v[2].0, v[0].0 & v[1].0);
                }
                Relation::VerifyBitwiseXor_8 => {
                    assert!(v[0].0 < 256 && v[1].0 < 256);
                    assert_eq!(v[2].0, v[0].0 ^ v[1].0);
                }
                Relation::Sha256BigSigma1 => assert_eq!(pair(v[2], v[3]), big_sigma_1(pair(v[0], v[1]))),
                Relation::Sha256BigSigma0 => assert_eq!(pair(v[2], v[3]), big_sigma_0(pair(v[0], v[1]))),
                Relation::Sha256KTable => assert_eq!(pair(v[1], v[2]), K[v[0].0 as usize]),
                Relation::Sha256Schedule => {
                    let w = |i: usize| pair(v[2 * i], v[2 * i + 1]);
                    let next = small_sigma_1(w(14))
                        .wrapping_add(w(9))
                        .wrapping_add(small_sigma_0(w(1)))
                        .wrapping_add(w(0));
                    assert_eq!(w(16), next);
                }
                other => panic!("unexpected table relation {other:?}"),
            }
        }
    }
}

fn as_qm31(x: &SecureFelt) -> stwo::core::fields::qm31::QM31 {
    stwo::core::fields::qm31::QM31::from_u32_unchecked(x.0 .0, x.1 .0, x.2 .0, x.3 .0)
}

#[test]
fn drawn_powers_are_powers_of_alpha() {
    let rels = RoundRelations::draw_test();
    let set = &rels.round;
    assert_eq!(set.alpha_powers.len(), 50);
    assert_eq!(set.alpha_powers[0], SecureFelt(M31(1), M31(0), M31(0), M31(0)));
    let alpha = as_qm31(&set.alpha);
    for i in 0..49 {
        assert_eq!(as_qm31(&set.alpha_powers[i + 1]), as_qm31(&set.alpha_powers[i]) * alpha);
    }
    assert_ne!(set.alpha, set.alpha_powers[0]);
}

#[test]
fn round_fractions_cancel_on_a_forged_trace() {
    let trace = build_round_trace_forge(&[abc_compression()], 0, 10, Forge::Maj(0x0bad_f00d));
    let rels = RoundRelations::draw_test();
    for row in 0..63 {
        let here = row_fractions(&trace.cols, row, &rels);
        let next = row_fractions(&trace.cols, row + 1, &rels);
        assert_eq!(here[37].1, next[36].1);
        assert_eq!((here[37].0 .0 .0 + next[36].0 .0 .0) % MODULUS, 0);
    }
}

#[test]
fn draw_reads_the_callers_channel_in_order() {
    let mut channel = stwo::core::channel::Blake2sChannel::default();
    stwo::core::channel::Channel::mix_u64(&mut channel, 0x5ea_256);
    let rels = RoundRelations::draw(&mut channel);
    let test_rels = RoundRelations::draw_test();
    assert_eq!(rels.big_sigma_1.z, test_rels.big_sigma_1.z);
    assert_eq!(rels.round.alpha, test_rels.round.alpha);
    let mut other = stwo::core::channel::Blake2sChannel::default();
    stwo::core::channel::Channel::mix_u64(&mut other, 1);
    let other_rels = RoundRelations::draw(&mut other);
    assert_ne!(other_rels.big_sigma_1.z, rels.big_sigma_1.z);
    assert_ne!(rels.big_sigma_1.z, rels.big_sigma_0.z);
    let mut again = stwo::core::channel::Blake2sChannel::default();
    stwo::core::channel::Channel::mix_u64(&mut again, 0x5ea_256);
    let _ = RoundRelations::draw(&mut again);
    assert_eq!(again.digest(), channel.digest());
}

#[test]
fn batched_fractions_follow_secure_field_arithmetic() {
    use_batched(&build_round_trace(&[abc_compression()]), 7);
}

fn use_batched(trace: &sha256_round_sound_spike::witness::RoundTrace, row: usize) {
    let rels = RoundRelations::draw_test();
    let fracs = row_fractions(&trace.cols, row, &rels);
    let batched = sha256_round_sound_spike::interaction::row_batched_fractions(&trace.cols, row, &rels);
    assert_eq!(batched.len(), 19);
    for j in 0..19 {
        let (n0, d0) = (as_qm31(&fracs[2 * j].0), as_qm31(&fracs[2 * j].1));
        let (n1, d1) = (as_qm31(&fracs[2 * j + 1].0), as_qm31(&fracs[2 * j + 1].1));
        assert_eq!(as_qm31(&batched[j].0), n0 * d1 + n1 * d0);
        assert_eq!(as_qm31(&batched[j].1), d0 * d1);
    }
}
