use sha256_round_sound_spike::check::CheckEvaluator;
use sha256_round_sound_spike::components::subroutines::verify_triple_sum_32::VerifyTripleSum32;
use sha256_round_sound_spike::m31::M31;
use sha256_round_sound_spike::reference::{self, IV, K};
use sha256_round_sound_spike::witness::{
    build_round_trace, build_round_trace_forge, forge_ch, hi16, lo16, CompressionInput, Forge,
    RoundTrace, N_TRACE_COLUMNS,
};

/// The padded single block of "abc": 0x61626380, zeros, bit length 24.
fn abc_block() -> [u32; 16] {
    let mut block = [0u32; 16];
    block[0] = 0x61626380;
    block[15] = 24;
    block
}

fn abc_input() -> CompressionInput {
    CompressionInput { h_in: IV, block: abc_block() }
}

fn word(trace: &RoundTrace, row: usize, lo_col: usize) -> u32 {
    trace.cols[lo_col][row].0 | (trace.cols[lo_col + 1][row].0 << 16)
}

fn two_blocks() -> Vec<[u32; 16]> {
    let msg = b"abcdbcdecdefdefgefghfghighijhijkijkljklmklmnlmnomnopnopq";
    let mut padded = msg.to_vec();
    padded.push(0x80);
    while padded.len() % 64 != 56 {
        padded.push(0);
    }
    padded.extend_from_slice(&(msg.len() as u64 * 8).to_be_bytes());
    padded
        .chunks_exact(64)
        .map(|chunk| {
            let mut b = [0u32; 16];
            for (i, w) in chunk.chunks_exact(4).enumerate() {
                b[i] = u32::from_be_bytes(w.try_into().unwrap());
            }
            b
        })
        .collect()
}

#[test]
fn limbs_of_a_word() {
    assert_eq!(lo16(0x1234_5678), 0x5678);
    assert_eq!(hi16(0x1234_5678), 0x1234);
}

#[test]
fn single_compression_trace_digest() {
    let trace = build_round_trace(&[abc_input()]);
    assert_eq!(trace.log_size, 6);
    assert_eq!(trace.cols.len(), N_TRACE_COLUMNS);
    assert!(trace.cols.iter().all(|c| c.len() == 64));
    let digest: Vec<u32> =
        trace.final_states[0].iter().zip(IV).map(|(s, iv)| s.wrapping_add(iv)).collect();
    assert_eq!(
        digest,
        vec![
            0xba7816bf, 0x8f01cfea, 0x414140de, 0x5dae2223, 0xb00361a3, 0x96177a9c, 0xb410ff61,
            0xf20015ad
        ]
    );
}

#[test]
fn two_compression_trace_digest() {
    let blocks = two_blocks();
    assert_eq!(blocks.len(), 2);
    let (_, h1) = reference::compress(IV, &blocks[0]);
    let trace = build_round_trace(&[
        CompressionInput { h_in: IV, block: blocks[0] },
        CompressionInput { h_in: h1, block: blocks[1] },
    ]);
    assert_eq!(trace.log_size, 7);
    assert_eq!(trace.cols[0][64].0, 1);
    assert_eq!(trace.cols[1][64].0, 0);
    let digest: Vec<u32> =
        trace.final_states[1].iter().zip(h1).map(|(s, h)| s.wrapping_add(h)).collect();
    assert_eq!(
        digest,
        vec![
            0x248d6a61, 0xd20638b8, 0xe5c02693, 0x0c3e6039, 0xa33ce459, 0x64ff2167, 0xf6ecedd4,
            0x19db06c1
        ]
    );
}

#[test]
fn honest_trace_cells_of_round_zero() {
    let trace = build_round_trace(&[abc_input()]);
    assert_eq!(word(&trace, 0, 2), IV[0]);
    assert_eq!(word(&trace, 0, 16), IV[7]);
    assert_eq!(word(&trace, 0, 18), 0x61626380);
    assert_eq!(word(&trace, 0, 80), K[0]);
    assert_eq!(word(&trace, 0, 122), 0x5d6aebcd);
    assert_eq!(word(&trace, 0, 120), 0xfa2a4622);
    assert_eq!(trace.cols[124][0], M31(1));
}

#[test]
fn honest_rows_bind_ch_and_maj_limbs() {
    let trace = build_round_trace(&[abc_input()]);
    for row in 0..64 {
        assert_eq!(trace.cols[78][row], trace.cols[76][row]);
        assert_eq!(trace.cols[79][row], trace.cols[77][row]);
        assert_eq!(trace.cols[114][row], trace.cols[112][row]);
        assert_eq!(trace.cols[115][row], trace.cols[113][row]);
    }
}

#[test]
fn honest_round_chain_is_consistent() {
    let trace = build_round_trace(&[abc_input()]);
    let pushed = [122, 2, 4, 6, 120, 10, 12, 14];
    for row in 0..63 {
        for (i, c) in pushed.iter().enumerate() {
            assert_eq!(word(&trace, row, *c), word(&trace, row + 1, 2 + 2 * i));
        }
    }
    for (i, c) in pushed.iter().enumerate() {
        assert_eq!(word(&trace, 63, *c), trace.final_states[0][i]);
    }
}

#[test]
fn forge_ch_changes_only_the_forged_row() {
    let honest = build_round_trace(&[abc_input()]);
    let mut trace = build_round_trace(&[abc_input()]);
    let honest_ch = word(&trace, 10, 78);
    let forged = honest_ch ^ 0xdead_beef;
    forge_ch(&mut trace, 10, forged);

    let w = reference::message_schedule_80(&abc_block());
    let mut state = IV;
    for t in 0..10 {
        state = reference::round(state, w[t], K[t]);
    }
    let true_next = reference::round(state, w[10], K[10]);
    assert_ne!(word(&trace, 10, 122), true_next[0]);
    assert_eq!(word(&trace, 11, 2), true_next[0]);
    assert_ne!(word(&trace, 10, 122), word(&trace, 11, 2));
    assert_eq!(word(&trace, 10, 78), forged);
    assert_eq!(word(&trace, 10, 76), honest_ch);
    for c in 0..N_TRACE_COLUMNS {
        for row in 0..64 {
            let rewritten = row == 10 && [78, 79, 82, 83, 84, 85, 120, 121, 122, 123].contains(&c);
            if !rewritten {
                assert_eq!(trace.cols[c][row], honest.cols[c][row]);
            }
        }
    }
    assert_eq!(trace.final_states, honest.final_states);
}

fn binding_rows(trace: &RoundTrace) -> Vec<usize> {
    (0..trace.cols[0].len())
        .filter(|&row| {
            trace.cols[78][row] != trace.cols[76][row]
                || trace.cols[79][row] != trace.cols[77][row]
                || trace.cols[114][row] != trace.cols[112][row]
                || trace.cols[115][row] != trace.cols[113][row]
        })
        .collect()
}

#[test]
fn propagated_ch_forgery_changes_final_state() {
    let honest = build_round_trace(&[abc_input()]);
    let forged_ch = word(&honest, 10, 78) ^ 0xdead_beef;
    let trace = build_round_trace_forge(&[abc_input()], 0, 10, Forge::Ch(forged_ch));
    assert_ne!(trace.final_states[0], honest.final_states[0]);
    assert_eq!(binding_rows(&trace), vec![10]);
    for row in 0..10 {
        for c in 0..N_TRACE_COLUMNS {
            assert_eq!(trace.cols[c][row], honest.cols[c][row]);
        }
    }
    let pushed = [122, 2, 4, 6, 120, 10, 12, 14];
    for row in 0..63 {
        for (i, c) in pushed.iter().enumerate() {
            assert_eq!(word(&trace, row, *c), word(&trace, row + 1, 2 + 2 * i));
        }
    }
}

#[test]
fn propagated_maj_forgery_changes_final_state() {
    let honest = build_round_trace(&[abc_input()]);
    let forged_maj = word(&honest, 10, 114) ^ 0xdead_beef;
    let trace = build_round_trace_forge(&[abc_input()], 0, 10, Forge::Maj(forged_maj));
    assert_ne!(trace.final_states[0], honest.final_states[0]);
    assert_eq!(binding_rows(&trace), vec![10]);
    assert_eq!(word(&trace, 10, 114), forged_maj);
    assert_eq!(word(&trace, 10, 120), word(&honest, 10, 120));
}

#[test]
fn noop_forgery_builds_the_honest_trace() {
    let honest = build_round_trace(&[abc_input()]);
    let honest_ch = word(&honest, 10, 76);
    let trace = build_round_trace_forge(&[abc_input()], 0, 10, Forge::Ch(honest_ch));
    assert_eq!(trace.final_states, honest.final_states);
    assert_eq!(trace.cols, honest.cols);
    assert!(binding_rows(&trace).is_empty());
}

#[test]
fn forgery_in_other_compression_leaves_first_honest() {
    let blocks = two_blocks();
    let (_, h1) = reference::compress(IV, &blocks[0]);
    let inputs = [
        CompressionInput { h_in: IV, block: blocks[0] },
        CompressionInput { h_in: h1, block: blocks[1] },
    ];
    let honest = build_round_trace(&inputs);
    let trace = build_round_trace_forge(&inputs, 1, 0, Forge::Maj(0));
    assert_eq!(trace.final_states[0], honest.final_states[0]);
    assert_ne!(trace.final_states[1], honest.final_states[1]);
    assert_eq!(binding_rows(&trace), vec![64]);
}

#[test]
fn row_relations_hold_on_forged_rows() {
    let trace = build_round_trace_forge(&[abc_input()], 0, 10, Forge::Ch(0x0bad_f00d));
    let w = reference::message_schedule_80(&abc_block());
    for row in 0..64 {
        let tw = |c: usize| word(&trace, row, c);
        assert_eq!(tw(50), reference::big_sigma_1(tw(10)));
        assert_eq!(tw(52), reference::big_sigma_0(tw(2)));
        assert_eq!(tw(80), K[row]);
        assert_eq!(tw(18), w[row]);
        assert_eq!(tw(76), reference::ch(tw(10), tw(12), tw(14)));
        assert_eq!(tw(112), reference::maj(tw(2), tw(4), tw(6)));
        assert_eq!(tw(82), tw(16).wrapping_add(tw(50)).wrapping_add(tw(78)));
        assert_eq!(tw(84), tw(82).wrapping_add(tw(80)).wrapping_add(tw(18)));
        assert_eq!(tw(116), tw(52).wrapping_add(tw(114)));
        assert_eq!(tw(120), tw(8).wrapping_add(tw(84)));
        assert_eq!(tw(122), tw(84).wrapping_add(tw(116)));
    }
}

#[test]
fn t1_sums_accepted_and_exercise_all_carries() {
    let trace = build_round_trace_forge(&[abc_input()], 0, 10, Forge::Ch(0x0bad_f00d));
    let mut carries = std::collections::BTreeSet::new();
    for row in 0..64 {
        for cols in [[16, 17, 50, 51, 78, 79, 82, 83], [82, 83, 80, 81, 18, 19, 84, 85]] {
            let mut eval = CheckEvaluator::new(row);
            let limbs: [M31; 8] = cols.map(|c| trace.cols[c][row]);
            VerifyTripleSum32::evaluate(limbs, &mut eval);
            assert!(eval.violations.is_empty());
            carries.extend(eval.intermediates.iter().map(|m| m.0));
        }
    }
    assert_eq!(carries.into_iter().collect::<Vec<_>>(), vec![0, 1, 2]);
}

#[test]
fn forged_row_keeps_checked_halves() {
    let honest = build_round_trace(&[abc_input()]);
    let trace = build_round_trace_forge(&[abc_input()], 0, 10, Forge::Ch(0x0123_4567));
    assert_eq!(word(&trace, 10, 78), 0x0123_4567);
    for c in [76, 77, 112, 113] {
        assert_eq!(trace.cols[c][10], honest.cols[c][10]);
    }
    let trace = build_round_trace_forge(&[abc_input()], 0, 10, Forge::Maj(0x89ab_cdef));
    assert_eq!(word(&trace, 10, 114), 0x89ab_cdef);
    for c in [76, 77, 112, 113] {
        assert_eq!(trace.cols[c][10], honest.cols[c][10]);
    }
}

#[test]
fn forgery_outside_the_trace_builds_the_honest_trace() {
    let honest = build_round_trace(&[abc_input()]);
    let late = build_round_trace_forge(&[abc_input()], 0, 64, Forge::Ch(1));
    assert_eq!(late.cols, honest.cols);
    assert_eq!(late.final_states, honest.final_states);
    let elsewhere = build_round_trace_forge(&[abc_input()], 3, 5, Forge::Maj(1));
    assert_eq!(elsewhere.cols, honest.cols);
    assert_eq!(elsewhere.final_states, honest.final_states);
}
