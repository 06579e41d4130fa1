use sha256_round_sound_spike::check::mask_row;

#[test]
fn mask_row_exact_values() {
    let next: Vec<usize> = (0..4).map(|r| mask_row(r, 2, 1)).collect();
    assert_eq!(next, vec![3, 0, 1, 2]);
    let prev: Vec<usize> = (0..8).map(|r| mask_row(r, 3, -1)).collect();
    assert_eq!(prev, vec![1, 6, 3, 4, 7, 2, 5, 0]);
    assert_eq!(mask_row(5, 3, 0), 5);
}

#[test]
fn mask_row_offsets_undo_each_other() {
    for row in 0..64 {
        assert_eq!(mask_row(mask_row(row, 6, -1), 6, 1), row);
        assert_eq!(mask_row(mask_row(row, 6, 70), 6, -70), row);
    }
}

#[test]
fn mask_row_is_a_permutation() {
    let mut seen = vec![false; 64];
    for row in 0..64 {
        seen[mask_row(row, 6, -1)] = true;
    }
    assert!(seen.iter().all(|&s| s));
}

#[test]
fn mask_row_on_a_single_row_trace() {
    assert_eq!(mask_row(0, 0, 0), 0);
    assert_eq!(mask_row(0, 0, 1), 0);
    assert_eq!(mask_row(0, 0, -7), 0);
}

#[test]
fn mask_row_offsets_undo_each_other_on_one_row() {
    assert_eq!(mask_row(mask_row(0, 0, 3), 0, -3), 0);
}
