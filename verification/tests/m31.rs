use sha256_round_sound_spike::m31::{M31, MODULUS};

#[test]
fn m31_reduces_on_construction() {
    assert_eq!(M31::from_u32(MODULUS).0, 0);
    assert_eq!(M31::from_u32(MODULUS + 5).0, 5);
    assert_eq!(M31::from(7u32).0, 7);
}

#[test]
fn m31_ring_operations() {
    let a = M31::from_u32(MODULUS - 1);
    assert_eq!(a.add(M31(2)).0, 1);
    assert_eq!(M31(0).sub(M31(1)).0, MODULUS - 1);
    assert_eq!(M31(1 << 16).mul(M31(1 << 15)).0, 1);
    assert_eq!(M31(3).neg().0, MODULUS - 3);
    assert_eq!(M31(0).neg().0, 0);
}
