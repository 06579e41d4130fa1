use sha256_round_sound_spike::relations::{Relation, N_RELATIONS};

#[test]
fn relations_in_name_order_with_sizes() {
    let names: Vec<&str> = (0..N_RELATIONS).map(|i| Relation::at(i).name()).collect();
    let mut sorted = names.clone();
    sorted.sort();
    assert_eq!(names, sorted);
    assert_eq!(Relation::at(7), Relation::Sha256Round);
    assert_eq!(Relation::Sha256Round.size(), 50);
    assert_eq!(Relation::Sha256Schedule.size(), 34);
    assert_eq!(Relation::VerifyBitwiseAnd_8.name(), "VerifyBitwiseAnd_8");
    assert_eq!(Relation::Sha256BigSigma1O0.size(), 6);
}
