//! Constraint subroutines called by the round component.
pub mod bitwise_and_num_bits_8;
pub mod bitwise_xor_num_bits_8;
pub mod split_16_low_part_size_8;
pub mod triple_sum_32;
pub mod verify_triple_sum_32;
