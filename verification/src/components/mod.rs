//! The round component's building blocks.
pub mod prelude;
pub mod subroutines;
