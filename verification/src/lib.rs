//! Verified SHA-256 round AIR building blocks over the Mersenne-31 field.
pub mod check;
pub mod lookups;
pub mod components;
pub mod convert;
pub mod interaction;
pub mod m31;
pub mod reference;
pub mod relations;
pub mod soundness;
pub mod tables;
pub mod symbolic;
pub mod witness;

use vstd::prelude::*;

verus! {

} // verus!
