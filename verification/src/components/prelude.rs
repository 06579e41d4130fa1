//! Items shared by the components.
use vstd::prelude::*;

verus! {

/// Bookkeeping of how many times a relation is used.
#[derive(Copy, Clone, Debug)]
pub struct RelationUse {
    pub relation_id: &'static str,
    pub uses: u64,
}

} // verus!
