//! The logup relations of the SHA-256 round tower: their names and tuple widths.
use vstd::prelude::*;

verus! {

/// A lookup relation. Variants are declared in the ascending order of their names.
#[allow(non_camel_case_types)]
#[derive(Clone, Copy, Debug, PartialEq, Eq, Structural)]
pub enum Relation {
    Sha256BigSigma0,
    Sha256BigSigma0O0,
    Sha256BigSigma0O1,
    Sha256BigSigma1,
    Sha256BigSigma1O0,
    Sha256BigSigma1O1,
    Sha256KTable,
    Sha256Round,
    Sha256Schedule,
    Sha256SmallSigma0,
    Sha256SmallSigma0O0,
    Sha256SmallSigma0O1,
    Sha256SmallSigma1,
    Sha256SmallSigma1O0,
    Sha256SmallSigma1O1,
    VerifyBitwiseAnd_8,
    VerifyBitwiseXor_8,
}

/// The number of relations.
pub const N_RELATIONS: usize = 17;

/// The relation at position `i` of the name order.
pub open spec fn relation_at(i: int) -> Relation {
    if i == 0 {
        Relation::Sha256BigSigma0
    } else if i == 1 {
        Relation::Sha256BigSigma0O0
    } else if i == 2 {
        Relation::Sha256BigSigma0O1
    } else if i == 3 {
        Relation::Sha256BigSigma1
    } else if i == 4 {
        Relation::Sha256BigSigma1O0
    } else if i == 5 {
        Relation::Sha256BigSigma1O1
    } else if i == 6 {
        Relation::Sha256KTable
    } else if i == 7 {
        Relation::Sha256Round
    } else if i == 8 {
        Relation::Sha256Schedule
    } else if i == 9 {
        Relation::Sha256SmallSigma0
    } else if i == 10 {
        Relation::Sha256SmallSigma0O0
    } else if i == 11 {
        Relation::Sha256SmallSigma0O1
    } else if i == 12 {
        Relation::Sha256SmallSigma1
    } else if i == 13 {
        Relation::Sha256SmallSigma1O0
    } else if i == 14 {
        Relation::Sha256SmallSigma1O1
    } else if i == 15 {
        Relation::VerifyBitwiseAnd_8
    } else {
        Relation::VerifyBitwiseXor_8
    }
}

/// The tuple width of each relation.
pub open spec fn relation_size(r: Relation) -> usize {
    match r {
        Relation::VerifyBitwiseAnd_8 => 3,
        Relation::VerifyBitwiseXor_8 => 3,
        Relation::Sha256Round => 50,
        Relation::Sha256BigSigma0 => 4,
        Relation::Sha256BigSigma1 => 4,
        Relation::Sha256Schedule => 34,
        Relation::Sha256SmallSigma0 => 4,
        Relation::Sha256SmallSigma1 => 4,
        Relation::Sha256BigSigma0O0 => 6,
        Relation::Sha256BigSigma0O1 => 6,
        Relation::Sha256BigSigma1O0 => 6,
        Relation::Sha256BigSigma1O1 => 6,
        Relation::Sha256SmallSigma0O0 => 6,
        Relation::Sha256SmallSigma0O1 => 6,
        Relation::Sha256SmallSigma1O0 => 6,
        Relation::Sha256SmallSigma1O1 => 6,
        Relation::Sha256KTable => 3,
    }
}

/// The name of each relation, the name of its relation type.
pub open spec fn relation_name(r: Relation) -> Seq<char> {
    match r {
        Relation::VerifyBitwiseAnd_8 => "VerifyBitwiseAnd_8"@,
        Relation::VerifyBitwiseXor_8 => "VerifyBitwiseXor_8"@,
        Relation::Sha256Round => "Sha256Round"@,
        Relation::Sha256BigSigma0 => "Sha256BigSigma0"@,
        Relation::Sha256BigSigma1 => "Sha256BigSigma1"@,
        Relation::Sha256Schedule => "Sha256Schedule"@,
        Relation::Sha256SmallSigma0 => "Sha256SmallSigma0"@,
        Relation::Sha256SmallSigma1 => "Sha256SmallSigma1"@,
        Relation::Sha256BigSigma0O0 => "Sha256BigSigma0O0"@,
        Relation::Sha256BigSigma0O1 => "Sha256BigSigma0O1"@,
        Relation::Sha256BigSigma1O0 => "Sha256BigSigma1O0"@,
        Relation::Sha256BigSigma1O1 => "Sha256BigSigma1O1"@,
        Relation::Sha256SmallSigma0O0 => "Sha256SmallSigma0O0"@,
        Relation::Sha256SmallSigma0O1 => "Sha256SmallSigma0O1"@,
        Relation::Sha256SmallSigma1O0 => "Sha256SmallSigma1O0"@,
        Relation::Sha256SmallSigma1O1 => "Sha256SmallSigma1O1"@,
        Relation::Sha256KTable => "Sha256KTable"@,
    }
}

impl Relation {
    /// The relation at position `i` of the name order.
    pub fn at(i: usize) -> (r: Relation)
        requires
            i < N_RELATIONS,
        ensures
            r == relation_at(i as int),
    {
        if i == 0 {
            Relation::Sha256BigSigma0
        } else if i == 1 {
            Relation::Sha256BigSigma0O0
        } else if i == 2 {
            Relation::Sha256BigSigma0O1
        } else if i == 3 {
            Relation::Sha256BigSigma1
        } else if i == 4 {
            Relation::Sha256BigSigma1O0
        } else if i == 5 {
            Relation::Sha256BigSigma1O1
        } else if i == 6 {
            Relation::Sha256KTable
        } else if i == 7 {
            Relation::Sha256Round
        } else if i == 8 {
            Relation::Sha256Schedule
        } else if i == 9 {
            Relation::Sha256SmallSigma0
        } else if i == 10 {
            Relation::Sha256SmallSigma0O0
        } else if i == 11 {
            Relation::Sha256SmallSigma0O1
        } else if i == 12 {
            Relation::Sha256SmallSigma1
        } else if i == 13 {
            Relation::Sha256SmallSigma1O0
        } else if i == 14 {
            Relation::Sha256SmallSigma1O1
        } else if i == 15 {
            Relation::VerifyBitwiseAnd_8
        } else {
            Relation::VerifyBitwiseXor_8
        }
    }

    /// The tuple width of the relation.
    pub fn size(&self) -> (r: usize)
        ensures
            r == relation_size(*self),
    {
        match self {
            Relation::VerifyBitwiseAnd_8 => 3,
            Relation::VerifyBitwiseXor_8 => 3,
            Relation::Sha256Round => 50,
            Relation::Sha256BigSigma0 => 4,
            Relation::Sha256BigSigma1 => 4,
            Relation::Sha256Schedule => 34,
            Relation::Sha256SmallSigma0 => 4,
            Relation::Sha256SmallSigma1 => 4,
            Relation::Sha256BigSigma0O0 => 6,
            Relation::Sha256BigSigma0O1 => 6,
            Relation::Sha256BigSigma1O0 => 6,
            Relation::Sha256BigSigma1O1 => 6,
            Relation::Sha256SmallSigma0O0 => 6,
            Relation::Sha256SmallSigma0O1 => 6,
            Relation::Sha256SmallSigma1O0 => 6,
            Relation::Sha256SmallSigma1O1 => 6,
            Relation::Sha256KTable => 3,
        }
    }

    /// The relation's name, the name of its relation type.
    pub fn name(&self) -> (r: &'static str)
        ensures
            r@ == relation_name(*self),
    {
        match self {
            Relation::VerifyBitwiseAnd_8 => "VerifyBitwiseAnd_8",
            Relation::VerifyBitwiseXor_8 => "VerifyBitwiseXor_8",
            Relation::Sha256Round => "Sha256Round",
            Relation::Sha256BigSigma0 => "Sha256BigSigma0",
            Relation::Sha256BigSigma1 => "Sha256BigSigma1",
            Relation::Sha256Schedule => "Sha256Schedule",
            Relation::Sha256SmallSigma0 => "Sha256SmallSigma0",
            Relation::Sha256SmallSigma1 => "Sha256SmallSigma1",
            Relation::Sha256BigSigma0O0 => "Sha256BigSigma0O0",
            Relation::Sha256BigSigma0O1 => "Sha256BigSigma0O1",
            Relation::Sha256BigSigma1O0 => "Sha256BigSigma1O0",
            Relation::Sha256BigSigma1O1 => "Sha256BigSigma1O1",
            Relation::Sha256SmallSigma0O0 => "Sha256SmallSigma0O0",
            Relation::Sha256SmallSigma0O1 => "Sha256SmallSigma0O1",
            Relation::Sha256SmallSigma1O0 => "Sha256SmallSigma1O0",
            Relation::Sha256SmallSigma1O1 => "Sha256SmallSigma1O1",
            Relation::Sha256KTable => "Sha256KTable",
        }
    }
}

} // verus!
