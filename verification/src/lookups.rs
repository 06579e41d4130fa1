//! The logup lookups of one row of the round component: which relation each of the 38
//! fractions uses, with which multiplicity and which tuple of cells, in the order the
//! component emits them.
use crate::check::RelationEntry;
use crate::m31::{p, M31};
use crate::reference::{add32, spec_big_sigma_0, spec_big_sigma_1, spec_small_sigma_0, spec_small_sigma_1, K};
use crate::relations::{relation_size, Relation};
use crate::witness::{N_FRACTIONS, N_TRACE_COLUMNS};
use vstd::prelude::*;

verus! {

/// Field sum of two elements, as `M31::add` computes it.
pub open spec fn madd(a: M31, b: M31) -> M31 {
    M31(((a.0 + b.0) % p()) as u32)
}

/// Field difference of two elements, as `M31::sub` computes it.
pub open spec fn msub(a: M31, b: M31) -> M31 {
    M31(((a.0 - b.0) % p()) as u32)
}

/// Field product of two elements, as `M31::mul` computes it.
pub open spec fn mmul(a: M31, b: M31) -> M31 {
    M31(((a.0 * b.0) % p()) as u32)
}

/// Field negation, as `M31::neg` computes it.
pub open spec fn mneg(a: M31) -> M31 {
    M31(((0 - a.0) % p()) as u32)
}

/// The low byte `x - ms8 * 256` of a 16-bit limb `x` whose high byte is `ms8`.
pub open spec fn lo8(x: M31, ms8: M31) -> M31 {
    msub(x, mmul(ms8, M31(256)))
}

/// The cells of columns `lo..hi` of a row.
pub open spec fn col_range(c: spec_fn(int) -> M31, lo: int, hi: int) -> Seq<M31> {
    Seq::new((hi - lo) as nat, |i: int| c(lo + i))
}

/// The (relation, multiplicity, tuple) of each lookup of a row whose cell in column `i`
/// is `c(i)`. The last two are the round self-relation: the push of this row's
/// (seq, t, state, window) with the enabler, and the pull of the next round's
/// (seq, t + 1, rotated state, advanced window) with minus the enabler.
pub open spec fn row_lookup_spec(c: spec_fn(int) -> M31) -> Seq<(Relation, M31, Seq<M31>)> {
    sigma_lookups(c) + ch_lookups(c) + k_lookups(c) + maj_and_lookups(c) + maj_xor_lookups(c)
        + chain_lookups(c)
}

/// Of the lookups of a row, the Σ1(e) and Σ0(a) lookups.
pub open spec fn sigma_lookups(c: spec_fn(int) -> M31) -> Seq<(Relation, M31, Seq<M31>)> {
    seq![
        (Relation::Sha256BigSigma1, M31(1), seq![c(10), c(11), c(50), c(51)]),
        (Relation::Sha256BigSigma0, M31(1), seq![c(2), c(3), c(52), c(53)]),
    ]
}

/// Of the lookups of a row, the AND and XOR byte lookups of Ch(e, f, g).
pub open spec fn ch_lookups(c: spec_fn(int) -> M31) -> Seq<(Relation, M31, Seq<M31>)> {
    seq![
        (Relation::VerifyBitwiseAnd_8, M31(1), seq![lo8(c(10), c(54)), lo8(c(12), c(56)), c(58)]),
        (Relation::VerifyBitwiseAnd_8, M31(1), seq![c(54), c(56), c(59)]),
        (Relation::VerifyBitwiseAnd_8, M31(1), seq![lo8(c(11), c(55)), lo8(c(13), c(57)), c(60)]),
        (Relation::VerifyBitwiseAnd_8, M31(1), seq![c(55), c(57), c(61)]),
        (Relation::VerifyBitwiseAnd_8, M31(1), seq![lo8(c(62), c(64)), lo8(c(14), c(66)), c(68)]),
        (Relation::VerifyBitwiseAnd_8, M31(1), seq![c(64), c(66), c(69)]),
        (Relation::VerifyBitwiseAnd_8, M31(1), seq![lo8(c(63), c(65)), lo8(c(15), c(67)), c(70)]),
        (Relation::VerifyBitwiseAnd_8, M31(1), seq![c(65), c(67), c(71)]),
        (Relation::VerifyBitwiseXor_8, M31(1), seq![c(58), c(68), c(72)]),
        (Relation::VerifyBitwiseXor_8, M31(1), seq![c(59), c(69), c(73)]),
        (Relation::VerifyBitwiseXor_8, M31(1), seq![c(60), c(70), c(74)]),
        (Relation::VerifyBitwiseXor_8, M31(1), seq![c(61), c(71), c(75)]),
    ]
}

/// Of the lookups of a row, the K-table lookup.
pub open spec fn k_lookups(c: spec_fn(int) -> M31) -> Seq<(Relation, M31, Seq<M31>)> {
    seq![
        (Relation::Sha256KTable, M31(1), seq![c(1), c(80), c(81)]),
    ]
}

/// Of the lookups of a row, the AND byte lookups of a&b, a&c, b&c.
pub open spec fn maj_and_lookups(c: spec_fn(int) -> M31) -> Seq<(Relation, M31, Seq<M31>)> {
    seq![
        (Relation::VerifyBitwiseAnd_8, M31(1), seq![lo8(c(2), c(86)), lo8(c(4), c(88)), c(92)]),
        (Relation::VerifyBitwiseAnd_8, M31(1), seq![c(86), c(88), c(93)]),
        (Relation::VerifyBitwiseAnd_8, M31(1), seq![lo8(c(3), c(87)), lo8(c(5), c(89)), c(94)]),
        (Relation::VerifyBitwiseAnd_8, M31(1), seq![c(87), c(89), c(95)]),
        (Relation::VerifyBitwiseAnd_8, M31(1), seq![lo8(c(2), c(86)), lo8(c(6), c(90)), c(96)]),
        (Relation::VerifyBitwiseAnd_8, M31(1), seq![c(86), c(90), c(97)]),
        (Relation::VerifyBitwiseAnd_8, M31(1), seq![lo8(c(3), c(87)), lo8(c(7), c(91)), c(98)]),
        (Relation::VerifyBitwiseAnd_8, M31(1), seq![c(87), c(91), c(99)]),
        (Relation::VerifyBitwiseAnd_8, M31(1), seq![lo8(c(4), c(88)), lo8(c(6), c(90)), c(100)]),
        (Relation::VerifyBitwiseAnd_8, M31(1), seq![c(88), c(90), c(101)]),
        (Relation::VerifyBitwiseAnd_8, M31(1), seq![lo8(c(5), c(89)), lo8(c(7), c(91)), c(102)]),
        (Relation::VerifyBitwiseAnd_8, M31(1), seq![c(89), c(91), c(103)]),
    ]
}

/// Of the lookups of a row, the XOR byte lookups of Maj(a, b, c).
pub open spec fn maj_xor_lookups(c: spec_fn(int) -> M31) -> Seq<(Relation, M31, Seq<M31>)> {
    seq![
        (Relation::VerifyBitwiseXor_8, M31(1), seq![c(92), c(96), c(104)]),
        (Relation::VerifyBitwiseXor_8, M31(1), seq![c(93), c(97), c(105)]),
        (Relation::VerifyBitwiseXor_8, M31(1), seq![c(94), c(98), c(106)]),
        (Relation::VerifyBitwiseXor_8, M31(1), seq![c(95), c(99), c(107)]),
        (Relation::VerifyBitwiseXor_8, M31(1), seq![c(104), c(100), c(108)]),
        (Relation::VerifyBitwiseXor_8, M31(1), seq![c(105), c(101), c(109)]),
        (Relation::VerifyBitwiseXor_8, M31(1), seq![c(106), c(102), c(110)]),
        (Relation::VerifyBitwiseXor_8, M31(1), seq![c(107), c(103), c(111)]),
    ]
}

/// Of the lookups of a row, the schedule lookup and the round self-relation push and pull.
pub open spec fn chain_lookups(c: spec_fn(int) -> M31) -> Seq<(Relation, M31, Seq<M31>)> {
    seq![
        (Relation::Sha256Schedule, M31(1), col_range(c, 18, 50) + seq![c(118), c(119)]),
        (Relation::Sha256Round, c(124), seq![c(0), c(1)] + col_range(c, 2, 50)),
        (Relation::Sha256Round, mneg(c(124)), seq![c(0), madd(c(1), M31(1)), c(122), c(123), c(2), c(3), c(4), c(5), c(6), c(7), c(120), c(121), c(10), c(11), c(12), c(13), c(14), c(15)] + col_range(c, 20, 50) + seq![c(118), c(119)]),
    ]
}

/// The view of a recorded relation use.
pub open spec fn entry_view(e: RelationEntry) -> (Relation, M31, Seq<M31>) {
    (e.relation, e.multiplicity, e.values@)
}

/// The views of a sequence of relation uses.
pub open spec fn entries_view(v: Seq<RelationEntry>) -> Seq<(Relation, M31, Seq<M31>)> {
    v.map_values(|e: RelationEntry| entry_view(e))
}

/// The cells of `row`, column by column.
pub open spec fn row_cells(cols: Seq<Vec<M31>>, row: int) -> spec_fn(int) -> M31 {
    |i: int| cols[i]@[row]
}

fn cell(cols: &Vec<Vec<M31>>, row: usize, i: usize) -> (r: M31)
    requires
        i < cols@.len(),
        row < cols@[i as int]@.len(),
    ensures
        r == cols@[i as int]@[row as int],
{
    cols[i][row]
}

fn lo8_of(x: M31, ms8: M31) -> (r: M31)
    ensures
        r == lo8(x, ms8),
{
    x.sub(ms8.mul(M31(256)))
}

fn push_col_range(vals: &mut Vec<M31>, cols: &Vec<Vec<M31>>, row: usize, lo: usize, hi: usize)
    requires
        lo <= hi <= cols@.len(),
        forall|i: int| lo <= i < hi ==> row < #[trigger] cols@[i]@.len(),
    ensures
        final(vals)@ == old(vals)@ + col_range(row_cells(cols@, row as int), lo as int, hi as int),
{
    let ghost start = vals@;
    for i in lo..hi
        invariant
            lo <= hi <= cols@.len(),
            forall|j: int| lo <= j < hi ==> row < #[trigger] cols@[j]@.len(),
            vals@ == start + col_range(row_cells(cols@, row as int), lo as int, i as int),
    {
        vals.push(cell(cols, row, i));
        assert(vals@ =~= start + col_range(row_cells(cols@, row as int), lo as int, (i + 1) as int));
    }
}

fn push_entry(v: &mut Vec<RelationEntry>, relation: Relation, multiplicity: M31, values: Vec<M31>)
    ensures
        entries_view(final(v)@) == entries_view(old(v)@).push((relation, multiplicity, values@)),
{
    let ghost vals = values@;
    v.push(RelationEntry { relation, multiplicity, values });
    assert(entries_view(final(v)@) =~= entries_view(old(v)@).push((relation, multiplicity, vals)));
}

fn push_sigma_lookups(r: &mut Vec<RelationEntry>, cols: &Vec<Vec<M31>>, row: usize)
    requires
        old(r)@.len() == 0,
        crate::witness::covers_row(cols@, row as int),
    ensures
        final(r)@.len() == 2,
        entries_view(final(r)@) == entries_view(old(r)@) + sigma_lookups(row_cells(cols@, row as int)),
{
    let ghost start = entries_view(r@);
    push_entry(
        r,
        Relation::Sha256BigSigma1,
        M31(1),
        vec![
            cell(cols, row, 10),
            cell(cols, row, 11),
            cell(cols, row, 50),
            cell(cols, row, 51),
        ],
    );
    push_entry(
        r,
        Relation::Sha256BigSigma0,
        M31(1),
        vec![
            cell(cols, row, 2),
            cell(cols, row, 3),
            cell(cols, row, 52),
            cell(cols, row, 53),
        ],
    );
    assert(entries_view(r@) =~= start + sigma_lookups(row_cells(cols@, row as int)));
}

fn push_ch_lookups(r: &mut Vec<RelationEntry>, cols: &Vec<Vec<M31>>, row: usize)
    requires
        old(r)@.len() == 2,
        crate::witness::covers_row(cols@, row as int),
    ensures
        final(r)@.len() == 14,
        entries_view(final(r)@) == entries_view(old(r)@) + ch_lookups(row_cells(cols@, row as int)),
{
    let ghost start = entries_view(r@);
    push_entry(
        r,
        Relation::VerifyBitwiseAnd_8,
        M31(1),
        vec![
            lo8_of(cell(cols, row, 10),
            cell(cols, row, 54)),
            lo8_of(cell(cols, row, 12),
            cell(cols, row, 56)),
            cell(cols, row, 58),
        ],
    );
    push_entry(
        r,
        Relation::VerifyBitwiseAnd_8,
        M31(1),
        vec![
            cell(cols, row, 54),
            cell(cols, row, 56),
            cell(cols, row, 59),
        ],
    );
    push_entry(
        r,
        Relation::VerifyBitwiseAnd_8,
        M31(1),
        vec![
            lo8_of(cell(cols, row, 11),
            cell(cols, row, 55)),
            lo8_of(cell(cols, row, 13),
            cell(cols, row, 57)),
            cell(cols, row, 60),
        ],
    );
    push_entry(
        r,
        Relation::VerifyBitwiseAnd_8,
        M31(1),
        vec![
            cell(cols, row, 55),
            cell(cols, row, 57),
            cell(cols, row, 61),
        ],
    );
    push_entry(
        r,
        Relation::VerifyBitwiseAnd_8,
        M31(1),
        vec![
            lo8_of(cell(cols, row, 62),
            cell(cols, row, 64)),
            lo8_of(cell(cols, row, 14),
            cell(cols, row, 66)),
            cell(cols, row, 68),
        ],
    );
    push_entry(
        r,
        Relation::VerifyBitwiseAnd_8,
        M31(1),
        vec![
            cell(cols, row, 64),
            cell(cols, row, 66),
            cell(cols, row, 69),
        ],
    );
    push_entry(
        r,
        Relation::VerifyBitwiseAnd_8,
        M31(1),
        vec![
            lo8_of(cell(cols, row, 63),
            cell(cols, row, 65)),
            lo8_of(cell(cols, row, 15),
            cell(cols, row, 67)),
            cell(cols, row, 70),
        ],
    );
    push_entry(
        r,
        Relation::VerifyBitwiseAnd_8,
        M31(1),
        vec![
            cell(cols, row, 65),
            cell(cols, row, 67),
            cell(cols, row, 71),
        ],
    );
    push_entry(
        r,
        Relation::VerifyBitwiseXor_8,
        M31(1),
        vec![
            cell(cols, row, 58),
            cell(cols, row, 68),
            cell(cols, row, 72),
        ],
    );
    push_entry(
        r,
        Relation::VerifyBitwiseXor_8,
        M31(1),
        vec![
            cell(cols, row, 59),
            cell(cols, row, 69),
            cell(cols, row, 73),
        ],
    );
    push_entry(
        r,
        Relation::VerifyBitwiseXor_8,
        M31(1),
        vec![
            cell(cols, row, 60),
            cell(cols, row, 70),
            cell(cols, row, 74),
        ],
    );
    push_entry(
        r,
        Relation::VerifyBitwiseXor_8,
        M31(1),
        vec![
            cell(cols, row, 61),
            cell(cols, row, 71),
            cell(cols, row, 75),
        ],
    );
    assert(entries_view(r@) =~= start + ch_lookups(row_cells(cols@, row as int)));
}

fn push_k_lookups(r: &mut Vec<RelationEntry>, cols: &Vec<Vec<M31>>, row: usize)
    requires
        old(r)@.len() == 14,
        crate::witness::covers_row(cols@, row as int),
    ensures
        final(r)@.len() == 15,
        entries_view(final(r)@) == entries_view(old(r)@) + k_lookups(row_cells(cols@, row as int)),
{
    let ghost start = entries_view(r@);
    push_entry(
        r,
        Relation::Sha256KTable,
        M31(1),
        vec![
            cell(cols, row, 1),
            cell(cols, row, 80),
            cell(cols, row, 81),
        ],
    );
    assert(entries_view(r@) =~= start + k_lookups(row_cells(cols@, row as int)));
}

fn push_maj_and_lookups(r: &mut Vec<RelationEntry>, cols: &Vec<Vec<M31>>, row: usize)
    requires
        old(r)@.len() == 15,
        crate::witness::covers_row(cols@, row as int),
    ensures
        final(r)@.len() == 27,
        entries_view(final(r)@) == entries_view(old(r)@) + maj_and_lookups(row_cells(cols@, row as int)),
{
    let ghost start = entries_view(r@);
    push_entry(
        r,
        Relation::VerifyBitwiseAnd_8,
        M31(1),
        vec![
            lo8_of(cell(cols, row, 2),
            cell(cols, row, 86)),
            lo8_of(cell(cols, row, 4),
            cell(cols, row, 88)),
            cell(cols, row, 92),
        ],
    );
    push_entry(
        r,
        Relation::VerifyBitwiseAnd_8,
        M31(1),
        vec![
            cell(cols, row, 86),
            cell(cols, row, 88),
            cell(cols, row, 93),
        ],
    );
    push_entry(
        r,
        Relation::VerifyBitwiseAnd_8,
        M31(1),
        vec![
            lo8_of(cell(cols, row, 3),
            cell(cols, row, 87)),
            lo8_of(cell(cols, row, 5),
            cell(cols, row, 89)),
            cell(cols, row, 94),
        ],
    );
    push_entry(
        r,
        Relation::VerifyBitwiseAnd_8,
        M31(1),
        vec![
            cell(cols, row, 87),
            cell(cols, row, 89),
            cell(cols, row, 95),
        ],
    );
    push_entry(
        r,
        Relation::VerifyBitwiseAnd_8,
        M31(1),
        vec![
            lo8_of(cell(cols, row, 2),
            cell(cols, row, 86)),
            lo8_of(cell(cols, row, 6),
            cell(cols, row, 90)),
            cell(cols, row, 96),
        ],
    );
    push_entry(
        r,
        Relation::VerifyBitwiseAnd_8,
        M31(1),
        vec![
            cell(cols, row, 86),
            cell(cols, row, 90),
            cell(cols, row, 97),
        ],
    );
    push_entry(
        r,
        Relation::VerifyBitwiseAnd_8,
        M31(1),
        vec![
            lo8_of(cell(cols, row, 3),
            cell(cols, row, 87)),
            lo8_of(cell(cols, row, 7),
            cell(cols, row, 91)),
            cell(cols, row, 98),
        ],
    );
    push_entry(
        r,
        Relation::VerifyBitwiseAnd_8,
        M31(1),
        vec![
            cell(cols, row, 87),
            cell(cols, row, 91),
            cell(cols, row, 99),
        ],
    );
    push_entry(
        r,
        Relation::VerifyBitwiseAnd_8,
        M31(1),
        vec![
            lo8_of(cell(cols, row, 4),
            cell(cols, row, 88)),
            lo8_of(cell(cols, row, 6),
            cell(cols, row, 90)),
            cell(cols, row, 100),
        ],
    );
    push_entry(
        r,
        Relation::VerifyBitwiseAnd_8,
        M31(1),
        vec![
            cell(cols, row, 88),
            cell(cols, row, 90),
            cell(cols, row, 101),
        ],
    );
    push_entry(
        r,
        Relation::VerifyBitwiseAnd_8,
        M31(1),
        vec![
            lo8_of(cell(cols, row, 5),
            cell(cols, row, 89)),
            lo8_of(cell(cols, row, 7),
            cell(cols, row, 91)),
            cell(cols, row, 102),
        ],
    );
    push_entry(
        r,
        Relation::VerifyBitwiseAnd_8,
        M31(1),
        vec![
            cell(cols, row, 89),
            cell(cols, row, 91),
            cell(cols, row, 103),
        ],
    );
    assert(entries_view(r@) =~= start + maj_and_lookups(row_cells(cols@, row as int)));
}

fn push_maj_xor_lookups(r: &mut Vec<RelationEntry>, cols: &Vec<Vec<M31>>, row: usize)
    requires
        old(r)@.len() == 27,
        crate::witness::covers_row(cols@, row as int),
    ensures
        final(r)@.len() == 35,
        entries_view(final(r)@) == entries_view(old(r)@) + maj_xor_lookups(row_cells(cols@, row as int)),
{
    let ghost start = entries_view(r@);
    push_entry(
        r,
        Relation::VerifyBitwiseXor_8,
        M31(1),
        vec![
            cell(cols, row, 92),
            cell(cols, row, 96),
            cell(cols, row, 104),
        ],
    );
    push_entry(
        r,
        Relation::VerifyBitwiseXor_8,
        M31(1),
        vec![
            cell(cols, row, 93),
            cell(cols, row, 97),
            cell(cols, row, 105),
        ],
    );
    push_entry(
        r,
        Relation::VerifyBitwiseXor_8,
        M31(1),
        vec![
            cell(cols, row, 94),
            cell(cols, row, 98),
            cell(cols, row, 106),
        ],
    );
    push_entry(
        r,
        Relation::VerifyBitwiseXor_8,
        M31(1),
        vec![
            cell(cols, row, 95),
            cell(cols, row, 99),
            cell(cols, row, 107),
        ],
    );
    push_entry(
        r,
        Relation::VerifyBitwiseXor_8,
        M31(1),
        vec![
            cell(cols, row, 104),
            cell(cols, row, 100),
            cell(cols, row, 108),
        ],
    );
    push_entry(
        r,
        Relation::VerifyBitwiseXor_8,
        M31(1),
        vec![
            cell(cols, row, 105),
            cell(cols, row, 101),
            cell(cols, row, 109),
        ],
    );
    push_entry(
        r,
        Relation::VerifyBitwiseXor_8,
        M31(1),
        vec![
            cell(cols, row, 106),
            cell(cols, row, 102),
            cell(cols, row, 110),
        ],
    );
    push_entry(
        r,
        Relation::VerifyBitwiseXor_8,
        M31(1),
        vec![
            cell(cols, row, 107),
            cell(cols, row, 103),
            cell(cols, row, 111),
        ],
    );
    assert(entries_view(r@) =~= start + maj_xor_lookups(row_cells(cols@, row as int)));
}

fn push_chain_lookups(r: &mut Vec<RelationEntry>, cols: &Vec<Vec<M31>>, row: usize)
    requires
        old(r)@.len() == 35,
        crate::witness::covers_row(cols@, row as int),
    ensures
        final(r)@.len() == 38,
        entries_view(final(r)@) == entries_view(old(r)@) + chain_lookups(row_cells(cols@, row as int)),
{
    let ghost start = entries_view(r@);
    let ghost c = row_cells(cols@, row as int);
    let mut vals: Vec<M31> = Vec::new();
    push_col_range(&mut vals, cols, row, 18, 50);
    vals.push(cell(cols, row, 118));
    vals.push(cell(cols, row, 119));
    assert(vals@ =~= chain_lookups(c)[0].2);
    push_entry(r, Relation::Sha256Schedule, M31(1), vals);
    let mut vals: Vec<M31> = Vec::new();
    vals.push(cell(cols, row, 0));
    vals.push(cell(cols, row, 1));
    push_col_range(&mut vals, cols, row, 2, 50);
    assert(vals@ =~= chain_lookups(c)[1].2);
    push_entry(r, Relation::Sha256Round, cell(cols, row, 124), vals);
    let mut vals: Vec<M31> = Vec::new();
    vals.push(cell(cols, row, 0));
    vals.push(cell(cols, row, 1).add(M31(1)));
    vals.push(cell(cols, row, 122));
    vals.push(cell(cols, row, 123));
    vals.push(cell(cols, row, 2));
    vals.push(cell(cols, row, 3));
    vals.push(cell(cols, row, 4));
    vals.push(cell(cols, row, 5));
    vals.push(cell(cols, row, 6));
    vals.push(cell(cols, row, 7));
    vals.push(cell(cols, row, 120));
    vals.push(cell(cols, row, 121));
    vals.push(cell(cols, row, 10));
    vals.push(cell(cols, row, 11));
    vals.push(cell(cols, row, 12));
    vals.push(cell(cols, row, 13));
    vals.push(cell(cols, row, 14));
    vals.push(cell(cols, row, 15));
    push_col_range(&mut vals, cols, row, 20, 50);
    vals.push(cell(cols, row, 118));
    vals.push(cell(cols, row, 119));
    assert(vals@ =~= chain_lookups(c)[2].2);
    push_entry(r, Relation::Sha256Round, cell(cols, row, 124).neg(), vals);
    assert(entries_view(r@) =~= start + chain_lookups(row_cells(cols@, row as int)));
}

/// The 38 lookups of `row`, in the order the round component emits them.
pub fn row_lookups(cols: &Vec<Vec<M31>>, row: usize) -> (r: Vec<RelationEntry>)
    requires
        crate::witness::covers_row(cols@, row as int),
    ensures
        r@.len() == N_FRACTIONS,
        entries_view(r@) == row_lookup_spec(row_cells(cols@, row as int)),
{
    let mut r: Vec<RelationEntry> = Vec::new();
    assert(entries_view(r@) =~= Seq::empty());
    push_sigma_lookups(&mut r, cols, row);
    push_ch_lookups(&mut r, cols, row);
    push_k_lookups(&mut r, cols, row);
    push_maj_and_lookups(&mut r, cols, row);
    push_maj_xor_lookups(&mut r, cols, row);
    push_chain_lookups(&mut r, cols, row);
    r
}

/// The round component looks up only these seven relations.
pub open spec fn is_round_relation(r: Relation) -> bool {
    ||| r == Relation::Sha256BigSigma1
    ||| r == Relation::Sha256BigSigma0
    ||| r == Relation::VerifyBitwiseAnd_8
    ||| r == Relation::VerifyBitwiseXor_8
    ||| r == Relation::Sha256KTable
    ||| r == Relation::Sha256Schedule
    ||| r == Relation::Sha256Round
}

/// Every lookup in `ls` is of a round relation, with a tuple of that relation's width.
pub open spec fn well_shaped(ls: Seq<(Relation, M31, Seq<M31>)>) -> bool {
    forall|i: int|
        0 <= i < ls.len() ==> is_round_relation(#[trigger] ls[i].0) && ls[i].2.len() == relation_size(
            ls[i].0,
        )
}

/// Every lookup of a row is of a round relation, with a tuple of its width.
pub proof fn lemma_row_lookups_well_shaped(c: spec_fn(int) -> M31)
    ensures
        row_lookup_spec(c).len() == 38,
        well_shaped(row_lookup_spec(c)),
{
    assert(well_shaped(sigma_lookups(c)));
    assert(well_shaped(ch_lookups(c)));
    assert(well_shaped(k_lookups(c)));
    assert(well_shaped(maj_and_lookups(c)));
    assert(well_shaped(maj_xor_lookups(c)));
    assert(well_shaped(chain_lookups(c)));
    lemma_well_shaped_concat(sigma_lookups(c), ch_lookups(c));
    lemma_well_shaped_concat(sigma_lookups(c) + ch_lookups(c), k_lookups(c));
    lemma_well_shaped_concat(sigma_lookups(c) + ch_lookups(c) + k_lookups(c), maj_and_lookups(c));
    lemma_well_shaped_concat(
        sigma_lookups(c) + ch_lookups(c) + k_lookups(c) + maj_and_lookups(c),
        maj_xor_lookups(c),
    );
    lemma_well_shaped_concat(
        sigma_lookups(c) + ch_lookups(c) + k_lookups(c) + maj_and_lookups(c) + maj_xor_lookups(c),
        chain_lookups(c),
    );
}

/// The lookups of a row read its first `N_TRACE_COLUMNS` cells only: two rows that agree
/// there emit the same lookups.
pub proof fn lemma_row_lookups_agree(c1: spec_fn(int) -> M31, c2: spec_fn(int) -> M31)
    requires
        forall|i: int| 0 <= i < N_TRACE_COLUMNS ==> #[trigger] c1(i) == c2(i),
    ensures
        row_lookup_spec(c1) == row_lookup_spec(c2),
{
    assert(col_range(c1, 18, 50) =~= col_range(c2, 18, 50));
    assert(col_range(c1, 2, 50) =~= col_range(c2, 2, 50));
    assert(col_range(c1, 20, 50) =~= col_range(c2, 20, 50));
    assert(sigma_lookups(c1) =~~= sigma_lookups(c2));
    assert(ch_lookups(c1) =~~= ch_lookups(c2));
    assert(k_lookups(c1) =~~= k_lookups(c2));
    assert(maj_and_lookups(c1) =~~= maj_and_lookups(c2));
    assert(maj_xor_lookups(c1) =~~= maj_xor_lookups(c2));
    assert(chain_lookups(c1) =~~= chain_lookups(c2));
}

proof fn lemma_well_shaped_concat(a: Seq<(Relation, M31, Seq<M31>)>, b: Seq<(Relation, M31, Seq<M31>)>)
    requires
        well_shaped(a),
        well_shaped(b),
    ensures
        well_shaped(a + b),
{
    assert forall|i: int| 0 <= i < (a + b).len() implies is_round_relation(#[trigger] (a + b)[i].0)
        && (a + b)[i].2.len() == relation_size((a + b)[i].0) by {
        if i < a.len() {
            assert((a + b)[i] == a[i]);
        } else {
            assert((a + b)[i] == b[i - a.len()]);
        }
    }
}

/// The 32-bit word of a pair of limbs `lo + 2^16 * hi`.
pub open spec fn pair_word(lo: M31, hi: M31) -> u32 {
    (lo.0 + 65536 * hi.0) as u32
}

/// Every cell of a tuple is a 16-bit value.
pub open spec fn all_16_bit(t: Seq<M31>) -> bool {
    forall|i: int| 0 <= i < t.len() ==> #[trigger] t[i].0 < 65536
}

/// `t` is an entry of the table of `rel`: a byte triple `(x, y, x & y)` or `(x, y, x ^ y)`,
/// a word and its Σ, a round counter and its constant, or a schedule window of 16 words
/// followed by the next schedule word.
pub open spec fn table_entry_holds(rel: Relation, t: Seq<M31>) -> bool {
    match rel {
        Relation::VerifyBitwiseAnd_8 => t.len() == 3 && t[0].0 < 256 && t[1].0 < 256 && t[2].0 == (
        t[0].0 & t[1].0),
        Relation::VerifyBitwiseXor_8 => t.len() == 3 && t[0].0 < 256 && t[1].0 < 256 && t[2].0 == (
        t[0].0 ^ t[1].0),
        Relation::Sha256BigSigma1 => t.len() == 4 && all_16_bit(t) && pair_word(t[2], t[3])
            == spec_big_sigma_1(pair_word(t[0], t[1])),
        Relation::Sha256BigSigma0 => t.len() == 4 && all_16_bit(t) && pair_word(t[2], t[3])
            == spec_big_sigma_0(pair_word(t[0], t[1])),
        Relation::Sha256KTable => t.len() == 3 && t[0].0 < 64 && all_16_bit(t) && pair_word(
            t[1],
            t[2],
        ) == K[t[0].0 as int],
        Relation::Sha256Schedule => t.len() == 34 && all_16_bit(t) && pair_word(t[32], t[33])
            == add32(
            add32(
                add32(spec_small_sigma_1(pair_word(t[28], t[29])), pair_word(t[18], t[19])),
                spec_small_sigma_0(pair_word(t[2], t[3])),
            ),
            pair_word(t[0], t[1]),
        ),
        _ => false,
    }
}

} // verus!
