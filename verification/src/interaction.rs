//! The lookup randomness of the round component and the logup fractions of a row.
//!
//! The seven lookup-element sets are drawn, in a fixed order, from the caller's Fiat-Shamir
//! channel (`lookup_draw` names what one draw takes from a channel state), and each
//! fraction's denominator is stwo's random linear combination of a lookup tuple over its
//! secure extension field, stated coordinate by coordinate. Fraction `i` of a row is the
//! multiplicity of lookup `i` of `row_lookups` over its tuple combined with its relation's
//! elements; fractions are batched in pairs for the interaction trace, and the round
//! self-relation's fractions cancel between consecutive rows of a compression.
use crate::lookups::{
    entries_view, is_round_relation, lemma_row_lookups_well_shaped, row_cells, row_lookup_spec,
    row_lookups,
};
use crate::lookups::{lemma_row_lookups_agree, madd, mmul, mneg, msub};
use crate::soundness::{lemma_round_relation_balances, trace_cells};
use crate::witness::{forged_cell, CompressionInput, Forge};
use crate::m31::{p, M31};
use crate::relations::{relation_size, Relation};
use crate::witness::{N_FRACTIONS, N_TRACE_COLUMNS};
use stwo_constraint_framework::logup::LookupElements;
use vstd::prelude::*;

verus! {

/// stwo's secure extension field element.
#[verifier::external_type_specification]
#[verifier::external_body]
pub struct ExQM31(stwo::core::fields::qm31::QM31);

/// stwo's lookup elements `(z, alpha, alpha^0..N)` of one relation.
#[verifier::external_type_specification]
#[verifier::external_body]
#[verifier::reject_recursive_types(N)]
pub struct ExLookupElements<const N: usize>(LookupElements<N>);

/// stwo's Blake2s Fiat-Shamir channel.
#[verifier::external_type_specification]
#[verifier::external_body]
#[verifier::reject_recursive_types(IS_M31_OUTPUT)]
pub struct ExBlake2sChannelGeneric<const IS_M31_OUTPUT: bool>(
    stwo::core::channel::Blake2sChannelGeneric<IS_M31_OUTPUT>,
);

/// An element of the degree-4 secure extension field, as its four base-field coordinates
/// `(a, b, c, d)` (stwo's `QM31(CM31(a, b), CM31(c, d))`).
#[derive(Clone, Copy, Debug, PartialEq, Eq, Structural)]
pub struct SecureFelt(pub M31, pub M31, pub M31, pub M31);

/// The lookup elements of one relation: `z`, `alpha` and the powers `alpha^0, alpha^1, ..`
/// that weigh the tuple entries.
pub struct LookupSet {
    pub z: SecureFelt,
    pub alpha: SecureFelt,
    pub alpha_powers: Vec<SecureFelt>,
}

/// Every coordinate is a canonical residue.
pub open spec fn felt_wf(x: SecureFelt) -> bool {
    x.0.wf() && x.1.wf() && x.2.wf() && x.3.wf()
}

/// The embedding of a base-field residue `x mod p` as `(x mod p, 0, 0, 0)`.
pub open spec fn felt_of(x: M31) -> SecureFelt {
    SecureFelt(M31((x.0 as int % p()) as u32), M31(0), M31(0), M31(0))
}

/// Coordinate-wise sum.
pub open spec fn felt_add(a: SecureFelt, b: SecureFelt) -> SecureFelt {
    SecureFelt(madd(a.0, b.0), madd(a.1, b.1), madd(a.2, b.2), madd(a.3, b.3))
}

/// Coordinate-wise difference.
pub open spec fn felt_sub(a: SecureFelt, b: SecureFelt) -> SecureFelt {
    SecureFelt(msub(a.0, b.0), msub(a.1, b.1), msub(a.2, b.2), msub(a.3, b.3))
}

/// The product with a base-field element: every coordinate times it.
pub open spec fn felt_scale(a: SecureFelt, v: M31) -> SecureFelt {
    SecureFelt(mmul(a.0, v), mmul(a.1, v), mmul(a.2, v), mmul(a.3, v))
}

/// `sum_{i < n} powers[i] * values[i]`, each value taken as its canonical residue.
pub open spec fn weighted_sum(powers: Seq<SecureFelt>, values: Seq<M31>, n: nat) -> SecureFelt
    decreases n,
{
    if n == 0 {
        SecureFelt(M31(0), M31(0), M31(0), M31(0))
    } else {
        felt_add(
            weighted_sum(powers, values, (n - 1) as nat),
            felt_scale(powers[n - 1], M31((values[n - 1].0 as int % p()) as u32)),
        )
    }
}

/// stwo's random linear combination of a tuple: `sum_i alpha^i * values[i] - z`.
pub open spec fn combine_spec(set: LookupSet, values: Seq<M31>) -> SecureFelt {
    felt_sub(weighted_sum(set.alpha_powers@, values, values.len()), set.z)
}

/// Product in the complex extension `M31[i]/(i^2 + 1)`, as pairs of coordinates.
pub open spec fn cm_mul(a: (M31, M31), b: (M31, M31)) -> (M31, M31) {
    (msub(mmul(a.0, b.0), mmul(a.1, b.1)), madd(mmul(a.0, b.1), mmul(a.1, b.0)))
}

/// Sum in the complex extension.
pub open spec fn cm_add(a: (M31, M31), b: (M31, M31)) -> (M31, M31) {
    (madd(a.0, b.0), madd(a.1, b.1))
}

/// Product in the secure field `CM31[u]/(u^2 - (2 + i))`:
/// `(a + b u)(c + d u) = (a c + (2 + i) b d) + (a d + b c) u`.
pub open spec fn felt_mul(x: SecureFelt, y: SecureFelt) -> SecureFelt {
    let (a, b, c, d) = ((x.0, x.1), (x.2, x.3), (y.0, y.1), (y.2, y.3));
    let lo = cm_add(cm_mul(a, c), cm_mul(cm_mul((M31(2), M31(1)), b), d));
    let hi = cm_add(cm_mul(a, d), cm_mul(b, c));
    SecureFelt(lo.0, lo.1, hi.0, hi.1)
}

/// The powers are `1, alpha, alpha^2, ..`: the first is one, and each next one is the
/// previous times alpha.
pub open spec fn powers_of_alpha(set: LookupSet) -> bool {
    &&& set.alpha_powers@.len() > 0 ==> set.alpha_powers@[0] == SecureFelt(M31(1), M31(0), M31(0), M31(0))
    &&& forall|i: int|
        0 <= i < set.alpha_powers@.len() - 1 ==> #[trigger] set.alpha_powers@[i + 1] == felt_mul(
            set.alpha_powers@[i],
            set.alpha,
        )
}

/// The elements are canonical and there are `n` powers of alpha.
pub open spec fn set_wf(set: LookupSet, n: nat) -> bool {
    &&& felt_wf(set.z)
    &&& felt_wf(set.alpha)
    &&& set.alpha_powers@.len() == n
    &&& forall|i: int| 0 <= i < n ==> #[trigger] felt_wf(set.alpha_powers@[i])
}

/// What `LookupElements::draw` takes from a channel in state `channel`: the drawn `z` and
/// `alpha` (two secure-field elements from the channel's Blake2s output, whatever the
/// number of powers) and the channel's state afterwards.
pub uninterp spec fn lookup_draw(channel: stwo::core::channel::Blake2sChannelGeneric<false>) -> (SecureFelt, SecureFelt, stwo::core::channel::Blake2sChannelGeneric<false>);

/// The state of `channel` after `Channel::mix_u64` mixes `value` into it.
pub uninterp spec fn mixed(channel: stwo::core::channel::Blake2sChannelGeneric<false>, value: u64) -> stwo::core::channel::Blake2sChannelGeneric<false>;

/// The channel state after `k` lookup draws from `channel`.
pub open spec fn channel_after_draws(channel: stwo::core::channel::Blake2sChannelGeneric<false>, k: nat) -> stwo::core::channel::Blake2sChannelGeneric<false>
    decreases k,
{
    if k == 0 {
        channel
    } else {
        lookup_draw(channel_after_draws(channel, (k - 1) as nat)).2
    }
}

/// `set` holds the `z` and `alpha` a lookup draw takes from `channel`.
pub open spec fn drawn_set(set: LookupSet, channel: stwo::core::channel::Blake2sChannelGeneric<false>) -> bool {
    set.z == lookup_draw(channel).0 && set.alpha == lookup_draw(channel).1
}

/// `Blake2sChannel::default()`: a channel in its initial state (a zero digest and no draws).
/// Nothing is stated of that state.
#[verifier::external_body]
fn new_channel() -> stwo::core::channel::Blake2sChannelGeneric<false> {
    stwo::core::channel::Blake2sChannelGeneric::<false>::default()
}

/// `Channel::mix_u64`: mixes a word into the channel's state; the new state is `mixed` of
/// the old one and the word (a Blake2s digest, a function of the two alone).
#[verifier::external_body]
fn mix_u64(channel: &mut stwo::core::channel::Blake2sChannelGeneric<false>, value: u64)
    ensures
        *final(channel) == mixed(*old(channel), value),
{
    stwo::core::channel::Channel::mix_u64(channel, value)
}

/// `LookupElements::draw`: draws `z` and `alpha` from the channel and fills `N` powers of
/// alpha (starting from one, each the previous times alpha), converted coordinate by
/// coordinate. Stated: `z`, `alpha` and the channel's new state are `lookup_draw` of the
/// channel's old state (stwo draws them with `draw_secure_felts(2)`, a function of the
/// channel's digest and draw counter alone), there are `N` powers, they are the powers of
/// alpha, and every coordinate is canonical (stwo reduces every base-field value it draws
/// or computes). Left unsaid: stwo redraws until a Blake2s block lands below `2p` and
/// counts draws in a `u32`; the contract takes the call to return.
#[verifier::external_body]
fn draw_elements<const N: usize>(
    channel: &mut stwo::core::channel::Blake2sChannelGeneric<false>,
) -> (r: LookupSet)
    ensures
        (r.z, r.alpha, *final(channel)) == lookup_draw(*old(channel)),
        set_wf(r, N as nat),
        powers_of_alpha(r),
{
    let e = LookupElements::<N>::draw(channel);
    let f = |q: &stwo::core::fields::qm31::QM31| SecureFelt(M31(q.0.0.0), M31(q.0.1.0), M31(q.1.0.0), M31(q.1.1.0));
    LookupSet { z: f(&e.z), alpha: f(&e.alpha), alpha_powers: e.alpha_powers.iter().map(f).collect() }
}

/// `LookupElements::combine`: `sum_i alpha^i * values[i] - z`, with the elements rebuilt
/// from their coordinates and each value taken as the base-field element of its residue.
/// stwo computes coordinate-wise: a secure element times a base element scales each
/// coordinate, sums and differences are coordinate-wise, and on canonical coordinates its
/// base-field operations give the canonical residues. stwo panics when there are more
/// values than alpha powers, hence the bound.
#[verifier::external_body]
fn combine<const N: usize>(set: &LookupSet, values: &Vec<M31>) -> (r: SecureFelt)
    requires
        set_wf(*set, N as nat),
        values@.len() <= N,
    ensures
        r == combine_spec(*set, values@),
{
    let q = |x: SecureFelt| stwo::core::fields::qm31::QM31::from_u32_unchecked(x.0.0, x.1.0, x.2.0, x.3.0);
    let base: Vec<stwo::core::fields::m31::M31> = values.iter().map(|v| v.0.into()).collect();
    let r: stwo::core::fields::qm31::QM31 = LookupElements::<N> {
        z: q(set.z),
        alpha: q(set.alpha),
        alpha_powers: std::array::from_fn(|i| q(set.alpha_powers[i])),
    }.combine(&base);
    SecureFelt(M31(r.0.0.0), M31(r.0.1.0), M31(r.1.0.0), M31(r.1.1.0))
}

/// `QM31::from(M31::from(x))`: the residue of `x` embedded as `(x mod p, 0, 0, 0)`.
#[verifier::external_body]
fn secure_of(x: M31) -> (r: SecureFelt)
    ensures
        r == felt_of(x),
{
    let q = stwo::core::fields::qm31::QM31::from(stwo::core::fields::m31::M31::from(x.0));
    SecureFelt(M31(q.0.0.0), M31(q.0.1.0), M31(q.1.0.0), M31(q.1.1.0))
}

/// The seven lookup-element sets the round component takes, drawn from one channel.
pub struct RoundRelations {
    pub big_sigma_1: LookupSet,
    pub big_sigma_0: LookupSet,
    pub and_8: LookupSet,
    pub xor_8: LookupSet,
    pub k_table: LookupSet,
    pub schedule: LookupSet,
    pub round: LookupSet,
}

/// The set of elements the round component combines the tuples of `relation` with.
pub open spec fn set_of(rels: RoundRelations, relation: Relation) -> LookupSet {
    match relation {
        Relation::Sha256BigSigma1 => rels.big_sigma_1,
        Relation::Sha256BigSigma0 => rels.big_sigma_0,
        Relation::VerifyBitwiseAnd_8 => rels.and_8,
        Relation::VerifyBitwiseXor_8 => rels.xor_8,
        Relation::Sha256KTable => rels.k_table,
        Relation::Sha256Schedule => rels.schedule,
        _ => rels.round,
    }
}

impl RoundRelations {
    /// Every set is canonical and has one power of alpha per entry of its relation's tuple.
    pub open spec fn wf(self) -> bool {
        &&& set_wf(self.big_sigma_1, 4)
        &&& set_wf(self.big_sigma_0, 4)
        &&& set_wf(self.and_8, 3)
        &&& set_wf(self.xor_8, 3)
        &&& set_wf(self.k_table, 3)
        &&& set_wf(self.schedule, 34)
        &&& set_wf(self.round, 50)
    }

    /// The powers of every set are the powers of its alpha.
    pub open spec fn powers_ok(self) -> bool {
        &&& powers_of_alpha(self.big_sigma_1)
        &&& powers_of_alpha(self.big_sigma_0)
        &&& powers_of_alpha(self.and_8)
        &&& powers_of_alpha(self.xor_8)
        &&& powers_of_alpha(self.k_table)
        &&& powers_of_alpha(self.schedule)
        &&& powers_of_alpha(self.round)
    }

    /// The sets are those of seven consecutive lookup draws from `channel`, in field order.
    pub open spec fn drawn_from(self, channel: stwo::core::channel::Blake2sChannelGeneric<false>) -> bool {
        &&& drawn_set(self.big_sigma_1, channel_after_draws(channel, 0))
        &&& drawn_set(self.big_sigma_0, channel_after_draws(channel, 1))
        &&& drawn_set(self.and_8, channel_after_draws(channel, 2))
        &&& drawn_set(self.xor_8, channel_after_draws(channel, 3))
        &&& drawn_set(self.k_table, channel_after_draws(channel, 4))
        &&& drawn_set(self.schedule, channel_after_draws(channel, 5))
        &&& drawn_set(self.round, channel_after_draws(channel, 6))
    }

    /// Draws the seven sets in a fixed order from the caller's channel; it only has to match
    /// between the prover and the constraint check, which both use this struct.
    pub fn draw(channel: &mut stwo::core::channel::Blake2sChannelGeneric<false>) -> (r: RoundRelations)
        ensures
            r.wf(),
            r.powers_ok(),
            r.drawn_from(*old(channel)),
            *final(channel) == channel_after_draws(*old(channel), 7),
    {
        proof {
            reveal_with_fuel(channel_after_draws, 8);
        }
        let big_sigma_1 = draw_elements::<4>(channel);
        let big_sigma_0 = draw_elements::<4>(channel);
        let and_8 = draw_elements::<3>(channel);
        let xor_8 = draw_elements::<3>(channel);
        let k_table = draw_elements::<3>(channel);
        let schedule = draw_elements::<34>(channel);
        let round = draw_elements::<50>(channel);
        RoundRelations { big_sigma_1, big_sigma_0, and_8, xor_8, k_table, schedule, round }
    }

    /// The sets drawn from a fresh channel seeded with a fixed word, for tests.
    pub fn draw_test() -> (r: RoundRelations)
        ensures
            r.wf(),
            r.powers_ok(),
            exists|fresh: stwo::core::channel::Blake2sChannelGeneric<false>| r.drawn_from(#[trigger] mixed(fresh, 0x5ea_256)),
    {
        let mut channel = new_channel();
        let ghost fresh = channel;
        mix_u64(&mut channel, 0x5ea_256);
        let r = RoundRelations::draw(&mut channel);
        assert(r.drawn_from(mixed(fresh, 0x5ea_256)));
        r
    }
}

/// The denominator of a lookup: its tuple combined with the elements of its relation.
fn lookup_denominator(rels: &RoundRelations, relation: Relation, values: &Vec<M31>) -> (r: SecureFelt)
    requires
        rels.wf(),
        is_round_relation(relation),
        values@.len() == relation_size(relation),
    ensures
        r == combine_spec(set_of(*rels, relation), values@),
{
    match relation {
        Relation::Sha256BigSigma1 => combine::<4>(&rels.big_sigma_1, values),
        Relation::Sha256BigSigma0 => combine::<4>(&rels.big_sigma_0, values),
        Relation::VerifyBitwiseAnd_8 => combine::<3>(&rels.and_8, values),
        Relation::VerifyBitwiseXor_8 => combine::<3>(&rels.xor_8, values),
        Relation::Sha256KTable => combine::<3>(&rels.k_table, values),
        Relation::Sha256Schedule => combine::<34>(&rels.schedule, values),
        _ => combine::<50>(&rels.round, values),
    }
}

/// The 38 (numerator, denominator) fractions of a row whose cell in column `i` is `c(i)`:
/// fraction `i` is the multiplicity of lookup `i` embedded in the secure field, over the
/// tuple of lookup `i` combined with the elements of its relation.
pub open spec fn row_fraction_spec(rels: RoundRelations, c: spec_fn(int) -> M31) -> Seq<
    (SecureFelt, SecureFelt),
> {
    Seq::new(
        38,
        |i: int|
            (
                felt_of(row_lookup_spec(c)[i].1),
                combine_spec(set_of(rels, row_lookup_spec(c)[i].0), row_lookup_spec(c)[i].2),
            ),
    )
}

/// The 38 (numerator, denominator) logup fractions of one row, in the order the round
/// component emits them: fraction `i` is the multiplicity of lookup `i` of `row_lookups`
/// over its tuple combined with the elements of its relation.
pub fn row_fractions(cols: &Vec<Vec<M31>>, row: usize, rels: &RoundRelations) -> (r: Vec<
    (SecureFelt, SecureFelt),
>)
    requires
        crate::witness::covers_row(cols@, row as int),
        rels.wf(),
    ensures
        r@ == row_fraction_spec(*rels, row_cells(cols@, row as int)),
{
    let ghost c = row_cells(cols@, row as int);
    let lookups = row_lookups(cols, row);
    proof {
        lemma_row_lookups_well_shaped(c);
    }
    let mut fracs: Vec<(SecureFelt, SecureFelt)> = Vec::new();
    for i in 0..N_FRACTIONS
        invariant
            rels.wf(),
            lookups@.len() == N_FRACTIONS,
            entries_view(lookups@) == row_lookup_spec(c),
            crate::lookups::well_shaped(row_lookup_spec(c)),
            fracs@ == row_fraction_spec(*rels, c).take(i as int),
    {
        let entry = &lookups[i];
        assert(entries_view(lookups@)[i as int] == row_lookup_spec(c)[i as int]);
        let den = lookup_denominator(rels, entry.relation, &entry.values);
        fracs.push((secure_of(entry.multiplicity), den));
        assert(fracs@ =~= row_fraction_spec(*rels, c).take(i + 1));
    }
    assert(fracs@ =~= row_fraction_spec(*rels, c));
    fracs
}

/// A row whose first cells are those of `c` emits the lookups `c` emits.
proof fn lemma_cells_agree(cols: Seq<Vec<M31>>, r: int, c: spec_fn(int) -> M31)
    requires
        forall|i: int| 0 <= i < N_TRACE_COLUMNS ==> #[trigger] cols[i]@[r] == c(i),
    ensures
        row_lookup_spec(row_cells(cols, r)) == row_lookup_spec(c),
{
    let here = row_cells(cols, r);
    assert forall|i: int| 0 <= i < N_TRACE_COLUMNS implies #[trigger] here(i) == c(i) by {
        assert(cols[i]@[r] == c(i));
    }
    lemma_row_lookups_agree(here, c);
}

/// Fraction `i` of a row, by its lookup.
proof fn lemma_fractions_at(rels: RoundRelations, c: spec_fn(int) -> M31, i: int)
    requires
        0 <= i < 38,
    ensures
        row_fraction_spec(rels, c)[i] == (
            felt_of(row_lookup_spec(c)[i].1),
            combine_spec(set_of(rels, row_lookup_spec(c)[i].0), row_lookup_spec(c)[i].2),
        ),
{
}

/// The numerators one and minus one add up to zero in the secure field.
proof fn lemma_unit_numerators_cancel()
    ensures
        felt_add(felt_of(mneg(M31(1))), felt_of(M31(1))) == felt_of(M31(0)),
{
    assert(p() == 0x7fff_ffff);
    assert(mneg(M31(1)) == M31(0x7fff_fffe));
}

fn cm_mul_exec(a: (M31, M31), b: (M31, M31)) -> (r: (M31, M31))
    ensures
        r == cm_mul(a, b),
{
    (a.0.mul(b.0).sub(a.1.mul(b.1)), a.0.mul(b.1).add(a.1.mul(b.0)))
}

impl SecureFelt {
    /// The sum in the secure field.
    pub fn add(self, rhs: SecureFelt) -> (r: SecureFelt)
        ensures
            r == felt_add(self, rhs),
    {
        SecureFelt(self.0.add(rhs.0), self.1.add(rhs.1), self.2.add(rhs.2), self.3.add(rhs.3))
    }

    /// The product in the secure field.
    pub fn mul(self, rhs: SecureFelt) -> (r: SecureFelt)
        ensures
            r == felt_mul(self, rhs),
    {
        let (a, b, c, d) = ((self.0, self.1), (self.2, self.3), (rhs.0, rhs.1), (rhs.2, rhs.3));
        let rb = cm_mul_exec((M31(2), M31(1)), b);
        let ac = cm_mul_exec(a, c);
        let rbd = cm_mul_exec(rb, d);
        let ad = cm_mul_exec(a, d);
        let bc = cm_mul_exec(b, c);
        SecureFelt(ac.0.add(rbd.0), ac.1.add(rbd.1), ad.0.add(bc.0), ad.1.add(bc.1))
    }
}

/// Two fractions `n0 / d0` and `n1 / d1` as one: `(n0 d1 + n1 d0) / (d0 d1)`.
pub open spec fn batch_spec(f0: (SecureFelt, SecureFelt), f1: (SecureFelt, SecureFelt)) -> (
    SecureFelt,
    SecureFelt,
) {
    (felt_add(felt_mul(f0.0, f1.1), felt_mul(f1.0, f0.1)), felt_mul(f0.1, f1.1))
}

/// The logup fractions of a row batched in consecutive pairs, one pair per interaction
/// column: pair `j` is fractions `2j` and `2j + 1` as one.
pub open spec fn batched_spec(fracs: Seq<(SecureFelt, SecureFelt)>) -> Seq<(SecureFelt, SecureFelt)> {
    Seq::new(fracs.len() / 2, |j: int| batch_spec(fracs[2 * j], fracs[2 * j + 1]))
}

/// The row's logup fractions batched in pairs, as the interaction trace holds them.
pub fn row_batched_fractions(cols: &Vec<Vec<M31>>, row: usize, rels: &RoundRelations) -> (r: Vec<
    (SecureFelt, SecureFelt),
>)
    requires
        crate::witness::covers_row(cols@, row as int),
        rels.wf(),
    ensures
        r@ == batched_spec(row_fraction_spec(*rels, row_cells(cols@, row as int))),
        r@.len() == N_FRACTIONS / 2,
{
    let fracs = row_fractions(cols, row, rels);
    let mut out: Vec<(SecureFelt, SecureFelt)> = Vec::new();
    for j in 0..N_FRACTIONS / 2
        invariant
            fracs@.len() == N_FRACTIONS,
            out@ == batched_spec(fracs@).take(j as int),
    {
        let (n0, d0) = fracs[2 * j];
        let (n1, d1) = fracs[2 * j + 1];
        out.push((n0.mul(d1).add(n1.mul(d0)), d0.mul(d1)));
        assert(out@ =~= batched_spec(fracs@).take(j + 1));
    }
    assert(out@ =~= batched_spec(fracs@));
    out
}

/// The round self-relation cancels in the logup sum: within a compression, the round pull
/// fraction of row `r` (numerator minus one) and the round push fraction of row `r + 1`
/// (numerator one) have the same denominator, so they add up to zero. This holds of the
/// trace `build_round_trace_forge` builds, whatever the forgery, and so of the honest one.
pub proof fn lemma_round_fractions_cancel(
    inputs: Seq<CompressionInput>,
    forge_seq: int,
    forge_t: int,
    forge: Forge,
    rels: RoundRelations,
    cols: Seq<Vec<M31>>,
    r: int,
)
    requires
        0 <= r,
        r % 64 < 63,
        forall|c: int|
            0 <= c < N_TRACE_COLUMNS ==> #[trigger] cols[c]@[r] == forged_cell(
                inputs,
                forge_seq,
                forge_t,
                forge,
                r,
                c,
            ),
        forall|c: int|
            0 <= c < N_TRACE_COLUMNS ==> #[trigger] cols[c]@[r + 1] == forged_cell(
                inputs,
                forge_seq,
                forge_t,
                forge,
                r + 1,
                c,
            ),
    ensures
        ({
            let pull = row_fraction_spec(rels, row_cells(cols, r))[37];
            let push = row_fraction_spec(rels, row_cells(cols, r + 1))[36];
            &&& pull.1 == push.1
            &&& pull.0 == felt_of(mneg(M31(1)))
            &&& push.0 == felt_of(M31(1))
            &&& felt_add(pull.0, push.0) == felt_of(M31(0))
        }),
{
    let here = row_cells(cols, r);
    let next = row_cells(cols, r + 1);
    let th = trace_cells(inputs, forge_seq, forge_t, forge, r);
    let tn = trace_cells(inputs, forge_seq, forge_t, forge, r + 1);
    lemma_cells_agree(cols, r, th);
    lemma_cells_agree(cols, r + 1, tn);
    lemma_round_relation_balances(inputs, forge_seq, forge_t, forge, r);
    lemma_fractions_at(rels, here, 37);
    lemma_fractions_at(rels, next, 36);
    lemma_unit_numerators_cancel();
}

} // verus!
