//! From the expression trees a constraint evaluator records to the `Node` IR.
//!
//! A recorded base expression reads columns of any interaction and offset, constants,
//! named intermediates (`Param`, here by position in the intermediate list) and the field
//! operations including inverses. Conversion accepts exactly the single-row fragment:
//! columns of interaction 1 at offset 0 below `N_TRACE_COLUMNS`, canonical constants,
//! intermediates inlined to a nesting depth below `MAX_DEPTH`, and no inverse. What it
//! returns computes the recorded expression modulo p (`lemma_convert_value`).
//!
//! Secure-field expressions are decoded by shape: a constraint or a multiplicity is a
//! base expression lifted as `SecureCol([b, 0, 0, 0])` (negated for a pulled
//! multiplicity), and a lookup denominator is the formal combination
//! `fold(0, Add(acc, Mul(alpha_i, v_i))) - z` of one relation's lookup elements.
use crate::relations::{relation_size, Relation};
use crate::symbolic::{node_evaluable, node_value, ConstraintDump, Node, RelationUseDump, VariantDump, P};
use crate::witness::N_TRACE_COLUMNS;
use vstd::prelude::*;

verus! {

/// The nesting depth of intermediates at which inlining stops.
pub const MAX_DEPTH: usize = 64;

/// A base-field expression as the evaluator records it.
#[derive(Debug)]
pub enum RawExpr {
    Col { interaction: usize, idx: usize, offset: isize },
    Const { val: u32 },
    /// The base intermediate at this position of the intermediate list.
    Param { id: usize },
    Add { lhs: Box<RawExpr>, rhs: Box<RawExpr> },
    Sub { lhs: Box<RawExpr>, rhs: Box<RawExpr> },
    Mul { lhs: Box<RawExpr>, rhs: Box<RawExpr> },
    Neg { arg: Box<RawExpr> },
    Inv { arg: Box<RawExpr> },
}

/// Why a recorded expression is outside the single-row fragment.
#[derive(Clone, Copy, Debug, PartialEq, Eq, Structural)]
pub enum ConvertError {
    /// Intermediates nest `MAX_DEPTH` deep.
    DepthExceeded,
    /// A column of another interaction, another row, or past the trace width.
    ColumnOutsideRow { interaction: usize, idx: usize, offset: isize },
    /// A constant that is not a canonical residue.
    NonCanonicalConst { val: u32 },
    /// A reference to no intermediate of the list.
    UnresolvedParam { id: usize },
    /// A field inverse.
    Inverse,
}

/// Converts both operands; the first error wins.
pub open spec fn both(
    a: Result<Node, ConvertError>,
    b: Result<Node, ConvertError>,
) -> Result<(Node, Node), ConvertError> {
    match a {
        Err(e) => Err(e),
        Ok(x) => match b {
            Err(e) => Err(e),
            Ok(y) => Ok((x, y)),
        },
    }
}

/// The conversion of `e` found at intermediate depth `depth`, `defs` being the
/// intermediate list: the same tree with intermediates inlined, or the first violation in
/// evaluation order (operands left to right).
pub open spec fn convert_spec(e: RawExpr, defs: Seq<RawExpr>, depth: nat) -> Result<
    Node,
    ConvertError,
>
    decreases 64 - depth, e,
{
    if depth >= MAX_DEPTH {
        Err(ConvertError::DepthExceeded)
    } else {
        match e {
            RawExpr::Col { interaction, idx, offset } => {
                if interaction == 1 && offset == 0 && idx < N_TRACE_COLUMNS {
                    Ok(Node::Col { interaction, idx, offset })
                } else {
                    Err(ConvertError::ColumnOutsideRow { interaction, idx, offset })
                }
            },
            RawExpr::Const { val } => {
                if val < P {
                    Ok(Node::Const { val })
                } else {
                    Err(ConvertError::NonCanonicalConst { val })
                }
            },
            RawExpr::Param { id } => {
                if id < defs.len() {
                    convert_spec(defs[id as int], defs, depth + 1)
                } else {
                    Err(ConvertError::UnresolvedParam { id })
                }
            },
            RawExpr::Add { lhs, rhs } => match both(
                convert_spec(*lhs, defs, depth),
                convert_spec(*rhs, defs, depth),
            ) {
                Ok((a, b)) => Ok(Node::Add { lhs: Box::new(a), rhs: Box::new(b) }),
                Err(x) => Err(x),
            },
            RawExpr::Sub { lhs, rhs } => match both(
                convert_spec(*lhs, defs, depth),
                convert_spec(*rhs, defs, depth),
            ) {
                Ok((a, b)) => Ok(Node::Sub { lhs: Box::new(a), rhs: Box::new(b) }),
                Err(x) => Err(x),
            },
            RawExpr::Mul { lhs, rhs } => match both(
                convert_spec(*lhs, defs, depth),
                convert_spec(*rhs, defs, depth),
            ) {
                Ok((a, b)) => Ok(Node::Mul { lhs: Box::new(a), rhs: Box::new(b) }),
                Err(x) => Err(x),
            },
            RawExpr::Neg { arg } => match convert_spec(*arg, defs, depth) {
                Ok(a) => Ok(Node::Neg { arg: Box::new(a) }),
                Err(x) => Err(x),
            },
            RawExpr::Inv { .. } => Err(ConvertError::Inverse),
        }
    }
}

/// The recorded expression lies in the single-row fragment.
pub open spec fn convertible(e: RawExpr, defs: Seq<RawExpr>, depth: nat) -> bool {
    convert_spec(e, defs, depth) is Ok
}

/// The integer a recorded expression computes at one row, without reduction, with
/// intermediates expanded from `defs` (an inverse, which conversion refuses, counts 0).
pub open spec fn raw_value(e: RawExpr, defs: Seq<RawExpr>, depth: nat, cols: Seq<u32>) -> int
    decreases 64 - depth, e,
{
    if depth >= MAX_DEPTH {
        0
    } else {
        match e {
            RawExpr::Col { idx, .. } => cols[idx as int] as int,
            RawExpr::Const { val } => val as int,
            RawExpr::Param { id } => {
                if id < defs.len() {
                    raw_value(defs[id as int], defs, depth + 1, cols)
                } else {
                    0
                }
            },
            RawExpr::Add { lhs, rhs } => raw_value(*lhs, defs, depth, cols) + raw_value(
                *rhs,
                defs,
                depth,
                cols,
            ),
            RawExpr::Sub { lhs, rhs } => raw_value(*lhs, defs, depth, cols) - raw_value(
                *rhs,
                defs,
                depth,
                cols,
            ),
            RawExpr::Mul { lhs, rhs } => raw_value(*lhs, defs, depth, cols) * raw_value(
                *rhs,
                defs,
                depth,
                cols,
            ),
            RawExpr::Neg { arg } => 0 - raw_value(*arg, defs, depth, cols),
            RawExpr::Inv { .. } => 0,
        }
    }
}

/// Every column a tree reads is of interaction 1, at offset 0 and below the trace width.
pub open spec fn single_row(n: Node) -> bool
    decreases n,
{
    match n {
        Node::Col { interaction, idx, offset } => interaction == 1 && offset == 0 && idx
            < N_TRACE_COLUMNS,
        Node::Const { val } => val < P,
        Node::Add { lhs, rhs } => single_row(*lhs) && single_row(*rhs),
        Node::Sub { lhs, rhs } => single_row(*lhs) && single_row(*rhs),
        Node::Mul { lhs, rhs } => single_row(*lhs) && single_row(*rhs),
        Node::Neg { arg } => single_row(*arg),
    }
}

/// A row of the trace: its cells, each a canonical residue.
pub open spec fn canonical_row(cols: Seq<u32>) -> bool {
    cols.len() == N_TRACE_COLUMNS && forall|i: int| 0 <= i < cols.len() ==> #[trigger] cols[i] < P
}

/// What conversion returns reads the row only, evaluates on every row, and computes the
/// recorded expression modulo p.
pub proof fn lemma_convert_value(e: RawExpr, defs: Seq<RawExpr>, depth: nat, cols: Seq<u32>)
    requires
        convertible(e, defs, depth),
        canonical_row(cols),
    ensures
        single_row(convert_spec(e, defs, depth)->Ok_0),
        node_evaluable(convert_spec(e, defs, depth)->Ok_0, cols),
        node_value(convert_spec(e, defs, depth)->Ok_0, cols) == raw_value(e, defs, depth, cols) % (
        P as int),
    decreases 64 - depth, e,
{
    let m = P as int;
    match e {
        RawExpr::Col { idx, .. } => {
            vstd::arithmetic::div_mod::lemma_small_mod(cols[idx as int] as nat, m as nat);
        },
        RawExpr::Const { val } => {
            vstd::arithmetic::div_mod::lemma_small_mod(val as nat, m as nat);
        },
        RawExpr::Param { id } => {
            lemma_convert_value(defs[id as int], defs, depth + 1, cols);
        },
        RawExpr::Add { lhs, rhs } => {
            lemma_convert_value(*lhs, defs, depth, cols);
            lemma_convert_value(*rhs, defs, depth, cols);
            vstd::arithmetic::div_mod::lemma_add_mod_noop(
                raw_value(*lhs, defs, depth, cols),
                raw_value(*rhs, defs, depth, cols),
                m,
            );
        },
        RawExpr::Sub { lhs, rhs } => {
            lemma_convert_value(*lhs, defs, depth, cols);
            lemma_convert_value(*rhs, defs, depth, cols);
            vstd::arithmetic::div_mod::lemma_sub_mod_noop(
                raw_value(*lhs, defs, depth, cols),
                raw_value(*rhs, defs, depth, cols),
                m,
            );
        },
        RawExpr::Mul { lhs, rhs } => {
            lemma_convert_value(*lhs, defs, depth, cols);
            lemma_convert_value(*rhs, defs, depth, cols);
            vstd::arithmetic::div_mod::lemma_mul_mod_noop(
                raw_value(*lhs, defs, depth, cols),
                raw_value(*rhs, defs, depth, cols),
                m,
            );
        },
        RawExpr::Neg { arg } => {
            lemma_convert_value(*arg, defs, depth, cols);
            vstd::arithmetic::div_mod::lemma_sub_mod_noop(0, raw_value(*arg, defs, depth, cols), m);
            vstd::arithmetic::div_mod::lemma_small_mod(0, m as nat);
        },
        RawExpr::Inv { .. } => {},
    }
}

/// The checked form of `convert`: on an expression outside the single-row fragment it
/// returns the first violation instead of requiring its absence.
pub fn try_convert(expr: &RawExpr, defs: &Vec<RawExpr>, depth: usize) -> (r: Result<Node, ConvertError>)
    ensures
        r == convert_spec(*expr, defs@, depth as nat),
        r is Ok <==> convertible(*expr, defs@, depth as nat),
        r matches Ok(n) ==> single_row(n) && forall|cols: Seq<u32>|
            #[trigger] canonical_row(cols) ==> node_value(n, cols) == raw_value(
                *expr,
                defs@,
                depth as nat,
                cols,
            ) % (P as int),
{
    let r = convert_rec(expr, defs, depth);
    proof {
        if r is Ok {
            assert forall|cols: Seq<u32>| #[trigger] canonical_row(cols) implies node_value(
                r->Ok_0,
                cols,
            ) == raw_value(*expr, defs@, depth as nat, cols) % (P as int) by {
                lemma_convert_value(*expr, defs@, depth as nat, cols);
            }
            if !single_row(r->Ok_0) {
                let cols = Seq::new(N_TRACE_COLUMNS as nat, |i: int| 0u32);
                lemma_convert_value(*expr, defs@, depth as nat, cols);
            }
        }
    }
    r
}

fn convert_rec(expr: &RawExpr, defs: &Vec<RawExpr>, depth: usize) -> (r: Result<Node, ConvertError>)
    ensures
        r == convert_spec(*expr, defs@, depth as nat),
    decreases 64 - depth, expr,
{
    if depth >= MAX_DEPTH {
        return Err(ConvertError::DepthExceeded);
    }
    match expr {
        RawExpr::Col { interaction, idx, offset } => {
            if *interaction == 1 && *offset == 0 && *idx < N_TRACE_COLUMNS {
                Ok(Node::Col { interaction: *interaction, idx: *idx, offset: *offset })
            } else {
                Err(
                    ConvertError::ColumnOutsideRow {
                        interaction: *interaction,
                        idx: *idx,
                        offset: *offset,
                    },
                )
            }
        },
        RawExpr::Const { val } => {
            if (*val as u64) < P {
                Ok(Node::Const { val: *val })
            } else {
                Err(ConvertError::NonCanonicalConst { val: *val })
            }
        },
        RawExpr::Param { id } => {
            if *id < defs.len() {
                convert_rec(&defs[*id], defs, depth + 1)
            } else {
                Err(ConvertError::UnresolvedParam { id: *id })
            }
        },
        RawExpr::Add { lhs, rhs } => {
            let a = match convert_rec(lhs, defs, depth) {
                Ok(a) => a,
                Err(x) => return Err(x),
            };
            let b = match convert_rec(rhs, defs, depth) {
                Ok(b) => b,
                Err(x) => return Err(x),
            };
            Ok(Node::Add { lhs: Box::new(a), rhs: Box::new(b) })
        },
        RawExpr::Sub { lhs, rhs } => {
            let a = match convert_rec(lhs, defs, depth) {
                Ok(a) => a,
                Err(x) => return Err(x),
            };
            let b = match convert_rec(rhs, defs, depth) {
                Ok(b) => b,
                Err(x) => return Err(x),
            };
            Ok(Node::Sub { lhs: Box::new(a), rhs: Box::new(b) })
        },
        RawExpr::Mul { lhs, rhs } => {
            let a = match convert_rec(lhs, defs, depth) {
                Ok(a) => a,
                Err(x) => return Err(x),
            };
            let b = match convert_rec(rhs, defs, depth) {
                Ok(b) => b,
                Err(x) => return Err(x),
            };
            Ok(Node::Mul { lhs: Box::new(a), rhs: Box::new(b) })
        },
        RawExpr::Neg { arg } => match convert_rec(arg, defs, depth) {
            Ok(a) => Ok(Node::Neg { arg: Box::new(a) }),
            Err(x) => Err(x),
        },
        RawExpr::Inv { .. } => Err(ConvertError::Inverse),
    }
}

/// Which of a relation's lookup elements a parameter names.
#[derive(Clone, Copy, Debug, PartialEq, Eq, Structural)]
pub enum ExtParam {
    Z,
    Alpha { i: usize },
}

/// A secure-field expression as the evaluator records it, with its parameters resolved:
/// lookup elements by relation, extension intermediates by position in their list.
#[derive(Debug)]
pub enum RawExtExpr {
    SecureCol { c0: Box<RawExpr>, c1: Box<RawExpr>, c2: Box<RawExpr>, c3: Box<RawExpr> },
    Lookup { relation: Relation, which: ExtParam },
    /// The extension intermediate at this position of the extension intermediate list.
    Def { id: usize },
    Add { lhs: Box<RawExtExpr>, rhs: Box<RawExtExpr> },
    Sub { lhs: Box<RawExtExpr>, rhs: Box<RawExtExpr> },
    Mul { lhs: Box<RawExtExpr>, rhs: Box<RawExtExpr> },
    Neg { arg: Box<RawExtExpr> },
    /// Any other shape: a constant, an inverse, a parameter of no lookup relation.
    Other,
}

/// Why a recorded secure-field expression does not decode.
#[derive(Clone, Copy, Debug, PartialEq, Eq, Structural)]
pub enum DecodeError {
    /// The base expression inside is outside the single-row fragment.
    Convert { err: ConvertError },
    /// Not a base expression lifted as `SecureCol([b, 0, 0, 0])`.
    NotBase,
    /// A multiplicity neither lifted nor a negated lift.
    BadMultiplicity,
    /// A denominator that names no extension intermediate.
    DenominatorNotDef,
    /// A reference to no extension intermediate of the list.
    UnresolvedDef { id: usize },
    /// A denominator that is not the formal combination of one relation's elements.
    NotCombine,
    /// Term `index` of a combination is not weighted by that relation's `alpha_index`.
    AlphaMismatch { index: usize },
    /// A combination with another number of values than its relation's tuple width.
    WidthMismatch { relation: Relation, declared: usize, found: usize },
}

/// The constant zero.
pub open spec fn is_zero(e: RawExpr) -> bool {
    e matches RawExpr::Const { val } && val == 0
}

/// A lifted base expression `SecureCol([b, 0, 0, 0])`, decoded as `b` converted.
pub open spec fn decode_base_spec(e: RawExtExpr, defs: Seq<RawExpr>) -> Result<Node, DecodeError> {
    match e {
        RawExtExpr::SecureCol { c0, c1, c2, c3 } => {
            if is_zero(*c1) && is_zero(*c2) && is_zero(*c3) {
                match convert_spec(*c0, defs, 0) {
                    Ok(n) => Ok(n),
                    Err(err) => Err(DecodeError::Convert { err }),
                }
            } else {
                Err(DecodeError::NotBase)
            }
        },
        _ => Err(DecodeError::NotBase),
    }
}

/// A multiplicity: a lift is pushed (+1), a negated lift pulled (-1).
pub open spec fn decode_multiplicity_spec(e: RawExtExpr, defs: Seq<RawExpr>) -> Result<
    (i8, Node),
    DecodeError,
> {
    match e {
        RawExtExpr::SecureCol { .. } => match decode_base_spec(e, defs) {
            Ok(n) => Ok((1i8, n)),
            Err(x) => Err(x),
        },
        RawExtExpr::Neg { arg } => match decode_base_spec(*arg, defs) {
            Ok(n) => Ok((-1i8, n)),
            Err(x) => Err(x),
        },
        _ => Err(DecodeError::BadMultiplicity),
    }
}

/// Term `i` of a combination of `relation`'s elements: `alpha_i` times a lifted value.
pub open spec fn decode_term_spec(t: RawExtExpr, relation: Relation, i: int, defs: Seq<RawExpr>) -> Result<
    Node,
    DecodeError,
> {
    match t {
        RawExtExpr::Mul { lhs, rhs } => {
            if *lhs == (RawExtExpr::Lookup { relation, which: ExtParam::Alpha { i: i as usize } }) {
                decode_base_spec(*rhs, defs)
            } else {
                Err(DecodeError::AlphaMismatch { index: i as usize })
            }
        },
        _ => Err(DecodeError::NotCombine),
    }
}

/// The values of a fold `Add(..Add(Add(0, t_0), t_1).., t_n-1)` over a zero seed, in
/// term order.
pub open spec fn decode_fold_spec(e: RawExtExpr, relation: Relation, defs: Seq<RawExpr>) -> Result<
    Seq<Node>,
    DecodeError,
>
    decreases e,
{
    match e {
        RawExtExpr::Add { lhs, rhs } => match decode_fold_spec(*lhs, relation, defs) {
            Err(x) => Err(x),
            Ok(vs) => match decode_term_spec(*rhs, relation, vs.len() as int, defs) {
                Ok(v) => Ok(vs.push(v)),
                Err(x) => Err(x),
            },
        },
        RawExtExpr::SecureCol { c0, c1, c2, c3 } => {
            if is_zero(*c0) && is_zero(*c1) && is_zero(*c2) && is_zero(*c3) {
                Ok(Seq::empty())
            } else {
                Err(DecodeError::NotCombine)
            }
        },
        _ => Err(DecodeError::NotCombine),
    }
}

/// A denominator `fold - z`: the relation whose `z` it subtracts, and the values of the
/// fold, each weighted by the matching power of that relation's alpha.
pub open spec fn decode_combine_spec(def: RawExtExpr, defs: Seq<RawExpr>) -> Result<
    (Relation, Seq<Node>),
    DecodeError,
> {
    match def {
        RawExtExpr::Sub { lhs, rhs } => match *rhs {
            RawExtExpr::Lookup { relation, which: ExtParam::Z } => match decode_fold_spec(
                *lhs,
                relation,
                defs,
            ) {
                Ok(vs) => Ok((relation, vs)),
                Err(x) => Err(x),
            },
            _ => Err(DecodeError::NotCombine),
        },
        _ => Err(DecodeError::NotCombine),
    }
}

/// `e` is the lift `SecureCol([b, 0, 0, 0])` of a base expression `b` that converts to `n`.
pub open spec fn lift_of(e: RawExtExpr, defs: Seq<RawExpr>, n: Node) -> bool {
    match e {
        RawExtExpr::SecureCol { c0, c1, c2, c3 } => {
            &&& is_zero(*c1) && is_zero(*c2) && is_zero(*c3)
            &&& convert_spec(*c0, defs, 0) == Ok::<Node, ConvertError>(n)
        },
        _ => false,
    }
}

/// `e` is a pushed multiplicity (a lift, sign +1) or a pulled one (a negated lift, sign
/// -1) of a base expression converting to `n`.
pub open spec fn multiplicity_of(e: RawExtExpr, defs: Seq<RawExpr>, sign: i8, n: Node) -> bool {
    ||| sign == 1 && lift_of(e, defs, n)
    ||| sign == -1 && match e {
        RawExtExpr::Neg { arg } => lift_of(*arg, defs, n),
        _ => false,
    }
}

/// A recorded secure expression decodes to the base tree `n` exactly when it lifts a base
/// expression converting to `n` with three zero coordinates.
pub proof fn lemma_base_decodes_lifts(e: RawExtExpr, defs: Seq<RawExpr>, n: Node)
    ensures
        decode_base_spec(e, defs) == Ok::<Node, DecodeError>(n) <==> lift_of(e, defs, n),
{
}

/// A numerator decodes to `(sign, n)` exactly when it is a lift (sign +1) or a negated
/// lift (sign -1) of a base expression converting to `n`.
pub proof fn lemma_multiplicity_decodes_sign(e: RawExtExpr, defs: Seq<RawExpr>, sign: i8, n: Node)
    ensures
        decode_multiplicity_spec(e, defs) == Ok::<(i8, Node), DecodeError>((sign, n))
            <==> multiplicity_of(e, defs, sign, n),
{
    match e {
        RawExtExpr::Neg { arg } => {
            lemma_base_decodes_lifts(*arg, defs, n);
        },
        _ => {
            lemma_base_decodes_lifts(e, defs, n);
        },
    }
}

/// The terms of a left-nested sum `Add(..Add(Add(seed, t_0), t_1).., t_n-1)`, first term
/// first.
pub open spec fn fold_terms(e: RawExtExpr) -> Seq<RawExtExpr>
    decreases e,
{
    match e {
        RawExtExpr::Add { lhs, rhs } => fold_terms(*lhs).push(*rhs),
        _ => Seq::empty(),
    }
}

/// The innermost summand of a left-nested sum: what the first term is added to.
pub open spec fn fold_seed(e: RawExtExpr) -> RawExtExpr
    decreases e,
{
    match e {
        RawExtExpr::Add { lhs, .. } => fold_seed(*lhs),
        _ => e,
    }
}

/// The secure-field zero `SecureCol([0, 0, 0, 0])`.
pub open spec fn is_zero_secure(e: RawExtExpr) -> bool {
    match e {
        RawExtExpr::SecureCol { c0, c1, c2, c3 } => is_zero(*c0) && is_zero(*c1) && is_zero(*c2)
            && is_zero(*c3),
        _ => false,
    }
}

/// `t` is `alpha_k` of `relation` times the lift `SecureCol([b, 0, 0, 0])` of a base
/// expression `b` that converts to `v`.
pub open spec fn weighted_term(t: RawExtExpr, relation: Relation, k: int, defs: Seq<RawExpr>, v: Node) -> bool {
    match t {
        RawExtExpr::Mul { lhs, rhs } => {
            &&& *lhs == (RawExtExpr::Lookup { relation, which: ExtParam::Alpha { i: k as usize } })
            &&& match *rhs {
                RawExtExpr::SecureCol { c0, c1, c2, c3 } => {
                    &&& is_zero(*c1) && is_zero(*c2) && is_zero(*c3)
                    &&& convert_spec(*c0, defs, 0) == Ok::<Node, ConvertError>(v)
                },
                _ => false,
            }
        },
        _ => false,
    }
}

/// `e` is a sum over a zero seed whose `k`-th term is `alpha_k` of `relation` times the
/// lift of a base expression converting to `vs[k]`.
pub open spec fn weighted_fold(e: RawExtExpr, relation: Relation, defs: Seq<RawExpr>, vs: Seq<Node>) -> bool {
    &&& is_zero_secure(fold_seed(e))
    &&& fold_terms(e).len() == vs.len()
    &&& forall|k: int|
        0 <= k < vs.len() ==> weighted_term(#[trigger] fold_terms(e)[k], relation, k, defs, vs[k])
}

/// `def` is the formal combination of `relation`'s lookup elements with the values `vs`:
/// `(sum over k of alpha_k * lift(b_k)) - z` over a zero seed, the `k`-th term weighted by
/// `alpha_k` and its base expression converting to `vs[k]`.
pub open spec fn combination_of(def: RawExtExpr, defs: Seq<RawExpr>, relation: Relation, vs: Seq<Node>) -> bool {
    match def {
        RawExtExpr::Sub { lhs, rhs } => {
            &&& *rhs == (RawExtExpr::Lookup { relation, which: ExtParam::Z })
            &&& weighted_fold(*lhs, relation, defs, vs)
        },
        _ => false,
    }
}

proof fn lemma_fold_decodes(e: RawExtExpr, relation: Relation, defs: Seq<RawExpr>, vs: Seq<Node>)
    ensures
        decode_fold_spec(e, relation, defs) is Ok ==> weighted_fold(
            e,
            relation,
            defs,
            decode_fold_spec(e, relation, defs)->Ok_0,
        ),
        weighted_fold(e, relation, defs, vs) ==> decode_fold_spec(e, relation, defs) == Ok::<
            Seq<Node>,
            DecodeError,
        >(vs),
    decreases e,
{
    match e {
        RawExtExpr::Add { lhs, rhs } => {
            let prev = fold_terms(*lhs);
            let ws = if vs.len() > 0 {
                vs.drop_last()
            } else {
                vs
            };
            lemma_fold_decodes(*lhs, relation, defs, ws);
            if decode_fold_spec(e, relation, defs) is Ok {
                let got = decode_fold_spec(e, relation, defs)->Ok_0;
                let inner = decode_fold_spec(*lhs, relation, defs)->Ok_0;
                assert(got == inner.push(got.last()));
                assert forall|k: int|
                    0 <= k < got.len() implies weighted_term(#[trigger] fold_terms(e)[k], relation, k, defs, got[k]) by {
                    if k < inner.len() {
                        assert(fold_terms(e)[k] == prev[k]);
                        assert(got[k] == inner[k]);
                    }
                }
            }
            if weighted_fold(e, relation, defs, vs) {
                assert forall|k: int|
                    0 <= k < ws.len() implies weighted_term(#[trigger] prev[k], relation, k, defs, ws[k]) by {
                    assert(fold_terms(e)[k] == prev[k]);
                    assert(weighted_term(fold_terms(e)[k], relation, k, defs, vs[k]));
                }
                assert(weighted_fold(*lhs, relation, defs, ws));
                assert(weighted_term(fold_terms(e)[ws.len() as int], relation, ws.len() as int, defs, vs[ws.len() as int]));
                assert(vs =~= ws.push(vs[ws.len() as int]));
            }
        },
        RawExtExpr::SecureCol { .. } => {
            if weighted_fold(e, relation, defs, vs) {
                assert(vs =~= Seq::<Node>::empty());
            }
        },
        _ => {},
    }
}

/// A denominator decodes to `(relation, vs)` exactly when it is the formal combination of
/// `relation`'s lookup elements with the values `vs`: the `k`-th decoded value is the one
/// weighted by `alpha_k`, and every such combination decodes.
pub proof fn lemma_combine_decodes_in_alpha_order(
    def: RawExtExpr,
    defs: Seq<RawExpr>,
    relation: Relation,
    vs: Seq<Node>,
)
    ensures
        decode_combine_spec(def, defs) == Ok::<(Relation, Seq<Node>), DecodeError>((relation, vs))
            <==> combination_of(def, defs, relation, vs),
{
    match def {
        RawExtExpr::Sub { lhs, rhs } => {
            lemma_fold_decodes(*lhs, relation, defs, vs);
        },
        _ => {},
    }
}

/// A relation use with numerator `num` and denominator `den`: its sign, multiplicity,
/// relation and values, the denominator naming an extension intermediate that combines
/// as many values as the relation's tuple holds.
pub open spec fn decode_use_spec(
    num: RawExtExpr,
    den: RawExtExpr,
    defs: Seq<RawExpr>,
    ext_defs: Seq<RawExtExpr>,
) -> Result<(i8, Node, Relation, Seq<Node>), DecodeError> {
    match decode_multiplicity_spec(num, defs) {
        Err(x) => Err(x),
        Ok((sign, mult)) => match den {
            RawExtExpr::Def { id } => {
                if id < ext_defs.len() {
                    match decode_combine_spec(ext_defs[id as int], defs) {
                        Err(x) => Err(x),
                        Ok((rel, vs)) => {
                            if vs.len() == relation_size(rel) {
                                Ok((sign, mult, rel, vs))
                            } else {
                                Err(
                                    DecodeError::WidthMismatch {
                                        relation: rel,
                                        declared: relation_size(rel),
                                        found: vs.len() as usize,
                                    },
                                )
                            }
                        },
                    }
                } else {
                    Err(DecodeError::UnresolvedDef { id })
                }
            },
            _ => Err(DecodeError::DenominatorNotDef),
        },
    }
}

fn is_zero_exec(e: &RawExpr) -> (r: bool)
    ensures
        r == is_zero(*e),
{
    match e {
        RawExpr::Const { val } => *val == 0,
        _ => false,
    }
}

/// The checked form of `decode_base`: an `Err` on any other shape.
pub fn try_decode_base(e: &RawExtExpr, defs: &Vec<RawExpr>) -> (r: Result<Node, DecodeError>)
    ensures
        r == decode_base_spec(*e, defs@),
{
    match e {
        RawExtExpr::SecureCol { c0, c1, c2, c3 } => {
            if is_zero_exec(c1) && is_zero_exec(c2) && is_zero_exec(c3) {
                match try_convert(c0, defs, 0) {
                    Ok(n) => Ok(n),
                    Err(err) => Err(DecodeError::Convert { err }),
                }
            } else {
                Err(DecodeError::NotBase)
            }
        },
        _ => Err(DecodeError::NotBase),
    }
}

/// The checked form of `decode_multiplicity`: an `Err` on any other shape.
pub fn try_decode_multiplicity(e: &RawExtExpr, defs: &Vec<RawExpr>) -> (r: Result<(i8, Node), DecodeError>)
    ensures
        r == decode_multiplicity_spec(*e, defs@),
{
    match e {
        RawExtExpr::SecureCol { .. } => match try_decode_base(e, defs) {
            Ok(n) => Ok((1i8, n)),
            Err(x) => Err(x),
        },
        RawExtExpr::Neg { arg } => match try_decode_base(arg, defs) {
            Ok(n) => Ok((-1i8, n)),
            Err(x) => Err(x),
        },
        _ => Err(DecodeError::BadMultiplicity),
    }
}

fn decode_term(t: &RawExtExpr, relation: Relation, i: usize, defs: &Vec<RawExpr>) -> (r: Result<
    Node,
    DecodeError,
>)
    ensures
        r == decode_term_spec(*t, relation, i as int, defs@),
{
    match t {
        RawExtExpr::Mul { lhs, rhs } => {
            let weighted = match &**lhs {
                RawExtExpr::Lookup { relation: r, which: ExtParam::Alpha { i: j } } => *r == relation
                    && *j == i,
                _ => false,
            };
            if weighted {
                try_decode_base(rhs, defs)
            } else {
                Err(DecodeError::AlphaMismatch { index: i })
            }
        },
        _ => Err(DecodeError::NotCombine),
    }
}

/// The exec result holds the values the spec result holds, or the same error.
pub open spec fn same_values(r: Result<Vec<Node>, DecodeError>, s: Result<Seq<Node>, DecodeError>) -> bool {
    match r {
        Ok(v) => s matches Ok(w) && v@ == w,
        Err(x) => s == Err::<Seq<Node>, DecodeError>(x),
    }
}

fn decode_fold(e: &RawExtExpr, relation: Relation, defs: &Vec<RawExpr>) -> (r: Result<
    Vec<Node>,
    DecodeError,
>)
    ensures
        same_values(r, decode_fold_spec(*e, relation, defs@)),
    decreases e,
{
    match e {
        RawExtExpr::Add { lhs, rhs } => {
            let mut vs = match decode_fold(lhs, relation, defs) {
                Ok(vs) => vs,
                Err(x) => return Err(x),
            };
            let v = match decode_term(rhs, relation, vs.len(), defs) {
                Ok(v) => v,
                Err(x) => return Err(x),
            };
            vs.push(v);
            Ok(vs)
        },
        RawExtExpr::SecureCol { c0, c1, c2, c3 } => {
            if is_zero_exec(c0) && is_zero_exec(c1) && is_zero_exec(c2) && is_zero_exec(c3) {
                Ok(Vec::new())
            } else {
                Err(DecodeError::NotCombine)
            }
        },
        _ => Err(DecodeError::NotCombine),
    }
}

/// The checked form of `decode_combine_formal`: on any other shape it returns the first
/// violation instead of requiring its absence.
pub fn try_decode_combine_formal(def: &RawExtExpr, defs: &Vec<RawExpr>) -> (r: Result<
    (Relation, Vec<Node>),
    DecodeError,
>)
    ensures
        match r {
            Ok((rel, vs)) => decode_combine_spec(*def, defs@) == Ok::<(Relation, Seq<Node>), DecodeError>((rel, vs@)),
            Err(x) => decode_combine_spec(*def, defs@) == Err::<(Relation, Seq<Node>), DecodeError>(x),
        },
        r matches Ok((rel, vs)) ==> combination_of(*def, defs@, rel, vs@),
        r is Err ==> forall|rel: Relation, vs: Seq<Node>| !#[trigger] combination_of(*def, defs@, rel, vs),
{
    let r = try_decode_combine_formal_in_order(def, defs);
    proof {
        if r is Ok {
            lemma_combine_decodes_in_alpha_order(*def, defs@, r->Ok_0.0, r->Ok_0.1@);
        } else {
            assert forall|rel: Relation, vs: Seq<Node>| !#[trigger] combination_of(*def, defs@, rel, vs) by {
                lemma_combine_decodes_in_alpha_order(*def, defs@, rel, vs);
            }
        }
    }
    r
}

fn try_decode_combine_formal_in_order(def: &RawExtExpr, defs: &Vec<RawExpr>) -> (r: Result<
    (Relation, Vec<Node>),
    DecodeError,
>)
    ensures
        match r {
            Ok((rel, vs)) => decode_combine_spec(*def, defs@) == Ok::<(Relation, Seq<Node>), DecodeError>((rel, vs@)),
            Err(x) => decode_combine_spec(*def, defs@) == Err::<(Relation, Seq<Node>), DecodeError>(x),
        },
{
    match def {
        RawExtExpr::Sub { lhs, rhs } => match &**rhs {
            RawExtExpr::Lookup { relation, which: ExtParam::Z } => match decode_fold(lhs, *relation, defs) {
                Ok(vs) => Ok((*relation, vs)),
                Err(x) => Err(x),
            },
            _ => Err(DecodeError::NotCombine),
        },
        _ => Err(DecodeError::NotCombine),
    }
}

/// The dump of a decoded relation use is the spec's decoding.
pub open spec fn use_decoded(u: RelationUseDump, order: int, d: (i8, Node, Relation, Seq<Node>)) -> bool {
    &&& u.order == order
    &&& u.mult_sign == d.0
    &&& u.mult == d.1
    &&& u.relation == d.2
    &&& u.declared_size == relation_size(d.2)
    &&& u.values@ == d.3
}

/// The checked form of `decode_relation_use`: fails exactly where `decode_use_spec` does,
/// with its error.
pub fn try_decode_relation_use(
    order: usize,
    num: &RawExtExpr,
    den: &RawExtExpr,
    defs: &Vec<RawExpr>,
    ext_defs: &Vec<RawExtExpr>,
) -> (r: Result<RelationUseDump, DecodeError>)
    ensures
        match r {
            Ok(u) => decode_use_spec(*num, *den, defs@, ext_defs@) matches Ok(d) && use_decoded(u, order as int, d),
            Err(x) => decode_use_spec(*num, *den, defs@, ext_defs@) == Err::<(i8, Node, Relation, Seq<Node>), DecodeError>(x),
        },
{
    let (mult_sign, mult) = match try_decode_multiplicity(num, defs) {
        Ok(m) => m,
        Err(x) => return Err(x),
    };
    let id = match den {
        RawExtExpr::Def { id } => *id,
        _ => return Err(DecodeError::DenominatorNotDef),
    };
    if id >= ext_defs.len() {
        return Err(DecodeError::UnresolvedDef { id });
    }
    let (relation, values) = match try_decode_combine_formal(&ext_defs[id], defs) {
        Ok(d) => d,
        Err(x) => return Err(x),
    };
    let declared_size = relation.size();
    if values.len() != declared_size {
        return Err(DecodeError::WidthMismatch { relation, declared: declared_size, found: values.len() });
    }
    Ok(RelationUseDump { order, relation, declared_size, mult_sign, mult, values })
}

/// `u` is the decoding of relation use `k` of `fracs`.
pub open spec fn use_at(
    u: RelationUseDump,
    k: int,
    fracs: Seq<(RawExtExpr, RawExtExpr)>,
    defs: Seq<RawExpr>,
    ext_defs: Seq<RawExtExpr>,
) -> bool {
    decode_use_spec(fracs[k].0, fracs[k].1, defs, ext_defs) matches Ok(d) && use_decoded(u, k, d)
}

/// Every constraint and every relation use of a variant decodes.
pub open spec fn variant_decodes(
    cs: Seq<RawExtExpr>,
    fracs: Seq<(RawExtExpr, RawExtExpr)>,
    defs: Seq<RawExpr>,
    ext_defs: Seq<RawExtExpr>,
) -> bool {
    &&& forall|i: int| 0 <= i < cs.len() ==> #[trigger] decode_base_spec(cs[i], defs) is Ok
    &&& forall|k: int|
        0 <= k < fracs.len() ==> #[trigger] decode_use_spec(fracs[k].0, fracs[k].1, defs, ext_defs) is Ok
}

/// `x` is the error of the first constraint, or (all constraints decoding) of the first
/// relation use, that does not decode.
pub open spec fn first_error(
    cs: Seq<RawExtExpr>,
    fracs: Seq<(RawExtExpr, RawExtExpr)>,
    defs: Seq<RawExpr>,
    ext_defs: Seq<RawExtExpr>,
    x: DecodeError,
) -> bool {
    ||| exists|i: int|
        0 <= i < cs.len() && decode_base_spec(cs[i], defs) == Err::<Node, DecodeError>(x) && forall|
            j: int,
        | 0 <= j < i ==> #[trigger] decode_base_spec(cs[j], defs) is Ok
    ||| (forall|i: int| 0 <= i < cs.len() ==> #[trigger] decode_base_spec(cs[i], defs) is Ok)
        && exists|k: int|
        0 <= k < fracs.len() && decode_use_spec(fracs[k].0, fracs[k].1, defs, ext_defs) == Err::<
            (i8, Node, Relation, Seq<Node>),
            DecodeError,
        >(x) && forall|j: int|
            0 <= j < k ==> #[trigger] decode_use_spec(fracs[j].0, fracs[j].1, defs, ext_defs) is Ok
}

/// The checked form of `decode_variant`: fails exactly when a constraint or a relation use
/// does not decode, with the first error.
pub fn try_decode_variant(
    bind_ch_maj_limbs: bool,
    constraints: &Vec<RawExtExpr>,
    fracs: &Vec<(RawExtExpr, RawExtExpr)>,
    defs: &Vec<RawExpr>,
    ext_defs: &Vec<RawExtExpr>,
) -> (r: Result<VariantDump, DecodeError>)
    ensures
        r is Ok <==> variant_decodes(constraints@, fracs@, defs@, ext_defs@),
        r matches Ok(d) ==> {
            &&& d.bind_ch_maj_limbs == bind_ch_maj_limbs
            &&& d.constraints@.len() == constraints@.len()
            &&& forall|i: int|
                0 <= i < constraints@.len() ==> (#[trigger] d.constraints@[i]).index == i
                    && decode_base_spec(constraints@[i], defs@) == Ok::<Node, DecodeError>(
                    d.constraints@[i].expr,
                )
            &&& d.relation_uses@.len() == fracs@.len()
            &&& forall|k: int|
                0 <= k < fracs@.len() ==> use_at(#[trigger] d.relation_uses@[k], k, fracs@, defs@, ext_defs@)
        },
        r matches Err(x) ==> first_error(constraints@, fracs@, defs@, ext_defs@, x),
{
    let mut cs: Vec<ConstraintDump> = Vec::new();
    for i in 0..constraints.len()
        invariant
            cs@.len() == i,
            forall|j: int|
                0 <= j < i ==> (#[trigger] cs@[j]).index == j && decode_base_spec(
                    constraints@[j],
                    defs@,
                ) == Ok::<Node, DecodeError>(cs@[j].expr),
    {
        match try_decode_base(&constraints[i], defs) {
            Ok(expr) => cs.push(ConstraintDump { index: i, expr }),
            Err(x) => {
                proof {
                    assert forall|j: int| 0 <= j < i implies #[trigger] decode_base_spec(
                        constraints@[j],
                        defs@,
                    ) is Ok by {
                        assert(cs@[j].index == j);
                    }
                    assert(!(decode_base_spec(constraints@[i as int], defs@) is Ok));
                }
                return Err(x);
            },
        }
    }
    assert forall|j: int| 0 <= j < constraints@.len() implies #[trigger] decode_base_spec(
        constraints@[j],
        defs@,
    ) is Ok by {
        assert(cs@[j].index == j);
    }
    let mut uses: Vec<RelationUseDump> = Vec::new();
    for k in 0..fracs.len()
        invariant
            uses@.len() == k,
            forall|j: int|
                0 <= j < constraints@.len() ==> #[trigger] decode_base_spec(constraints@[j], defs@) is Ok,
            forall|j: int|
                0 <= j < k ==> use_at(#[trigger] uses@[j], j, fracs@, defs@, ext_defs@),
    {
        match try_decode_relation_use(k, &fracs[k].0, &fracs[k].1, defs, ext_defs) {
            Ok(u) => uses.push(u),
            Err(x) => {
                proof {
                    assert forall|j: int| 0 <= j < k implies #[trigger] decode_use_spec(
                        fracs@[j].0,
                        fracs@[j].1,
                        defs@,
                        ext_defs@,
                    ) is Ok by {
                        assert(use_at(uses@[j], j, fracs@, defs@, ext_defs@));
                    }
                    assert(decode_use_spec(fracs@[k as int].0, fracs@[k as int].1, defs@, ext_defs@)
                        == Err::<(i8, Node, Relation, Seq<Node>), DecodeError>(x));
                }
                return Err(x);
            },
        }
    }
    assert forall|j: int| 0 <= j < fracs@.len() implies #[trigger] decode_use_spec(
        fracs@[j].0,
        fracs@[j].1,
        defs@,
        ext_defs@,
    ) is Ok by {
        assert(use_at(uses@[j], j, fracs@, defs@, ext_defs@));
    }
    Ok(VariantDump { bind_ch_maj_limbs, constraints: cs, relation_uses: uses })
}

/// Converts a recorded base expression found at intermediate depth `depth`, inlining the
/// intermediates of `defs`. The expression lies in the single-row fragment: columns of
/// interaction 1 at offset 0 below the trace width, canonical constants, no inverse, and
/// intermediates that resolve and nest less than `MAX_DEPTH` deep. What it returns reads
/// the row only and computes the expression modulo p on every canonical row.
pub fn convert(expr: &RawExpr, defs: &Vec<RawExpr>, depth: usize) -> (n: Node)
    requires
        convertible(*expr, defs@, depth as nat),
    ensures
        convert_spec(*expr, defs@, depth as nat) == Ok::<Node, ConvertError>(n),
        single_row(n),
        forall|cols: Seq<u32>|
            #[trigger] canonical_row(cols) ==> node_value(n, cols) == raw_value(
                *expr,
                defs@,
                depth as nat,
                cols,
            ) % (P as int),
{
    match try_convert(expr, defs, depth) {
        Ok(n) => n,
        Err(_) => {
            proof {
                assert(false);
            }
            Node::Const { val: 0 }
        },
    }
}

/// Decodes a lifted base expression `SecureCol([b, 0, 0, 0])` (a constraint, or the value
/// inside a lift) whose `b` lies in the single-row fragment, into `b` converted.
pub fn decode_base(e: &RawExtExpr, defs: &Vec<RawExpr>) -> (n: Node)
    requires
        decode_base_spec(*e, defs@) is Ok,
    ensures
        decode_base_spec(*e, defs@) == Ok::<Node, DecodeError>(n),
        lift_of(*e, defs@, n),
{
    proof {
        lemma_base_decodes_lifts(*e, defs@, decode_base_spec(*e, defs@)->Ok_0);
    }
    match try_decode_base(e, defs) {
        Ok(n) => n,
        Err(_) => {
            proof {
                assert(false);
            }
            Node::Const { val: 0 }
        },
    }
}

/// Decodes a multiplicity numerator, a lift (+1) or a negated lift (-1), into its sign and
/// its converted value.
pub fn decode_multiplicity(e: &RawExtExpr, defs: &Vec<RawExpr>) -> (r: (i8, Node))
    requires
        decode_multiplicity_spec(*e, defs@) is Ok,
    ensures
        decode_multiplicity_spec(*e, defs@) == Ok::<(i8, Node), DecodeError>(r),
        multiplicity_of(*e, defs@, r.0, r.1),
{
    proof {
        let d = decode_multiplicity_spec(*e, defs@)->Ok_0;
        lemma_multiplicity_decodes_sign(*e, defs@, d.0, d.1);
    }
    match try_decode_multiplicity(e, defs) {
        Ok(r) => r,
        Err(_) => {
            proof {
                assert(false);
            }
            (0i8, Node::Const { val: 0 })
        },
    }
}

/// Decodes a lookup denominator `fold(0, Add(acc, Mul(alpha_i, v_i))) - z` of one
/// relation's elements, over a zero seed, each `v_i` lifted and in the single-row fragment,
/// into that relation and the converted values `v_0, v_1, ..` in alpha order.
pub fn decode_combine_formal(def: &RawExtExpr, defs: &Vec<RawExpr>) -> (r: (Relation, Vec<Node>))
    requires
        decode_combine_spec(*def, defs@) is Ok,
    ensures
        decode_combine_spec(*def, defs@) == Ok::<(Relation, Seq<Node>), DecodeError>((r.0, r.1@)),
        combination_of(*def, defs@, r.0, r.1@),
{
    match try_decode_combine_formal(def, defs) {
        Ok(r) => r,
        Err(_) => {
            proof {
                assert(false);
            }
            (Relation::Sha256Round, Vec::new())
        },
    }
}

/// `u` is the relation use with numerator `num` and denominator `den`: its sign and
/// multiplicity are those of the numerator's (negated) lift, the denominator names an
/// extension intermediate that is the formal combination of `u.relation`'s elements with
/// `u.values`, and the values fill that relation's tuple.
pub open spec fn use_of(
    u: RelationUseDump,
    num: RawExtExpr,
    den: RawExtExpr,
    defs: Seq<RawExpr>,
    ext_defs: Seq<RawExtExpr>,
) -> bool {
    &&& multiplicity_of(num, defs, u.mult_sign, u.mult)
    &&& match den {
        RawExtExpr::Def { id } => id < ext_defs.len() && combination_of(
            ext_defs[id as int],
            defs,
            u.relation,
            u.values@,
        ),
        _ => false,
    }
    &&& u.values@.len() == relation_size(u.relation)
    &&& u.declared_size == relation_size(u.relation)
}

proof fn lemma_use_of(
    u: RelationUseDump,
    order: int,
    num: RawExtExpr,
    den: RawExtExpr,
    defs: Seq<RawExpr>,
    ext_defs: Seq<RawExtExpr>,
)
    requires
        decode_use_spec(num, den, defs, ext_defs) is Ok,
        use_decoded(u, order, decode_use_spec(num, den, defs, ext_defs)->Ok_0),
    ensures
        use_of(u, num, den, defs, ext_defs),
{
    let d = decode_use_spec(num, den, defs, ext_defs)->Ok_0;
    let m = decode_multiplicity_spec(num, defs)->Ok_0;
    lemma_multiplicity_decodes_sign(num, defs, m.0, m.1);
    let id = den->Def_id;
    lemma_combine_decodes_in_alpha_order(ext_defs[id as int], defs, d.2, d.3);
}

/// Decodes the relation use at position `order` from its numerator and denominator, the
/// denominator naming an extension intermediate of `ext_defs` that combines as many values
/// as its relation's tuple holds.
pub fn decode_relation_use(
    order: usize,
    num: &RawExtExpr,
    den: &RawExtExpr,
    defs: &Vec<RawExpr>,
    ext_defs: &Vec<RawExtExpr>,
) -> (u: RelationUseDump)
    requires
        decode_use_spec(*num, *den, defs@, ext_defs@) is Ok,
    ensures
        use_decoded(u, order as int, decode_use_spec(*num, *den, defs@, ext_defs@)->Ok_0),
        use_of(u, *num, *den, defs@, ext_defs@),
{
    proof {
        let d = decode_use_spec(*num, *den, defs@, ext_defs@)->Ok_0;
        let m = decode_multiplicity_spec(*num, defs@)->Ok_0;
        lemma_multiplicity_decodes_sign(*num, defs@, m.0, m.1);
        let id = den->Def_id;
        lemma_combine_decodes_in_alpha_order(ext_defs@[id as int], defs@, d.2, d.3);
    }
    match try_decode_relation_use(order, num, den, defs, ext_defs) {
        Ok(u) => u,
        Err(_) => {
            proof {
                assert(false);
            }
            RelationUseDump {
                order,
                relation: Relation::Sha256Round,
                declared_size: 0,
                mult_sign: 0,
                mult: Node::Const { val: 0 },
                values: Vec::new(),
            }
        },
    }
}

/// Decodes what a component's evaluation recorded into the dump of one variant, every
/// constraint and relation use decoding: the constraints (each a lifted base expression)
/// in emission order, then the relation uses (numerator, denominator) in emission order.
pub fn decode_variant(
    bind_ch_maj_limbs: bool,
    constraints: &Vec<RawExtExpr>,
    fracs: &Vec<(RawExtExpr, RawExtExpr)>,
    defs: &Vec<RawExpr>,
    ext_defs: &Vec<RawExtExpr>,
) -> (d: VariantDump)
    requires
        variant_decodes(constraints@, fracs@, defs@, ext_defs@),
    ensures
        d.bind_ch_maj_limbs == bind_ch_maj_limbs,
        d.constraints@.len() == constraints@.len(),
        forall|i: int|
            0 <= i < constraints@.len() ==> (#[trigger] d.constraints@[i]).index == i
                && decode_base_spec(constraints@[i], defs@) == Ok::<Node, DecodeError>(
                d.constraints@[i].expr,
            ),
        d.relation_uses@.len() == fracs@.len(),
        forall|k: int|
            0 <= k < fracs@.len() ==> use_at(#[trigger] d.relation_uses@[k], k, fracs@, defs@, ext_defs@),
        forall|i: int|
            0 <= i < constraints@.len() ==> lift_of(constraints@[i], defs@, (#[trigger] d.constraints@[i]).expr),
        forall|k: int|
            0 <= k < fracs@.len() ==> (#[trigger] d.relation_uses@[k]).order == k && use_of(
                d.relation_uses@[k],
                fracs@[k].0,
                fracs@[k].1,
                defs@,
                ext_defs@,
            ),
{
    match try_decode_variant(bind_ch_maj_limbs, constraints, fracs, defs, ext_defs) {
        Ok(d) => {
            proof {
                assert forall|i: int| 0 <= i < constraints@.len() implies lift_of(
                    constraints@[i],
                    defs@,
                    (#[trigger] d.constraints@[i]).expr,
                ) by {
                    lemma_base_decodes_lifts(constraints@[i], defs@, d.constraints@[i].expr);
                }
                assert forall|k: int| 0 <= k < fracs@.len() implies (#[trigger] d.relation_uses@[k]).order
                    == k && use_of(d.relation_uses@[k], fracs@[k].0, fracs@[k].1, defs@, ext_defs@) by {
                    lemma_use_of(d.relation_uses@[k], k, fracs@[k].0, fracs@[k].1, defs@, ext_defs@);
                }
            }
            d
        },
        Err(_) => {
            proof {
                assert(false);
            }
            VariantDump { bind_ch_maj_limbs, constraints: Vec::new(), relation_uses: Vec::new() }
        },
    }
}

} // verus!
