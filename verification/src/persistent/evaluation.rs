//! What physical expressions give on a row.

use crate::persistent::physical_expr::{
    ExprView, IntKind, IntLiteral, ListView, Operator, ScalarView,
};
use vstd::prelude::*;

verus! {

/// What an expression gives on a row.
pub enum Datum {
    Null,
    Bool(bool),
    Int(IntLiteral),
    /// A value of some other type, by a number that equal values share.
    Other(int),
}

/// A row, together with what the expressions that are not read any further give on it.
pub struct Row {
    pub columns: Seq<Datum>,
    /// What an expression of another form gives.
    pub exprs: spec_fn(u64) -> Datum,
    /// What a literal that is no integer and no truth value stands for.
    pub literals: spec_fn(ScalarView) -> Datum,
    /// What a list of another type holds.
    pub lists: spec_fn(u64) -> Seq<Datum>,
    /// What a comparison gives that is not one of two integers of one type.
    pub comparisons: spec_fn(Operator, Datum, Datum) -> Datum,
}

/// Disjunction: true if one side is, false if both are, and null otherwise.
pub open spec fn either(a: Datum, b: Datum) -> Datum {
    if a == Datum::Bool(true) || b == Datum::Bool(true) {
        Datum::Bool(true)
    } else if a == Datum::Bool(false) && b == Datum::Bool(false) {
        Datum::Bool(false)
    } else {
        Datum::Null
    }
}

/// Conjunction: false if one side is, true if both are, and null otherwise.
pub open spec fn both(a: Datum, b: Datum) -> Datum {
    if a == Datum::Bool(false) || b == Datum::Bool(false) {
        Datum::Bool(false)
    } else if a == Datum::Bool(true) && b == Datum::Bool(true) {
        Datum::Bool(true)
    } else {
        Datum::Null
    }
}

/// Negation, which leaves null.
pub open spec fn opposite(a: Datum) -> Datum {
    match a {
        Datum::Bool(b) => Datum::Bool(!b),
        _ => Datum::Null,
    }
}

/// Membership: null for null; true if the value is one of the candidates; and otherwise false,
/// or null if a candidate is null.
pub open spec fn membership(value: Datum, candidates: Seq<Datum>) -> Datum {
    if value == Datum::Null {
        Datum::Null
    } else if candidates.contains(value) {
        Datum::Bool(true)
    } else if candidates.contains(Datum::Null) {
        Datum::Null
    } else {
        Datum::Bool(false)
    }
}

/// How two integers compare.
pub open spec fn int_comparison(op: Operator, a: int, b: int) -> bool {
    match op {
        Operator::Eq => a == b,
        Operator::NotEq => a != b,
        Operator::Lt => a < b,
        Operator::LtEq => a <= b,
        Operator::Gt => a > b,
        Operator::GtEq => a >= b,
        _ => false,
    }
}

/// What a binary operator gives.
pub open spec fn operation(op: Operator, a: Datum, b: Datum, row: Row) -> Datum {
    match op {
        Operator::And => both(a, b),
        Operator::Or => either(a, b),
        _ => match (a, b) {
            (Datum::Null, _) => Datum::Null,
            (_, Datum::Null) => Datum::Null,
            (Datum::Int(x), Datum::Int(y)) => if x.kind == y.kind {
                Datum::Bool(int_comparison(op, x.value as int, y.value as int))
            } else {
                (row.comparisons)(op, a, b)
            },
            _ => (row.comparisons)(op, a, b),
        },
    }
}

/// An integer of a type.
pub open spec fn int_datum(kind: IntKind, value: i128) -> Datum {
    Datum::Int(IntLiteral { kind, value })
}

/// What a literal stands for.
pub open spec fn literal_datum(value: ScalarView, row: Row) -> Datum {
    match value {
        ScalarView::Boolean(None) => Datum::Null,
        ScalarView::Boolean(Some(b)) => Datum::Bool(b),
        ScalarView::Int32(None) => Datum::Null,
        ScalarView::Int32(Some(v)) => int_datum(IntKind::Int32, v as i128),
        ScalarView::Int64(None) => Datum::Null,
        ScalarView::Int64(Some(v)) => int_datum(IntKind::Int64, v as i128),
        ScalarView::UInt32(None) => Datum::Null,
        ScalarView::UInt32(Some(v)) => int_datum(IntKind::UInt32, v as i128),
        ScalarView::UInt64(None) => Datum::Null,
        ScalarView::UInt64(Some(v)) => int_datum(IntKind::UInt64, v as i128),
        _ => (row.literals)(value),
    }
}

/// What a list literal holds.
pub open spec fn list_datums(list: ListView, row: Row) -> Seq<Datum> {
    match list {
        ListView::Int32(v) => v.map_values(|x: i32| int_datum(IntKind::Int32, x as i128)),
        ListView::Int64(v) => v.map_values(|x: i64| int_datum(IntKind::Int64, x as i128)),
        ListView::UInt32(v) => v.map_values(|x: u32| int_datum(IntKind::UInt32, x as i128)),
        ListView::UInt64(v) => v.map_values(|x: u64| int_datum(IntKind::UInt64, x as i128)),
        ListView::Other(n) => (row.lists)(n),
    }
}

/// What an expression gives on a row.
pub open spec fn outcome(e: ExprView, row: Row) -> Datum
    decreases e, 0nat,
{
    match e {
        ExprView::Column { index, .. } => row.columns[index as int],
        ExprView::Literal(value) => literal_datum(value, row),
        ExprView::Binary { left, op, right } => operation(
            op,
            outcome(*left, row),
            outcome(*right, row),
            row,
        ),
        ExprView::InList { expr, list, negated } => {
            let found = membership(outcome(*expr, row), candidates(list, row));
            if negated {
                opposite(found)
            } else {
                found
            }
        },
        ExprView::Dynamic(current) => outcome(*current, row),
        ExprView::Other(n) => (row.exprs)(n),
    }
}

/// What the members of an `IN` list stand for, in order.
pub open spec fn candidates(list: Seq<ExprView>, row: Row) -> Seq<Datum>
    decreases list, 0nat,
{
    if list.len() == 0 {
        Seq::empty()
    } else {
        candidates(list.drop_last(), row) + member_candidates(list.last(), row)
    }
}

/// What one member of an `IN` list stands for: a list literal for what it holds.
pub open spec fn member_candidates(member: ExprView, row: Row) -> Seq<Datum>
    decreases member, 1nat,
{
    match member {
        ExprView::Literal(ScalarView::List(list)) => list_datums(list, row),
        _ => seq![outcome(member, row)],
    }
}

/// The members of one list after another stand for what those of each stand for.
pub proof fn lemma_candidates_of_both(a: Seq<ExprView>, b: Seq<ExprView>, row: Row)
    ensures
        candidates(a + b, row) == candidates(a, row) + candidates(b, row),
    decreases b.len(),
{
    if b.len() == 0 {
        assert(a + b =~= a);
        assert(candidates(a, row) + candidates(b, row) =~= candidates(a, row));
    } else {
        lemma_candidates_of_both(a, b.drop_last(), row);
        assert((a + b).drop_last() =~= a + b.drop_last());
        assert((a + b).last() == b.last());
        assert(candidates(a, row) + (candidates(b.drop_last(), row) + member_candidates(
            b.last(),
            row,
        )) =~= candidates(a, row) + candidates(b.drop_last(), row) + member_candidates(
            b.last(),
            row,
        ));
    }
}

/// To be in one of two lists is to be in the two together.
pub proof fn lemma_membership_in_both(value: Datum, a: Seq<Datum>, b: Seq<Datum>)
    ensures
        membership(value, a + b) == either(membership(value, a), membership(value, b)),
{
    assert forall|x: Datum| #[trigger] (a + b).contains(x) == (a.contains(x) || b.contains(x)) by {
        if a.contains(x) {
            let i = choose|i: int| 0 <= i < a.len() && a[i] == x;
            assert((a + b)[i] == x);
        }
        if b.contains(x) {
            let i = choose|i: int| 0 <= i < b.len() && b[i] == x;
            assert((a + b)[a.len() + i] == x);
        }
    }
}

} // verus!
