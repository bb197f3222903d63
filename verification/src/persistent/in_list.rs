//! What an `IN` list says about the integers it can match.

use crate::persistent::evaluation::{
    candidates, lemma_candidates_of_both, lemma_membership_in_both, literal_datum, member_candidates,
    membership, outcome, Datum, Row,
};
use crate::persistent::physical_expr::{
    exprs_view, share, BinaryExpr, InListExpr, IntKind, IntLiteral, ListValue, Operator, PhysicalExpr,
    ScalarValue,
};
use crate::sorting::{
    ascending, lemma_sorted_copy_contains, lemma_sorted_copy_ensures, sort, sorted_copy,
};
use std::sync::Arc;
use vstd::prelude::*;

verus! {

/// The integers that a list literal holds, or nothing for a list of another type.
pub open spec fn list_literals(list: ListValue) -> Option<Seq<IntLiteral>> {
    match list {
        ListValue::Int32(v) => Some(
            Seq::new(v@.len(), |i: int| IntLiteral { kind: IntKind::Int32, value: v@[i] as i128 }),
        ),
        ListValue::Int64(v) => Some(
            Seq::new(v@.len(), |i: int| IntLiteral { kind: IntKind::Int64, value: v@[i] as i128 }),
        ),
        ListValue::UInt32(v) => Some(
            Seq::new(v@.len(), |i: int| IntLiteral { kind: IntKind::UInt32, value: v@[i] as i128 }),
        ),
        ListValue::UInt64(v) => Some(
            Seq::new(v@.len(), |i: int| IntLiteral { kind: IntKind::UInt64, value: v@[i] as i128 }),
        ),
        ListValue::Other(_) => None,
    }
}

/// The integers that one member of an `IN` list stands for, or nothing if it is neither an
/// integer literal nor a list of integers.
pub open spec fn member_literals(member: PhysicalExpr) -> Option<Seq<IntLiteral>> {
    match member {
        PhysicalExpr::Literal(ScalarValue::List(list)) => list_literals(list),
        PhysicalExpr::Literal(value) => match value.int_literal_spec() {
            Some(l) => Some(seq![l]),
            None => None,
        },
        _ => None,
    }
}

/// The integers of all members in order, or nothing if some member stands for none.
pub open spec fn literals(list: Seq<Arc<PhysicalExpr>>) -> Option<Seq<IntLiteral>>
    decreases list.len(),
{
    if list.len() == 0 {
        Some(Seq::empty())
    } else {
        match (literals(list.drop_last()), member_literals(*list.last())) {
            (Some(before), Some(last)) => Some(before + last),
            _ => None,
        }
    }
}

/// The values without their types.
pub open spec fn values_of(lits: Seq<IntLiteral>) -> Seq<i128> {
    Seq::new(lits.len(), |i: int| lits[i].value)
}

/// Whether all literals are of one type.
pub open spec fn one_kind(lits: Seq<IntLiteral>) -> bool {
    forall|i: int, j: int| 0 <= i < lits.len() && 0 <= j < lits.len() ==> lits[i].kind == lits[j].kind
}

/// The ranges that ascending values fall into: a value joins the range before it if it lies at
/// most `overlap + 1` above the end of that range, and opens a range of its own otherwise.
pub open spec fn contiguous_groups(s: Seq<i128>, overlap: int) -> Seq<(i128, i128)>
    decreases s.len(),
{
    if s.len() == 0 {
        Seq::empty()
    } else {
        let groups = contiguous_groups(s.drop_last(), overlap);
        let x = s.last();
        if groups.len() > 0 && x - groups.last().1 <= overlap + 1 {
            groups.update(groups.len() - 1, (groups.last().0, x))
        } else {
            groups.push((x, x))
        }
    }
}

/// Whether `e` is `input >= lo AND input <= hi`.
pub open spec fn is_range_expr(
    e: BinaryExpr,
    input: PhysicalExpr,
    lo: IntLiteral,
    hi: IntLiteral,
) -> bool {
    &&& e.op == Operator::And
    &&& *e.left matches PhysicalExpr::Binary(ge) && ge.op == Operator::GtEq && *ge.left == input
        && *ge.right == PhysicalExpr::Literal(lo.scalar_spec())
    &&& *e.right matches PhysicalExpr::Binary(le) && le.op == Operator::LtEq && *le.left == input
        && *le.right == PhysicalExpr::Literal(hi.scalar_spec())
}

proof fn lemma_unsupported_prefix(list: Seq<Arc<PhysicalExpr>>, k: int)
    requires
        0 <= k <= list.len(),
        literals(list.take(k)) is None,
    ensures
        literals(list) is None,
    decreases list.len() - k,
{
    if k < list.len() {
        assert(list.take(k + 1).drop_last() =~= list.take(k));
        lemma_unsupported_prefix(list, k + 1);
    } else {
        assert(list.take(k) =~= list);
    }
}

/// Adds the integers of a list literal to `out`; `false` for a list of another type.
fn push_list_literals(list: &ListValue, out: &mut Vec<IntLiteral>) -> (r: bool)
    requires
        forall|i: int| 0 <= i < old(out).len() ==> old(out)@[i].wf(),
    ensures
        r == (list_literals(*list) is Some),
        r ==> final(out)@ == old(out)@ + list_literals(*list).unwrap(),
        r ==> forall|i: int| 0 <= i < final(out).len() ==> final(out)@[i].wf(),
{
    let ghost before = out@;
    match list {
        ListValue::Int32(v) => {
            let mut i: usize = 0;
            while i < v.len()
                invariant
                    0 <= i <= v.len(),
                    *list == ListValue::Int32(*v),
                    out@ =~= before + list_literals(*list).unwrap().take(i as int),
                    forall|j: int| 0 <= j < out.len() ==> out@[j].wf(),
                decreases v.len() - i,
            {
                out.push(IntLiteral { kind: IntKind::Int32, value: v[i] as i128 });
                i += 1;
            }
            assert(list_literals(*list).unwrap().take(i as int) =~= list_literals(*list).unwrap());
            true
        },
        ListValue::Int64(v) => {
            let mut i: usize = 0;
            while i < v.len()
                invariant
                    0 <= i <= v.len(),
                    *list == ListValue::Int64(*v),
                    out@ =~= before + list_literals(*list).unwrap().take(i as int),
                    forall|j: int| 0 <= j < out.len() ==> out@[j].wf(),
                decreases v.len() - i,
            {
                out.push(IntLiteral { kind: IntKind::Int64, value: v[i] as i128 });
                i += 1;
            }
            assert(list_literals(*list).unwrap().take(i as int) =~= list_literals(*list).unwrap());
            true
        },
        ListValue::UInt32(v) => {
            let mut i: usize = 0;
            while i < v.len()
                invariant
                    0 <= i <= v.len(),
                    *list == ListValue::UInt32(*v),
                    out@ =~= before + list_literals(*list).unwrap().take(i as int),
                    forall|j: int| 0 <= j < out.len() ==> out@[j].wf(),
                decreases v.len() - i,
            {
                out.push(IntLiteral { kind: IntKind::UInt32, value: v[i] as i128 });
                i += 1;
            }
            assert(list_literals(*list).unwrap().take(i as int) =~= list_literals(*list).unwrap());
            true
        },
        ListValue::UInt64(v) => {
            let mut i: usize = 0;
            while i < v.len()
                invariant
                    0 <= i <= v.len(),
                    *list == ListValue::UInt64(*v),
                    out@ =~= before + list_literals(*list).unwrap().take(i as int),
                    forall|j: int| 0 <= j < out.len() ==> out@[j].wf(),
                decreases v.len() - i,
            {
                out.push(IntLiteral { kind: IntKind::UInt64, value: v[i] as i128 });
                i += 1;
            }
            assert(list_literals(*list).unwrap().take(i as int) =~= list_literals(*list).unwrap());
            true
        },
        ListValue::Other(_) => false,
    }
}

/// Returns the integers of all members of an `IN` list, or nothing if some member is neither an
/// integer literal nor a list of integers.
pub fn collect_literals(list: &Vec<Arc<PhysicalExpr>>) -> (r: Option<Vec<IntLiteral>>)
    ensures
        r is Some == literals(list@) is Some,
        r matches Some(lits) ==> lits@ == literals(list@).unwrap(),
        r matches Some(lits) ==> forall|i: int| 0 <= i < lits.len() ==> lits@[i].wf(),
{
    let mut out: Vec<IntLiteral> = Vec::new();
    let mut i: usize = 0;
    assert(list@.take(0) =~= Seq::empty());
    while i < list.len()
        invariant
            0 <= i <= list.len(),
            literals(list@.take(i as int)) == Some(out@),
            forall|j: int| 0 <= j < out.len() ==> out@[j].wf(),
        decreases list.len() - i,
    {
        let ghost k = i as int;
        let ghost before = out@;
        proof {
            assert(list@.take(k + 1).drop_last() =~= list@.take(k));
            assert(list@.take(k + 1).last() == list@[k]);
        }
        match &*list[i] {
            PhysicalExpr::Literal(ScalarValue::List(values)) => {
                if !push_list_literals(values, &mut out) {
                    proof {
                        lemma_unsupported_prefix(list@, k + 1);
                    }
                    return None;
                }
            },
            PhysicalExpr::Literal(value) => {
                match value.int_literal() {
                    Some(l) => {
                        out.push(l);
                        assert(out@ =~= before + seq![l]);
                    },
                    None => {
                        proof {
                            lemma_unsupported_prefix(list@, k + 1);
                        }
                        return None;
                    },
                }
            },
            _ => {
                proof {
                    lemma_unsupported_prefix(list@, k + 1);
                }
                return None;
            },
        }
        i += 1;
    }
    assert(list@.take(i as int) =~= list@);
    Some(out)
}

/// Returns the ranges that ascending values fall into.
pub fn group_contiguous(s: &Vec<i128>, overlap: usize) -> (r: Vec<(i128, i128)>)
    requires
        ascending(s@),
        forall|i: int| 0 <= i < s.len() ==> i64::MIN <= #[trigger] s@[i] <= u64::MAX,
    ensures
        r@ == contiguous_groups(s@, overlap as int),
{
    let mut groups: Vec<(i128, i128)> = Vec::new();
    let mut i: usize = 0;
    while i < s.len()
        invariant
            0 <= i <= s.len(),
            forall|j: int| 0 <= j < s.len() ==> i64::MIN <= #[trigger] s@[j] <= u64::MAX,
            groups@ == contiguous_groups(s@.take(i as int), overlap as int),
            forall|j: int|
                0 <= j < groups.len() ==> i64::MIN <= #[trigger] groups@[j].1 <= u64::MAX,
            i == 0 <==> groups.len() == 0,
        decreases s.len() - i,
    {
        let x: i128 = s[i];
        proof {
            assert(s@.take(i as int + 1).drop_last() =~= s@.take(i as int));
            assert(s@.take(i as int + 1).last() == s@[i as int]);
        }
        let n: usize = groups.len();
        if n > 0 && x - groups[n - 1].1 <= overlap as i128 + 1 {
            let start: i128 = groups[n - 1].0;
            groups.set(n - 1, (start, x));
        } else {
            groups.push((x, x));
        }
        i += 1;
    }
    assert(s@.take(i as int) =~= s@);
    groups
}

fn range_expr(input: &Arc<PhysicalExpr>, lo: IntLiteral, hi: IntLiteral) -> (r: BinaryExpr)
    requires
        lo.wf(),
        hi.wf(),
    ensures
        is_range_expr(r, **input, lo, hi),
{
    let ge = BinaryExpr {
        left: share(input),
        op: Operator::GtEq,
        right: Arc::new(PhysicalExpr::Literal(lo.scalar())),
    };
    let le = BinaryExpr {
        left: share(input),
        op: Operator::LtEq,
        right: Arc::new(PhysicalExpr::Literal(hi.scalar())),
    };
    BinaryExpr {
        left: Arc::new(PhysicalExpr::Binary(ge)),
        op: Operator::And,
        right: Arc::new(PhysicalExpr::Binary(le)),
    }
}

proof fn lemma_group_ends_are_values(s: Seq<i128>, overlap: int, k: int)
    requires
        0 <= k < contiguous_groups(s, overlap).len(),
    ensures
        s.contains(contiguous_groups(s, overlap)[k].0),
        s.contains(contiguous_groups(s, overlap)[k].1),
    decreases s.len(),
{
    let before = contiguous_groups(s.drop_last(), overlap);
    let groups = contiguous_groups(s, overlap);
    assert(s[s.len() - 1] == s.last());
    if k < before.len() {
        lemma_group_ends_are_values(s.drop_last(), overlap, k);
        let i = choose|i: int| 0 <= i < s.len() - 1 && s.drop_last()[i] == before[k].0;
        assert(s[i] == before[k].0);
        let j = choose|j: int| 0 <= j < s.len() - 1 && s.drop_last()[j] == before[k].1;
        assert(s[j] == before[k].1);
    }
}

/// Calculates the contiguous ranges of an `IN` list and returns them as expressions: the list
/// `a IN [1,2,3,5,6,8]` gives `a >= 1 AND a <= 3`, `a >= 5 AND a <= 6` and `a >= 8 AND a <= 8`.
///
/// Two neighbours whose gap holds no more than `overlap` integers belong to one range. A list
/// with a member that is no integer gives no ranges.
pub fn contiguous_in_list_ranges(in_list: &InListExpr, overlap: usize) -> (r: Vec<BinaryExpr>)
    requires
        literals(in_list.list@) matches Some(lits) ==> lits.len() > 0 && one_kind(lits),
    ensures
        literals(in_list.list@) is None ==> r.len() == 0,
        literals(in_list.list@) matches Some(lits) ==> {
            let groups = contiguous_groups(sorted_copy(values_of(lits)), overlap as int);
            &&& r.len() == groups.len()
            &&& forall|i: int|
                0 <= i < r.len() ==> is_range_expr(
                    #[trigger] r@[i],
                    *in_list.expr,
                    (IntLiteral { kind: lits[0].kind, value: groups[i].0 }),
                    (IntLiteral { kind: lits[0].kind, value: groups[i].1 }),
                )
        },
{
    let lits = match collect_literals(&in_list.list) {
        Some(lits) => lits,
        None => {
            return Vec::new();
        },
    };
    let kind = lits[0].kind;
    let mut values: Vec<i128> = Vec::new();
    let mut i: usize = 0;
    while i < lits.len()
        invariant
            0 <= i <= lits.len(),
            values@ =~= values_of(lits@).take(i as int),
        decreases lits.len() - i,
    {
        values.push(lits[i].value);
        i += 1;
    }
    assert(values@ =~= values_of(lits@));
    let sorted = sort(&values);
    assert forall|k: int| 0 <= k < sorted.len() implies kind.holds(#[trigger] sorted@[k] as int) by {
        lemma_sorted_copy_contains(values@, sorted@[k]);
        let m = choose|m: int| 0 <= m < values.len() && values@[m] == sorted@[k];
        assert(lits@[m].wf());
        assert(lits@[m].kind == lits@[0].kind);
    }
    let groups = group_contiguous(&sorted, overlap);
    let mut ranges: Vec<BinaryExpr> = Vec::new();
    let mut k: usize = 0;
    while k < groups.len()
        invariant
            0 <= k <= groups.len(),
            ranges.len() == k,
            groups@ == contiguous_groups(sorted@, overlap as int),
            forall|j: int| 0 <= j < sorted.len() ==> kind.holds(#[trigger] sorted@[j] as int),
            forall|j: int|
                0 <= j < k ==> is_range_expr(
                    #[trigger] ranges@[j],
                    *in_list.expr,
                    (IntLiteral { kind, value: groups@[j].0 }),
                    (IntLiteral { kind, value: groups@[j].1 }),
                ),
        decreases groups.len() - k,
    {
        proof {
            lemma_group_ends_are_values(sorted@, overlap as int, k as int);
        }
        let lo = IntLiteral { kind, value: groups[k].0 };
        let hi = IntLiteral { kind, value: groups[k].1 };
        ranges.push(range_expr(&in_list.expr, lo, hi));
        k += 1;
    }
    ranges
}

/// Whether some value between `min` and `max` can be in an `IN` list whose integers are `lits`.
/// With bounds that are not integers of the list's type, the answer is that one can.
pub open spec fn range_meets_literals(
    lits: Seq<IntLiteral>,
    min: ScalarValue,
    max: ScalarValue,
) -> bool {
    match (min.int_literal_spec(), max.int_literal_spec()) {
        (Some(lo), Some(hi)) => {
            ||| lits.len() == 0
            ||| lo.kind != lits[0].kind
            ||| lo.kind != hi.kind
            ||| exists|i: int|
                0 <= i < lits.len() && (#[trigger] lits[i]).kind == lo.kind && lo.value
                    <= lits[i].value <= hi.value
        },
        _ => true,
    }
}

/// Whether a file whose values lie between `min` and `max` can hold a member of an `IN` list with
/// these members. A list that cannot be read, or bounds of another type, exclude nothing.
pub open spec fn bounds_meet_members(
    members: Seq<Arc<PhysicalExpr>>,
    min: ScalarValue,
    max: ScalarValue,
) -> bool {
    match literals(members) {
        None => true,
        Some(lits) => range_meets_literals(lits, min, max),
    }
}

/// Returns whether a file whose values lie between `min_max.0` and `min_max.1` can hold a member
/// of the `IN` list. A list that cannot be read, or bounds of another type, exclude nothing.
pub fn min_max_within_in_list(
    in_list: &InListExpr,
    min_max: &(ScalarValue, ScalarValue),
) -> (r: bool)
    ensures
        r == bounds_meet_members(in_list.list@, min_max.0, min_max.1),
{
    let lits = match collect_literals(&in_list.list) {
        Some(lits) => lits,
        None => {
            return true;
        },
    };
    if lits.len() == 0 {
        return true;
    }
    let (lo, hi) = match (min_max.0.int_literal(), min_max.1.int_literal()) {
        (Some(lo), Some(hi)) => (lo, hi),
        _ => {
            return true;
        },
    };
    if lo.kind != lits[0].kind || lo.kind != hi.kind {
        return true;
    }
    let mut i: usize = 0;
    while i < lits.len()
        invariant
            0 <= i <= lits.len(),
            literals(in_list.list@) == Some(lits@),
            min_max.0.int_literal_spec() == Some(lo),
            min_max.1.int_literal_spec() == Some(hi),
            forall|j: int|
                0 <= j < i ==> !((#[trigger] lits@[j]).kind == lo.kind && lo.value <= lits@[j].value
                    <= hi.value),
        decreases lits.len() - i,
    {
        let l = lits[i];
        if l.kind == lo.kind && lo.value <= l.value && l.value <= hi.value {
            assert(lits@[i as int].kind == lo.kind);
            return true;
        }
        i += 1;
    }
    false
}

/// The `IN` list that an expression comes down to: the tested expression and the members. An `IN`
/// list that is not negated comes down to itself, and a disjunction of expressions that come down
/// to lists over one and the same tested expression to the members of the one followed by those
/// of the other. No other expression comes down to a list.
pub open spec fn single_list(e: &PhysicalExpr) -> Option<(PhysicalExpr, Seq<Arc<PhysicalExpr>>)>
    decreases e, 0nat,
{
    match e {
        PhysicalExpr::InList(l) => if l.negated {
            None
        } else {
            Some((*l.expr, l.list@))
        },
        PhysicalExpr::Binary(b) => joined_list(*b),
        _ => None,
    }
}

/// The `IN` list that a binary expression comes down to.
pub open spec fn joined_list(e: BinaryExpr) -> Option<(PhysicalExpr, Seq<Arc<PhysicalExpr>>)>
    decreases e, 1nat,
{
    if e.op != Operator::Or {
        None
    } else {
        match (single_list(&e.left), single_list(&e.right)) {
            (Some(left), Some(right)) => if left.0@ == right.0@ {
                Some((left.0, left.1 + right.1))
            } else {
                None
            },
            _ => None,
        }
    }
}

/// The `IN` list that a disjunction of `IN` lists is compacted into, unless it has no member.
pub open spec fn compacted(e: BinaryExpr) -> Option<(PhysicalExpr, Seq<Arc<PhysicalExpr>>)> {
    match joined_list(e) {
        Some(list) => if list.1.len() > 0 {
            Some(list)
        } else {
            None
        },
        None => None,
    }
}

fn extend_shared(out: &mut Vec<Arc<PhysicalExpr>>, more: &Vec<Arc<PhysicalExpr>>)
    ensures
        final(out)@ == old(out)@ + more@,
{
    let ghost before = out@;
    let mut i: usize = 0;
    while i < more.len()
        invariant
            0 <= i <= more.len(),
            out@ =~= before + more@.take(i as int),
        decreases more.len() - i,
    {
        out.push(share(&more[i]));
        i += 1;
    }
    assert(more@.take(i as int) =~= more@);
}

/// Returns the tested expression and the members of the `IN` list that an expression comes down
/// to.
fn gather(expr: &PhysicalExpr) -> (r: Option<(Arc<PhysicalExpr>, Vec<Arc<PhysicalExpr>>)>)
    ensures
        match single_list(expr) {
            None => r is None,
            Some((target, members)) => r matches Some(found) && *found.0 == target && found.1@
                == members,
        },
    decreases expr, 0nat,
{
    match expr {
        PhysicalExpr::InList(l) => {
            if l.negated {
                return None;
            }
            let mut members: Vec<Arc<PhysicalExpr>> = Vec::new();
            extend_shared(&mut members, &l.list);
            assert(members@ =~= l.list@);
            Some((share(&l.expr), members))
        },
        PhysicalExpr::Binary(b) => gather_both(b),
        _ => None,
    }
}

/// Returns the tested expression and the members of the `IN` list that a binary expression comes
/// down to.
fn gather_both(expr: &BinaryExpr) -> (r: Option<(Arc<PhysicalExpr>, Vec<Arc<PhysicalExpr>>)>)
    ensures
        match joined_list(*expr) {
            None => r is None,
            Some((target, members)) => r matches Some(found) && *found.0 == target && found.1@
                == members,
        },
    decreases expr, 1nat,
{
    if expr.op != Operator::Or {
        return None;
    }
    match (gather(&expr.left), gather(&expr.right)) {
        (Some((target, mut members)), Some((other, more))) => {
            if !target.equals(&other) {
                return None;
            }
            extend_shared(&mut members, &more);
            Some((target, members))
        },
        _ => None,
    }
}

/// Compacts a binary expression which contains several `OR`ed `IN` lists into a single one.
///
/// All of it has to be a disjunction of `IN` lists that are not negated and that test one and the
/// same expression. The members are those of the lists from left to right.
pub fn in_list_expr_compactor(binary_expr: &BinaryExpr) -> (r: Option<InListExpr>)
    ensures
        match compacted(*binary_expr) {
            None => r is None,
            Some((target, members)) => r matches Some(l) && *l.expr == target && l.list@ == members
                && !l.negated,
        },
{
    match gather_both(binary_expr) {
        Some((expr, list)) => if list.len() > 0 {
            Some(InListExpr { expr, list, negated: false })
        } else {
            None
        },
        None => None,
    }
}

/// An expression that comes down to an `IN` list gives on every row what the list gives.
pub proof fn lemma_single_list_gives_the_same(e: &PhysicalExpr, row: Row)
    ensures
        single_list(e) matches Some((target, members)) ==> outcome(e@, row) == membership(
            outcome(target@, row),
            candidates(exprs_view(members), row),
        ),
    decreases e, 0nat,
{
    match e {
        PhysicalExpr::Binary(b) => {
            lemma_joined_list_gives_the_same(*b, row);
        },
        _ => {},
    }
}

proof fn lemma_joined_list_gives_the_same(e: BinaryExpr, row: Row)
    ensures
        joined_list(e) matches Some((target, members)) ==> outcome(
            PhysicalExpr::Binary(e)@,
            row,
        ) == membership(outcome(target@, row), candidates(exprs_view(members), row)),
    decreases e, 1nat,
{
    if joined_list(e) is Some {
        lemma_single_list_gives_the_same(&e.left, row);
        lemma_single_list_gives_the_same(&e.right, row);
        let (target, left) = single_list(&e.left)->Some_0;
        let right = single_list(&e.right)->Some_0.1;
        assert(exprs_view(left + right) =~= exprs_view(left) + exprs_view(right));
        lemma_candidates_of_both(exprs_view(left), exprs_view(right), row);
        lemma_membership_in_both(
            outcome(target@, row),
            candidates(exprs_view(left), row),
            candidates(exprs_view(right), row),
        );
    }
}

/// Where all members can be read, they stand for the integers that were read.
pub proof fn lemma_literals_are_the_candidates(members: Seq<Arc<PhysicalExpr>>, row: Row)
    ensures
        literals(members) matches Some(lits) ==> candidates(exprs_view(members), row)
            == lits.map_values(|l: IntLiteral| Datum::Int(l)),
    decreases members.len(),
{
    let all = candidates(exprs_view(members), row);
    if members.len() == 0 {
        if let Some(lits) = literals(members) {
            assert(all =~= lits.map_values(|l: IntLiteral| Datum::Int(l)));
        }
    } else {
        lemma_literals_are_the_candidates(members.drop_last(), row);
        assert(exprs_view(members).drop_last() =~= exprs_view(members.drop_last()));
        assert(exprs_view(members).last() == members.last()@);
        if let Some(lits) = literals(members) {
            assert(member_candidates(members.last()@, row) =~= member_literals(
                *members.last(),
            )->Some_0.map_values(|l: IntLiteral| Datum::Int(l)));
            assert(all =~= lits.map_values(|l: IntLiteral| Datum::Int(l)));
        }
    }
}

/// The list that a disjunction is compacted into gives on every row what the disjunction gives: it
/// selects the same rows, and is null on the same rows.
pub proof fn law_a_compacted_list_selects_the_same_rows(
    e: BinaryExpr,
    l: InListExpr,
    row: Row,
)
    requires
        compacted(e) == Some((*l.expr, l.list@)),
        !l.negated,
    ensures
        outcome(PhysicalExpr::InList(l)@, row) == outcome(PhysicalExpr::Binary(e)@, row),
{
    lemma_joined_list_gives_the_same(e, row);
}

/// How a disjunction of `IN` lists is bracketed does not matter.
pub proof fn law_compaction_is_associative(
    a: Arc<PhysicalExpr>,
    b: Arc<PhysicalExpr>,
    c: Arc<PhysicalExpr>,
)
    ensures
        ({
            let left = Arc::new(PhysicalExpr::Binary(BinaryExpr { left: a, op: Operator::Or, right: b }));
            let right = Arc::new(PhysicalExpr::Binary(BinaryExpr { left: b, op: Operator::Or, right: c }));
            compacted(BinaryExpr { left, op: Operator::Or, right: c }) == compacted(
                BinaryExpr { left: a, op: Operator::Or, right },
            )
        }),
{
    reveal_with_fuel(single_list, 3);
    reveal_with_fuel(joined_list, 3);
    if let (Some(x), Some(y), Some(z)) = (single_list(&a), single_list(&b), single_list(&c)) {
        assert((x.1 + y.1) + z.1 =~= x.1 + (y.1 + z.1));
    }
}

/// Whether `x` lies in some range of `groups`.
pub open spec fn in_some_group(groups: Seq<(i128, i128)>, x: int) -> bool {
    exists|k: int| 0 <= k < groups.len() && (#[trigger] groups[k]).0 <= x <= groups[k].1
}

/// What holds of the ranges of ascending values: the last range ends with the greatest value,
/// every range is non-empty, and neighbours are more than `overlap + 1` apart.
proof fn lemma_groups_shape(s: Seq<i128>, overlap: int)
    requires
        ascending(s),
        overlap >= 0,
    ensures
        ({
            let groups = contiguous_groups(s, overlap);
            &&& s.len() > 0 ==> groups.len() > 0 && groups.last().1 == s.last()
            &&& s.len() == 0 ==> groups.len() == 0
            &&& forall|k: int| 0 <= k < groups.len() ==> (#[trigger] groups[k]).0 <= groups[k].1
            &&& forall|j: int, k: int|
                0 <= j < k < groups.len() ==> (#[trigger] groups[j]).1 + overlap + 1 < (
                #[trigger] groups[k]).0
        }),
    decreases s.len(),
{
    if s.len() > 0 {
        let t = s.drop_last();
        lemma_groups_shape(t, overlap);
        let before = contiguous_groups(t, overlap);
        let groups = contiguous_groups(s, overlap);
        if before.len() > 0 {
            assert(t.last() == s[s.len() - 2]);
            assert(t.last() <= s.last());
        }
        assert forall|j: int, k: int| 0 <= j < k < groups.len() implies (#[trigger] groups[j]).1
            + overlap + 1 < (#[trigger] groups[k]).0 by {
            if k < before.len() {
                assert(before[j].1 + overlap + 1 < before[k].0);
            } else if j < before.len() - 1 {
                assert(before[j].1 + overlap + 1 < before[before.len() - 1].0);
            }
        }
    }
}

/// Every integer of an `IN` list lies in one of the list's ranges.
pub proof fn law_every_literal_lies_in_a_range(s: Seq<i128>, overlap: int, i: int)
    requires
        overlap >= 0,
        0 <= i < s.len(),
    ensures
        in_some_group(contiguous_groups(sorted_copy(s), overlap), s[i] as int),
{
    lemma_sorted_copy_ensures(s);
    lemma_sorted_copy_contains(s, s[i]);
    let t = sorted_copy(s);
    assert(s.contains(s[i]));
    let k = choose|k: int| 0 <= k < t.len() && t[k] == s[i];
    lemma_sorted_value_in_group(t, overlap, k);
}

proof fn lemma_sorted_value_in_group(s: Seq<i128>, overlap: int, i: int)
    requires
        ascending(s),
        overlap >= 0,
        0 <= i < s.len(),
    ensures
        in_some_group(contiguous_groups(s, overlap), s[i] as int),
    decreases s.len(),
{
    let t = s.drop_last();
    let before = contiguous_groups(t, overlap);
    let groups = contiguous_groups(s, overlap);
    lemma_groups_shape(t, overlap);
    lemma_groups_shape(s, overlap);
    if i < s.len() - 1 {
        lemma_sorted_value_in_group(t, overlap, i);
        let k = choose|k: int|
            0 <= k < before.len() && (#[trigger] before[k]).0 <= t[i] <= before[k].1;
        assert(s[i] <= s.last());
        assert(groups[k].0 <= s[i] <= groups[k].1);
    } else {
        let k = groups.len() - 1;
        assert(groups[k].0 <= s[i] <= groups[k].1);
    }
}

/// The ranges of an `IN` list start and end with integers of the list, and any two of them are
/// separated by a gap of more than `overlap` integers.
pub proof fn law_ranges_are_separated(s: Seq<i128>, overlap: int)
    requires
        overlap >= 0,
    ensures
        ({
            let groups = contiguous_groups(sorted_copy(s), overlap);
            &&& forall|k: int|
                0 <= k < groups.len() ==> s.contains((#[trigger] groups[k]).0) && s.contains(
                    groups[k].1,
                ) && groups[k].0 <= groups[k].1
            &&& forall|j: int, k: int|
                0 <= j < k < groups.len() ==> (#[trigger] groups[k]).0 - (
                #[trigger] groups[j]).1 - 1 > overlap
        }),
{
    lemma_sorted_copy_ensures(s);
    let t = sorted_copy(s);
    let groups = contiguous_groups(t, overlap);
    lemma_groups_shape(t, overlap);
    assert forall|k: int| 0 <= k < groups.len() implies s.contains((#[trigger] groups[k]).0)
        && s.contains(groups[k].1) && groups[k].0 <= groups[k].1 by {
        lemma_group_ends_are_values(t, overlap, k);
        lemma_sorted_copy_contains(s, groups[k].0);
        lemma_sorted_copy_contains(s, groups[k].1);
    }
}

proof fn lemma_group_without_overlap_holds_values(s: Seq<i128>, k: int, x: int)
    requires
        ascending(s),
        0 <= k < contiguous_groups(s, 0).len(),
        contiguous_groups(s, 0)[k].0 <= x <= contiguous_groups(s, 0)[k].1,
    ensures
        s.contains(x as i128),
    decreases s.len(),
{
    let t = s.drop_last();
    let before = contiguous_groups(t, 0);
    let groups = contiguous_groups(s, 0);
    lemma_groups_shape(t, 0);
    assert(s[s.len() - 1] == s.last());
    if k < before.len() && x <= before[k].1 {
        lemma_group_without_overlap_holds_values(t, k, x);
        let i = choose|i: int| 0 <= i < t.len() && t[i] == x as i128;
        assert(s[i] == x as i128);
    } else {
        assert(x == s.last());
    }
}

/// Without overlap the ranges hold exactly the integers of the `IN` list.
pub proof fn law_ranges_without_overlap_are_exact(s: Seq<i128>, x: i128)
    ensures
        in_some_group(contiguous_groups(sorted_copy(s), 0), x as int) == s.contains(x),
{
    lemma_sorted_copy_ensures(s);
    lemma_sorted_copy_contains(s, x);
    let t = sorted_copy(s);
    let groups = contiguous_groups(t, 0);
    if in_some_group(groups, x as int) {
        let k = choose|k: int|
            0 <= k < groups.len() && (#[trigger] groups[k]).0 <= x <= groups[k].1;
        lemma_group_without_overlap_holds_values(t, k, x as int);
    }
    if s.contains(x) {
        let i = choose|i: int| 0 <= i < s.len() && s[i] == x;
        law_every_literal_lies_in_a_range(s, 0, i);
    }
}

proof fn lemma_literals_belong_to_their_types(members: Seq<Arc<PhysicalExpr>>)
    ensures
        literals(members) matches Some(lits) ==> forall|i: int|
            0 <= i < lits.len() ==> (#[trigger] lits[i]).wf(),
    decreases members.len(),
{
    if members.len() > 0 {
        lemma_literals_belong_to_their_types(members.drop_last());
    }
}

proof fn lemma_range_holds_between_its_ends(
    e: BinaryExpr,
    input: PhysicalExpr,
    lo: IntLiteral,
    hi: IntLiteral,
    row: Row,
)
    requires
        is_range_expr(e, input, lo, hi),
        lo.wf(),
        hi.wf(),
        lo.kind == hi.kind,
        outcome(input@, row) matches Datum::Int(v) ==> v.kind == lo.kind,
        outcome(input@, row) is Null || outcome(input@, row) is Int,
    ensures
        outcome(PhysicalExpr::Binary(e)@, row) == (match outcome(input@, row) {
            Datum::Int(v) => Datum::Bool(lo.value <= v.value <= hi.value),
            _ => Datum::Null,
        }),
{
    reveal_with_fuel(PhysicalExpr::view, 3);
    reveal_with_fuel(outcome, 4);
    assert(literal_datum(lo.scalar_spec()@, row) == Datum::Int(lo));
    assert(literal_datum(hi.scalar_spec()@, row) == Datum::Int(hi));
}

/// Every row that an `IN` list selects is selected by one of the list's ranges, and without overlap
/// no other row is.
pub proof fn law_ranges_select_the_rows_of_the_list(
    in_list: InListExpr,
    ranges: Seq<BinaryExpr>,
    overlap: int,
    row: Row,
)
    requires
        !in_list.negated,
        overlap >= 0,
        literals(in_list.list@) matches Some(lits) && lits.len() > 0 && one_kind(lits) && ({
            let groups = contiguous_groups(sorted_copy(values_of(lits)), overlap);
            &&& ranges.len() == groups.len()
            &&& forall|i: int|
                0 <= i < ranges.len() ==> is_range_expr(
                    #[trigger] ranges[i],
                    *in_list.expr,
                    (IntLiteral { kind: lits[0].kind, value: groups[i].0 }),
                    (IntLiteral { kind: lits[0].kind, value: groups[i].1 }),
                )
            &&& outcome(in_list.expr@, row) is Null || (outcome(
                in_list.expr@,
                row,
            ) matches Datum::Int(v) && v.kind == lits[0].kind)
        }),
    ensures
        outcome(PhysicalExpr::InList(in_list)@, row) == Datum::Bool(true) ==> exists|i: int|
            0 <= i < ranges.len() && outcome(PhysicalExpr::Binary(#[trigger] ranges[i])@, row)
                == Datum::Bool(true),
        overlap == 0 ==> forall|i: int|
            0 <= i < ranges.len() && outcome(PhysicalExpr::Binary(#[trigger] ranges[i])@, row)
                == Datum::Bool(true) ==> outcome(PhysicalExpr::InList(in_list)@, row)
                == Datum::Bool(true),
{
    let lits = literals(in_list.list@)->Some_0;
    let kind = lits[0].kind;
    let values = values_of(lits);
    let groups = contiguous_groups(sorted_copy(values), overlap);
    let value = outcome(in_list.expr@, row);
    let all = candidates(exprs_view(in_list.list@), row);
    lemma_literals_are_the_candidates(in_list.list@, row);
    lemma_literals_belong_to_their_types(in_list.list@);
    law_ranges_are_separated(values, overlap);
    assert forall|i: int| 0 <= i < ranges.len() implies outcome(
        PhysicalExpr::Binary(#[trigger] ranges[i])@,
        row,
    ) == (match value {
        Datum::Int(v) => Datum::Bool(groups[i].0 <= v.value <= groups[i].1),
        _ => Datum::Null,
    }) by {
        let (a, b) = groups[i];
        assert(values.contains(a) && values.contains(b));
        let j = choose|j: int| 0 <= j < values.len() && values[j] == a;
        let k = choose|k: int| 0 <= k < values.len() && values[k] == b;
        assert(lits[j].wf() && lits[k].wf());
        assert(lits[j].kind == kind && lits[k].kind == kind);
        lemma_range_holds_between_its_ends(
            ranges[i],
            *in_list.expr,
            IntLiteral { kind, value: a },
            IntLiteral { kind, value: b },
            row,
        );
    }
    if outcome(PhysicalExpr::InList(in_list)@, row) == Datum::Bool(true) {
        let j = choose|j: int| 0 <= j < all.len() && all[j] == value;
        assert(all[j] == Datum::Int(lits[j]));
        law_every_literal_lies_in_a_range(values, overlap, j);
        let i = choose|i: int|
            0 <= i < groups.len() && (#[trigger] groups[i]).0 <= values[j] <= groups[i].1;
        assert(outcome(PhysicalExpr::Binary(ranges[i])@, row) == Datum::Bool(true));
    }
    if overlap == 0 {
        assert forall|i: int|
            0 <= i < ranges.len() && outcome(PhysicalExpr::Binary(#[trigger] ranges[i])@, row)
                == Datum::Bool(true) implies outcome(PhysicalExpr::InList(in_list)@, row)
            == Datum::Bool(true) by {
            let v = value->Int_0;
            assert(groups[i].0 <= v.value <= groups[i].1);
            assert(in_some_group(groups, v.value as int));
            law_ranges_without_overlap_are_exact(values, v.value);
            let j = choose|j: int| 0 <= j < values.len() && values[j] == v.value;
            assert(lits[j].kind == kind);
            assert(all[j] == Datum::Int(lits[j]));
            assert(lits[j] == v);
        }
    }
}

/// A file is kept whenever its bounds enclose an integer of the list.
pub proof fn law_enclosed_literal_keeps_the_file(
    lits: Seq<IntLiteral>,
    min: ScalarValue,
    max: ScalarValue,
    i: int,
)
    requires
        0 <= i < lits.len(),
        one_kind(lits),
        min.int_literal_spec() matches Some(lo) && lo.kind == lits[i].kind && lo.value
            <= lits[i].value,
        max.int_literal_spec() matches Some(hi) && hi.kind == lits[i].kind && lits[i].value
            <= hi.value,
    ensures
        range_meets_literals(lits, min, max),
{
    assert(lits[i].kind == lits[0].kind);
}

proof fn lemma_gaps_in_a_group_are_narrow(s: Seq<i128>, overlap: int, k: int, x: int) -> (i: int)
    requires
        ascending(s),
        overlap >= 0,
        0 <= k < contiguous_groups(s, overlap).len(),
        contiguous_groups(s, overlap)[k].0 <= x <= contiguous_groups(s, overlap)[k].1,
    ensures
        0 <= i < s.len(),
        s[i] <= x <= s[i] + overlap,
    decreases s.len(),
{
    let t = s.drop_last();
    let before = contiguous_groups(t, overlap);
    lemma_groups_shape(t, overlap);
    if k < before.len() && x <= before[k].1 {
        lemma_gaps_in_a_group_are_narrow(t, overlap, k, x)
    } else if x == s.last() {
        s.len() - 1
    } else {
        assert(before[k].1 == t.last());
        assert(t.last() == s[s.len() - 2]);
        s.len() - 2
    }
}

/// A range has no gap of more than `overlap` integers: each integer of it is one of the list, or
/// follows one by at most `overlap`.
pub proof fn law_ranges_have_no_wide_gap(s: Seq<i128>, overlap: int, x: int)
    requires
        overlap >= 0,
        in_some_group(contiguous_groups(sorted_copy(s), overlap), x),
    ensures
        exists|i: int| 0 <= i < s.len() && #[trigger] s[i] <= x <= s[i] + overlap,
{
    lemma_sorted_copy_ensures(s);
    let t = sorted_copy(s);
    let groups = contiguous_groups(t, overlap);
    let k = choose|k: int| 0 <= k < groups.len() && (#[trigger] groups[k]).0 <= x <= groups[k].1;
    let j = lemma_gaps_in_a_group_are_narrow(t, overlap, k, x);
    lemma_sorted_copy_contains(s, t[j]);
    assert(t.contains(t[j]));
    let i = choose|i: int| 0 <= i < s.len() && s[i] == t[j];
    assert(s[i] <= x <= s[i] + overlap);
}

/// A file is excluded exactly if its bounds are integers of the type of the list and enclose none of
/// it. Bounds that say nothing of the list, and a list without integers, exclude nothing.
pub proof fn law_a_file_is_excluded_only_by_its_bounds(
    lits: Seq<IntLiteral>,
    min: ScalarValue,
    max: ScalarValue,
)
    requires
        one_kind(lits),
    ensures
        !range_meets_literals(lits, min, max) <==> {
            &&& min.int_literal_spec() matches Some(lo)
            &&& max.int_literal_spec() matches Some(hi)
            &&& lits.len() > 0
            &&& lo.kind == lits[0].kind && hi.kind == lits[0].kind
            &&& forall|i: int|
                0 <= i < lits.len() ==> (#[trigger] lits[i]).value < lo.value || lits[i].value
                    > hi.value
        },
{
    if lits.len() > 0 {
        assert(forall|i: int| 0 <= i < lits.len() ==> (#[trigger] lits[i]).kind == lits[0].kind);
    }
}

/// Whether a member of an `IN` list is an integer, or a list of integers of one of the types.
pub open spec fn is_integral(member: PhysicalExpr) -> bool {
    match member {
        PhysicalExpr::Literal(ScalarValue::Int32(v)) => v is Some,
        PhysicalExpr::Literal(ScalarValue::Int64(v)) => v is Some,
        PhysicalExpr::Literal(ScalarValue::UInt32(v)) => v is Some,
        PhysicalExpr::Literal(ScalarValue::UInt64(v)) => v is Some,
        PhysicalExpr::Literal(ScalarValue::List(list)) => !(list is Other),
        _ => false,
    }
}

/// A list is read exactly if each member of it is an integer or a list of integers.
pub proof fn law_what_can_be_read(list: Seq<Arc<PhysicalExpr>>)
    ensures
        literals(list) is Some <==> forall|i: int|
            0 <= i < list.len() ==> is_integral(*#[trigger] list[i]),
    decreases list.len(),
{
    if list.len() > 0 {
        let before = list.drop_last();
        law_what_can_be_read(before);
        assert(list[list.len() - 1] == list.last());
        if literals(list) is Some {
            assert forall|i: int| 0 <= i < list.len() implies is_integral(*#[trigger] list[i]) by {
                if i < before.len() {
                    assert(is_integral(*before[i]));
                }
            }
        } else if forall|i: int| 0 <= i < list.len() ==> is_integral(*#[trigger] list[i]) {
            assert forall|i: int| 0 <= i < before.len() implies is_integral(
                *#[trigger] before[i],
            ) by {
                assert(before[i] == list[i]);
            }
        }
    }
}

/// Two lists that are not negated and test the same are compacted into one, with the members of the
/// one before those of the other. A negated list, and any other operator than `OR`, stops it.
pub proof fn law_lists_over_one_expression_are_compacted(
    a: InListExpr,
    b: InListExpr,
    op: Operator,
)
    ensures
        ({
            let both = BinaryExpr {
                left: Arc::new(PhysicalExpr::InList(a)),
                op,
                right: Arc::new(PhysicalExpr::InList(b)),
            };
            &&& compacted(both) is Some <==> op == Operator::Or && !a.negated && !b.negated
                && a.expr@ == b.expr@ && a.list.len() + b.list.len() > 0
            &&& compacted(both) matches Some((target, members)) ==> target == *a.expr && members
                == a.list@ + b.list@
        }),
{
    reveal_with_fuel(single_list, 2);
    reveal_with_fuel(joined_list, 2);
}

} // verus!
