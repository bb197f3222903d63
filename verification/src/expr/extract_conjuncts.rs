//! The conjuncts of an expression.

use crate::expr::expression::{Expression, ExpressionView, Function, FunctionView, Operator};
use std::sync::Arc;
use vstd::arithmetic::power2::pow2;
use vstd::prelude::*;

verus! {

/// Whether the expression is a conjunction of two others.
pub open spec fn is_and(expr: ExpressionView) -> bool {
    expr.function == FunctionView::Binary(Operator::And) && expr.children.len() == 2
}

/// The conjuncts of an expression, from left to right.
pub open spec fn conjuncts_of(expr: ExpressionView) -> Seq<ExpressionView>
    decreases expr,
{
    if is_and(expr) {
        conjuncts_of(expr.children[0]) + conjuncts_of(expr.children[1])
    } else {
        seq![expr]
    }
}

/// How deep conjunctions are nested at the top of an expression.
pub open spec fn spine_depth(expr: ExpressionView) -> nat
    decreases expr,
{
    if is_and(expr) {
        let (l, r) = (spine_depth(expr.children[0]), spine_depth(expr.children[1]));
        1 + (if l > r {
            l
        } else {
            r
        })
    } else {
        0
    }
}

/// What expressions are.
pub open spec fn expressions_view(exprs: Seq<Arc<Expression>>) -> Seq<ExpressionView> {
    Seq::new(exprs.len(), |i: int| exprs[i]@)
}

/// Returns the conjuncts of an expression, from left to right.
pub fn conjuncts(expr: &Arc<Expression>) -> (r: Vec<Arc<Expression>>)
    requires
        expr@.wf(),
        spine_depth(expr@) <= usize::MAX,
    ensures
        expressions_view(r@) == conjuncts_of(expr@),
{
    conjuncts_with_spine_depth(expr).0
}

/// Returns the conjuncts of an expression, with how deep the conjunctions were nested in which they
/// were found.
///
/// By the depth a caller tells a tree that is no deeper than a balanced one from a long chain,
/// without building the balanced one.
pub fn conjuncts_with_spine_depth(expr: &Arc<Expression>) -> (r: (Vec<Arc<Expression>>, usize))
    requires
        expr@.wf(),
        spine_depth(expr@) <= usize::MAX,
    ensures
        expressions_view(r.0@) == conjuncts_of(expr@),
        r.1 == spine_depth(expr@),
{
    let mut found: Vec<Arc<Expression>> = Vec::new();
    let depth: usize = conjuncts_impl(expr, &mut found, 0);
    assert(expressions_view(found@) =~= conjuncts_of(expr@));
    (found, depth)
}

/// Appends the conjuncts of an expression that lies in so many conjunctions, and returns how deep
/// they are nested.
fn conjuncts_impl(expr: &Arc<Expression>, found: &mut Vec<Arc<Expression>>, depth: usize) -> (r:
    usize)
    requires
        expr@.wf(),
        depth + spine_depth(expr@) <= usize::MAX,
    ensures
        expressions_view(final(found)@) == expressions_view(old(found)@) + conjuncts_of(expr@),
        r == depth + spine_depth(expr@),
    decreases expr,
{
    let and: bool = match expr.function {
        Function::Binary(Operator::And) => true,
        _ => false,
    };
    if and {
        assert(expr@.children.len() == 2);
        assert(expr.children@.len() == 2);
        assert(decreases_to!(*expr => expr.children));
        assert(decreases_to!(expr.children@ => expr.children@[0]));
        assert(decreases_to!(expr.children@ => expr.children@[1]));
        assert(expr.children@[0]@ == expr@.children[0]);
        assert(expr.children@[1]@ == expr@.children[1]);
        let lhs: usize = conjuncts_impl(&expr.children[0], found, depth + 1);
        let rhs: usize = conjuncts_impl(&expr.children[1], found, depth + 1);
        assert(expressions_view(found@) =~= expressions_view(old(found)@) + conjuncts_of(expr@));
        if lhs > rhs {
            lhs
        } else {
            rhs
        }
    } else {
        found.push(Arc::clone(expr));
        assert(expressions_view(found@) =~= expressions_view(old(found)@) + conjuncts_of(expr@));
        depth
    }
}

/// Returns how deep conjunctions are nested in a balanced tree over `n` conjuncts.
pub fn balanced_spine_depth(n: usize) -> (r: usize)
    ensures
        n <= pow2(r as nat),
        r > 0 ==> pow2((r - 1) as nat) < n,
{
    let mut rest: usize = if n == 0 {
        0
    } else {
        n - 1
    };
    let ghost most: int = rest as int;
    let mut depth: usize = 0;
    proof {
        vstd::arithmetic::power2::lemma2_to64();
    }
    while rest > 0
        invariant
            depth + rest <= most,
            rest * pow2(depth as nat) <= most < (rest + 1) * pow2(depth as nat),
            depth > 0 ==> pow2((depth - 1) as nat) <= most,
            0 <= most <= usize::MAX,
        decreases rest,
    {
        let half: usize = rest / 2;
        proof {
            vstd::arithmetic::power2::lemma_pow2_unfold((depth + 1) as nat);
            vstd::arithmetic::power2::lemma_pow2_pos(depth as nat);
            let p = pow2(depth as nat) as int;
            let (a, h) = (rest as int, half as int);
            assert(pow2((depth + 1) as nat) == 2 * p);
            assert(h * (2 * p) <= most < (h + 1) * (2 * p)) by (nonlinear_arith)
                requires
                    a * p <= most < (a + 1) * p,
                    h * 2 <= a,
                    a <= h * 2 + 1,
                    p > 0,
            ;
            assert(p <= most) by (nonlinear_arith)
                requires
                    a * p <= most,
                    a >= 1,
                    p > 0,
            ;
        }
        rest = half;
        depth += 1;
    }
    assert((rest + 1) * pow2(depth as nat) == pow2(depth as nat)) by (nonlinear_arith)
        requires
            rest == 0,
    ;
    depth
}

/// Whether an expression holds where `truth` tells which of the expressions that are no conjunction
/// hold.
pub open spec fn holds(expr: ExpressionView, truth: spec_fn(ExpressionView) -> bool) -> bool
    decreases expr,
{
    if is_and(expr) {
        holds(expr.children[0], truth) && holds(expr.children[1], truth)
    } else {
        truth(expr)
    }
}

/// An expression holds exactly where all its conjuncts do.
pub proof fn law_conjuncts_together_are_the_expression(
    expr: ExpressionView,
    truth: spec_fn(ExpressionView) -> bool,
)
    ensures
        holds(expr, truth) <==> forall|i: int|
            0 <= i < conjuncts_of(expr).len() ==> truth(#[trigger] conjuncts_of(expr)[i]),
    decreases expr,
{
    if is_and(expr) {
        let (l, r) = (conjuncts_of(expr.children[0]), conjuncts_of(expr.children[1]));
        law_conjuncts_together_are_the_expression(expr.children[0], truth);
        law_conjuncts_together_are_the_expression(expr.children[1], truth);
        let all = conjuncts_of(expr);
        assert(forall|i: int| 0 <= i < l.len() ==> #[trigger] l[i] == all[i]);
        assert(forall|i: int| 0 <= i < r.len() ==> #[trigger] r[i] == all[l.len() + i]);
        if holds(expr, truth) {
            assert forall|i: int| 0 <= i < all.len() implies truth(#[trigger] all[i]) by {
                if i < l.len() {
                    assert(truth(l[i]));
                } else {
                    assert(truth(r[i - l.len()]));
                }
            }
        }
    } else {
        assert(conjuncts_of(expr)[0] == expr);
    }
}

/// No conjunct is itself a conjunction.
pub proof fn law_no_conjunct_is_a_conjunction(expr: ExpressionView, i: int)
    requires
        0 <= i < conjuncts_of(expr).len(),
    ensures
        !is_and(conjuncts_of(expr)[i]),
    decreases expr,
{
    if is_and(expr) {
        let l = conjuncts_of(expr.children[0]);
        if i < l.len() {
            law_no_conjunct_is_a_conjunction(expr.children[0], i);
        } else {
            law_no_conjunct_is_a_conjunction(expr.children[1], i - l.len());
        }
    }
}

/// An expression whose conjunctions are nested `d` deep has at most two to the power of `d`
/// conjuncts, so none with as many conjuncts is nested less deep than a balanced tree.
pub proof fn law_no_tree_is_shallower_than_a_balanced_one(expr: ExpressionView)
    ensures
        1 <= conjuncts_of(expr).len() <= pow2(spine_depth(expr)),
    decreases expr,
{
    if is_and(expr) {
        let (a, b) = (expr.children[0], expr.children[1]);
        law_no_tree_is_shallower_than_a_balanced_one(a);
        law_no_tree_is_shallower_than_a_balanced_one(b);
        let (l, r) = (spine_depth(a), spine_depth(b));
        let m = if l > r {
            l
        } else {
            r
        };
        lemma_pow2_grows(l, m);
        lemma_pow2_grows(r, m);
        vstd::arithmetic::power2::lemma_pow2_unfold(m + 1);
    } else {
        vstd::arithmetic::power2::lemma2_to64();
    }
}

proof fn lemma_pow2_grows(a: nat, b: nat)
    requires
        a <= b,
    ensures
        pow2(a) <= pow2(b),
    decreases b - a,
{
    if a < b {
        lemma_pow2_grows(a, (b - 1) as nat);
        vstd::arithmetic::power2::lemma_pow2_unfold(b);
    }
}

/// The conjuncts of a conjunction are those of its left side and then those of its right side.
pub proof fn law_conjuncts_come_from_left_to_right(left: ExpressionView, right: ExpressionView)
    ensures
        ({
            let both = ExpressionView {
                function: FunctionView::Binary(Operator::And),
                children: seq![left, right],
            };
            conjuncts_of(both) == conjuncts_of(left) + conjuncts_of(right)
        }),
{
}

/// An expression that is no conjunction is its own and only conjunct.
pub proof fn law_another_expression_is_its_own_conjunct(expr: ExpressionView)
    requires
        !(expr.function matches FunctionView::Binary(Operator::And) && expr.children.len() == 2),
    ensures
        conjuncts_of(expr) == seq![expr],
        spine_depth(expr) == 0,
{
}

/// Whether a way down an expression, to the left or to the right at each step, goes through
/// conjunctions only.
pub open spec fn through_conjunctions(expr: ExpressionView, way: Seq<bool>) -> bool
    decreases way.len(),
{
    way.len() == 0 || (is_and(expr) && through_conjunctions(
        expr.children[if way[0] {
            1
        } else {
            0
        }],
        way.drop_first(),
    ))
}

/// Conjunctions are nested as deep as the longest way through them goes: there is a way of that
/// length, and none that is longer.
pub proof fn law_the_depth_is_that_of_the_longest_way(expr: ExpressionView, way: Seq<bool>) -> (longest:
    Seq<bool>)
    ensures
        through_conjunctions(expr, way) ==> way.len() <= spine_depth(expr),
        through_conjunctions(expr, longest),
        longest.len() == spine_depth(expr),
    decreases expr,
{
    if is_and(expr) {
        let next = if way.len() > 0 {
            way.drop_first()
        } else {
            way
        };
        let left = law_the_depth_is_that_of_the_longest_way(expr.children[0], next);
        let right = law_the_depth_is_that_of_the_longest_way(expr.children[1], next);
        let longest = if spine_depth(expr.children[0]) > spine_depth(expr.children[1]) {
            seq![false] + left
        } else {
            seq![true] + right
        };
        assert(longest.drop_first() =~= if longest[0] {
            right
        } else {
            left
        });
        longest
    } else {
        Seq::empty()
    }
}

/// A balanced tree is nested as little as any tree over as many conjuncts can be: just as deep as it
/// takes to have room for them.
pub proof fn law_a_balanced_tree_has_the_least_depth(n: usize, depth: usize, other: nat)
    requires
        call_ensures(balanced_spine_depth, (n,), depth),
    ensures
        n <= pow2(depth as nat),
        n <= pow2(other) ==> depth <= other,
{
    if n <= pow2(other) && other < depth {
        lemma_pow2_grows(other, (depth - 1) as nat);
    }
}

} // verus!
