//! How an expression is written.

use crate::expr::case_when::{sql_text, texts_view, CaseWhen};
use crate::expr::expression::{Expression, ExpressionView, Function, FunctionView, Operator};
use vstd::prelude::*;

verus! {

/// How expressions are written.
pub open spec fn texts_of(exprs: Seq<ExpressionView>) -> Seq<Seq<char>>
    decreases exprs,
{
    Seq::new(
        exprs.len(),
        |i: int|
            if 0 <= i < exprs.len() {
                text_of(exprs[i])
            } else {
                Seq::empty()
            },
    )
}

/// How an expression is written.
pub open spec fn text_of(expr: ExpressionView) -> Seq<char>
    decreases expr,
{
    let children = texts_of(expr.children);
    match expr.function {
        FunctionView::Root => "$"@,
        FunctionView::GetItem(name) => children[0] + "."@ + name,
        FunctionView::Literal(_, text) => text,
        FunctionView::Binary(operator) => "("@ + children[0] + " "@ + operator.symbol_spec() + " "@
            + children[1] + ")"@,
        FunctionView::ListContains => "vortex.list.contains("@ + children[0] + ", "@ + children[1]
            + ")"@,
        FunctionView::CaseWhen(options) => sql_text(options, children),
        FunctionView::DynamicComparison(_) => "vortex.dynamic("@ + children[0] + ")"@,
    }
}

impl Expression {
    /// Returns how the expression is written.
    pub fn to_string(&self) -> (r: String)
        requires
            self@.wf(),
        ensures
            r@ == text_of(self@),
        decreases self,
    {
        let mut texts: Vec<String> = Vec::new();
        let ghost children = texts_of(self@.children);
        let mut i: usize = 0;
        while i < self.children.len()
            invariant
                0 <= i <= self.children.len(),
                self@.wf(),
                children == texts_of(self@.children),
                texts@.len() == i,
                forall|j: int| 0 <= j < i ==> (#[trigger] texts@[j])@ == children[j],
            decreases self.children.len() - i,
        {
            assert(decreases_to!(*self => self.children));
            assert(decreases_to!(self.children@ => self.children@[i as int]));
            assert(self@.children[i as int].wf());
            texts.push(self.children[i].to_string());
            i += 1;
        }
        assert(texts_view(texts@) =~= children);
        let mut s: String = String::new();
        match &self.function {
            Function::Root => {
                s.append("$");
            },
            Function::GetItem(name) => {
                s.append(texts[0].as_str());
                s.append(".");
                s.append(name.as_str());
            },
            Function::Literal(_, text) => {
                s.append(text.as_str());
            },
            Function::Binary(operator) => {
                s.append("(");
                s.append(texts[0].as_str());
                s.append(" ");
                s.append(operator.symbol());
                s.append(" ");
                s.append(texts[1].as_str());
                s.append(")");
            },
            Function::ListContains => {
                s.append("vortex.list.contains(");
                s.append(texts[0].as_str());
                s.append(", ");
                s.append(texts[1].as_str());
                s.append(")");
            },
            Function::CaseWhen(options) => {
                s = CaseWhen.fmt_sql(options, &texts);
            },
            Function::DynamicComparison(_) => {
                s.append("vortex.dynamic(");
                s.append(texts[0].as_str());
                s.append(")");
            },
        }
        assert(s@ =~= text_of(self@));
        s
    }
}

/// An expression is written with its parts in it as they are written by themselves, from left to
/// right: a field behind what it is taken of, an operator between its two sides.
pub proof fn law_parts_are_written_as_they_are(
    a: ExpressionView,
    b: ExpressionView,
    name: Seq<char>,
    operator: Operator,
    field: ExpressionView,
    both: ExpressionView,
    contains: ExpressionView,
)
    requires
        field == (ExpressionView { function: FunctionView::GetItem(name), children: seq![a] }),
        both == (ExpressionView { function: FunctionView::Binary(operator), children: seq![a, b] }),
        contains == (ExpressionView { function: FunctionView::ListContains, children: seq![a, b] }),
    ensures
        text_of(field).len() == text_of(a).len() + 1 + name.len(),
        text_of(field).take(text_of(a).len() as int) == text_of(a),
        text_of(field).skip(text_of(a).len() + 1int) == name,
        text_of(both).len() == text_of(a).len() + operator.symbol_spec().len() + text_of(b).len()
            + 4,
        text_of(both).subrange(1, text_of(a).len() + 1int) == text_of(a),
        text_of(both).subrange(
            text_of(a).len() + 2int,
            text_of(a).len() + 2int + operator.symbol_spec().len(),
        ) == operator.symbol_spec(),
        text_of(both).subrange(
            text_of(both).len() - 1 - text_of(b).len(),
            text_of(both).len() - 1,
        ) == text_of(b),
        text_of(both)[0] == '(',
        text_of(both).last() == ')',
        text_of(contains) == "vortex.list.contains("@ + text_of(a) + ", "@ + text_of(b) + ")"@,
{
    reveal_with_fuel(text_of, 2);
    reveal_with_fuel(texts_of, 2);
    reveal_strlit("(");
    reveal_strlit(")");
    reveal_strlit(" ");
    reveal_strlit(".");
    assert(texts_of(field.children)[0] == text_of(a));
    assert(texts_of(both.children)[0] == text_of(a));
    assert(texts_of(both.children)[1] == text_of(b));
    assert(texts_of(contains.children)[0] == text_of(a));
    assert(texts_of(contains.children)[1] == text_of(b));
    assert(text_of(field) == text_of(a) + "."@ + name);
}

} // verus!
