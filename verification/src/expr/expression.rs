//! The tree that an expression is.

use crate::dtype::{DTypeView, Nullability, PType};
use crate::scalar::{PValue, Scalar, ScalarView, ValueView};
use crate::text::{signed_decimal, signed_decimal_string};
use std::sync::Arc;
use vstd::prelude::*;

verus! {

/// An operator with two operands.
#[derive(Clone, Copy, Debug, PartialEq, Eq, Structural)]
pub enum Operator {
    Eq,
    NotEq,
    Gt,
    Gte,
    Lt,
    Lte,
    And,
    Or,
    Add,
    Sub,
    Mul,
    Div,
}

impl Operator {
    /// How the operator is written.
    pub open spec fn symbol_spec(self) -> Seq<char> {
        match self {
            Operator::Eq => "="@,
            Operator::NotEq => "!="@,
            Operator::Gt => ">"@,
            Operator::Gte => ">="@,
            Operator::Lt => "<"@,
            Operator::Lte => "<="@,
            Operator::And => "and"@,
            Operator::Or => "or"@,
            Operator::Add => "+"@,
            Operator::Sub => "-"@,
            Operator::Mul => "*"@,
            Operator::Div => "/"@,
        }
    }

    /// Returns how the operator is written.
    pub fn symbol(&self) -> (r: &'static str)
        ensures
            r@ == self.symbol_spec(),
    {
        match self {
            Operator::Eq => "=",
            Operator::NotEq => "!=",
            Operator::Gt => ">",
            Operator::Gte => ">=",
            Operator::Lt => "<",
            Operator::Lte => "<=",
            Operator::And => "and",
            Operator::Or => "or",
            Operator::Add => "+",
            Operator::Sub => "-",
            Operator::Mul => "*",
            Operator::Div => "/",
        }
    }
}

/// How many branches a `CASE` has.
#[derive(Clone, Copy, Debug, PartialEq, Eq, Structural)]
pub struct CaseWhenOptions {
    /// The number of pairs of a condition and a value. Each pair is two children.
    pub num_when_then_pairs: u32,
    /// Whether there is a value for the rows that no condition matches. It is the last child.
    pub has_else: bool,
}

/// What a node of an expression does with its children.
#[derive(Debug)]
pub enum Function {
    /// The input itself.
    Root,
    /// A field of the child.
    GetItem(String),
    /// A constant, with how it is written.
    Literal(Scalar, String),
    /// An operator on two children.
    Binary(Operator),
    /// Whether the first child, a list, contains the second.
    ListContains,
    /// The value of the first condition that holds.
    CaseWhen(CaseWhenOptions),
    /// A comparison with a value that changes while the expression is in use. It is told from
    /// others by its number.
    DynamicComparison(u64),
}

/// What a `Function` is.
pub enum FunctionView {
    Root,
    GetItem(Seq<char>),
    Literal(ScalarView, Seq<char>),
    Binary(Operator),
    ListContains,
    CaseWhen(CaseWhenOptions),
    DynamicComparison(u64),
}

impl Function {
    /// The function itself.
    pub open spec fn view(&self) -> FunctionView {
        match self {
            Function::Root => FunctionView::Root,
            Function::GetItem(name) => FunctionView::GetItem(name@),
            Function::Literal(value, text) => FunctionView::Literal(value@, text@),
            Function::Binary(operator) => FunctionView::Binary(*operator),
            Function::ListContains => FunctionView::ListContains,
            Function::CaseWhen(options) => FunctionView::CaseWhen(*options),
            Function::DynamicComparison(id) => FunctionView::DynamicComparison(*id),
        }
    }

    /// Returns a copy of the function.
    pub fn duplicate(&self) -> (r: Function)
        ensures
            r@ == self@,
    {
        match self {
            Function::Root => Function::Root,
            Function::GetItem(name) => Function::GetItem(name.clone()),
            Function::Literal(value, text) => Function::Literal(value.duplicate(), text.clone()),
            Function::Binary(operator) => Function::Binary(*operator),
            Function::ListContains => Function::ListContains,
            Function::CaseWhen(options) => Function::CaseWhen(*options),
            Function::DynamicComparison(id) => Function::DynamicComparison(*id),
        }
    }

    /// Returns whether the function takes so many children.
    pub fn takes(&self, children: usize) -> (r: bool)
        ensures
            r == (children == self@.arity()),
    {
        match self {
            Function::Root => children == 0,
            Function::GetItem(_) => children == 1,
            Function::Literal(..) => children == 0,
            Function::Binary(_) => children == 2,
            Function::ListContains => children == 2,
            Function::CaseWhen(options) => {
                let pairs: u64 = options.num_when_then_pairs as u64;
                let rest: u64 = if options.has_else {
                    1
                } else {
                    0
                };
                children as u64 == 2 * pairs + rest
            },
            Function::DynamicComparison(_) => children == 1,
        }
    }

    /// Returns whether the functions are the same.
    pub fn equals(&self, other: &Function) -> (r: bool)
        ensures
            r == (self@ == other@),
    {
        match (self, other) {
            (Function::Root, Function::Root) => true,
            (Function::GetItem(a), Function::GetItem(b)) => *a == *b,
            (Function::Literal(a, s), Function::Literal(b, t)) => a.dtype.equals(&b.dtype)
                && a.equals(b) && *s == *t,
            (Function::Binary(a), Function::Binary(b)) => *a == *b,
            (Function::ListContains, Function::ListContains) => true,
            (Function::CaseWhen(a), Function::CaseWhen(b)) => *a == *b,
            (Function::DynamicComparison(a), Function::DynamicComparison(b)) => *a == *b,
            _ => false,
        }
    }
}

impl FunctionView {
    /// The number of children that the function takes.
    pub open spec fn arity(self) -> int {
        match self {
            FunctionView::Root => 0,
            FunctionView::GetItem(_) => 1,
            FunctionView::Literal(..) => 0,
            FunctionView::Binary(_) => 2,
            FunctionView::ListContains => 2,
            FunctionView::CaseWhen(options) => 2 * options.num_when_then_pairs + (
            if options.has_else {
                1int
            } else {
                0
            }),
            FunctionView::DynamicComparison(_) => 1,
        }
    }
}

/// A function with what it is applied to.
#[derive(Debug)]
pub struct Expression {
    pub function: Function,
    pub children: Vec<Arc<Expression>>,
}

/// What an `Expression` is.
pub struct ExpressionView {
    pub function: FunctionView,
    pub children: Seq<ExpressionView>,
}

impl ExpressionView {
    /// Whether each function in the expression has the children that it takes.
    pub open spec fn wf(self) -> bool
        decreases self,
    {
        &&& self.children.len() == self.function.arity()
        &&& forall|i: int| 0 <= i < self.children.len() ==> (#[trigger] self.children[i]).wf()
    }

    /// Whether the value of the expression can change while it is in use.
    pub open spec fn contains_dynamic(self) -> bool
        decreases self,
    {
        ||| self.function is DynamicComparison
        ||| exists|i: int|
            0 <= i < self.children.len() && (#[trigger] self.children[i]).contains_dynamic()
    }
}

impl Expression {
    /// The expression itself.
    pub open spec fn view(&self) -> ExpressionView
        decreases self,
    {
        ExpressionView {
            function: self.function@,
            children: Seq::new(
                self.children@.len(),
                |i: int|
                    if 0 <= i < self.children@.len() {
                        self.children@[i].view()
                    } else {
                        arbitrary()
                    },
            ),
        }
    }

    /// Returns whether the expressions are the same.
    pub fn equals(&self, other: &Expression) -> (r: bool)
        ensures
            r == (self@ == other@),
        decreases self,
    {
        if !self.function.equals(&other.function) {
            return false;
        }
        if self.children.len() != other.children.len() {
            assert(self@.children.len() != other@.children.len());
            return false;
        }
        let mut i: usize = 0;
        while i < self.children.len()
            invariant
                0 <= i <= self.children.len(),
                self.children.len() == other.children.len(),
                forall|j: int| 0 <= j < i ==> #[trigger] self@.children[j] == other@.children[j],
            decreases self.children.len() - i,
        {
            assert(decreases_to!(*self => self.children));
            assert(decreases_to!(self.children@ => self.children@[i as int]));
            if !self.children[i].equals(&other.children[i]) {
                assert(self@.children[i as int] != other@.children[i as int]);
                return false;
            }
            i += 1;
        }
        assert(self@.children =~= other@.children);
        true
    }

    /// Returns the same function applied to other children, if it takes so many.
    pub fn with_children(&self, children: Vec<Arc<Expression>>) -> (r: Option<Arc<Expression>>)
        ensures
            r is Some <==> children@.len() == self@.function.arity(),
            r matches Some(e) ==> e@ == (ExpressionView {
                function: self@.function,
                children: Seq::new(children@.len(), |i: int| children@[i]@),
            }),
    {
        if !self.function.takes(children.len()) {
            return None;
        }
        let r = Expression { function: self.function.duplicate(), children };
        assert(r@.children =~= Seq::new(children@.len(), |i: int| children@[i]@));
        Some(Arc::new(r))
    }

    /// Returns whether the value of the expression can change while it is in use.
    pub fn contains_dynamic(&self) -> (r: bool)
        ensures
            r == self@.contains_dynamic(),
        decreases self,
    {
        match self.function {
            Function::DynamicComparison(_) => {
                return true;
            },
            _ => {},
        }
        let mut i: usize = 0;
        while i < self.children.len()
            invariant
                0 <= i <= self.children.len(),
                !(self@.function is DynamicComparison),
                forall|j: int| 0 <= j < i ==> !(#[trigger] self@.children[j]).contains_dynamic(),
            decreases self.children.len() - i,
        {
            assert(decreases_to!(*self => self.children));
            assert(decreases_to!(self.children@ => self.children@[i as int]));
            if self.children[i].contains_dynamic() {
                assert(self@.children[i as int].contains_dynamic());
                return true;
            }
            i += 1;
        }
        false
    }
}

/// Returns the input itself.
pub fn root() -> (r: Arc<Expression>)
    ensures
        r@ == (ExpressionView { function: FunctionView::Root, children: Seq::empty() }),
{
    let r = Expression { function: Function::Root, children: Vec::new() };
    assert(r@.children =~= Seq::empty());
    Arc::new(r)
}

/// Returns a field of an expression.
pub fn get_item(name: &str, child: Arc<Expression>) -> (r: Arc<Expression>)
    ensures
        r@ == (ExpressionView {
            function: FunctionView::GetItem(name@),
            children: seq![child@],
        }),
{
    let r = Expression { function: Function::GetItem(name.to_owned()), children: vec![child] };
    assert(r@.children =~= seq![child@]);
    Arc::new(r)
}

/// Returns a constant, with how it is written.
pub fn literal(value: Scalar, text: String) -> (r: Arc<Expression>)
    ensures
        r@ == (ExpressionView {
            function: FunctionView::Literal(value@, text@),
            children: Seq::empty(),
        }),
{
    let r = Expression { function: Function::Literal(value, text), children: Vec::new() };
    assert(r@.children =~= Seq::empty());
    Arc::new(r)
}

/// Returns a constant of 32 bits.
pub fn lit_i32(value: i32) -> (r: Arc<Expression>)
    ensures
        r@ == (ExpressionView {
            function: FunctionView::Literal(
                ScalarView {
                    dtype: DTypeView::Primitive(PType::I32, Nullability::NonNullable),
                    value: Some(ValueView::Primitive(PValue::I32(value))),
                },
                signed_decimal(value as int) + "i32"@,
            ),
            children: Seq::empty(),
        }),
{
    let mut text = signed_decimal_string(value as i64);
    text.append("i32");
    literal(Scalar::primitive(PValue::I32(value), Nullability::NonNullable), text)
}

/// Returns an operator on two expressions.
pub fn binary(operator: Operator, lhs: Arc<Expression>, rhs: Arc<Expression>) -> (r: Arc<
    Expression,
>)
    ensures
        r@ == (ExpressionView {
            function: FunctionView::Binary(operator),
            children: seq![lhs@, rhs@],
        }),
{
    let r = Expression { function: Function::Binary(operator), children: vec![lhs, rhs] };
    assert(r@.children =~= seq![lhs@, rhs@]);
    Arc::new(r)
}

/// Returns whether a list contains a value.
pub fn list_contains(list: Arc<Expression>, needle: Arc<Expression>) -> (r: Arc<Expression>)
    ensures
        r@ == (ExpressionView {
            function: FunctionView::ListContains,
            children: seq![list@, needle@],
        }),
{
    let r = Expression { function: Function::ListContains, children: vec![list, needle] };
    assert(r@.children =~= seq![list@, needle@]);
    Arc::new(r)
}

/// Returns a comparison with a value that changes.
pub fn dynamic(id: u64, child: Arc<Expression>) -> (r: Arc<Expression>)
    ensures
        r@ == (ExpressionView {
            function: FunctionView::DynamicComparison(id),
            children: seq![child@],
        }),
{
    let r = Expression { function: Function::DynamicComparison(id), children: vec![child] };
    assert(r@.children =~= seq![child@]);
    Arc::new(r)
}

/// What stands in an expression at the end of a way down, by the places of the children.
pub open spec fn part_at(expr: ExpressionView, way: Seq<int>) -> Option<ExpressionView>
    decreases way.len(),
{
    if way.len() == 0 {
        Some(expr)
    } else if 0 <= way[0] < expr.children.len() {
        part_at(expr.children[way[0]], way.drop_first())
    } else {
        None
    }
}

/// The value of an expression can change exactly if some part of it is a comparison with a value
/// that changes, however deep.
pub proof fn law_what_can_change_has_a_changing_part(expr: ExpressionView, way: Seq<int>) -> (found:
    Seq<int>)
    ensures
        part_at(expr, way) matches Some(part) ==> part.function is DynamicComparison
            ==> expr.contains_dynamic(),
        expr.contains_dynamic() ==> (part_at(expr, found) matches Some(part)
            && part.function is DynamicComparison),
    decreases expr,
{
    if way.len() > 0 && 0 <= way[0] < expr.children.len() {
        let _ = law_what_can_change_has_a_changing_part(
            expr.children[way[0]],
            way.drop_first(),
        );
    }
    if expr.contains_dynamic() && !(expr.function is DynamicComparison) {
        let i = choose|i: int|
            0 <= i < expr.children.len() && (#[trigger] expr.children[i]).contains_dynamic();
        let below = law_what_can_change_has_a_changing_part(expr.children[i], Seq::empty());
        let found = seq![i] + below;
        assert(found.drop_first() =~= below);
        found
    } else {
        Seq::empty()
    }
}

/// No two operators are written alike.
pub proof fn law_operators_are_told_apart(a: Operator, b: Operator)
    ensures
        a.symbol_spec() == b.symbol_spec() ==> a == b,
{
    reveal_strlit("=");
    reveal_strlit("!=");
    reveal_strlit(">");
    reveal_strlit(">=");
    reveal_strlit("<");
    reveal_strlit("<=");
    reveal_strlit("and");
    reveal_strlit("or");
    reveal_strlit("+");
    reveal_strlit("-");
    reveal_strlit("*");
    reveal_strlit("/");
    if a.symbol_spec() == b.symbol_spec() {
        assert(a.symbol_spec()[0] == b.symbol_spec()[0]);
        assert(a.symbol_spec().len() == b.symbol_spec().len());
    }
}

} // verus!
