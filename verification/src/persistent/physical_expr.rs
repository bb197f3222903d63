//! The physical expressions that a scan's dynamic filter is made of.

use std::sync::Arc;
use vstd::prelude::*;

verus! {

/// The integer types whose literals can be grouped into ranges.
#[derive(Clone, Copy, Debug, PartialEq, Eq, Structural)]
pub enum IntKind {
    Int32,
    Int64,
    UInt32,
    UInt64,
}

impl IntKind {
    /// The least value of the type.
    pub open spec fn least(self) -> int {
        match self {
            IntKind::Int32 => i32::MIN as int,
            IntKind::Int64 => i64::MIN as int,
            IntKind::UInt32 => 0,
            IntKind::UInt64 => 0,
        }
    }

    /// The greatest value of the type.
    pub open spec fn greatest(self) -> int {
        match self {
            IntKind::Int32 => i32::MAX as int,
            IntKind::Int64 => i64::MAX as int,
            IntKind::UInt32 => u32::MAX as int,
            IntKind::UInt64 => u64::MAX as int,
        }
    }

    /// Whether the type can hold `value`.
    pub open spec fn holds(self, value: int) -> bool {
        self.least() <= value <= self.greatest()
    }
}

/// The values of a list literal, as far as the scan can read them.
#[derive(Debug)]
pub enum ListValue {
    Int32(Vec<i32>),
    Int64(Vec<i64>),
    UInt32(Vec<u32>),
    UInt64(Vec<u64>),
    /// A list of some other type, by a number that equal lists share.
    Other(u64),
}

/// A literal value. `None` stands for a null of the type.
#[derive(Debug)]
pub enum ScalarValue {
    Boolean(Option<bool>),
    Int32(Option<i32>),
    Int64(Option<i64>),
    UInt32(Option<u32>),
    UInt64(Option<u64>),
    List(ListValue),
    /// A value of some other type, by a number that equal values share.
    Other(u64),
}

/// A literal of one of the integer types, with its value.
#[derive(Clone, Copy, Debug, PartialEq, Eq, Structural)]
pub struct IntLiteral {
    pub kind: IntKind,
    pub value: i128,
}

impl IntLiteral {
    /// Whether the value belongs to the type.
    pub open spec fn wf(self) -> bool {
        self.kind.holds(self.value as int)
    }

    /// The scalar that holds this literal.
    pub open spec fn scalar_spec(self) -> ScalarValue {
        match self.kind {
            IntKind::Int32 => ScalarValue::Int32(Some(self.value as i32)),
            IntKind::Int64 => ScalarValue::Int64(Some(self.value as i64)),
            IntKind::UInt32 => ScalarValue::UInt32(Some(self.value as u32)),
            IntKind::UInt64 => ScalarValue::UInt64(Some(self.value as u64)),
        }
    }

    /// Returns the scalar that holds this literal.
    pub fn scalar(&self) -> (r: ScalarValue)
        requires
            self.wf(),
        ensures
            r == self.scalar_spec(),
            r.int_literal_spec() == Some(*self),
    {
        match self.kind {
            IntKind::Int32 => ScalarValue::Int32(Some(self.value as i32)),
            IntKind::Int64 => ScalarValue::Int64(Some(self.value as i64)),
            IntKind::UInt32 => ScalarValue::UInt32(Some(self.value as u32)),
            IntKind::UInt64 => ScalarValue::UInt64(Some(self.value as u64)),
        }
    }
}

impl ScalarValue {
    /// The integer literal that the scalar is: none for a null, a list or another type.
    pub open spec fn int_literal_spec(self) -> Option<IntLiteral> {
        match self {
            ScalarValue::Int32(Some(v)) => Some(
                IntLiteral { kind: IntKind::Int32, value: v as i128 },
            ),
            ScalarValue::Int64(Some(v)) => Some(
                IntLiteral { kind: IntKind::Int64, value: v as i128 },
            ),
            ScalarValue::UInt32(Some(v)) => Some(
                IntLiteral { kind: IntKind::UInt32, value: v as i128 },
            ),
            ScalarValue::UInt64(Some(v)) => Some(
                IntLiteral { kind: IntKind::UInt64, value: v as i128 },
            ),
            _ => None,
        }
    }

    /// Returns the integer literal that the scalar is, if it is one.
    pub fn int_literal(&self) -> (r: Option<IntLiteral>)
        ensures
            r == self.int_literal_spec(),
            r matches Some(l) ==> l.wf(),
    {
        match self {
            ScalarValue::Int32(Some(v)) => Some(
                IntLiteral { kind: IntKind::Int32, value: *v as i128 },
            ),
            ScalarValue::Int64(Some(v)) => Some(
                IntLiteral { kind: IntKind::Int64, value: *v as i128 },
            ),
            ScalarValue::UInt32(Some(v)) => Some(
                IntLiteral { kind: IntKind::UInt32, value: *v as i128 },
            ),
            ScalarValue::UInt64(Some(v)) => Some(
                IntLiteral { kind: IntKind::UInt64, value: *v as i128 },
            ),
            _ => None,
        }
    }
}

/// A binary operator.
#[derive(Clone, Copy, Debug, PartialEq, Eq, Structural)]
pub enum Operator {
    And,
    Or,
    Eq,
    NotEq,
    Lt,
    LtEq,
    Gt,
    GtEq,
}

/// A column, by its name and its position in the input.
#[derive(Debug)]
pub struct Column {
    pub name: String,
    pub index: usize,
}

/// `left op right`.
#[derive(Debug)]
pub struct BinaryExpr {
    pub left: Arc<PhysicalExpr>,
    pub op: Operator,
    pub right: Arc<PhysicalExpr>,
}

/// `expr IN (list)`, or its negation.
#[derive(Debug)]
pub struct InListExpr {
    pub expr: Arc<PhysicalExpr>,
    pub list: Vec<Arc<PhysicalExpr>>,
    pub negated: bool,
}

/// A physical expression.
#[derive(Debug)]
pub enum PhysicalExpr {
    Column(Column),
    Literal(ScalarValue),
    Binary(BinaryExpr),
    InList(InListExpr),
    /// A filter that is replaced while a query runs: the expression that it stands for now.
    Dynamic(Arc<PhysicalExpr>),
    /// An expression of some other form, by a number that equal expressions share.
    Other(u64),
}

/// What a `ListValue` is.
pub enum ListView {
    Int32(Seq<i32>),
    Int64(Seq<i64>),
    UInt32(Seq<u32>),
    UInt64(Seq<u64>),
    Other(u64),
}

/// What a `ScalarValue` is.
pub enum ScalarView {
    Boolean(Option<bool>),
    Int32(Option<i32>),
    Int64(Option<i64>),
    UInt32(Option<u32>),
    UInt64(Option<u64>),
    List(ListView),
    Other(u64),
}

/// What a `PhysicalExpr` is.
pub enum ExprView {
    Column { name: Seq<char>, index: usize },
    Literal(ScalarView),
    Binary { left: Box<ExprView>, op: Operator, right: Box<ExprView> },
    InList { expr: Box<ExprView>, list: Seq<ExprView>, negated: bool },
    Dynamic(Box<ExprView>),
    Other(u64),
}

impl ListValue {
    /// The list itself.
    pub open spec fn view(&self) -> ListView {
        match self {
            ListValue::Int32(v) => ListView::Int32(v@),
            ListValue::Int64(v) => ListView::Int64(v@),
            ListValue::UInt32(v) => ListView::UInt32(v@),
            ListValue::UInt64(v) => ListView::UInt64(v@),
            ListValue::Other(n) => ListView::Other(*n),
        }
    }

    /// Returns whether the lists are the same.
    pub fn equals(&self, other: &ListValue) -> (r: bool)
        ensures
            r == (self@ == other@),
    {
        match (self, other) {
            (ListValue::Int32(a), ListValue::Int32(b)) => {
                let same = *a == *b;
                assert(same == (a@ =~= b@));
                same
            },
            (ListValue::Int64(a), ListValue::Int64(b)) => {
                let same = *a == *b;
                assert(same == (a@ =~= b@));
                same
            },
            (ListValue::UInt32(a), ListValue::UInt32(b)) => {
                let same = *a == *b;
                assert(same == (a@ =~= b@));
                same
            },
            (ListValue::UInt64(a), ListValue::UInt64(b)) => {
                let same = *a == *b;
                assert(same == (a@ =~= b@));
                same
            },
            (ListValue::Other(a), ListValue::Other(b)) => *a == *b,
            _ => false,
        }
    }

    /// Returns a copy of the list.
    pub fn duplicate(&self) -> (r: ListValue)
        ensures
            r@ == self@,
    {
        match self {
            ListValue::Int32(v) => ListValue::Int32(copied(v)),
            ListValue::Int64(v) => ListValue::Int64(copied(v)),
            ListValue::UInt32(v) => ListValue::UInt32(copied(v)),
            ListValue::UInt64(v) => ListValue::UInt64(copied(v)),
            ListValue::Other(n) => ListValue::Other(*n),
        }
    }
}

/// Returns a copy of the values.
fn copied<T: Copy>(values: &Vec<T>) -> (r: Vec<T>)
    ensures
        r@ == values@,
{
    let mut copy: Vec<T> = Vec::new();
    let mut i: usize = 0;
    while i < values.len()
        invariant
            0 <= i <= values.len(),
            copy@ =~= values@.take(i as int),
        decreases values.len() - i,
    {
        copy.push(values[i]);
        i += 1;
    }
    assert(values@.take(i as int) =~= values@);
    copy
}

impl ScalarValue {
    /// The value itself.
    pub open spec fn view(&self) -> ScalarView {
        match self {
            ScalarValue::Boolean(v) => ScalarView::Boolean(*v),
            ScalarValue::Int32(v) => ScalarView::Int32(*v),
            ScalarValue::Int64(v) => ScalarView::Int64(*v),
            ScalarValue::UInt32(v) => ScalarView::UInt32(*v),
            ScalarValue::UInt64(v) => ScalarView::UInt64(*v),
            ScalarValue::List(list) => ScalarView::List(list@),
            ScalarValue::Other(n) => ScalarView::Other(*n),
        }
    }

    /// Returns whether the values are the same.
    pub fn equals(&self, other: &ScalarValue) -> (r: bool)
        ensures
            r == (self@ == other@),
    {
        match (self, other) {
            (ScalarValue::Boolean(a), ScalarValue::Boolean(b)) => *a == *b,
            (ScalarValue::Int32(a), ScalarValue::Int32(b)) => *a == *b,
            (ScalarValue::Int64(a), ScalarValue::Int64(b)) => *a == *b,
            (ScalarValue::UInt32(a), ScalarValue::UInt32(b)) => *a == *b,
            (ScalarValue::UInt64(a), ScalarValue::UInt64(b)) => *a == *b,
            (ScalarValue::List(a), ScalarValue::List(b)) => a.equals(b),
            (ScalarValue::Other(a), ScalarValue::Other(b)) => *a == *b,
            _ => false,
        }
    }

    /// Returns a copy of the value.
    pub fn duplicate(&self) -> (r: ScalarValue)
        ensures
            r@ == self@,
    {
        match self {
            ScalarValue::Boolean(v) => ScalarValue::Boolean(*v),
            ScalarValue::Int32(v) => ScalarValue::Int32(*v),
            ScalarValue::Int64(v) => ScalarValue::Int64(*v),
            ScalarValue::UInt32(v) => ScalarValue::UInt32(*v),
            ScalarValue::UInt64(v) => ScalarValue::UInt64(*v),
            ScalarValue::List(list) => ScalarValue::List(list.duplicate()),
            ScalarValue::Other(n) => ScalarValue::Other(*n),
        }
    }
}

/// What a list of values is.
pub open spec fn values_view(values: Seq<ScalarValue>) -> Seq<ScalarView> {
    Seq::new(values.len(), |i: int| values[i]@)
}

/// Returns copies of the values.
pub fn duplicate_values(values: &Vec<ScalarValue>) -> (r: Vec<ScalarValue>)
    ensures
        values_view(r@) == values_view(values@),
{
    let mut out: Vec<ScalarValue> = Vec::new();
    let mut i: usize = 0;
    while i < values.len()
        invariant
            0 <= i <= values.len(),
            out.len() == i,
            forall|j: int| 0 <= j < i ==> (#[trigger] out@[j])@ == values@[j]@,
        decreases values.len() - i,
    {
        out.push(values[i].duplicate());
        i += 1;
    }
    assert(values_view(out@) =~= values_view(values@));
    out
}

/// What a list of expressions is.
pub open spec fn exprs_view(list: Seq<Arc<PhysicalExpr>>) -> Seq<ExprView>
    decreases list,
{
    Seq::new(
        list.len(),
        |i: int|
            if 0 <= i < list.len() {
                list[i].view()
            } else {
                arbitrary()
            },
    )
}

impl PhysicalExpr {
    /// The expression itself.
    pub open spec fn view(&self) -> ExprView
        decreases self,
    {
        match self {
            PhysicalExpr::Column(c) => ExprView::Column { name: c.name@, index: c.index },
            PhysicalExpr::Literal(value) => ExprView::Literal(value@),
            PhysicalExpr::Binary(b) => ExprView::Binary {
                left: Box::new(b.left.view()),
                op: b.op,
                right: Box::new(b.right.view()),
            },
            PhysicalExpr::InList(l) => ExprView::InList {
                expr: Box::new(l.expr.view()),
                list: exprs_view(l.list@),
                negated: l.negated,
            },
            PhysicalExpr::Dynamic(current) => ExprView::Dynamic(Box::new(current.view())),
            PhysicalExpr::Other(n) => ExprView::Other(*n),
        }
    }

    /// Returns whether the expressions are the same.
    pub fn equals(&self, other: &PhysicalExpr) -> (r: bool)
        ensures
            r == (self@ == other@),
        decreases self,
    {
        match (self, other) {
            (PhysicalExpr::Column(a), PhysicalExpr::Column(b)) => a.index == b.index && a.name
                == b.name,
            (PhysicalExpr::Literal(a), PhysicalExpr::Literal(b)) => a.equals(b),
            (PhysicalExpr::Binary(a), PhysicalExpr::Binary(b)) => a.op == b.op && a.left.equals(
                &b.left,
            ) && a.right.equals(&b.right),
            (PhysicalExpr::InList(a), PhysicalExpr::InList(b)) => {
                if a.negated != b.negated || a.list.len() != b.list.len() || !a.expr.equals(
                    &b.expr,
                ) {
                    assert(exprs_view(a.list@).len() == a.list.len());
                    assert(exprs_view(b.list@).len() == b.list.len());
                    return false;
                }
                let mut i: usize = 0;
                while i < a.list.len()
                    invariant
                        0 <= i <= a.list.len(),
                        a.list.len() == b.list.len(),
                        *self == PhysicalExpr::InList(*a),
                        *other == PhysicalExpr::InList(*b),
                        forall|j: int|
                            0 <= j < i ==> #[trigger] exprs_view(a.list@)[j] == exprs_view(
                                b.list@,
                            )[j],
                    decreases a.list.len() - i,
                {
                    assert(decreases_to!(*self => self->InList_0));
                    assert(decreases_to!(a.list@ => a.list@[i as int]));
                    if !a.list[i].equals(&b.list[i]) {
                        assert(exprs_view(a.list@)[i as int] != exprs_view(b.list@)[i as int]);
                        return false;
                    }
                    i += 1;
                }
                assert(exprs_view(a.list@) =~= exprs_view(b.list@));
                true
            },
            (PhysicalExpr::Dynamic(a), PhysicalExpr::Dynamic(b)) => a.equals(b),
            (PhysicalExpr::Other(a), PhysicalExpr::Other(b)) => *a == *b,
            _ => false,
        }
    }
}

/// Returns another handle on the same expression.
pub fn share(expr: &Arc<PhysicalExpr>) -> (r: Arc<PhysicalExpr>)
    ensures
        r == *expr,
{
    expr.clone()
}

} // verus!
