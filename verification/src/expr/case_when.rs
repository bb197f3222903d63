//! The value of the first condition that holds.
//!
//! The children of a `CASE` are pairs of a condition and a value, and then, where there is one, the
//! value for the rows that no condition matches.

use crate::arrays::array::ValueArray;
use crate::dtype::{law_nullability_is_all_that_changes, DType, DTypeView, Nullability};
use crate::expr::case_when_format::{decode, decoded, encode, encoded};
use crate::expr::expression::{
    CaseWhenOptions, Expression, ExpressionView, Function, FunctionView,
};
use crate::expr::extract_conjuncts::expressions_view;
use crate::scalar::{option_duplicate, option_view, Scalar, Value, ValueView};
use crate::text::{decimal, decimal_string};
use std::sync::Arc;
use vstd::prelude::*;

verus! {

/// How a `bool` is written.
pub open spec fn bool_text(b: bool) -> Seq<char> {
    if b {
        "true"@
    } else {
        "false"@
    }
}

impl CaseWhenOptions {
    /// How the options are written.
    pub open spec fn text(self) -> Seq<char> {
        "case_when(pairs="@ + decimal(self.num_when_then_pairs as nat) + ", else="@ + bool_text(
            self.has_else,
        ) + ")"@
    }

    /// The number of children.
    pub open spec fn children(self) -> int {
        2 * self.num_when_then_pairs + (if self.has_else {
            1int
        } else {
            0
        })
    }

    /// Returns how the options are written.
    pub fn to_string(&self) -> (r: String)
        ensures
            r@ == self.text(),
    {
        let mut s: String = "case_when(pairs=".to_owned();
        let pairs = decimal_string(self.num_when_then_pairs as u64);
        s.append(pairs.as_str());
        s.append(", else=");
        if self.has_else {
            s.append("true");
        } else {
            s.append("false");
        }
        s.append(")");
        s
    }
}

/// Why a `CASE` has no type or no value.
#[derive(Clone, Copy, Debug, PartialEq, Eq, Structural)]
pub enum CaseWhenError {
    /// There is no pair of a condition and a value.
    NoPairs,
    /// The bytes are no options.
    Decode,
    /// The values are not all of one type up to nullability.
    TypeMismatch,
}

/// How a `CASE` is written over its first `n` pairs.
pub open spec fn pairs_text(children: Seq<Seq<char>>, n: nat) -> Seq<char>
    decreases n,
{
    if n == 0 {
        "CASE"@
    } else {
        pairs_text(children, (n - 1) as nat) + " WHEN "@ + children[2 * (n - 1)] + " THEN "@
            + children[2 * (n - 1) + 1]
    }
}

/// How a `CASE` is written whose children are written as given.
pub open spec fn sql_text(options: CaseWhenOptions, children: Seq<Seq<char>>) -> Seq<char> {
    let pairs = pairs_text(children, options.num_when_then_pairs as nat);
    if options.has_else {
        pairs + " ELSE "@ + children[2 * options.num_when_then_pairs] + " END"@
    } else {
        pairs + " END"@
    }
}

/// What texts are.
pub open spec fn texts_view(texts: Seq<String>) -> Seq<Seq<char>> {
    Seq::new(texts.len(), |i: int| texts[i]@)
}

/// Whether the condition of the pair holds in a row. A null does not hold.
pub open spec fn condition_holds(inputs: Seq<ValueArray>, pair: int, row: int) -> bool {
    inputs[2 * pair].content()[row] == Some(ValueView::Bool(true))
}

/// The value in a row, of the first pair from `pair` on whose condition holds there; without one,
/// what the row has where no condition holds.
pub open spec fn case_value(
    options: CaseWhenOptions,
    inputs: Seq<ValueArray>,
    pair: int,
    row: int,
) -> Option<ValueView>
    decreases options.num_when_then_pairs - pair,
{
    if 0 <= pair < options.num_when_then_pairs {
        if condition_holds(inputs, pair, row) {
            inputs[2 * pair + 1].content()[row]
        } else {
            case_value(options, inputs, pair + 1, row)
        }
    } else if options.has_else {
        inputs[2 * options.num_when_then_pairs].content()[row]
    } else {
        None
    }
}

/// Whether one of the values from `pair` on can be null.
pub open spec fn any_nullable(options: CaseWhenOptions, inputs: Seq<ValueArray>, pair: int) -> bool
    decreases options.num_when_then_pairs - pair,
{
    if 0 <= pair < options.num_when_then_pairs {
        inputs[2 * pair + 1].dtype@.is_nullable() || any_nullable(options, inputs, pair + 1)
    } else if options.has_else {
        inputs[2 * options.num_when_then_pairs].dtype@.is_nullable()
    } else {
        true
    }
}

/// Whether the values are all of one type up to nullability.
pub open spec fn of_one_type(options: CaseWhenOptions, inputs: Seq<ValueArray>) -> bool {
    &&& forall|pair: int|
        0 <= pair < options.num_when_then_pairs ==> inputs[1].dtype@.same_base(
            (#[trigger] inputs[2 * pair + 1]).dtype@,
        )
    &&& options.has_else ==> inputs[1].dtype@.same_base(
        inputs[2 * options.num_when_then_pairs].dtype@,
    )
}

/// The type of the values together: that of the first, which can be null if one of them can, or if
/// a row can be without a value.
pub open spec fn value_dtype(options: CaseWhenOptions, inputs: Seq<ValueArray>) -> DTypeView {
    inputs[1].dtype@.with_nullability(
        if any_nullable(options, inputs, 0) {
            Nullability::Nullable
        } else {
            Nullability::NonNullable
        },
    )
}

/// Returns, for each row, the value of `then` where the condition holds, and that of `otherwise`
/// elsewhere.
fn zip(then: &ValueArray, otherwise: &Vec<Option<Value>>, condition: &ValueArray) -> (r: Vec<
    Option<Value>,
>)
    requires
        then.content().len() == condition.content().len(),
        otherwise@.len() == condition.content().len(),
    ensures
        r@.len() == otherwise@.len(),
        forall|j: int|
            0 <= j < r@.len() ==> option_view(#[trigger] r@[j]) == (if condition.content()[j]
                == Some(ValueView::Bool(true)) {
                then.content()[j]
            } else {
                option_view(otherwise@[j])
            }),
{
    let mut values: Vec<Option<Value>> = Vec::new();
    let mut i: usize = 0;
    while i < condition.values.len()
        invariant
            0 <= i <= condition.values.len(),
            then.content().len() == condition.content().len(),
            otherwise@.len() == condition.content().len(),
            values@.len() == i,
            forall|j: int|
                0 <= j < i ==> option_view(#[trigger] values@[j]) == (if condition.content()[j]
                    == Some(ValueView::Bool(true)) {
                    then.content()[j]
                } else {
                    option_view(otherwise@[j])
                }),
        decreases condition.values.len() - i,
    {
        let holds: bool = match &condition.values[i] {
            Some(Value::Bool(b)) => *b,
            _ => false,
        };
        assert(holds == (condition.content()[i as int] == Some(ValueView::Bool(true))));
        if holds {
            values.push(option_duplicate(&then.values[i]));
        } else {
            values.push(option_duplicate(&otherwise[i]));
        }
        i += 1;
    }
    values
}

/// The function that gives the value of the first condition that holds.
#[derive(Clone, Copy, Debug)]
pub struct CaseWhen;

impl CaseWhen {
    /// Returns the name of the function.
    pub fn id(&self) -> (r: &'static str)
        ensures
            r@ == "vortex.case_when"@,
    {
        "vortex.case_when"
    }

    /// Returns the options as bytes.
    pub fn serialize(&self, options: &CaseWhenOptions) -> (r: Vec<u8>)
        ensures
            r@ == encoded(*options),
    {
        encode(options)
    }

    /// Returns the options that the bytes are.
    pub fn deserialize(&self, metadata: &[u8]) -> (r: Result<CaseWhenOptions, CaseWhenError>)
        ensures
            match decoded(metadata@) {
                Some(options) => r == Ok::<CaseWhenOptions, CaseWhenError>(options),
                None => r == Err::<CaseWhenOptions, CaseWhenError>(CaseWhenError::Decode),
            },
    {
        match decode(metadata) {
            Some(options) => Ok(options),
            None => Err(CaseWhenError::Decode),
        }
    }

    /// Returns the number of children.
    pub fn arity(&self, options: &CaseWhenOptions) -> (r: usize)
        requires
            options.children() <= usize::MAX,
        ensures
            r == options.children(),
    {
        let pairs: usize = options.num_when_then_pairs as usize;
        pairs * 2 + (if options.has_else {
            1
        } else {
            0
        })
    }

    /// Returns the name of a child.
    pub fn child_name(&self, options: &CaseWhenOptions, child_idx: usize) -> (r: String)
        requires
            child_idx < options.children(),
        ensures
            r@ == (if child_idx < 2 * options.num_when_then_pairs {
                (if child_idx % 2 == 0 {
                    "when_"@
                } else {
                    "then_"@
                }) + decimal((child_idx / 2) as nat)
            } else {
                "else"@
            }),
    {
        let pair: usize = child_idx / 2;
        if pair < options.num_when_then_pairs as usize {
            let mut s: String = if child_idx % 2 == 0 {
                "when_".to_owned()
            } else {
                "then_".to_owned()
            };
            let number = decimal_string(pair as u64);
            s.append(number.as_str());
            s
        } else {
            "else".to_owned()
        }
    }

    /// Returns how the expression is written, where its children are written as given.
    pub fn fmt_sql(&self, options: &CaseWhenOptions, children: &Vec<String>) -> (r: String)
        requires
            children@.len() == options.children(),
        ensures
            r@ == sql_text(*options, texts_view(children@)),
    {
        let ghost texts = texts_view(children@);
        let pairs: usize = options.num_when_then_pairs as usize;
        let mut s: String = "CASE".to_owned();
        let mut i: usize = 0;
        assert(2 * pairs <= children.len());
        while i < pairs
            invariant
                0 <= i <= pairs,
                2 * pairs <= children.len(),
                texts == texts_view(children@),
                s@ == pairs_text(texts, i as nat),
            decreases pairs - i,
        {
            s.append(" WHEN ");
            s.append(children[i * 2].as_str());
            s.append(" THEN ");
            s.append(children[i * 2 + 1].as_str());
            i += 1;
        }
        if options.has_else {
            s.append(" ELSE ");
            s.append(children[pairs * 2].as_str());
        }
        s.append(" END");
        s
    }

    /// Returns the type of the values, by that of the first. It can be null if a row can be without
    /// a value.
    pub fn return_dtype(&self, options: &CaseWhenOptions, arg_dtypes: &Vec<DType>) -> (r: Result<
        DType,
        CaseWhenError,
    >)
        requires
            arg_dtypes@.len() == options.children(),
        ensures
            r is Err <==> options.num_when_then_pairs == 0,
            r is Err ==> r->Err_0 == CaseWhenError::NoPairs,
            r matches Ok(dtype) ==> dtype@ == (if options.has_else {
                arg_dtypes@[1]@
            } else {
                arg_dtypes@[1]@.with_nullability(Nullability::Nullable)
            }),
    {
        if options.num_when_then_pairs == 0 {
            return Err(CaseWhenError::NoPairs);
        }
        let first_then_dtype = &arg_dtypes[1];
        if !options.has_else {
            Ok(first_then_dtype.with_nullability(Nullability::Nullable))
        } else {
            Ok(first_then_dtype.duplicate())
        }
    }

    /// Returns, for each row, the value of the first pair whose condition holds there. A condition
    /// that is null does not hold.
    pub fn execute(&self, options: &CaseWhenOptions, inputs: &Vec<ValueArray>, row_count: usize) -> (
    r: Result<ValueArray, CaseWhenError>)
        requires
            options.num_when_then_pairs > 0,
            inputs@.len() == options.children(),
            forall|i: int|
                0 <= i < inputs@.len() ==> (#[trigger] inputs@[i]).content().len() == row_count,
        ensures
            r is Ok <==> of_one_type(*options, inputs@),
            r is Err ==> r->Err_0 == CaseWhenError::TypeMismatch,
            r matches Ok(array) ==> array.dtype@ == value_dtype(*options, inputs@) && array.content()
                == Seq::new(row_count as nat, |row: int| case_value(*options, inputs@, 0, row)),
    {
        let pairs: usize = options.num_when_then_pairs as usize;
        assert(2 * pairs <= inputs.len());
        let first = &inputs[1].dtype;
        let mut nullable: bool = true;
        let mut result: Vec<Option<Value>>;
        if options.has_else {
            let otherwise = &inputs[pairs * 2];
            if !first.eq_ignore_nullability(&otherwise.dtype) {
                return Err(CaseWhenError::TypeMismatch);
            }
            nullable = otherwise.dtype.is_nullable();
            let copy = otherwise.duplicate();
            assert(copy.content().len() == row_count);
            result = copy.values;
            assert(forall|j: int|
                0 <= j < row_count ==> option_view(#[trigger] result@[j]) == copy.content()[j]);
        } else {
            proof {
                law_nullability_is_all_that_changes(first@, Nullability::Nullable);
            }
            let nulls = ValueArray::constant(
                Scalar::null(first.with_nullability(Nullability::Nullable)),
                row_count,
            );
            assert(nulls.content().len() == row_count);
            result = nulls.values;
            assert(forall|j: int|
                0 <= j < row_count ==> option_view(#[trigger] result@[j]) == nulls.content()[j]);
        }
        let mut i: usize = pairs;
        while i > 0
            invariant
                0 <= i <= pairs,
                pairs == options.num_when_then_pairs,
                2 * pairs <= inputs.len(),
                options.has_else ==> inputs@[1].dtype@.same_base(inputs@[2 * pairs].dtype@),
                first@ == inputs@[1].dtype@,
                forall|i: int|
                    0 <= i < inputs@.len() ==> (#[trigger] inputs@[i]).content().len() == row_count,
                forall|pair: int|
                    i <= pair < pairs ==> inputs@[1].dtype@.same_base(
                        (#[trigger] inputs@[2 * pair + 1]).dtype@,
                    ),
                nullable == any_nullable(*options, inputs@, i as int),
                result@.len() == row_count,
                forall|j: int|
                    0 <= j < row_count ==> option_view(#[trigger] result@[j]) == case_value(
                        *options,
                        inputs@,
                        i as int,
                        j,
                    ),
            decreases i,
        {
            i -= 1;
            let then = &inputs[i * 2 + 1];
            let condition = &inputs[i * 2];
            assert(inputs@[2 * (i as int) + 1] == *then);
            assert(inputs@[2 * (i as int)] == *condition);
            if !first.eq_ignore_nullability(&then.dtype) {
                return Err(CaseWhenError::TypeMismatch);
            }
            nullable = then.dtype.is_nullable() || nullable;
            result = zip(then, &result, condition);
        }
        let dtype = first.with_nullability(
            if nullable {
                Nullability::Nullable
            } else {
                Nullability::NonNullable
            },
        );
        let r = ValueArray { dtype, values: result };
        assert(r.content() =~= Seq::new(
            row_count as nat,
            |row: int| case_value(*options, inputs@, 0, row),
        ));
        Ok(r)
    }
}

/// Returns a `CASE` with an `ELSE`, from conditions and values in turn and the value of the `ELSE`.
pub fn case_when(children: Vec<Arc<Expression>>) -> (r: Arc<Expression>)
    requires
        children@.len() >= 3,
        children@.len() % 2 == 1,
        (children@.len() - 1) / 2 <= u32::MAX,
    ensures
        r@ == (ExpressionView {
            function: FunctionView::CaseWhen(
                CaseWhenOptions {
                    num_when_then_pairs: ((children@.len() - 1) / 2) as u32,
                    has_else: true,
                },
            ),
            children: expressions_view(children@),
        }),
        r@.children.len() == r@.function.arity(),
{
    let options = CaseWhenOptions {
        num_when_then_pairs: ((children.len() - 1) / 2) as u32,
        has_else: true,
    };
    let r = Expression { function: Function::CaseWhen(options), children };
    assert(r@.children =~= expressions_view(children@));
    Arc::new(r)
}

/// Returns a `CASE` without an `ELSE`, from conditions and values in turn. It is null where no
/// condition holds.
pub fn case_when_no_else(children: Vec<Arc<Expression>>) -> (r: Arc<Expression>)
    requires
        children@.len() >= 2,
        children@.len() % 2 == 0,
        children@.len() / 2 <= u32::MAX,
    ensures
        r@ == (ExpressionView {
            function: FunctionView::CaseWhen(
                CaseWhenOptions {
                    num_when_then_pairs: (children@.len() / 2) as u32,
                    has_else: false,
                },
            ),
            children: expressions_view(children@),
        }),
        r@.children.len() == r@.function.arity(),
{
    let options = CaseWhenOptions {
        num_when_then_pairs: (children.len() / 2) as u32,
        has_else: false,
    };
    let r = Expression { function: Function::CaseWhen(options), children };
    assert(r@.children =~= expressions_view(children@));
    Arc::new(r)
}

/// Whether no condition before that of the pair holds in a row.
pub open spec fn none_before(inputs: Seq<ValueArray>, pair: int, row: int) -> bool {
    forall|p: int| 0 <= p < pair ==> !#[trigger] condition_holds(inputs, p, row)
}

proof fn lemma_case_skips(
    options: CaseWhenOptions,
    inputs: Seq<ValueArray>,
    from: int,
    to: int,
    row: int,
)
    requires
        0 <= from <= to <= options.num_when_then_pairs,
        none_before(inputs, to, row),
    ensures
        case_value(options, inputs, from, row) == case_value(options, inputs, to, row),
    decreases to - from,
{
    if from < to {
        assert(!condition_holds(inputs, from, row));
        lemma_case_skips(options, inputs, from + 1, to, row);
    }
}

/// The first match wins: where a condition holds and none before it does, the row has the value of
/// its pair, whatever the later conditions are.
pub proof fn law_first_match_wins(
    options: CaseWhenOptions,
    inputs: Seq<ValueArray>,
    pair: int,
    row: int,
)
    requires
        0 <= pair < options.num_when_then_pairs,
        condition_holds(inputs, pair, row),
        none_before(inputs, pair, row),
    ensures
        case_value(options, inputs, 0, row) == inputs[2 * pair + 1].content()[row],
{
    lemma_case_skips(options, inputs, 0, pair, row);
}

/// Where no condition holds, the row has the value of the `ELSE`, or is null without one.
pub proof fn law_no_match_is_else_or_null(
    options: CaseWhenOptions,
    inputs: Seq<ValueArray>,
    row: int,
)
    requires
        none_before(inputs, options.num_when_then_pairs as int, row),
    ensures
        options.has_else ==> case_value(options, inputs, 0, row)
            == inputs[2 * options.num_when_then_pairs].content()[row],
        !options.has_else ==> case_value(options, inputs, 0, row) is None,
{
    lemma_case_skips(options, inputs, 0, options.num_when_then_pairs as int, row);
}

/// The values together can be null exactly if one of them can, or if there is no `ELSE`.
pub proof fn law_when_a_case_can_be_null(options: CaseWhenOptions, inputs: Seq<ValueArray>, pair: int)
    requires
        0 <= pair <= options.num_when_then_pairs,
    ensures
        any_nullable(options, inputs, pair) <==> {
            ||| !options.has_else
            ||| inputs[2 * options.num_when_then_pairs].dtype@.is_nullable()
            ||| exists|p: int|
                pair <= p < options.num_when_then_pairs && (#[trigger] inputs[2 * p
                    + 1]).dtype@.is_nullable()
        },
    decreases options.num_when_then_pairs - pair,
{
    if pair < options.num_when_then_pairs {
        law_when_a_case_can_be_null(options, inputs, pair + 1);
        assert(inputs[2 * pair + 1] == inputs[2 * pair + 1]);
    }
}

/// The type of the values together is that of each value, up to nullability, and each value that a
/// row can have belongs to it: a null only where it has one.
pub proof fn law_the_type_of_a_case_is_that_of_its_values(
    options: CaseWhenOptions,
    inputs: Seq<ValueArray>,
    pair: int,
)
    requires
        of_one_type(options, inputs),
        0 <= pair < options.num_when_then_pairs,
    ensures
        value_dtype(options, inputs).same_base(inputs[2 * pair + 1].dtype@),
        options.has_else ==> value_dtype(options, inputs).same_base(
            inputs[2 * options.num_when_then_pairs].dtype@,
        ),
        inputs[2 * pair + 1].dtype@.is_nullable() || !options.has_else ==> value_dtype(
            options,
            inputs,
        ).is_nullable(),
        options.has_else && inputs[2 * options.num_when_then_pairs].dtype@.is_nullable()
            ==> value_dtype(options, inputs).is_nullable(),
{
    law_when_a_case_can_be_null(options, inputs, 0);
    law_nullability_is_all_that_changes(inputs[1].dtype@, Nullability::Nullable);
    law_nullability_is_all_that_changes(inputs[1].dtype@, Nullability::NonNullable);
    assert(inputs[2 * pair + 1] == inputs[2 * pair + 1]);
}

/// A row has a value of the row: that of a pair whose condition holds there and before which none
/// does, or of the `ELSE`, or none. So what stands in other rows does not matter.
pub proof fn law_a_row_has_one_of_its_own_values(
    options: CaseWhenOptions,
    inputs: Seq<ValueArray>,
    row: int,
) -> (pair: int)
    ensures
        0 <= pair <= options.num_when_then_pairs,
        none_before(inputs, pair, row),
        pair < options.num_when_then_pairs ==> condition_holds(inputs, pair, row) && case_value(
            options,
            inputs,
            0,
            row,
        ) == inputs[2 * pair + 1].content()[row],
        pair == options.num_when_then_pairs ==> case_value(options, inputs, 0, row) == (
        if options.has_else {
            inputs[2 * options.num_when_then_pairs].content()[row]
        } else {
            None
        }),
{
    lemma_row_from(options, inputs, 0, row)
}

proof fn lemma_row_from(
    options: CaseWhenOptions,
    inputs: Seq<ValueArray>,
    from: int,
    row: int,
) -> (pair: int)
    requires
        0 <= from <= options.num_when_then_pairs,
        none_before(inputs, from, row),
    ensures
        from <= pair <= options.num_when_then_pairs,
        none_before(inputs, pair, row),
        pair < options.num_when_then_pairs ==> condition_holds(inputs, pair, row) && case_value(
            options,
            inputs,
            0,
            row,
        ) == inputs[2 * pair + 1].content()[row],
        pair == options.num_when_then_pairs ==> case_value(options, inputs, 0, row) == (
        if options.has_else {
            inputs[2 * options.num_when_then_pairs].content()[row]
        } else {
            None
        }),
    decreases options.num_when_then_pairs - from,
{
    if from == options.num_when_then_pairs {
        law_no_match_is_else_or_null(options, inputs, row);
        from
    } else if condition_holds(inputs, from, row) {
        law_first_match_wins(options, inputs, from, row);
        from
    } else {
        lemma_row_from(options, inputs, from + 1, row)
    }
}

/// A condition holds where it is true: not where it is false, null, or no truth value.
pub proof fn law_a_null_condition_does_not_hold(inputs: Seq<ValueArray>, pair: int, row: int)
    ensures
        condition_holds(inputs, pair, row) <==> (inputs[2 * pair].content()[row] matches Some(
            ValueView::Bool(b),
        ) && b),
{
}

/// A `CASE` has two children for each pair, and one more for an `ELSE`.
pub proof fn law_a_case_has_two_children_for_each_pair(pairs: u32)
    ensures
        ({
            let without = CaseWhenOptions { num_when_then_pairs: pairs, has_else: false };
            let with = CaseWhenOptions { num_when_then_pairs: pairs, has_else: true };
            &&& without.children() == pairs + pairs
            &&& with.children() == without.children() + 1
            &&& FunctionView::CaseWhen(without).arity() == without.children()
            &&& FunctionView::CaseWhen(with).arity() == with.children()
        }),
{
}

/// The values of a `CASE`, which stand in each second place and in the last one of an `ELSE`, are
/// of one type exactly if any two of them are, up to nullability.
pub proof fn law_values_of_one_type_are_alike(options: CaseWhenOptions, inputs: Seq<ValueArray>)
    requires
        options.num_when_then_pairs >= 1,
    ensures
        of_one_type(options, inputs) <==> forall|j: int, k: int|
            0 <= j < options.children() && 0 <= k < options.children() && (j % 2 == 1 || j == 2
                * options.num_when_then_pairs) && (k % 2 == 1 || k == 2
                * options.num_when_then_pairs) ==> (#[trigger] inputs[j]).dtype@.same_base(
                (#[trigger] inputs[k]).dtype@,
            ),
{
    let n = options.num_when_then_pairs as int;
    if of_one_type(options, inputs) {
        assert forall|j: int|
            0 <= j < options.children() && (j % 2 == 1 || j == 2 * n) implies inputs[1].dtype@.same_base(
            (#[trigger] inputs[j]).dtype@,
        ) by {
            if j % 2 == 1 {
                let pair: int = j / 2;
                assert(inputs[2 * pair + 1] == inputs[j]);
            }
        }
    }
    if forall|j: int, k: int|
        0 <= j < options.children() && 0 <= k < options.children() && (j % 2 == 1 || j == 2 * n) && (
        k % 2 == 1 || k == 2 * n) ==> (#[trigger] inputs[j]).dtype@.same_base(
            (#[trigger] inputs[k]).dtype@,
        ) {
        assert forall|pair: int| 0 <= pair < n implies inputs[1].dtype@.same_base(
            (#[trigger] inputs[2 * pair + 1]).dtype@,
        ) by {
            assert((2 * pair + 1) % 2 == 1);
        }
        assert(of_one_type(options, inputs));
    }
}

/// A `CASE` is written from `CASE` to `END`; each further pair is written behind the ones before it,
/// the condition between `WHEN` and `THEN` and the value last, and the `ELSE` behind the pairs.
pub proof fn law_how_a_case_is_written(pairs: u32, n: nat, children: Seq<Seq<char>>)
    ensures
        pairs_text(children, 0) == "CASE"@,
        pairs_text(children, n + 1) == pairs_text(children, n) + (" WHEN "@ + children[(n + n) as int]
            + " THEN "@ + children[(n + n + 1) as int]),
        ({
            let without = CaseWhenOptions { num_when_then_pairs: pairs, has_else: false };
            let with = CaseWhenOptions { num_when_then_pairs: pairs, has_else: true };
            &&& sql_text(without, children) == pairs_text(children, pairs as nat) + " END"@
            &&& sql_text(with, children) == pairs_text(children, pairs as nat) + (" ELSE "@
                + children[pairs + pairs]) + " END"@
        }),
{
    let i: int = n as int;
    assert(n + n == 2 * i);
    assert(pairs_text(children, n + 1) =~= pairs_text(children, n) + (" WHEN "@ + children[(n + n) as int]
        + " THEN "@ + children[(n + n + 1) as int]));
    assert(pairs + pairs == 2 * pairs);
    let with = CaseWhenOptions { num_when_then_pairs: pairs, has_else: true };
    assert(sql_text(with, children) =~= pairs_text(children, pairs as nat) + (" ELSE "@
        + children[pairs + pairs]) + " END"@);
}

} // verus!
