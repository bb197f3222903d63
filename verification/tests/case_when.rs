//! `CASE`: its bytes, its text, its types and its values.

use std::sync::Arc;

use vortex_core::arrays::array::ValueArray;
use vortex_core::dtype::{DType, FieldDType, Nullability, PType};
use vortex_core::expr::case_when::{case_when, case_when_no_else, CaseWhen, CaseWhenError};
use vortex_core::expr::expression::{
    binary, get_item, lit_i32, literal, root, CaseWhenOptions, Expression, Operator,
};
use vortex_core::scalar::{PValue, Scalar, Value};

fn lit_bool(value: bool) -> Arc<Expression> {
    literal(
        Scalar::bool(value, Nullability::NonNullable),
        value.to_string(),
    )
}

fn lit_str(value: &str) -> Arc<Expression> {
    literal(
        Scalar::new_unchecked(
            DType::Utf8(Nullability::NonNullable),
            Some(Value::Utf8(value.as_bytes().to_vec())),
        ),
        format!("\"{value}\""),
    )
}

fn col(name: &str) -> Arc<Expression> {
    get_item(name, root())
}

fn gt(lhs: Arc<Expression>, rhs: Arc<Expression>) -> Arc<Expression> {
    binary(Operator::Gt, lhs, rhs)
}

fn i32_dtype(nullability: Nullability) -> DType {
    DType::Primitive(PType::I32, nullability)
}

fn ints(values: &[Option<i32>], nullability: Nullability) -> ValueArray {
    ValueArray {
        dtype: i32_dtype(nullability),
        values: values
            .iter()
            .map(|v| v.map(|v| Value::Primitive(PValue::I32(v))))
            .collect(),
    }
}

fn constant(value: i32, len: usize) -> ValueArray {
    ValueArray::constant(
        Scalar::primitive(PValue::I32(value), Nullability::NonNullable),
        len,
    )
}

fn bools(values: &[Option<bool>]) -> ValueArray {
    let nullability = if values.iter().any(|v| v.is_none()) {
        Nullability::Nullable
    } else {
        Nullability::NonNullable
    };
    ValueArray {
        dtype: DType::Bool(nullability),
        values: values.iter().map(|v| v.map(Value::Bool)).collect(),
    }
}

/// Which of the values are greater than a bound.
fn greater(values: &[i32], bound: i32) -> ValueArray {
    let found: Vec<Option<bool>> = values.iter().map(|v| Some(*v > bound)).collect();
    bools(&found)
}

/// Which of the values are equal to one.
fn equal(values: &[i32], one: i32) -> ValueArray {
    let found: Vec<Option<bool>> = values.iter().map(|v| Some(*v == one)).collect();
    bools(&found)
}

fn read_ints(array: &ValueArray) -> Vec<Option<i32>> {
    array
        .values
        .iter()
        .map(|v| match v {
            Some(Value::Primitive(PValue::I32(v))) => Some(*v),
            None => None,
            other => panic!("not an i32: {other:?}"),
        })
        .collect()
}

fn read_bools(array: &ValueArray) -> Vec<Option<bool>> {
    array
        .values
        .iter()
        .map(|v| match v {
            Some(Value::Bool(v)) => Some(*v),
            None => None,
            other => panic!("not a bool: {other:?}"),
        })
        .collect()
}

fn some(values: &[i32]) -> Vec<Option<i32>> {
    values.iter().map(|v| Some(*v)).collect()
}

fn pairs(num_when_then_pairs: u32, has_else: bool) -> CaseWhenOptions {
    CaseWhenOptions {
        num_when_then_pairs,
        has_else,
    }
}

const VALUES: [i32; 5] = [1, 2, 3, 4, 5];

#[test]
fn test_serialization_roundtrip() {
    let options = pairs(2, true);
    let serialized = CaseWhen.serialize(&options);
    let deserialized = CaseWhen.deserialize(&serialized).unwrap();
    assert_eq!(options, deserialized);
}

#[test]
fn test_serialization_no_else() {
    let options = pairs(3, false);
    let serialized = CaseWhen.serialize(&options);
    let deserialized = CaseWhen.deserialize(&serialized).unwrap();
    assert_eq!(options, deserialized);
}

#[test]
fn the_bytes_of_the_options() {
    assert_eq!(CaseWhen.serialize(&pairs(2, true)), vec![0x08, 2, 0x10, 1]);
    assert_eq!(CaseWhen.serialize(&pairs(300, false)), vec![0x08, 0xac, 0x02]);
    assert_eq!(CaseWhen.serialize(&pairs(0, false)), Vec::<u8>::new());
    assert_eq!(CaseWhen.deserialize(&[]).unwrap(), pairs(0, false));
    for options in [pairs(u32::MAX, true), pairs(128, false), pairs(0, true)] {
        let bytes = CaseWhen.serialize(&options);
        assert_eq!(CaseWhen.deserialize(&bytes).unwrap(), options);
    }
}

#[test]
fn fields_with_other_numbers_are_passed_over() {
    // A length-delimited field 3 of two bytes, a group 4 and a fixed field 5 around the options.
    let bytes = [
        0x1a, 2, 9, 9, 0x08, 7, 0x23, 0x08, 1, 0x24, 0x2d, 1, 2, 3, 4, 0x10, 1,
    ];
    assert_eq!(CaseWhen.deserialize(&bytes).unwrap(), pairs(7, true));
    // The last of two fields counts.
    assert_eq!(CaseWhen.deserialize(&[0x08, 7, 0x08, 9]).unwrap(), pairs(9, false));
}

#[test]
fn bytes_that_are_no_options_are_refused() {
    // A key without a value, a number that does not end, a value stored in another way, a field
    // with the number zero, and a field that is cut off.
    let cases: [&[u8]; 6] = [
        &[0x08],
        &[0x08, 0x80],
        &[0x0a, 1, 1],
        &[0x00, 1],
        &[0x1a, 5, 1],
        &[0x24],
    ];
    for bytes in cases {
        assert_eq!(CaseWhen.deserialize(bytes), Err(CaseWhenError::Decode));
    }
}

#[test]
fn test_display_with_else() {
    let expr = case_when(vec![gt(col("value"), lit_i32(0)), lit_i32(100), lit_i32(0)]);
    let display = expr.to_string();
    assert!(display.contains("CASE"));
    assert!(display.contains("WHEN"));
    assert!(display.contains("THEN"));
    assert!(display.contains("ELSE"));
    assert!(display.contains("END"));
    assert_eq!(
        display,
        "CASE WHEN ($.value > 0i32) THEN 100i32 ELSE 0i32 END"
    );
}

#[test]
fn test_display_no_else() {
    let expr = case_when_no_else(vec![gt(col("value"), lit_i32(0)), lit_i32(100)]);
    let display = expr.to_string();
    assert!(display.contains("CASE"));
    assert!(display.contains("WHEN"));
    assert!(display.contains("THEN"));
    assert!(!display.contains("ELSE"));
    assert!(display.contains("END"));
}

#[test]
fn test_display_multiple_conditions() {
    let expr = case_when(vec![
        gt(col("x"), lit_i32(10)),
        lit_str("high"),
        gt(col("x"), lit_i32(5)),
        lit_str("medium"),
        lit_str("low"),
    ]);
    let display = expr.to_string();
    assert_eq!(display.matches("WHEN").count(), 2);
    assert_eq!(display.matches("THEN").count(), 2);
}

#[test]
fn the_text_of_the_options() {
    assert_eq!(pairs(2, true).to_string(), "case_when(pairs=2, else=true)");
    assert_eq!(pairs(10, false).to_string(), "case_when(pairs=10, else=false)");
    assert_eq!(CaseWhen.id(), "vortex.case_when");
}

#[test]
fn test_return_dtype_with_else() {
    let dtypes = vec![
        DType::Bool(Nullability::NonNullable),
        i32_dtype(Nullability::NonNullable),
        i32_dtype(Nullability::NonNullable),
    ];
    let dtype = CaseWhen.return_dtype(&pairs(1, true), &dtypes).unwrap();
    assert!(dtype.equals(&i32_dtype(Nullability::NonNullable)));
}

#[test]
fn test_return_dtype_without_else_is_nullable() {
    let dtypes = vec![
        DType::Bool(Nullability::NonNullable),
        i32_dtype(Nullability::NonNullable),
    ];
    let dtype = CaseWhen.return_dtype(&pairs(1, false), &dtypes).unwrap();
    assert!(dtype.equals(&i32_dtype(Nullability::Nullable)));
}

#[test]
fn test_return_dtype_with_struct_input() {
    // CASE WHEN $.col1 > 10 THEN 100 ELSE 0 END, where the input is a struct with a `col1`.
    let input = DType::Struct(
        vec![FieldDType {
            name: "col1".to_string(),
            dtype: DType::Primitive(PType::U16, Nullability::NonNullable),
        }],
        Nullability::NonNullable,
    );
    let condition = DType::Bool(input.nullability());
    let dtypes = vec![
        condition,
        i32_dtype(Nullability::NonNullable),
        i32_dtype(Nullability::NonNullable),
    ];
    let dtype = CaseWhen.return_dtype(&pairs(1, true), &dtypes).unwrap();
    assert!(dtype.equals(&i32_dtype(Nullability::NonNullable)));
}

#[test]
fn a_case_without_a_pair_has_no_type() {
    let dtypes = vec![i32_dtype(Nullability::NonNullable)];
    assert!(matches!(
        CaseWhen.return_dtype(&pairs(0, true), &dtypes),
        Err(CaseWhenError::NoPairs)
    ));
}

#[test]
fn test_arity_with_else() {
    assert_eq!(CaseWhen.arity(&pairs(2, true)), 5);
}

#[test]
fn test_arity_without_else() {
    assert_eq!(CaseWhen.arity(&pairs(2, false)), 4);
}

#[test]
fn test_arity_single_condition() {
    assert_eq!(CaseWhen.arity(&pairs(1, true)), 3);
}

#[test]
fn test_child_names() {
    let options = pairs(2, true);
    assert_eq!(CaseWhen.child_name(&options, 0).to_string(), "when_0");
    assert_eq!(CaseWhen.child_name(&options, 1).to_string(), "then_0");
    assert_eq!(CaseWhen.child_name(&options, 2).to_string(), "when_1");
    assert_eq!(CaseWhen.child_name(&options, 3).to_string(), "then_1");
    assert_eq!(CaseWhen.child_name(&options, 4).to_string(), "else");
}

#[test]
fn test_replace_children() {
    let expr = case_when(vec![lit_bool(true), lit_i32(1), lit_i32(0)]);
    let replaced = expr
        .with_children(vec![lit_bool(false), lit_i32(2), lit_i32(3)])
        .expect("operation should succeed in test");
    assert_eq!(replaced.to_string(), "CASE WHEN false THEN 2i32 ELSE 3i32 END");
    assert!(expr.with_children(vec![lit_bool(false), lit_i32(2)]).is_none());
}

#[test]
fn test_evaluate_simple_condition() {
    // CASE WHEN value > 2 THEN 100 ELSE 0 END
    let inputs = vec![greater(&VALUES, 2), constant(100, 5), constant(0, 5)];
    let result = CaseWhen.execute(&pairs(1, true), &inputs, 5).unwrap();
    assert_eq!(read_ints(&result), some(&[0, 0, 100, 100, 100]));
}

#[test]
fn test_evaluate_multiple_conditions() {
    // CASE WHEN value == 1 THEN 10 WHEN value == 3 THEN 30 ELSE 0 END
    let inputs = vec![
        equal(&VALUES, 1),
        constant(10, 5),
        equal(&VALUES, 3),
        constant(30, 5),
        constant(0, 5),
    ];
    let result = CaseWhen.execute(&pairs(2, true), &inputs, 5).unwrap();
    assert_eq!(read_ints(&result), some(&[10, 0, 30, 0, 0]));
}

#[test]
fn test_evaluate_first_match_wins() {
    // CASE WHEN value > 2 THEN 100 WHEN value > 3 THEN 200 ELSE 0 END
    let inputs = vec![
        greater(&VALUES, 2),
        constant(100, 5),
        greater(&VALUES, 3),
        constant(200, 5),
        constant(0, 5),
    ];
    let result = CaseWhen.execute(&pairs(2, true), &inputs, 5).unwrap();
    assert_eq!(read_ints(&result), some(&[0, 0, 100, 100, 100]));
}

#[test]
fn test_evaluate_no_else_returns_null() {
    // CASE WHEN value > 3 THEN 100 END
    let inputs = vec![greater(&VALUES, 3), constant(100, 5)];
    let result = CaseWhen.execute(&pairs(1, false), &inputs, 5).unwrap();
    assert!(result.dtype.is_nullable());
    assert_eq!(
        read_ints(&result),
        vec![None, None, None, Some(100), Some(100)]
    );
}

#[test]
fn test_evaluate_all_conditions_false() {
    // CASE WHEN value > 100 THEN 1 ELSE 0 END
    let inputs = vec![greater(&VALUES, 100), constant(1, 5), constant(0, 5)];
    let result = CaseWhen.execute(&pairs(1, true), &inputs, 5).unwrap();
    assert_eq!(read_ints(&result), some(&[0, 0, 0, 0, 0]));
}

#[test]
fn test_evaluate_all_conditions_true() {
    // CASE WHEN value > 0 THEN 100 ELSE 0 END
    let inputs = vec![greater(&VALUES, 0), constant(100, 5), constant(0, 5)];
    let result = CaseWhen.execute(&pairs(1, true), &inputs, 5).unwrap();
    assert_eq!(read_ints(&result), some(&[100, 100, 100, 100, 100]));
}

#[test]
fn test_evaluate_with_literal_condition() {
    // CASE WHEN true THEN 100 ELSE 0 END
    let condition = ValueArray::constant(Scalar::bool(true, Nullability::NonNullable), 3);
    let inputs = vec![condition, constant(100, 3), constant(0, 3)];
    let result = CaseWhen.execute(&pairs(1, true), &inputs, 3).unwrap();
    assert_eq!(read_ints(&result), some(&[100, 100, 100]));
}

#[test]
fn test_evaluate_with_bool_column_result() {
    // CASE WHEN value > 2 THEN true ELSE false END
    let constant_bool =
        |b: bool| ValueArray::constant(Scalar::bool(b, Nullability::NonNullable), 5);
    let inputs = vec![greater(&VALUES, 2), constant_bool(true), constant_bool(false)];
    let result = CaseWhen.execute(&pairs(1, true), &inputs, 5).unwrap();
    assert_eq!(
        read_bools(&result),
        vec![Some(false), Some(false), Some(true), Some(true), Some(true)]
    );
}

#[test]
fn test_evaluate_with_nullable_condition() {
    // A condition that is null does not hold.
    let condition = bools(&[Some(true), None, Some(false), None, Some(true)]);
    let inputs = vec![condition, constant(100, 5), constant(0, 5)];
    let result = CaseWhen.execute(&pairs(1, true), &inputs, 5).unwrap();
    assert_eq!(read_ints(&result), some(&[100, 0, 0, 0, 100]));
}

#[test]
fn test_evaluate_with_nullable_result_values() {
    // CASE WHEN value > 2 THEN result ELSE 0 END
    let values = ints(
        &[Some(10), None, Some(30), Some(40), Some(50)],
        Nullability::Nullable,
    );
    let inputs = vec![greater(&VALUES, 2), values, constant(0, 5)];
    let result = CaseWhen.execute(&pairs(1, true), &inputs, 5).unwrap();
    assert_eq!(read_ints(&result), some(&[0, 0, 30, 40, 50]));
    assert!(result.dtype.is_nullable());
}

#[test]
fn test_evaluate_with_all_null_condition() {
    let condition = bools(&[None, None, None]);
    let inputs = vec![condition, constant(100, 3), constant(0, 3)];
    let result = CaseWhen.execute(&pairs(1, true), &inputs, 3).unwrap();
    assert_eq!(read_ints(&result), some(&[0, 0, 0]));
}

#[test]
fn test_execute_with_array_inputs() {
    let condition = bools(&[Some(true), Some(false), Some(true)]);
    let inputs = vec![condition, constant(100, 3), constant(0, 3)];
    let result = CaseWhen.execute(&pairs(1, true), &inputs, 3).unwrap();
    assert_eq!(read_ints(&result), some(&[100, 0, 100]));
}

#[test]
fn test_execute_with_scalar_inputs() {
    let inputs = vec![bools(&[Some(true)]), constant(100, 1), constant(0, 1)];
    let result = CaseWhen.execute(&pairs(1, true), &inputs, 1).unwrap();
    assert_eq!(read_ints(&result), some(&[100]));
}

#[test]
fn test_execute_with_scalar_false_condition() {
    let inputs = vec![bools(&[Some(false)]), constant(100, 1), constant(42, 1)];
    let result = CaseWhen.execute(&pairs(1, true), &inputs, 1).unwrap();
    assert_eq!(read_ints(&result), some(&[42]));
}

#[test]
fn test_execute_with_vector_condition() {
    let condition = bools(&[Some(true), Some(false), Some(true)]);
    let inputs = vec![condition, constant(100, 3), constant(0, 3)];
    let result = CaseWhen.execute(&pairs(1, true), &inputs, 3).unwrap();
    assert_eq!(read_ints(&result), some(&[100, 0, 100]));
}

#[test]
fn test_execute_with_nullable_condition() {
    let condition = bools(&[Some(true), None, Some(false), None]);
    let inputs = vec![condition, constant(100, 4), constant(0, 4)];
    let result = CaseWhen.execute(&pairs(1, true), &inputs, 4).unwrap();
    assert_eq!(read_ints(&result), some(&[100, 0, 0, 0]));
}

#[test]
fn test_execute_without_else() {
    let condition = bools(&[Some(true), Some(false), Some(true)]);
    let inputs = vec![condition, constant(100, 3)];
    let result = CaseWhen.execute(&pairs(1, false), &inputs, 3).unwrap();
    assert_eq!(read_ints(&result), vec![Some(100), None, Some(100)]);
}

#[test]
fn test_execute_multiple_conditions() {
    let inputs = vec![
        bools(&[Some(true), Some(false), Some(false)]),
        constant(10, 3),
        bools(&[Some(false), Some(true), Some(false)]),
        constant(20, 3),
        constant(0, 3),
    ];
    let result = CaseWhen.execute(&pairs(2, true), &inputs, 3).unwrap();
    assert_eq!(read_ints(&result), some(&[10, 20, 0]));
}

#[test]
fn test_execute_all_true_short_circuit() {
    let condition = bools(&[Some(true), Some(true), Some(true)]);
    let inputs = vec![condition, constant(100, 3), constant(0, 3)];
    let result = CaseWhen.execute(&pairs(1, true), &inputs, 3).unwrap();
    assert_eq!(read_ints(&result), some(&[100, 100, 100]));
}

#[test]
fn test_execute_all_false_short_circuit() {
    let condition = bools(&[Some(false), Some(false), Some(false)]);
    let inputs = vec![condition, constant(100, 3), constant(42, 3)];
    let result = CaseWhen.execute(&pairs(1, true), &inputs, 3).unwrap();
    assert_eq!(read_ints(&result), some(&[42, 42, 42]));
}

#[test]
fn test_execute_with_null_scalar_condition() {
    let inputs = vec![bools(&[None]), constant(100, 1), constant(42, 1)];
    let result = CaseWhen.execute(&pairs(1, true), &inputs, 1).unwrap();
    assert_eq!(read_ints(&result), some(&[42]));
}

#[test]
fn test_evaluate_divide_by_zero_protected_by_case_when() {
    // CASE WHEN denominator > 0 THEN numerator / denominator ELSE NULL END, over rows of which one
    // has a zero denominator and so no quotient.
    let numerator = [10, 20, 30];
    let denominator = [2, 0, 5];
    let quotient: Vec<Option<i32>> = (0..3)
        .map(|i: usize| i32::checked_div(numerator[i], denominator[i]))
        .collect();
    let inputs = vec![
        greater(&denominator, 0),
        ints(&quotient, Nullability::Nullable),
        ValueArray::constant(Scalar::null(i32_dtype(Nullability::Nullable)), 3),
    ];
    let result = CaseWhen.execute(&pairs(1, true), &inputs, 3).unwrap();
    assert_eq!(result.len(), 3);
    assert_eq!(read_ints(&result), vec![Some(5), None, Some(6)]);
}

#[test]
fn values_of_two_types_are_refused() {
    let texts = ValueArray::constant(
        Scalar::new_unchecked(
            DType::Utf8(Nullability::NonNullable),
            Some(Value::Utf8(b"low".to_vec())),
        ),
        1,
    );
    let inputs = vec![bools(&[Some(true)]), constant(1, 1), texts];
    assert!(matches!(
        CaseWhen.execute(&pairs(1, true), &inputs, 1),
        Err(CaseWhenError::TypeMismatch)
    ));
}
