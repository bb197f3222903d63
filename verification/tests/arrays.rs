//! What is computed on arrays: casts, takes, least and greatest values.

use vortex_core::arrays::array::ValueArray;
use vortex_core::arrays::arrow_map::{check_map_parts, ListParts, MapError};
use vortex_core::arrays::decimal_cast::{
    cast_kernel, cast_to_decimal, reduce_cast as reduce_decimal_cast, upcast_decimal_values,
    CastDecimals, DecimalArray, DecimalCastError, DecimalType, DecimalValues,
    ValueError,
};
use vortex_core::arrays::dict_take::{
    propagate_take_stats, short_circuit, Codes, Precision, Stat, StatArray, StatsSet, TakeError,
    TakeExecute, TakeExecuteAdaptor, TakeReduce, TakeReduceAdaptor,
};
use vortex_core::arrays::extension_cast::{
    cast_date_values_to_timestamp, cast_temporal_date_to_timestamp, reduce_cast, CastReduction,
    I64Array, ReducedCast, TemporalCastError,
};
use vortex_core::arrays::min_max::{accumulate_extension, MinMaxPartial, MinMaxResult};
use vortex_core::arrays::validity::Validity;
use vortex_core::dtype::{DType, DecimalDType, ExtDType, ExtKind, Nullability, PType, TimeUnit};
use vortex_core::extension::datetime::cast::ConvertError;
use vortex_core::extension::datetime::timestamp::Timestamp;
use vortex_core::scalar::{PValue, Scalar, ScalarError, Value, I256};

use Nullability::{NonNullable, Nullable};

fn decimal(precision: u8, scale: i8) -> DecimalDType {
    DecimalDType { precision, scale }
}

fn i32_decimals(values: &[i32], precision: u8, scale: i8, validity: Validity) -> DecimalArray {
    DecimalArray {
        values: DecimalValues::I32(values.to_vec()),
        decimal_dtype: decimal(precision, scale),
        validity,
    }
}

fn i64_decimals(values: &[i64], precision: u8, scale: i8, validity: Validity) -> DecimalArray {
    DecimalArray {
        values: DecimalValues::I64(values.to_vec()),
        decimal_dtype: decimal(precision, scale),
        validity,
    }
}

fn is_same_validity(a: &Validity, expected: &[bool]) -> bool {
    expected.iter().enumerate().all(|(i, e)| a.is_valid(i) == *e)
}

/// No decimal has a counterpart.
fn none(_: I256, _: i8, _: PType) -> Result<PValue, ValueError> {
    Err(ValueError::NoCounterpart("123.45".to_string()))
}

#[test]
fn cast_decimal_to_nullable() {
    let array = i32_decimals(&[100, 200, 300], 10, 2, Validity::NonNullable);
    let target = DType::Decimal(decimal(10, 2), Nullable);
    let casted = reduce_decimal_cast(&array, &target).unwrap();
    assert!(casted.dtype().equals(&target));
    assert!(matches!(casted.validity, Validity::AllValid));
    assert_eq!(casted.values.len(), 3);
}

#[test]
fn cast_nullable_to_non_nullable() {
    let array = i32_decimals(&[100, 200, 300], 10, 2, Validity::AllValid);
    let target = DType::Decimal(decimal(10, 2), NonNullable);
    let casted = reduce_decimal_cast(&array, &target).unwrap();
    assert!(casted.dtype().equals(&target));
    assert!(matches!(casted.validity, Validity::NonNullable));
    let casted = cast_to_decimal(&array, decimal(10, 2), NonNullable).unwrap();
    assert!(matches!(casted.validity, Validity::NonNullable));
}

#[test]
#[should_panic(expected = "Cannot cast array with invalid values to non-nullable type")]
fn cast_nullable_with_nulls_to_non_nullable_fails() {
    let validity = Validity::Array(vec![true, false, true]);
    let array = i32_decimals(&[100, 0, 300], 10, 2, validity);
    let target = DType::Decimal(decimal(10, 2), NonNullable);
    assert!(reduce_decimal_cast(&array, &target).is_none());
    if let Err(e) = cast_kernel(&array, &target, none) {
        panic!("{}", e.to_string());
    }
}

#[test]
fn cast_different_scale_fails() {
    let array = i32_decimals(&[100], 10, 2, Validity::NonNullable);
    let target = DType::Decimal(decimal(15, 3), NonNullable);
    let error = cast_kernel(&array, &target, none).unwrap_err();
    assert!(error
        .to_string()
        .contains("Casting decimal with scale 2 to scale 3 not yet implemented"));
}

#[test]
fn cast_downcast_precision_fails() {
    let array = i64_decimals(&[100], 18, 2, Validity::NonNullable);
    let target = DType::Decimal(decimal(10, 2), NonNullable);
    let error = cast_kernel(&array, &target, none).unwrap_err();
    assert!(error
        .to_string()
        .contains("Downcasting decimal from precision 18 to 10 not yet implemented"));
}

#[test]
fn cast_upcast_precision_succeeds() {
    let array = i32_decimals(&[100, 200, 300], 10, 2, Validity::NonNullable);
    let target = DType::Decimal(decimal(38, 2), NonNullable);
    match cast_kernel(&array, &target, none).unwrap() {
        Some(CastDecimals::Decimal(casted)) => {
            assert_eq!(casted.decimal_dtype, decimal(38, 2));
            assert_eq!(casted.values.len(), 3);
            assert_eq!(casted.values.values_type(), DecimalType::I128);
        }
        other => panic!("no decimals: {other:?}"),
    }
}

/// A decimal as a floating point number.
fn scaled(v: I256, scale: i8, ptype: PType) -> Result<PValue, ValueError> {
    assert!(v.high == 0 || v.high == -1);
    assert_eq!(ptype, PType::F64);
    let value = v.low as i128 as f64 / 10_f64.powi(i32::from(scale));
    Ok(PValue::F64(value.to_bits()))
}

fn read_f64(v: &PValue) -> f64 {
    match v {
        PValue::F64(bits) => f64::from_bits(*bits),
        other => panic!("no f64: {other:?}"),
    }
}

#[test]
fn cast_decimal_to_f64_applies_scale() {
    let array = i64_decimals(&[12345, -50, 0], 15, 2, Validity::NonNullable);
    let target = DType::Primitive(PType::F64, NonNullable);
    match cast_kernel(&array, &target, scaled).unwrap() {
        Some(CastDecimals::Primitive(PType::F64, values, Validity::NonNullable)) => {
            assert!((read_f64(&values[0]) - 123.45).abs() < 0.000000000001);
            assert_eq!(read_f64(&values[1]), -0.5);
            assert_eq!(read_f64(&values[2]), 0.0);
        }
        other => panic!("no f64: {other:?}"),
    }
}

#[test]
fn cast_nullable_decimal_to_nullable_f64_preserves_validity() {
    let validity = Validity::Array(vec![true, false, true]);
    let array = i64_decimals(&[12345, 0, -50], 15, 2, validity);
    let target = DType::Primitive(PType::F64, Nullable);
    match cast_kernel(&array, &target, scaled).unwrap() {
        Some(CastDecimals::Primitive(PType::F64, values, validity)) => {
            assert!(is_same_validity(&validity, &[true, false, true]));
            assert!((read_f64(&values[0]) - 123.45).abs() < 0.000000000001);
            assert_eq!(read_f64(&values[2]), -0.5);
        }
        other => panic!("no f64: {other:?}"),
    }
}

#[test]
fn a_decimal_without_a_counterpart_is_refused() {
    let array = i64_decimals(&[12345], 15, 2, Validity::NonNullable);
    let target = DType::Primitive(PType::I8, NonNullable);
    let error = cast_kernel(&array, &target, none).unwrap_err();
    assert_eq!(
        error,
        DecimalCastError::Value {
            index: 0,
            error: ValueError::NoCounterpart("123.45".to_string()),
            ptype: PType::I8
        }
    );
    assert_eq!(error.to_string(), "Failed to cast decimal value 123.45 to I8");
    let no_float = |_: I256, _: i8, _: PType| Err(ValueError::NoFloat("12345".to_string()));
    assert_eq!(
        cast_kernel(&array, &target, no_float).unwrap_err().to_string(),
        "Failed to cast decimal value 12345 to f64"
    );
    // A null is not asked for.
    let array = i64_decimals(&[12345], 15, 2, Validity::AllInvalid);
    let target = DType::Primitive(PType::I8, Nullable);
    assert!(cast_kernel(&array, &target, none).is_ok());
}

#[test]
fn cast_to_non_decimal_returns_err() {
    let array = i32_decimals(&[100], 10, 2, Validity::NonNullable);
    // There is no cast to such a type.
    let target = DType::Utf8(NonNullable);
    assert!(reduce_decimal_cast(&array, &target).is_none());
    assert!(matches!(cast_kernel(&array, &target, none), Ok(None)));
}

#[test]
fn upcast_decimal_values_i32_to_i64() {
    let array = i32_decimals(&[100, 200, 300], 10, 2, Validity::NonNullable);
    assert_eq!(array.values.values_type(), DecimalType::I32);
    let casted = upcast_decimal_values(&array, DecimalType::I64).unwrap();
    assert_eq!(casted.values.values_type(), DecimalType::I64);
    assert_eq!(casted.decimal_dtype, decimal(10, 2));
    assert!(matches!(casted.values, DecimalValues::I64(v) if v == [100, 200, 300]));
}

#[test]
fn upcast_decimal_values_i64_to_i128() {
    let array = i64_decimals(&[10000, 20000, 30000], 18, 4, Validity::NonNullable);
    let casted = upcast_decimal_values(&array, DecimalType::I128).unwrap();
    assert_eq!(casted.decimal_dtype, decimal(18, 4));
    assert!(matches!(casted.values, DecimalValues::I128(v) if v == [10000, 20000, 30000]));
}

#[test]
fn upcast_decimal_values_same_type_returns_clone() {
    let array = i32_decimals(&[100, 200, 300], 10, 2, Validity::NonNullable);
    let casted = upcast_decimal_values(&array, DecimalType::I32).unwrap();
    assert_eq!(casted.values.values_type(), DecimalType::I32);
    assert_eq!(casted.decimal_dtype, decimal(10, 2));
    assert!(matches!(casted.values, DecimalValues::I32(v) if v == [100, 200, 300]));
}

#[test]
fn upcast_decimal_values_with_nulls() {
    let validity = Validity::Array(vec![true, false, true]);
    let array = i32_decimals(&[100, 0, 300], 10, 2, validity);
    let casted = upcast_decimal_values(&array, DecimalType::I64).unwrap();
    assert_eq!(casted.values.values_type(), DecimalType::I64);
    assert!(is_same_validity(&casted.validity, &[true, false, true]));
    assert!(matches!(casted.values, DecimalValues::I64(v) if v.len() == 3 && v[0] == 100 && v[2] == 300));
}

#[test]
fn upcast_decimal_values_downcast_fails() {
    let array = i64_decimals(&[10000, 20000, 30000], 18, 4, Validity::NonNullable);
    let error = upcast_decimal_values(&array, DecimalType::I32).unwrap_err();
    assert!(error.to_string().contains("Cannot downcast decimal values"));
}

#[test]
fn negative_decimals_keep_their_value_when_widened() {
    let array = i64_decimals(&[-1, i64::MIN], 18, 4, Validity::NonNullable);
    match upcast_decimal_values(&array, DecimalType::I256).unwrap().values {
        DecimalValues::I256(v) => {
            assert_eq!((v[0].high, v[0].low), (-1, u128::MAX));
            assert_eq!((v[1].high, v[1].low), (-1, i64::MIN as i128 as u128));
        }
        other => panic!("not widened: {other:?}"),
    }
}

#[test]
fn the_width_that_a_precision_takes() {
    for (precision, expected) in [
        (2, DecimalType::I8),
        (4, DecimalType::I16),
        (9, DecimalType::I32),
        (18, DecimalType::I64),
        (38, DecimalType::I128),
        (39, DecimalType::I256),
    ] {
        let found = DecimalType::smallest_decimal_value_type(decimal(precision, 0));
        assert_eq!(found, expected);
    }
}

// Casts of extension arrays.

fn timestamp(unit: TimeUnit, nullability: Nullability) -> ExtDType {
    Timestamp::new(unit, nullability)
}

fn date_days(nullability: Nullability) -> ExtDType {
    ExtDType {
        kind: ExtKind::Date(TimeUnit::Days),
        storage: Box::new(DType::Primitive(PType::I32, nullability)),
    }
}

#[test]
fn cast_same_ext_dtype() {
    let ext = timestamp(TimeUnit::Milliseconds, NonNullable);
    let target = DType::Extension(ext.duplicate());
    match reduce_cast(&ext, &target) {
        CastReduction::Extension(found) => assert!(DType::Extension(found).equals(&target)),
        other => panic!("another reduction: {other:?}"),
    }
}

#[test]
fn cast_same_ext_dtype_differet_nullability() {
    let ext = timestamp(TimeUnit::Milliseconds, NonNullable);
    let target = DType::Extension(ext.duplicate()).with_nullability(Nullable);
    match reduce_cast(&ext, &target) {
        CastReduction::Extension(found) => {
            assert!(found.eq_ignore_nullability(&ext));
            assert!(DType::Extension(found).equals(&target));
        }
        other => panic!("another reduction: {other:?}"),
    }
}

#[test]
fn cast_date_days_to_timestamp_nanoseconds() {
    let source = date_days(NonNullable);
    let target = DType::Extension(timestamp(TimeUnit::Nanoseconds, NonNullable));
    let storage = I64Array {
        values: vec![0, 1, -1],
        validity: Validity::NonNullable,
    };
    let output = cast_temporal_date_to_timestamp(&source, &storage, &target).unwrap().unwrap();
    assert_eq!(output.values, vec![0, 86_400_000_000_000, -86_400_000_000_000]);
    assert!(is_same_validity(&output.validity, &[true, true, true]));
}

#[test]
fn cast_date_days_to_timestamp_seconds_nullable() {
    let source = date_days(Nullable);
    let target = DType::Extension(timestamp(TimeUnit::Seconds, Nullable));
    let storage = I64Array {
        values: vec![0, 0, 2],
        validity: Validity::Array(vec![true, false, true]),
    };
    let output = cast_temporal_date_to_timestamp(&source, &storage, &target).unwrap().unwrap();
    assert!(is_same_validity(&output.validity, &[true, false, true]));
    assert_eq!((output.values[0], output.values[2]), (0, 172_800));
}

#[test]
fn a_null_date_has_no_place_in_a_type_without_a_null() {
    let source = date_days(Nullable);
    let cast = |validity: Validity, nullability: Nullability| {
        let storage = I64Array {
            values: vec![0, 1],
            validity,
        };
        let target = DType::Extension(timestamp(TimeUnit::Seconds, nullability));
        cast_temporal_date_to_timestamp(&source, &storage, &target)
    };
    assert_eq!(
        cast(Validity::Array(vec![true, false]), NonNullable).unwrap_err(),
        TemporalCastError::InvalidValues
    );
    assert_eq!(
        cast(Validity::AllInvalid, NonNullable).unwrap_err(),
        TemporalCastError::InvalidValues
    );
    // The result has the nullability of the target.
    let output = cast(Validity::Array(vec![true, true]), NonNullable).unwrap().unwrap();
    assert!(matches!(output.validity, Validity::NonNullable));
    assert_eq!(output.values, vec![0, 86_400]);
    let output = cast(Validity::NonNullable, Nullable).unwrap().unwrap();
    assert!(matches!(output.validity, Validity::AllValid));
    // A scalar is refused for the same.
    let date = DType::Extension(date_days(Nullable));
    let null = Scalar::try_new(date, None).unwrap();
    let target = DType::Extension(timestamp(TimeUnit::Seconds, NonNullable));
    assert!(null.as_extension().cast(&target).is_err());
}

#[test]
fn storage_that_cannot_be_cast_defers_the_cast() {
    let ext = timestamp(TimeUnit::Milliseconds, NonNullable);
    let same = DType::Extension(timestamp(TimeUnit::Milliseconds, Nullable));
    let reduction = reduce_cast(&ext, &same);
    let stored = DType::Primitive(PType::I64, Nullable);
    assert!(reduction.storage_target().unwrap().equals(&stored));
    match reduction.with_storage(Ok::<u8, &str>(7)) {
        Ok(ReducedCast::Extension(found, 7)) => assert!(DType::Extension(found).equals(&same)),
        other => panic!("another result: {other:?}"),
    }
    assert!(matches!(
        reduce_cast(&ext, &same).with_storage(Err::<u8, &str>("no cast")),
        Ok(ReducedCast::Deferred)
    ));
    // To a type that is no extension type, the cast of the storage is the whole cast.
    let target = DType::Utf8(NonNullable);
    let reduction = reduce_cast(&ext, &target);
    assert!(reduction.storage_target().unwrap().equals(&target));
    assert!(matches!(
        reduction.with_storage(Err::<u8, &str>("no cast")),
        Err("no cast")
    ));
    assert!(matches!(
        reduce_cast(&ext, &target).with_storage(Ok::<u8, &str>(7)),
        Ok(ReducedCast::Storage(7))
    ));
    let other = DType::Extension(timestamp(TimeUnit::Seconds, NonNullable));
    let reduction = reduce_cast(&ext, &other);
    assert!(reduction.storage_target().is_none());
    assert!(matches!(
        reduction.with_storage(Ok::<u8, &str>(7)),
        Ok(ReducedCast::Deferred)
    ));
}

#[test]
fn cast_different_ext_dtype() {
    let source = timestamp(TimeUnit::Milliseconds, NonNullable);
    let target = DType::Extension(timestamp(TimeUnit::Nanoseconds, NonNullable));
    assert!(matches!(reduce_cast(&source, &target), CastReduction::Deferred));
    let storage = I64Array {
        values: vec![1],
        validity: Validity::NonNullable,
    };
    // There is no cast of the values either.
    assert!(matches!(
        cast_temporal_date_to_timestamp(&source, &storage, &target),
        Ok(None)
    ));
}

#[test]
fn cast_timestamp_to_i64() {
    let source = Timestamp::new_with_tz(TimeUnit::Nanoseconds, Some("UTC".into()), NonNullable);
    let target = DType::Primitive(PType::I64, NonNullable);
    match reduce_cast(&source, &target) {
        CastReduction::Storage(found) => assert!(found.equals(&target)),
        other => panic!("another reduction: {other:?}"),
    }
}

#[test]
fn dates_without_a_timestamp_fail_the_cast() {
    let array = |v: i64, validity: Validity| I64Array {
        values: vec![0, v],
        validity,
    };
    let cast = |a: I64Array, unit: TimeUnit| cast_date_values_to_timestamp(&a, TimeUnit::Days, unit);
    assert!(matches!(
        cast(array(2_932_896, Validity::NonNullable), TimeUnit::Seconds),
        Err(TemporalCastError::Convert(ConvertError::OutOfRange { .. }))
    ));
    // A null has no date that could fail.
    assert!(cast(
        array(2_932_896, Validity::Array(vec![true, false])),
        TimeUnit::Seconds
    )
    .is_ok());
    assert!(matches!(
        cast(array(0, Validity::NonNullable), TimeUnit::Days),
        Err(TemporalCastError::DaysUnit)
    ));
}

// Takes of dictionaries.

fn u64_value(v: u64) -> Value {
    Value::Primitive(PValue::U64(v))
}

#[test]
fn uncompressed_size_in_bytes_propagates_through_take_as_inexact() {
    let mut source = StatsSet::new();
    source.set(Stat::UncompressedSizeInBytes, Precision::Exact(u64_value(16)));
    let mut target = StatsSet::new();
    let indices = Codes {
        indices: vec![0, 2],
        validity: Validity::NonNullable,
    };
    propagate_take_stats(&source, &mut target, &indices);
    assert!(matches!(
        target.get(Stat::UncompressedSizeInBytes),
        Precision::Inexact(Value::Primitive(PValue::U64(16)))
    ));
}

#[test]
fn is_constant_propagates_inexactly_through_take_with_a_null_index() {
    let mut source = StatsSet::new();
    source.set(Stat::IsConstant, Precision::Exact(Value::Bool(true)));
    let mut target = StatsSet::new();
    let indices = Codes {
        indices: vec![0, 0],
        validity: Validity::Array(vec![true, false]),
    };
    propagate_take_stats(&source, &mut target, &indices);
    assert!(matches!(
        target.get(Stat::IsConstant),
        Precision::Inexact(Value::Bool(true))
    ));
    // Without a null the statistic stays exact.
    let indices = Codes {
        indices: vec![0, 0],
        validity: Validity::AllValid,
    };
    propagate_take_stats(&source, &mut target, &indices);
    assert!(matches!(
        target.get(Stat::IsConstant),
        Precision::Exact(Value::Bool(true))
    ));
}

#[test]
fn least_and_greatest_carry_over_inexactly() {
    let mut source = StatsSet::new();
    source.set(Stat::Min, Precision::Exact(u64_value(1)));
    source.set(Stat::Max, Precision::Inexact(u64_value(9)));
    let mut target = StatsSet::new();
    let indices = Codes {
        indices: vec![0],
        validity: Validity::NonNullable,
    };
    propagate_take_stats(&source, &mut target, &indices);
    assert!(matches!(target.get(Stat::Min), Precision::Inexact(Value::Primitive(PValue::U64(1)))));
    assert!(matches!(target.get(Stat::Max), Precision::Inexact(Value::Primitive(PValue::U64(9)))));
    assert!(target.get(Stat::IsConstant).is_absent());
}

fn i32_array(values: &[i32]) -> ValueArray {
    ValueArray {
        dtype: DType::Primitive(PType::I32, NonNullable),
        values: values.iter().map(|v| Some(Value::Primitive(PValue::I32(*v)))).collect(),
    }
}

#[test]
fn a_take_of_nothing_or_from_nothing() {
    let none = Codes {
        indices: vec![],
        validity: Validity::AllValid,
    };
    let taken = short_circuit(&i32_array(&[1, 2]), &none).unwrap();
    assert_eq!(taken.len(), 0);
    assert!(taken.dtype.is_nullable());
    let nulls = Codes {
        indices: vec![0, 0],
        validity: Validity::AllInvalid,
    };
    let taken = short_circuit(&i32_array(&[]), &nulls).unwrap();
    assert_eq!(taken.len(), 2);
    assert!(taken.values.iter().all(|v| v.is_none()));
    assert!(short_circuit(&i32_array(&[1]), &nulls).is_none());
}

/// Takes the values one by one, or fails, or passes.
enum OneByOne {
    Take,
    Fail,
    Pass,
}

impl OneByOne {
    fn taken(&self, array: &ValueArray, indices: &Codes) -> Result<Option<StatArray>, TakeError> {
        match self {
            OneByOne::Take => Ok(Some(StatArray {
                array: ValueArray {
                    dtype: array.dtype.duplicate(),
                    values: indices
                        .indices
                        .iter()
                        .map(|i| array.values[*i as usize].as_ref().map(|v| v.duplicate()))
                        .collect(),
                },
                stats: StatsSet::new(),
            })),
            OneByOne::Fail => Err(TakeError),
            OneByOne::Pass => Ok(None),
        }
    }
}

impl TakeReduce for OneByOne {
    fn take(&self, array: &ValueArray, indices: &Codes) -> Result<Option<StatArray>, TakeError> {
        self.taken(array, indices)
    }
}

impl TakeExecute for OneByOne {
    fn take(&self, array: &ValueArray, indices: &Codes) -> Result<Option<StatArray>, TakeError> {
        self.taken(array, indices)
    }
}

#[test]
fn only_the_values_of_a_dictionary_are_taken() {
    let mut stats = StatsSet::new();
    stats.set(Stat::Max, Precision::Exact(Value::Primitive(PValue::I32(30))));
    let array = StatArray {
        array: i32_array(&[10, 20, 30]),
        stats,
    };
    let codes = Codes {
        indices: vec![2, 0],
        validity: Validity::NonNullable,
    };
    let taken = TakeReduceAdaptor(OneByOne::Take).reduce_parent(&array, &codes, 1).unwrap().unwrap();
    assert!(matches!(taken.array.values[0], Some(Value::Primitive(PValue::I32(30)))));
    assert!(matches!(taken.array.values[1], Some(Value::Primitive(PValue::I32(10)))));
    assert!(matches!(
        taken.stats.get(Stat::Max),
        Precision::Inexact(Value::Primitive(PValue::I32(30)))
    ));
    assert!(matches!(TakeReduceAdaptor(OneByOne::Take).reduce_parent(&array, &codes, 0), Ok(None)));
    assert!(matches!(TakeReduceAdaptor(OneByOne::Pass).reduce_parent(&array, &codes, 1), Ok(None)));
    assert!(TakeExecuteAdaptor(OneByOne::Fail).execute_parent(&array, &codes, 1).is_err());
    assert!(matches!(TakeExecuteAdaptor(OneByOne::Fail).execute_parent(&array, &codes, 0), Ok(None)));
    let taken = TakeExecuteAdaptor(OneByOne::Take).execute_parent(&array, &codes, 1).unwrap().unwrap();
    assert_eq!(taken.array.len(), 2);
}

// The least and the greatest value.

fn bounds(min: i64, max: i64) -> MinMaxResult {
    MinMaxResult {
        min: Scalar::primitive(PValue::I64(min), NonNullable),
        max: Scalar::primitive(PValue::I64(max), NonNullable),
    }
}

fn read_bounds(partial: &MinMaxPartial) -> Option<(i64, i64)> {
    let read = |s: &Scalar| match s.value {
        Some(Value::Primitive(PValue::I64(v))) => v,
        ref other => panic!("no i64: {other:?}"),
    };
    partial.result.as_ref().map(|r| (read(&r.min), read(&r.max)))
}

#[test]
fn the_bounds_of_extension_arrays_are_merged() {
    let ext = timestamp(TimeUnit::Seconds, Nullable);
    let mut partial = MinMaxPartial { result: None };
    assert!(accumulate_extension(&mut partial, &ext, None).is_ok());
    assert_eq!(read_bounds(&partial), None);
    assert!(accumulate_extension(&mut partial, &ext, Some(bounds(5, 10))).is_ok());
    assert!(accumulate_extension(&mut partial, &ext, Some(bounds(7, 20))).is_ok());
    assert!(accumulate_extension(&mut partial, &ext, Some(bounds(-3, 1))).is_ok());
    assert_eq!(read_bounds(&partial), Some((-3, 20)));
    let result = partial.result.as_ref().unwrap();
    let expected = DType::Extension(timestamp(TimeUnit::Seconds, NonNullable));
    assert!(result.min.dtype.equals(&expected));
}

#[test]
fn a_bound_that_the_type_refuses_fails_the_aggregation() {
    let bad = Timestamp::new_with_tz(TimeUnit::Seconds, Some("Not/A/Timezone".into()), Nullable);
    let mut partial = MinMaxPartial {
        result: Some(bounds(1, 2)),
    };
    let error = accumulate_extension(&mut partial, &bad, Some(bounds(0, 3))).unwrap_err();
    assert!(matches!(error, ScalarError::Timestamp(_)));
    assert_eq!(read_bounds(&partial), Some((1, 2)));
}

#[test]
fn a_map_has_pairs_as_entries() {
    assert!(check_map_parts(ListParts::StructEntries).is_ok());
    let error = check_map_parts(ListParts::OtherEntries("Int32".to_string())).unwrap_err();
    assert_eq!(error.to_string(), "Map entries must be a StructArray, got Int32");
    let error = check_map_parts(ListParts::UnnamedEntries).unwrap_err();
    assert_eq!(error.to_string(), "Map entries must be a StructArray");
    let error = check_map_parts(ListParts::NotAList).unwrap_err();
    assert!(matches!(error, MapError::NotAList));
    assert_eq!(
        error.to_string(),
        "to_arrow_list returned a non-ListArray when building a MapArray"
    );
}
