//! Scalars of extension types.

use std::collections::HashSet;

use vortex_core::arrays::extension_cast::{cast_date_values_to_timestamp, I64Array};
use vortex_core::arrays::validity::Validity;
use vortex_core::dtype::{DType, ExtDType, ExtKind, Nullability, PType, TimeUnit};
use vortex_core::ext_scalar::ExtCastError;
use vortex_core::extension::datetime::timestamp::Timestamp;
use vortex_core::scalar::{PValue, Scalar, Value};

use Nullability::{NonNullable, Nullable};

fn test_ext(nullability: Nullability) -> ExtDType {
    ExtDType {
        kind: ExtKind::Other("test_ext".to_string(), Vec::new()),
        storage: Box::new(DType::Primitive(PType::I32, nullability)),
    }
}

fn test_scalar(value: i32) -> Scalar {
    Scalar::try_new(
        DType::Extension(test_ext(NonNullable)),
        Some(Value::Primitive(PValue::I32(value))),
    )
    .unwrap()
}

fn date(unit: TimeUnit, value: i64) -> Scalar {
    let (ptype, value) = match unit {
        TimeUnit::Days => (PType::I32, PValue::I32(i32::try_from(value).unwrap())),
        _ => (PType::I64, PValue::I64(value)),
    };
    let ext = ExtDType {
        kind: ExtKind::Date(unit),
        storage: Box::new(DType::Primitive(ptype, NonNullable)),
    };
    Scalar::try_new(DType::Extension(ext), Some(Value::Primitive(value))).unwrap()
}

fn timestamp_dtype(unit: TimeUnit) -> DType {
    DType::Extension(Timestamp::new(unit, NonNullable))
}

#[test]
fn test_ext_scalar_equality() {
    let (scalar1, scalar2, scalar3) = (test_scalar(42), test_scalar(42), test_scalar(43));
    assert_eq!(scalar1.as_extension(), scalar2.as_extension());
    assert_ne!(scalar1.as_extension(), scalar3.as_extension());
}

#[test]
fn test_ext_scalar_partial_ord() {
    let (scalar1, scalar2) = (test_scalar(10), test_scalar(20));
    assert!(scalar1.as_extension() < scalar2.as_extension());
    assert!(scalar2.as_extension() > scalar1.as_extension());
}

#[test]
fn test_ext_scalar_partial_ord_different_types() {
    let scalar1 = test_scalar(10);
    let other = ExtDType {
        kind: ExtKind::Other("test_ext_2".to_string(), Vec::new()),
        storage: Box::new(DType::Primitive(PType::I32, NonNullable)),
    };
    let scalar2 = Scalar::try_new(
        DType::Extension(other),
        Some(Value::Primitive(PValue::I32(20))),
    )
    .unwrap();
    assert_eq!(
        scalar1.as_extension().partial_cmp(&scalar2.as_extension()),
        None
    );
}

#[test]
fn test_ext_scalar_hash() {
    let (scalar1, scalar2, scalar3) = (test_scalar(42), test_scalar(42), test_scalar(43));
    let mut set = HashSet::new();
    set.insert(scalar2.as_extension().hash_key());
    set.insert(scalar1.as_extension().hash_key());
    // The same value is hashed by the same.
    assert_eq!(set.len(), 1);
    // A different value is hashed by something else.
    set.insert(scalar3.as_extension().hash_key());
    assert_eq!(set.len(), 2);
}

#[test]
fn a_key_does_not_tell_nullability_but_type_and_null() {
    let nullable = Scalar::try_new(
        DType::Extension(test_ext(Nullable)),
        Some(Value::Primitive(PValue::I32(42))),
    )
    .unwrap();
    let null = Scalar::try_new(DType::Extension(test_ext(Nullable)), None).unwrap();
    let plain = test_scalar(42);
    assert_eq!(plain.as_extension(), nullable.as_extension());
    assert_eq!(
        plain.as_extension().hash_key(),
        nullable.as_extension().hash_key()
    );
    assert_ne!(
        plain.as_extension().hash_key(),
        null.as_extension().hash_key()
    );
    assert_ne!(
        date(TimeUnit::Milliseconds, 42).as_extension().hash_key(),
        date(TimeUnit::Seconds, 42).as_extension().hash_key()
    );
}

#[test]
fn test_ext_scalar_storage() {
    let storage = Scalar::primitive(PValue::I32(42), NonNullable);
    let scalar = test_scalar(42);
    assert!(scalar.as_extension().to_storage_scalar().equals(&storage));
}

#[test]
fn test_ext_scalar_ext_dtype() {
    let ext_dtype = test_ext(NonNullable);
    let scalar = test_scalar(42);
    let ext = scalar.as_extension();
    assert!(ext.ext_dtype().kind.equals(&ext_dtype.kind));
    assert!(DType::Extension(ext.ext_dtype().duplicate())
        .equals(&DType::Extension(ext_dtype.duplicate())));
    assert!(ext.dtype().equals(&DType::Extension(ext_dtype)));
}

#[test]
fn test_ext_scalar_cast_to_storage() {
    let scalar = test_scalar(42);
    for nullability in [NonNullable, Nullable] {
        let target = DType::Primitive(PType::I32, nullability);
        let casted = scalar.as_extension().cast(&target).unwrap();
        assert!(casted.dtype.equals(&target));
        assert!(matches!(
            casted.value,
            Some(Value::Primitive(PValue::I32(42)))
        ));
    }
}

#[test]
fn test_ext_scalar_cast_to_self() {
    let scalar = test_scalar(42);
    for nullability in [NonNullable, Nullable] {
        let target = DType::Extension(test_ext(nullability));
        let casted = scalar.as_extension().cast(&target).unwrap();
        assert!(casted.dtype.equals(&target));
    }
}

#[test]
fn test_ext_scalar_cast_incompatible() {
    let scalar = test_scalar(42);
    let result = scalar.as_extension().cast(&DType::Utf8(NonNullable));
    assert!(matches!(result, Err(ExtCastError::Incompatible)));
}

#[test]
fn test_ext_scalar_cast_null_to_non_nullable() {
    let scalar = Scalar::try_new(DType::Extension(test_ext(Nullable)), None).unwrap();
    let result = scalar
        .as_extension()
        .cast(&DType::Primitive(PType::I32, NonNullable));
    assert!(result.is_err());
}

#[test]
fn test_ext_scalar_with_metadata() {
    let metadata = 1234u64.to_le_bytes().to_vec();
    let ext = ExtDType {
        kind: ExtKind::Other("test_ext_metadata".to_string(), metadata.clone()),
        storage: Box::new(DType::Primitive(PType::I32, NonNullable)),
    };
    let scalar = Scalar::try_new(
        DType::Extension(ext),
        Some(Value::Primitive(PValue::I32(42))),
    )
    .unwrap();
    match &scalar.as_extension().ext_dtype().kind {
        ExtKind::Other(_, found) => assert_eq!(found, &metadata),
        other => panic!("another kind: {other:?}"),
    }
}

#[test]
fn test_ext_scalar_cast_date_to_timestamp() {
    const DAYS: i64 = 19_783;
    const MILLIS: i64 = 1_709_251_200_000;
    const NANOS: i64 = 1_709_251_200_000_000_000;

    let nanos_dtype = timestamp_dtype(TimeUnit::Nanoseconds);
    let nanos = Scalar::primitive(PValue::I64(NANOS), NonNullable);
    for scalar in [
        date(TimeUnit::Days, DAYS),
        date(TimeUnit::Milliseconds, MILLIS),
    ] {
        let casted = scalar.as_extension().cast(&nanos_dtype).unwrap();
        assert!(casted.dtype.equals(&nanos_dtype));
        assert!(casted.as_extension().to_storage_scalar().equals(&nanos));
    }
}

#[test]
fn test_ext_scalar_cast_date_to_timestamp_matches_the_array_kernel() {
    for (source_unit, values) in [
        (
            TimeUnit::Days,
            vec![0i64, 19_783, -1, i64::from(i32::MAX), 2_932_896, 2_932_895],
        ),
        (
            TimeUnit::Milliseconds,
            vec![
                0i64,
                1_709_251_200_000,
                -86_400_000,
                i64::from(i32::MAX) * 86_400_000,
                253_402_300_800_000,
                253_402_300_799_000,
            ],
        ),
    ] {
        for target_unit in [
            TimeUnit::Seconds,
            TimeUnit::Milliseconds,
            TimeUnit::Microseconds,
            TimeUnit::Nanoseconds,
        ] {
            let target_dtype = timestamp_dtype(target_unit);
            for value in &values {
                let values = I64Array {
                    values: vec![*value],
                    validity: Validity::NonNullable,
                };
                let array_cast = cast_date_values_to_timestamp(&values, source_unit, target_unit);
                let scalar = date(source_unit, *value);
                let scalar_cast = scalar.as_extension().cast(&target_dtype);
                match array_cast {
                    Ok(array) => {
                        let expected = Scalar::primitive(PValue::I64(array.values[0]), NonNullable);
                        assert!(scalar_cast
                            .unwrap()
                            .as_extension()
                            .to_storage_scalar()
                            .equals(&expected));
                    }
                    Err(_) => assert!(scalar_cast.is_err()),
                }
            }
        }
    }
}

#[test]
fn test_ext_scalar_cast_between_timestamp_units_is_refused() {
    let millis = Scalar::try_new(
        timestamp_dtype(TimeUnit::Milliseconds),
        Some(Value::Primitive(PValue::I64(1_709_251_200_000))),
    )
    .unwrap();
    let nanos = timestamp_dtype(TimeUnit::Nanoseconds);
    assert!(millis.as_extension().cast(&nanos).is_err());
}
