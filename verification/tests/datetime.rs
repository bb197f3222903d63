//! Timestamps, their time zones, and dates as timestamps.

use vortex_core::dtype::{DType, ExtDType, ExtKind, Nullability, PType, TimeUnit, TimestampOptions};
use vortex_core::ext_scalar::ExtScalar;
use vortex_core::extension::datetime::cast::{ConvertError, DateToTimestamp};
use vortex_core::extension::datetime::timestamp::{
    MetadataError, Timestamp, TimestampError, TimestampValue,
};
use vortex_core::extension::datetime::timezone::{
    denotes_utc, is_utc_timezone, parse_utc_offset_seconds, resolve_timezone, ResolvedZone,
    ZoneError,
};
use vortex_core::scalar::{PValue, Scalar, ScalarError, Value};

use Nullability::{NonNullable, Nullable};

fn i64_value(v: i64) -> Option<Value> {
    Some(Value::Primitive(PValue::I64(v)))
}

fn timestamp(unit: TimeUnit, tz: Option<&str>, nullability: Nullability) -> ExtDType {
    Timestamp::new_with_tz(unit, tz.map(|tz| tz.to_string()), nullability)
}

fn scalar_of(unit: TimeUnit, v: i64) -> Result<Scalar, ScalarError> {
    Scalar::try_new(DType::Extension(Timestamp::new(unit, Nullable)), i64_value(v))
}

#[test]
fn validate_timestamp_scalar() {
    let dtype = DType::Extension(Timestamp::new(TimeUnit::Seconds, Nullable));
    Scalar::try_new(dtype, i64_value(0)).unwrap();
}

#[test]
fn reject_timestamp_with_invalid_timezone() {
    let dtype = DType::Extension(timestamp(TimeUnit::Seconds, Some("Not/A/Timezone"), Nullable));
    let result = Scalar::try_new(dtype, i64_value(0));
    assert!(result.is_err());
    assert_eq!(
        result.err(),
        Some(ScalarError::Timestamp(TimestampError::InvalidTimezone(
            ZoneError::Unknown
        )))
    );
}

#[test]
fn display_timestamp_scalar() {
    let local = DType::Extension(Timestamp::new(TimeUnit::Seconds, Nullable));
    let scalar = Scalar::try_new(local, i64_value(0)).unwrap();
    assert_eq!(
        scalar.as_extension().to_text().unwrap(),
        "1970-01-01T00:00:00Z"
    );

    let zoned = DType::Extension(timestamp(
        TimeUnit::Seconds,
        Some("America/New_York"),
        Nullable,
    ));
    let scalar = Scalar::try_new(zoned, i64_value(0)).unwrap();
    assert_eq!(
        scalar.as_extension().to_text().unwrap(),
        "1969-12-31T19:00:00-05:00[America/New_York]"
    );
}

#[test]
fn a_null_timestamp_is_written_as_null() {
    let dtype = DType::Extension(Timestamp::new(TimeUnit::Seconds, Nullable));
    let ext = ExtScalar::new_unchecked(&dtype, None);
    assert_eq!(ext.to_text().unwrap(), "null");
    assert_eq!(ext.to_text_with("own".to_string()), "null");
}

#[test]
fn a_scalar_is_written_in_its_time_zone() {
    let zero = Value::Primitive(PValue::I64(0));
    let text = |tz: Option<&str>, value: &Value| {
        let dtype = DType::Extension(timestamp(TimeUnit::Seconds, tz, Nullable));
        let ext = ExtScalar::new_unchecked(&dtype, Some(value));
        (ext.to_text(), ext.to_text_with("own".to_string()))
    };
    let tokyo = "1970-01-01T09:00:00+09:00[+09:00]".to_string();
    assert_eq!(text(Some("+09:00"), &zero), (Some(tokyo.clone()), tokyo));
    let utc = "1970-01-01T00:00:00Z".to_string();
    assert_eq!(text(None, &zero), (Some(utc.clone()), utc));
    // What is no timestamp has no text as one.
    let none = (None, "own".to_string());
    assert_eq!(text(Some("Not/A/Timezone"), &zero), none);
    assert_eq!(text(None, &Value::Primitive(PValue::I64(i64::MAX))), none);
    // Other types write their values themselves.
    let date = DType::Extension(ExtDType {
        kind: ExtKind::Date(TimeUnit::Days),
        storage: Box::new(DType::Primitive(PType::I32, NonNullable)),
    });
    let day = Value::Primitive(PValue::I32(1));
    let ext = ExtScalar::new_unchecked(&date, Some(&day));
    assert_eq!(ext.to_text(), None);
    assert_eq!(ext.to_text_with("1970-01-02".to_string()), "1970-01-02");
}

#[test]
fn a_faulty_value_is_reported_before_a_faulty_zone() {
    let unpack = |unit: TimeUnit, v: i64| {
        let options = TimestampOptions {
            unit,
            tz: Some("Not/A/Timezone".to_string()),
        };
        Timestamp::unpack_native(&options, &Value::Primitive(PValue::I64(v))).unwrap_err()
    };
    assert!(matches!(unpack(TimeUnit::Seconds, i64::MAX), TimestampError::OutOfRange { .. }));
    assert!(matches!(unpack(TimeUnit::Days, 0), TimestampError::DaysUnit));
    assert!(matches!(
        unpack(TimeUnit::Seconds, 0),
        TimestampError::InvalidTimezone(ZoneError::Unknown)
    ));
}

#[test]
fn least_supertype_timestamp_units() {
    let secs = timestamp(TimeUnit::Seconds, None, NonNullable);
    let ns = timestamp(TimeUnit::Nanoseconds, None, NonNullable);
    let expected = DType::Extension(timestamp(TimeUnit::Nanoseconds, None, NonNullable));
    let one = Timestamp::least_supertype(&secs, &DType::Extension(ns.duplicate())).unwrap();
    let other = Timestamp::least_supertype(&ns, &DType::Extension(secs.duplicate())).unwrap();
    assert!(one.equals(&expected));
    assert!(other.equals(&expected));
}

#[test]
fn least_supertype_timestamp_tz_mismatch() {
    let utc = timestamp(TimeUnit::Seconds, Some("UTC"), NonNullable);
    let none = DType::Extension(timestamp(TimeUnit::Seconds, None, NonNullable));
    assert!(Timestamp::least_supertype(&utc, &none).is_none());
}

#[test]
fn least_supertype_timestamp_same_tz() {
    let utc_s = timestamp(TimeUnit::Seconds, Some("UTC"), NonNullable);
    let utc_ns = DType::Extension(timestamp(TimeUnit::Nanoseconds, Some("UTC"), NonNullable));
    let found = Timestamp::least_supertype(&utc_s, &utc_ns).unwrap();
    assert!(found.equals(&utc_ns));
}

#[test]
fn can_coerce_from_timestamp_tz() {
    let utc = timestamp(TimeUnit::Nanoseconds, Some("UTC"), NonNullable);
    let utc_s = DType::Extension(timestamp(TimeUnit::Seconds, Some("UTC"), NonNullable));
    let none = DType::Extension(timestamp(TimeUnit::Nanoseconds, None, NonNullable));
    assert!(Timestamp::can_coerce_from(&utc, &utc_s));
    assert!(!Timestamp::can_coerce_from(&utc, &none));
}

#[test]
fn deserialize_empty_metadata_returns_error() {
    assert_eq!(
        Timestamp::deserialize_metadata(&[]).err(),
        Some(MetadataError::TooShort { len: 0 })
    );
}

#[test]
fn deserialize_too_short_metadata_returns_error() {
    assert!(Timestamp::deserialize_metadata(&[0x00, 0x01]).is_err());
}

#[test]
fn deserialize_truncated_timezone_returns_error() {
    let data = [0x00u8, 0x0A, 0x00, b'U', b'T', b'C'];
    assert_eq!(
        Timestamp::deserialize_metadata(&data).err(),
        Some(MetadataError::Truncated {
            declared: 10,
            available: 3
        })
    );
}

#[test]
fn other_metadata_that_is_refused() {
    assert_eq!(
        Timestamp::deserialize_metadata(&[9, 0, 0]).err(),
        Some(MetadataError::UnknownUnit { tag: 9 })
    );
    assert_eq!(
        Timestamp::deserialize_metadata(&[0, 1, 0, 0xff]).err(),
        Some(MetadataError::InvalidUtf8)
    );
}

#[test]
fn metadata_is_read_back() {
    let options = TimestampOptions {
        unit: TimeUnit::Milliseconds,
        tz: Some("America/New_York".to_string()),
    };
    let bytes = Timestamp::serialize_metadata(&options);
    assert_eq!(bytes[..3], [2, 16, 0]);
    let read = Timestamp::deserialize_metadata(&bytes).unwrap();
    assert!(read.equals(&options));

    let plain = TimestampOptions {
        unit: TimeUnit::Seconds,
        tz: None,
    };
    let bytes = Timestamp::serialize_metadata(&plain);
    assert_eq!(bytes, vec![3, 0, 0]);
    assert!(Timestamp::deserialize_metadata(&bytes).unwrap().equals(&plain));
}

#[test]
fn display_renders_fixed_offset() {
    let utc = "+00:00".to_string();
    assert_eq!(
        TimestampValue::Seconds(1, Some(&utc)).to_string(),
        "1970-01-01T00:00:01+00:00[UTC]"
    );

    let tokyo = "+09:00".to_string();
    assert_eq!(
        TimestampValue::Seconds(1, Some(&tokyo)).to_string(),
        "1970-01-01T09:00:01+09:00[+09:00]"
    );
}

#[test]
fn display_falls_back_on_unresolvable_timezone() {
    let bad = "Not/A/Timezone".to_string();
    let unzoned = TimestampValue::Seconds(1, None).to_string();
    assert_eq!(TimestampValue::Seconds(1, Some(&bad)).to_string(), unzoned);
    assert_eq!(unzoned, "1970-01-01T00:00:01Z");
}

#[test]
fn display_in_each_unit() {
    assert_eq!(
        TimestampValue::Milliseconds(1, None).to_string(),
        "1970-01-01T00:00:00.001Z"
    );
    assert_eq!(
        TimestampValue::Microseconds(1, None).to_string(),
        "1970-01-01T00:00:00.000001Z"
    );
    assert_eq!(
        TimestampValue::Nanoseconds(-1, None).to_string(),
        "1969-12-31T23:59:59.999999999Z"
    );
    assert_eq!(
        TimestampValue::Nanoseconds(0, None).display_in(Some(ResolvedZone::Fixed(3600))),
        "1970-01-01T01:00:00+01:00[+01:00]"
    );
}

#[test]
fn an_out_of_range_storage_value_is_an_error_not_a_panic() {
    for (unit, storage_value) in [
        (TimeUnit::Seconds, i64::MAX),
        (TimeUnit::Seconds, i64::MIN),
        (TimeUnit::Milliseconds, i64::MAX),
        (TimeUnit::Microseconds, i64::MAX),
        (TimeUnit::Seconds, 253_402_300_800),
    ] {
        assert!(matches!(
            scalar_of(unit, storage_value).err(),
            Some(ScalarError::Timestamp(TimestampError::OutOfRange { value, .. }))
                if value == storage_value
        ));
    }
}

#[test]
fn every_i64_is_a_valid_nanosecond_timestamp() {
    for v in [i64::MIN, i64::MIN + 1, 0, i64::MAX] {
        assert!(scalar_of(TimeUnit::Nanoseconds, v).is_ok());
    }
}

#[test]
fn the_storage_range_is_exactly_what_a_scalar_accepts() {
    for unit in [
        TimeUnit::Seconds,
        TimeUnit::Milliseconds,
        TimeUnit::Microseconds,
        TimeUnit::Nanoseconds,
    ] {
        let (min, max) = Timestamp::storage_range(unit).expect("a range for every stored unit");
        assert!(scalar_of(unit, min).is_ok());
        assert!(scalar_of(unit, max).is_ok());
        if min > i64::MIN {
            assert!(scalar_of(unit, min - 1).is_err());
        }
        if max < i64::MAX {
            assert!(scalar_of(unit, max + 1).is_err());
        }
    }
    assert_eq!(
        Timestamp::storage_range(TimeUnit::Seconds).unwrap(),
        (-377_705_023_201, 253_402_207_200)
    );
    assert_eq!(
        Timestamp::storage_range(TimeUnit::Nanoseconds).unwrap(),
        (i64::MIN, i64::MAX)
    );
}

#[test]
fn a_timestamp_in_days_has_no_storage_range() {
    assert_eq!(
        Timestamp::storage_range(TimeUnit::Days),
        Err(TimestampError::DaysUnit)
    );
}

#[test]
fn a_timestamp_is_stored_as_i64() {
    let ext = timestamp(TimeUnit::Seconds, None, NonNullable);
    assert_eq!(Timestamp::validate_dtype(&ext), Ok(()));
    let wrong = ExtDType {
        kind: ExtKind::Timestamp(TimestampOptions {
            unit: TimeUnit::Seconds,
            tz: None,
        }),
        storage: Box::new(DType::Primitive(PType::I32, NonNullable)),
    };
    assert_eq!(
        Timestamp::validate_dtype(&wrong),
        Err(TimestampError::StorageNotI64)
    );
}

fn offset_of(timezone: &str) -> i32 {
    match resolve_timezone(timezone).unwrap() {
        ResolvedZone::Fixed(seconds) => seconds,
        ResolvedZone::Named(zone) => zone.to_fixed_offset().unwrap().seconds(),
    }
}

#[test]
fn resolves_fixed_offset() {
    for (timezone, expected_seconds) in [
        ("+00:00", 0),
        ("-00:00", 0),
        ("+09:00", 9 * 60 * 60),
        ("-05:30", -(5 * 60 * 60 + 30 * 60)),
        ("+14:00", 14 * 60 * 60),
        ("+0930", 9 * 60 * 60 + 30 * 60),
        ("-08", -(8 * 60 * 60)),
    ] {
        assert_eq!(offset_of(timezone), expected_seconds);
        assert_eq!(parse_utc_offset_seconds(timezone), Some(expected_seconds));
    }
}

#[test]
fn resolves_iana_name() {
    match resolve_timezone("America/New_York").unwrap() {
        ResolvedZone::Named(zone) => assert_eq!(zone.iana_name(), Some("America/New_York")),
        ResolvedZone::Fixed(seconds) => panic!("a fixed offset of {seconds}"),
    }
    match resolve_timezone("UTC").unwrap() {
        ResolvedZone::Named(zone) => assert_eq!(zone, jiff::tz::TimeZone::UTC),
        ResolvedZone::Fixed(seconds) => panic!("a fixed offset of {seconds}"),
    }
}

#[test]
fn rejects_invalid_timezone() {
    for timezone in [
        "Not/A/Timezone",
        "",
        "00:00",
        "+00-00",
        "+0:000",
        "+aa:bb",
        "+ab",
        "+00:60",
        "+0099",
        "+26:00",
        "-99",
    ] {
        assert!(
            resolve_timezone(timezone).is_err(),
            "expected {timezone} to be rejected"
        );
    }
    assert!(matches!(
        resolve_timezone("+26:00"),
        Err(ZoneError::OffsetOutOfRange)
    ));
    assert!(matches!(resolve_timezone("+ab"), Err(ZoneError::Unknown)));
}

#[test]
fn detects_utc_timezone() {
    for (timezone, expected) in [
        ("+00:00", true),
        ("-00:00", true),
        ("+0000", true),
        ("+00", true),
        ("UTC", true),
        ("Etc/UTC", true),
        ("Etc/GMT", true),
        ("Zulu", true),
        ("Universal", true),
        ("+09:00", false),
        ("-05:30", false),
        ("+00:01", false),
        ("Etc/GMT+5", false),
        ("Europe/London", false),
        ("America/New_York", false),
        ("Not/A/Timezone", false),
        ("", false),
    ] {
        assert_eq!(is_utc_timezone(timezone), expected, "for {timezone}");
    }
}

#[test]
fn what_is_known_of_a_zone_tells_whether_it_is_utc() {
    assert!(denotes_utc(Some(0), 0, false, false));
    assert!(!denotes_utc(Some(60), 60, false, false));
    assert!(denotes_utc(None, 0, false, false));
    assert!(!denotes_utc(None, 0, true, false));
    assert!(!denotes_utc(None, 0, false, true));
}

fn conversion(source: TimeUnit, target: TimeUnit) -> DateToTimestamp {
    DateToTimestamp::new(source, target).unwrap()
}

#[test]
fn days_scale_up_to_nanoseconds() {
    let conversion = conversion(TimeUnit::Days, TimeUnit::Nanoseconds);
    assert_eq!(conversion.convert(19_783), Ok(1_709_251_200_000_000_000));
}

#[test]
fn milliseconds_scale_up_to_nanoseconds() {
    let conversion = conversion(TimeUnit::Milliseconds, TimeUnit::Nanoseconds);
    assert_eq!(
        conversion.convert(1_709_251_200_000),
        Ok(1_709_251_200_000_000_000)
    );
}

#[test]
fn a_value_the_target_unit_cannot_hold_exactly_is_refused() {
    let conversion = conversion(TimeUnit::Milliseconds, TimeUnit::Seconds);
    assert_eq!(conversion.convert(1), Err(ConvertError::Inexact { value: 1 }));
    assert_eq!(conversion.convert(2_000), Ok(2));
    assert_eq!(conversion.convert(-2_000), Ok(-2));
}

#[test]
fn a_value_that_leaves_the_i64_range_is_refused() {
    let conversion = conversion(TimeUnit::Days, TimeUnit::Nanoseconds);
    assert_eq!(
        conversion.convert(i64::MAX),
        Err(ConvertError::Overflow { value: i64::MAX })
    );
}

#[test]
fn a_date_beyond_the_last_representable_instant_is_refused() {
    for target_unit in [
        TimeUnit::Seconds,
        TimeUnit::Milliseconds,
        TimeUnit::Microseconds,
    ] {
        let conversion = conversion(TimeUnit::Days, target_unit);
        assert!(conversion.convert(i64::from(i32::MAX)).is_err());
        assert!(matches!(
            conversion.convert(2_932_896),
            Err(ConvertError::OutOfRange { .. })
        ));
        assert!(conversion.convert(2_932_895).is_ok());
    }
}

#[test]
fn the_representable_range_narrows_with_the_target_unit() {
    let last_day = 2_932_895;
    assert!(conversion(TimeUnit::Days, TimeUnit::Seconds).convert(last_day).is_ok());
    assert!(conversion(TimeUnit::Days, TimeUnit::Nanoseconds)
        .convert(last_day)
        .is_err());
}

#[test]
fn a_timestamp_in_days_has_no_conversion() {
    assert!(DateToTimestamp::new(TimeUnit::Days, TimeUnit::Days).is_err());
}
