//! Points in time.

use crate::dtype::{
    DType, DTypeView, ExtDType, ExtDTypeView, ExtKind, ExtKindView, Nullability, PType, TimeUnit,
    TimestampOptions, TimestampOptionsView,
};
use crate::extension::datetime::cast::nanoseconds_per;
use crate::extension::datetime::timezone::{
    failure, law_what_resolves, offset_fits, offset_seconds, resolve_timezone, resolves_to, zone_fault,
    zone_verdict, ResolvedZone, ZoneError,
};
use crate::scalar::{PValue, Value, ValueView};
use jiff::tz::{Offset, TimeZone};
use vstd::prelude::*;
use vstd::utf8::{decode_utf8, encode_utf8, valid_utf8};

verus! {

/// The extension type of points in time.
#[derive(Clone, Copy, Debug, PartialEq, Eq, Structural)]
pub struct Timestamp;

/// Why a value or a type is no timestamp.
#[derive(Clone, Copy, Debug, PartialEq, Eq, Structural)]
pub enum TimestampError {
    /// A timestamp is never stored in days.
    DaysUnit,
    /// What it is stored as is not `i64`.
    StorageNotI64,
    /// The storage value does not fit `i64`.
    NotAnI64,
    /// The value is outside the instants that a timestamp can represent.
    OutOfRange { value: i64, unit: TimeUnit, min: i64, max: i64 },
    /// The time zone does not resolve.
    InvalidTimezone(ZoneError),
}

/// Why metadata is not that of a timestamp.
#[derive(Clone, Copy, Debug, PartialEq, Eq, Structural)]
pub enum MetadataError {
    /// There are fewer than three bytes.
    TooShort { len: usize },
    /// The first byte is the tag of no unit.
    UnknownUnit { tag: u8 },
    /// The time zone is longer than what is there.
    Truncated { declared: usize, available: usize },
    /// The time zone is not valid UTF-8.
    InvalidUtf8,
}

/// The type of timestamps.
pub open spec fn timestamp_dtype(options: TimestampOptionsView, n: Nullability) -> ExtDTypeView {
    ExtDTypeView {
        kind: ExtKindView::Timestamp(options),
        storage: Box::new(DTypeView::Primitive(PType::I64, n)),
    }
}

/// The first and the last instant in seconds, `jiff::Timestamp::MIN` and `MAX` by
/// `jiff::Timestamp::as_second`.
#[verifier::external_body]
fn limits_in_seconds() -> (r: (i64, i64))
    ensures
        r == (-377_705_023_201i64, 253_402_207_200i64),
{
    (jiff::Timestamp::MIN.as_second(), jiff::Timestamp::MAX.as_second())
}

/// The first and the last instant in milliseconds, `jiff::Timestamp::MIN` and `MAX` by
/// `jiff::Timestamp::as_millisecond`.
#[verifier::external_body]
fn limits_in_milliseconds() -> (r: (i64, i64))
    ensures
        r == (-377_705_023_201_000i64, 253_402_207_200_999i64),
{
    (jiff::Timestamp::MIN.as_millisecond(), jiff::Timestamp::MAX.as_millisecond())
}

/// The first and the last instant in microseconds, `jiff::Timestamp::MIN` and `MAX` by
/// `jiff::Timestamp::as_microsecond`.
#[verifier::external_body]
fn limits_in_microseconds() -> (r: (i64, i64))
    ensures
        r == (-377_705_023_201_000_000i64, 253_402_207_200_999_999i64),
{
    (jiff::Timestamp::MIN.as_microsecond(), jiff::Timestamp::MAX.as_microsecond())
}

/// The first and the last instant in nanoseconds, `jiff::Timestamp::MIN` and `MAX` by
/// `jiff::Timestamp::as_nanosecond`.
#[verifier::external_body]
fn limits_in_nanoseconds() -> (r: (i128, i128))
    ensures
        r == (-377_705_023_201_000_000_000i128, 253_402_207_200_999_999_999i128),
{
    (jiff::Timestamp::MIN.as_nanosecond(), jiff::Timestamp::MAX.as_nanosecond())
}

/// The first and the last storage value that a timestamp in `unit` can hold.
pub open spec fn storage_limits(unit: TimeUnit) -> Option<(i64, i64)> {
    match unit {
        TimeUnit::Nanoseconds => Some((i64::MIN, i64::MAX)),
        TimeUnit::Microseconds => Some(
            (-377_705_023_201_000_000i64, 253_402_207_200_999_999i64),
        ),
        TimeUnit::Milliseconds => Some((-377_705_023_201_000i64, 253_402_207_200_999i64)),
        TimeUnit::Seconds => Some((-377_705_023_201i64, 253_402_207_200i64)),
        TimeUnit::Days => None,
    }
}

/// Whether a timestamp in `unit` can hold the value.
pub open spec fn in_storage_range(unit: TimeUnit, value: int) -> bool {
    storage_limits(unit) matches Some((min, max)) && min <= value <= max
}

impl Timestamp {
    /// Creates a new timestamp type with the given time unit and nullability.
    pub fn new(time_unit: TimeUnit, nullability: Nullability) -> (r: ExtDType)
        ensures
            r@ == timestamp_dtype(
                (TimestampOptionsView { unit: time_unit, tz: None }),
                nullability,
            ),
    {
        Timestamp::new_with_tz(time_unit, None, nullability)
    }

    /// Creates a new timestamp type with the given time unit, time zone, and nullability.
    pub fn new_with_tz(
        time_unit: TimeUnit,
        timezone: Option<String>,
        nullability: Nullability,
    ) -> (r: ExtDType)
        ensures
            r@ == timestamp_dtype(
                (TimestampOptions { unit: time_unit, tz: timezone })@,
                nullability,
            ),
    {
        Timestamp::new_with_options(TimestampOptions { unit: time_unit, tz: timezone }, nullability)
    }

    /// Creates a new timestamp type with the given options and nullability.
    pub fn new_with_options(options: TimestampOptions, nullability: Nullability) -> (r: ExtDType)
        ensures
            r@ == timestamp_dtype(options@, nullability),
    {
        ExtDType {
            kind: ExtKind::Timestamp(options),
            storage: Box::new(DType::Primitive(PType::I64, nullability)),
        }
    }

    /// Returns the inclusive range of storage values that a timestamp in `unit` can hold.
    ///
    /// A scalar outside this range is refused and a date is not converted to a value outside
    /// it, so a converted date can always be carried by a scalar. Nanoseconds are the whole of
    /// `i64`, which lies inside the range of instants.
    pub fn storage_range(unit: TimeUnit) -> (r: Result<(i64, i64), TimestampError>)
        ensures
            r == match storage_limits(unit) {
                Some(limits) => Ok::<(i64, i64), TimestampError>(limits),
                None => Err(TimestampError::DaysUnit),
            },
    {
        match unit {
            TimeUnit::Nanoseconds => {
                let (min, max) = limits_in_nanoseconds();
                let low: i64 = if min < i64::MIN as i128 {
                    i64::MIN
                } else {
                    min as i64
                };
                let high: i64 = if max > i64::MAX as i128 {
                    i64::MAX
                } else {
                    max as i64
                };
                Ok((low, high))
            },
            TimeUnit::Microseconds => Ok(limits_in_microseconds()),
            TimeUnit::Milliseconds => Ok(limits_in_milliseconds()),
            TimeUnit::Seconds => Ok(limits_in_seconds()),
            TimeUnit::Days => Err(TimestampError::DaysUnit),
        }
    }
}

/// How options are displayed: the unit, and the time zone if there is one.
pub open spec fn displayed_options(options: TimestampOptionsView) -> Seq<char> {
    match options.tz {
        Some(tz) => options.unit.name_spec() + ", tz="@ + tz,
        None => options.unit.name_spec(),
    }
}

impl TimestampOptions {
    /// Returns the unit, and the time zone if there is one.
    pub fn to_string(&self) -> (r: String)
        ensures
            r@ == displayed_options(self@),
    {
        let mut text = self.unit.name().to_owned();
        match &self.tz {
            Some(tz) => {
                text.append(", tz=");
                text.append(tz.as_str());
            },
            None => {},
        }
        text
    }
}

/// The text of an instant in UTC, given its nanoseconds since the Unix epoch.
pub uninterp spec fn rendered_instant(nanoseconds: int) -> Seq<char>;

/// The text of an instant at a fixed offset from UTC, given its nanoseconds since the Unix epoch
/// and the seconds of the offset.
pub uninterp spec fn rendered_at_offset(nanoseconds: int, offset: int) -> Seq<char>;

/// Whether there is an instant so many nanoseconds since the Unix epoch.
pub open spec fn is_instant(nanoseconds: int) -> bool {
    -377_705_023_201_000_000_000 <= nanoseconds <= 253_402_207_200_999_999_999
}

/// Renders an instant in UTC, with `jiff::Timestamp::from_nanosecond`, which accepts every
/// instant, and the type's `Display`. The text is a function of the instant.
#[verifier::external_body]
fn render_instant(nanoseconds: i128) -> (r: String)
    requires
        is_instant(nanoseconds as int),
    ensures
        r@ == rendered_instant(nanoseconds as int),
{
    format!("{}", jiff::Timestamp::from_nanosecond(nanoseconds).unwrap())
}

/// Renders an instant at a fixed offset, with `jiff::Timestamp::to_zoned` and the `Display` of
/// `jiff::Zoned`. The text is a function of the instant and the offset.
#[verifier::external_body]
fn render_at_offset(nanoseconds: i128, offset: i32) -> (r: String)
    requires
        is_instant(nanoseconds as int),
        offset_fits(offset as int),
    ensures
        r@ == rendered_at_offset(nanoseconds as int, offset as int),
{
    let zone = TimeZone::fixed(Offset::from_seconds(offset).unwrap());
    format!("{}", jiff::Timestamp::from_nanosecond(nanoseconds).unwrap().to_zoned(zone))
}

/// Renders an instant in a zone of the time zone database, with `jiff::Timestamp::to_zoned` and
/// the `Display` of `jiff::Zoned`. The text depends on the database, so nothing is claimed of it.
#[verifier::external_body]
fn render_in_zone(nanoseconds: i128, zone: &TimeZone) -> (r: String)
    requires
        is_instant(nanoseconds as int),
{
    format!("{}", jiff::Timestamp::from_nanosecond(nanoseconds).unwrap().to_zoned(zone.clone()))
}

/// Whether rendering an instant in a zone of the time zone database can come back with `text`.
pub closed spec fn zone_renders(nanoseconds: int, zone: &TimeZone, text: String) -> bool {
    call_ensures(render_in_zone, (nanoseconds as i128, zone), text)
}

/// Whether `text` is that of an instant in a zone, or in UTC if there is none.
pub open spec fn is_text_in(zone: Option<ResolvedZone>, nanoseconds: int, text: String) -> bool {
    match zone {
        None => text@ == rendered_instant(nanoseconds),
        Some(ResolvedZone::Fixed(s)) => text@ == rendered_at_offset(nanoseconds, s as int),
        Some(ResolvedZone::Named(zone)) => zone_renders(nanoseconds, &zone, text),
    }
}

/// Whether `text` is that of an instant with a time zone: in the zone that it resolves to, and in
/// UTC if it resolves to none.
pub open spec fn is_zoned_text(timezone: Seq<char>, nanoseconds: int, text: String) -> bool {
    exists|outcome: Result<ResolvedZone, ZoneError>| #[trigger]
        resolves_to(timezone, outcome) && is_text_in(
            match outcome {
                Ok(zone) => Some(zone),
                Err(_) => None,
            },
            nanoseconds,
            text,
        )
}

/// Whether `text` is that of an instant with an optional time zone: in UTC without one.
pub open spec fn is_text_of(timezone: Option<Seq<char>>, nanoseconds: int, text: String) -> bool {
    match timezone {
        None => is_text_in(None, nanoseconds, text),
        Some(tz) => is_zoned_text(tz, nanoseconds, text),
    }
}

/// Unpacked value of a timestamp scalar: the raw storage value and an optional time zone.
#[derive(Debug)]
pub enum TimestampValue<'a> {
    /// Seconds since the Unix epoch.
    Seconds(i64, Option<&'a String>),
    /// Milliseconds since the Unix epoch.
    Milliseconds(i64, Option<&'a String>),
    /// Microseconds since the Unix epoch.
    Microseconds(i64, Option<&'a String>),
    /// Nanoseconds since the Unix epoch.
    Nanoseconds(i64, Option<&'a String>),
}

impl<'a> TimestampValue<'a> {
    /// The unit of the value.
    pub open spec fn unit(self) -> TimeUnit {
        match self {
            TimestampValue::Seconds(..) => TimeUnit::Seconds,
            TimestampValue::Milliseconds(..) => TimeUnit::Milliseconds,
            TimestampValue::Microseconds(..) => TimeUnit::Microseconds,
            TimestampValue::Nanoseconds(..) => TimeUnit::Nanoseconds,
        }
    }

    /// The raw storage value.
    pub open spec fn raw(self) -> i64 {
        match self {
            TimestampValue::Seconds(v, _) => v,
            TimestampValue::Milliseconds(v, _) => v,
            TimestampValue::Microseconds(v, _) => v,
            TimestampValue::Nanoseconds(v, _) => v,
        }
    }

    /// The time zone.
    pub open spec fn zone(self) -> Option<Seq<char>> {
        let tz = match self {
            TimestampValue::Seconds(_, tz) => tz,
            TimestampValue::Milliseconds(_, tz) => tz,
            TimestampValue::Microseconds(_, tz) => tz,
            TimestampValue::Nanoseconds(_, tz) => tz,
        };
        match tz {
            Some(tz) => Some(tz@),
            None => None,
        }
    }

    /// The nanoseconds since the Unix epoch.
    pub open spec fn nanoseconds(self) -> int {
        match self {
            TimestampValue::Seconds(v, _) => v * 1_000_000_000,
            TimestampValue::Milliseconds(v, _) => v * 1_000_000,
            TimestampValue::Microseconds(v, _) => v * 1_000,
            TimestampValue::Nanoseconds(v, _) => v as int,
        }
    }

    /// Returns the text of the value in a zone that its time zone resolved to, or in UTC if it
    /// resolved to none.
    pub fn display_in(&self, zone: Option<ResolvedZone>) -> (r: String)
        requires
            in_storage_range(self.unit(), self.raw() as int),
            zone matches Some(ResolvedZone::Fixed(s)) ==> offset_fits(s as int),
        ensures
            is_text_in(zone, self.nanoseconds(), r),
    {
        let nanoseconds: i128 = match self {
            TimestampValue::Seconds(v, _) => *v as i128 * 1_000_000_000,
            TimestampValue::Milliseconds(v, _) => *v as i128 * 1_000_000,
            TimestampValue::Microseconds(v, _) => *v as i128 * 1_000,
            TimestampValue::Nanoseconds(v, _) => *v as i128,
        };
        match zone {
            None => render_instant(nanoseconds),
            Some(ResolvedZone::Fixed(offset)) => render_at_offset(nanoseconds, offset),
            Some(ResolvedZone::Named(zone)) => {
                let text = render_in_zone(nanoseconds, &zone);
                assert(zone_renders(self.nanoseconds(), &zone, text));
                text
            },
        }
    }

    /// Returns the text of the value. With a time zone that resolves, it is rendered there. A
    /// time zone that does not resolve leaves the text in UTC, for there is no way to report the
    /// failure.
    pub fn to_string(&self) -> (r: String)
        requires
            in_storage_range(self.unit(), self.raw() as int),
        ensures
            is_text_of(self.zone(), self.nanoseconds(), r),
    {
        let tz = match self {
            TimestampValue::Seconds(_, tz) => *tz,
            TimestampValue::Milliseconds(_, tz) => *tz,
            TimestampValue::Microseconds(_, tz) => *tz,
            TimestampValue::Nanoseconds(_, tz) => *tz,
        };
        match tz {
            None => self.display_in(None),
            Some(tz) => {
                let outcome = resolve_timezone(tz.as_str());
                assert(resolves_to(tz@, outcome));
                match outcome {
                    Ok(zone) => self.display_in(Some(zone)),
                    Err(_) => self.display_in(None),
                }
            },
        }
    }
}

/// Serialized metadata: the tag of the unit, the length of the time zone in two bytes with the
/// lower one first, and the bytes of the time zone in UTF-8.
pub open spec fn metadata_bytes(options: TimestampOptionsView) -> Seq<u8> {
    let tz = match options.tz {
        Some(tz) => encode_utf8(tz),
        None => Seq::empty(),
    };
    seq![options.unit.rank() as u8, (tz.len() % 256) as u8, (tz.len() / 256) as u8] + tz
}

/// What serialized metadata stands for.
pub open spec fn parsed_metadata(data: Seq<u8>) -> Result<TimestampOptionsView, MetadataError> {
    let declared = data[1] as int + 256 * (data[2] as int);
    if data.len() < 3 {
        Err(MetadataError::TooShort { len: data.len() as usize })
    } else {
        match TimeUnit::of_tag(data[0]) {
            None => Err(MetadataError::UnknownUnit { tag: data[0] }),
            Some(unit) => if declared == 0 {
                Ok(TimestampOptionsView { unit, tz: None })
            } else if data.len() < 3 + declared {
                Err(
                    MetadataError::Truncated {
                        declared: declared as usize,
                        available: (data.len() - 3) as usize,
                    },
                )
            } else if !valid_utf8(data.subrange(3, 3 + declared)) {
                Err(MetadataError::InvalidUtf8)
            } else {
                Ok(
                    TimestampOptionsView {
                        unit,
                        tz: Some(decode_utf8(data.subrange(3, 3 + declared))),
                    },
                )
            },
        }
    }
}

/// Makes a text of bytes, with `core::str::from_utf8`, which succeeds exactly on valid UTF-8.
#[verifier::external_body]
fn text_from_utf8(bytes: &[u8]) -> (r: Option<String>)
    ensures
        r is Some == valid_utf8(bytes@),
        r matches Some(text) ==> text@ == decode_utf8(bytes@),
{
    match core::str::from_utf8(bytes) {
        Ok(text) => Some(text.to_owned()),
        Err(_) => None,
    }
}

impl Timestamp {
    /// Serializes the options of a timestamp type. The time zone takes at most 65,535 bytes.
    pub fn serialize_metadata(metadata: &TimestampOptions) -> (r: Vec<u8>)
        requires
            metadata@.tz matches Some(tz) ==> encode_utf8(tz).len() <= 65_535,
        ensures
            r@ == metadata_bytes(metadata@),
    {
        let mut bytes: Vec<u8> = Vec::new();
        bytes.push(metadata.unit.tag());
        match &metadata.tz {
            None => {
                bytes.push(0);
                bytes.push(0);
            },
            Some(tz) => {
                let tz_bytes = tz.as_str().as_bytes();
                let n: usize = tz_bytes.len();
                bytes.push((n % 256) as u8);
                bytes.push((n / 256) as u8);
                let mut i: usize = 0;
                let ghost head = bytes@;
                while i < n
                    invariant
                        0 <= i <= n,
                        n == tz_bytes.len(),
                        bytes@ =~= head + tz_bytes@.take(i as int),
                    decreases n - i,
                {
                    bytes.push(tz_bytes[i]);
                    i += 1;
                }
                assert(tz_bytes@.take(i as int) =~= tz_bytes@);
            },
        }
        assert(bytes@ =~= metadata_bytes(metadata@));
        bytes
    }

    /// Reads the options of a timestamp type from serialized metadata.
    pub fn deserialize_metadata(data: &[u8]) -> (r: Result<TimestampOptions, MetadataError>)
        ensures
            match r {
                Ok(options) => parsed_metadata(data@) == Ok::<TimestampOptionsView, MetadataError>(
                    options@,
                ),
                Err(e) => parsed_metadata(data@) == Err::<TimestampOptionsView, MetadataError>(e),
            },
    {
        if data.len() < 3 {
            return Err(MetadataError::TooShort { len: data.len() });
        }
        let unit = match TimeUnit::from_tag(data[0]) {
            Some(unit) => unit,
            None => {
                return Err(MetadataError::UnknownUnit { tag: data[0] });
            },
        };
        let declared: usize = data[1] as usize + 256 * (data[2] as usize);
        if declared == 0 {
            return Ok(TimestampOptions { unit, tz: None });
        }
        let available: usize = data.len() - 3;
        if available < declared {
            return Err(MetadataError::Truncated { declared, available });
        }
        let tz_bytes = &data[3..3 + declared];
        match text_from_utf8(tz_bytes) {
            Some(tz) => Ok(TimestampOptions { unit, tz: Some(tz) }),
            None => Err(MetadataError::InvalidUtf8),
        }
    }

    /// Returns whether a value of type `other` can become one of the timestamp type `ext_dtype`
    /// without loss: both are timestamps of one time zone, the other's unit is not finer, and a
    /// null has somewhere to go.
    pub fn can_coerce_from(ext_dtype: &ExtDType, other: &DType) -> (r: bool)
        requires
            ext_dtype@.kind is Timestamp,
        ensures
            r == coerces_from(ext_dtype@, other@),
    {
        let ours = match &ext_dtype.kind {
            ExtKind::Timestamp(options) => options,
            _ => {
                return false;
            },
        };
        match other {
            DType::Extension(other_ext) => match &other_ext.kind {
                ExtKind::Timestamp(theirs) => {
                    crate::dtype::text_eq(&ours.tz, &theirs.tz) && ours.unit.tag()
                        <= theirs.unit.tag() && (ext_dtype.storage.is_nullable()
                        || !other.is_nullable())
                },
                _ => false,
            },
            _ => false,
        }
    }

    /// Returns the type that both types can become: the timestamp of the finer unit, which has a
    /// null if one of them has. There is none for other types or another time zone.
    pub fn least_supertype(ext_dtype: &ExtDType, other: &DType) -> (r: Option<DType>)
        requires
            ext_dtype@.kind is Timestamp,
        ensures
            r is Some == supertype_of(ext_dtype@, other@) is Some,
            r matches Some(dtype) ==> dtype@ == supertype_of(ext_dtype@, other@).unwrap(),
    {
        let ours = match &ext_dtype.kind {
            ExtKind::Timestamp(options) => options,
            _ => {
                return None;
            },
        };
        match other {
            DType::Extension(other_ext) => match &other_ext.kind {
                ExtKind::Timestamp(theirs) => {
                    if !crate::dtype::text_eq(&ours.tz, &theirs.tz) {
                        return None;
                    }
                    let finest = ours.unit.finer(theirs.unit);
                    let nullability = ext_dtype.storage.nullability().union(other.nullability());
                    Some(
                        DType::Extension(
                            Timestamp::new_with_tz(
                                finest,
                                crate::dtype::text_copy(&ours.tz),
                                nullability,
                            ),
                        ),
                    )
                },
                _ => None,
            },
            _ => None,
        }
    }

    /// Checks that an extension type is stored as timestamps are.
    pub fn validate_dtype(ext_dtype: &ExtDType) -> (r: Result<(), TimestampError>)
        ensures
            r == if *ext_dtype@.storage matches DTypeView::Primitive(PType::I64, _) {
                Ok::<(), TimestampError>(())
            } else {
                Err(TimestampError::StorageNotI64)
            },
    {
        match &*ext_dtype.storage {
            DType::Primitive(PType::I64, _) => Ok(()),
            _ => Err(TimestampError::StorageNotI64),
        }
    }

    /// Checks a raw value against the range of its unit.
    pub fn check_raw(unit: TimeUnit, value: i64) -> (r: Result<(), TimestampError>)
        ensures
            r == raw_check(unit, value as int),
    {
        let (min, max) = match Timestamp::storage_range(unit) {
            Ok(range) => range,
            Err(e) => {
                return Err(e);
            },
        };
        if min <= value && value <= max {
            Ok(())
        } else {
            Err(TimestampError::OutOfRange { value, unit, min, max })
        }
    }

    /// Unpacks a storage value, given why its time zone does not resolve, if it does not.
    pub fn unpack_resolved<'a>(
        options: &'a TimestampOptions,
        storage_value: &Value,
        zone_error: Option<ZoneError>,
    ) -> (r: Result<TimestampValue<'a>, TimestampError>)
        requires
            storage_value@ matches ValueView::Primitive(p) && p.integer() is Some,
        ensures
            match native_check(options@.unit, storage_value@, zone_error) {
                Ok(v) => r matches Ok(value) && value.unit() == options@.unit && value.raw() == v
                    && value.zone() == options@.tz,
                Err(e) => r == Err::<TimestampValue<'a>, TimestampError>(e),
            },
    {
        let value: i64 = match storage_value {
            Value::Primitive(p) => match p.to_i64() {
                Some(v) => v,
                None => {
                    return Err(TimestampError::NotAnI64);
                },
            },
            _ => {
                return Err(TimestampError::NotAnI64);
            },
        };
        match Timestamp::check_raw(options.unit, value) {
            Ok(()) => {},
            Err(e) => {
                return Err(e);
            },
        }
        match zone_error {
            Some(e) => {
                return Err(TimestampError::InvalidTimezone(e));
            },
            None => {},
        }
        let tz = options.tz.as_ref();
        match options.unit {
            TimeUnit::Nanoseconds => Ok(TimestampValue::Nanoseconds(value, tz)),
            TimeUnit::Microseconds => Ok(TimestampValue::Microseconds(value, tz)),
            TimeUnit::Milliseconds => Ok(TimestampValue::Milliseconds(value, tz)),
            TimeUnit::Seconds => Ok(TimestampValue::Seconds(value, tz)),
            TimeUnit::Days => Err(TimestampError::DaysUnit),
        }
    }

    /// Unpacks a storage value of a timestamp type: it has to be an instant that a timestamp can
    /// represent, and its time zone has to resolve.
    pub fn unpack_native<'a>(options: &'a TimestampOptions, storage_value: &Value) -> (r: Result<
        TimestampValue<'a>,
        TimestampError,
    >)
        requires
            storage_value@ matches ValueView::Primitive(p) && p.integer() is Some,
        ensures
            exists|error: Option<ZoneError>| #[trigger]
                zone_verdict(options@.tz, error) && match native_check(
                    options@.unit,
                    storage_value@,
                    error,
                ) {
                    Ok(v) => r matches Ok(value) && value.unit() == options@.unit && value.raw() == v
                        && value.zone() == options@.tz,
                    Err(e) => r == Err::<TimestampValue<'a>, TimestampError>(e),
                },
    {
        let zone_error = match &options.tz {
            None => None,
            Some(tz) => {
                let outcome = resolve_timezone(tz.as_str());
                let ghost found = outcome;
                let error = match outcome {
                    Ok(_) => None,
                    Err(e) => Some(e),
                };
                assert(resolves_to(tz@, found));
                assert(zone_fault(tz@, error));
                error
            },
        };
        assert(zone_verdict(options@.tz, zone_error));
        Timestamp::unpack_resolved(options, storage_value, zone_error)
    }
}

/// Whether a time zone resolves whatever the time zone database has: it is a fixed offset.
pub open spec fn zone_always_resolves(tz: Seq<char>) -> bool {
    offset_seconds(encode_utf8(tz)) matches Some(s) && offset_fits(s)
}

/// Whether an integer is a timestamp in `unit`.
pub open spec fn raw_check(unit: TimeUnit, value: int) -> Result<(), TimestampError> {
    match storage_limits(unit) {
        None => Err(TimestampError::DaysUnit),
        Some((min, max)) => if min <= value <= max {
            Ok(())
        } else {
            Err(TimestampError::OutOfRange { value: value as i64, unit, min, max })
        },
    }
}

/// Whether a storage value is a timestamp in `unit`, and which: it fits `i64`, lies in the range,
/// and its time zone resolves.
pub open spec fn native_check(
    unit: TimeUnit,
    storage_value: ValueView,
    zone_error: Option<ZoneError>,
) -> Result<i64, TimestampError> {
    match storage_value {
        ValueView::Primitive(p) => match p.integer() {
            Some(v) => if !(i64::MIN <= v <= i64::MAX) {
                Err(TimestampError::NotAnI64)
            } else {
                match raw_check(unit, v) {
                    Err(e) => Err(e),
                    Ok(()) => match zone_error {
                        Some(e) => Err(TimestampError::InvalidTimezone(e)),
                        None => Ok(v as i64),
                    },
                }
            },
            None => Err(TimestampError::NotAnI64),
        },
        _ => Err(TimestampError::NotAnI64),
    }
}

/// Whether values of a type can become timestamps of another without loss.
pub open spec fn coerces_from(ours: ExtDTypeView, other: DTypeView) -> bool {
    match (ours.kind, other) {
        (ExtKindView::Timestamp(a), DTypeView::Extension(ext)) => match ext.kind {
            ExtKindView::Timestamp(b) => a.tz == b.tz && a.unit.rank() <= b.unit.rank() && (
            ours.storage.is_nullable() || !other.is_nullable()),
            _ => false,
        },
        _ => false,
    }
}

/// The type that both types can become.
pub open spec fn supertype_of(ours: ExtDTypeView, other: DTypeView) -> Option<DTypeView> {
    match (ours.kind, other) {
        (ExtKindView::Timestamp(a), DTypeView::Extension(ext)) => match ext.kind {
            ExtKindView::Timestamp(b) => if a.tz == b.tz {
                Some(
                    DTypeView::Extension(
                        timestamp_dtype(
                            TimestampOptionsView { unit: a.unit.finer_spec(b.unit), tz: a.tz },
                            ours.storage.nullability().union_spec(other.nullability()),
                        ),
                    ),
                )
            } else {
                None
            },
            _ => None,
        },
        _ => None,
    }
}

/// Metadata that was serialized reads back as it was, unless its time zone is the empty text,
/// which stands for none.
pub proof fn law_metadata_round_trip(options: TimestampOptionsView)
    requires
        options.tz matches Some(tz) ==> 0 < encode_utf8(tz).len() <= 65_535,
    ensures
        parsed_metadata(metadata_bytes(options)) == Ok::<TimestampOptionsView, MetadataError>(
            options,
        ),
{
    let data = metadata_bytes(options);
    assert(TimeUnit::of_tag(options.unit.rank() as u8) == Some(options.unit));
    match options.tz {
        None => {},
        Some(tz) => {
            let bytes = encode_utf8(tz);
            let n = bytes.len() as int;
            assert(data[1] as int + 256 * (data[2] as int) == n);
            assert(data.subrange(3, 3 + n) =~= bytes);
            vstd::utf8::encode_utf8_valid_utf8(tz);
            vstd::utf8::encode_utf8_decode_utf8(tz);
        },
    }
}

/// Every `i64` is a valid timestamp in nanoseconds, its floor included.
pub proof fn law_every_i64_is_a_nanosecond_timestamp(value: i64)
    ensures
        in_storage_range(TimeUnit::Nanoseconds, value as int),
{
}

/// The storage range of a unit is exactly what a value of a timestamp without a time zone is
/// accepted in.
pub proof fn law_storage_range_is_what_is_accepted(unit: TimeUnit, value: i64)
    ensures
        native_check(unit, ValueView::Primitive(crate::scalar::PValue::I64(value)), None) is Ok
            <==> in_storage_range(unit, value as int),
{
}

/// A time zone never hides what is wrong with a value: what a timestamp without a time zone is
/// refused for, one with a time zone is refused for too. And a fixed offset is never faulty.
pub proof fn law_a_zone_only_adds_its_own_fault(
    unit: TimeUnit,
    storage_value: ValueView,
    timezone: Option<Seq<char>>,
    error: Option<ZoneError>,
)
    requires
        zone_verdict(timezone, error),
    ensures
        match native_check(unit, storage_value, None) {
            Err(e) => native_check(unit, storage_value, error) == Err::<i64, TimestampError>(e),
            Ok(v) => native_check(unit, storage_value, error) == match error {
                None => Ok::<i64, TimestampError>(v),
                Some(e) => Err(TimestampError::InvalidTimezone(e)),
            },
        },
        timezone matches Some(tz) ==> (zone_always_resolves(tz) ==> error is None),
{
    if let Some(tz) = timezone {
        let outcome = choose|outcome: Result<ResolvedZone, ZoneError>| #[trigger]
            resolves_to(tz, outcome) && error == failure(outcome);
        law_what_resolves(tz, outcome);
    }
}

/// The supertype of two timestamp types does not depend on their order, and both can become it.
pub proof fn law_supertype_is_symmetric_and_above(
    a: TimestampOptionsView,
    n: Nullability,
    b: TimestampOptionsView,
    m: Nullability,
)
    ensures
        supertype_of(timestamp_dtype(a, n), DTypeView::Extension(timestamp_dtype(b, m)))
            == supertype_of(timestamp_dtype(b, m), DTypeView::Extension(timestamp_dtype(a, n))),
        supertype_of(
            timestamp_dtype(a, n),
            DTypeView::Extension(timestamp_dtype(b, m)),
        ) matches Some(DTypeView::Extension(top)) ==> coerces_from(
            top,
            DTypeView::Extension(timestamp_dtype(a, n)),
        ) && coerces_from(top, DTypeView::Extension(timestamp_dtype(b, m))),
{
}

/// Values of a type become timestamps of another exactly where nothing of them is lost: both are
/// timestamps of one time zone, each of the other's units is a whole number of ours, and a null has
/// somewhere to go.
pub proof fn law_coercion_loses_nothing(ours: ExtDTypeView, other: DTypeView)
    ensures
        coerces_from(ours, other) <==> (ours.kind matches ExtKindView::Timestamp(a) && other
            matches DTypeView::Extension(ext) && ext.kind matches ExtKindView::Timestamp(b) && a.tz
            == b.tz && nanoseconds_per(b.unit) % nanoseconds_per(a.unit) == 0 && (
        other.is_nullable() ==> ours.storage.is_nullable())),
{
}

/// An instant that is counted in the other's units is counted in ours too, exactly.
pub proof fn law_a_coerced_value_is_the_same_instant(
    ours: TimestampOptionsView,
    n: Nullability,
    theirs: TimestampOptionsView,
    m: Nullability,
    value: i64,
)
    requires
        coerces_from(timestamp_dtype(ours, n), DTypeView::Extension(timestamp_dtype(theirs, m))),
    ensures
        (value * nanoseconds_per(theirs.unit)) % nanoseconds_per(ours.unit) == 0,
        nanoseconds_per(ours.unit) <= nanoseconds_per(theirs.unit),
        ours.tz == theirs.tz,
{
    let (a, b) = (nanoseconds_per(ours.unit), nanoseconds_per(theirs.unit));
    let k = b / a;
    law_coercion_loses_nothing(
        timestamp_dtype(ours, n),
        DTypeView::Extension(timestamp_dtype(theirs, m)),
    );
    vstd::arithmetic::div_mod::lemma_fundamental_div_mod(b, a);
    assert(value * b == a * (value * k)) by (nonlinear_arith)
        requires
            b == a * k,
    ;
    vstd::arithmetic::div_mod::lemma_mod_multiples_basic(value * k, a);
    assert((value * k) * a == a * (value * k)) by (nonlinear_arith);
}

/// Coercion is an order on the types of timestamps: a type is coerced from itself, two types that
/// are coerced from one another are the same, and what is coerced from a type is coerced from what
/// that is coerced from.
pub proof fn law_coercion_is_an_order(
    a: TimestampOptionsView,
    na: Nullability,
    b: TimestampOptionsView,
    nb: Nullability,
    c: TimestampOptionsView,
    nc: Nullability,
)
    ensures
        ({
            let (x, y, z) = (timestamp_dtype(a, na), timestamp_dtype(b, nb), timestamp_dtype(c, nc));
            let (dx, dy) = (DTypeView::Extension(x), DTypeView::Extension(y));
            &&& coerces_from(x, dx)
            &&& coerces_from(x, dy) && coerces_from(y, dx) ==> a.unit == b.unit && a.tz == b.tz && na
                == nb
            &&& coerces_from(y, dx) && coerces_from(z, dy) ==> coerces_from(z, dx)
        }),
{
    reveal_with_fuel(DTypeView::nullability, 2);
}

/// The supertype is the least type that both types become: each timestamp type that both become, it
/// becomes too. There is one exactly if both are timestamps of one time zone.
pub proof fn law_the_supertype_is_the_least(
    a: TimestampOptionsView,
    n: Nullability,
    b: TimestampOptionsView,
    m: Nullability,
    top: ExtDTypeView,
)
    ensures
        ({
            let (x, y) = (timestamp_dtype(a, n), timestamp_dtype(b, m));
            let least = supertype_of(x, DTypeView::Extension(y));
            &&& least is Some <==> a.tz == b.tz
            &&& least matches Some(dtype) ==> coerces_from(top, DTypeView::Extension(x))
                && coerces_from(top, DTypeView::Extension(y)) ==> coerces_from(top, dtype)
        }),
{
}

/// The storage range of a unit is the range of instants: an integer of 64 bits can be stored as so
/// many units exactly if so many units since the epoch are an instant. Days are never stored.
pub proof fn law_the_storage_range_is_the_range_of_instants(unit: TimeUnit, value: i64)
    ensures
        in_storage_range(unit, value as int) <==> unit != TimeUnit::Days && is_instant(
            value * nanoseconds_per(unit),
        ),
{
}

/// A value is so many nanoseconds as its units have.
pub proof fn law_a_value_is_its_count_of_units(value: TimestampValue<'_>)
    ensures
        value.nanoseconds() == value.raw() * nanoseconds_per(value.unit()),
        in_storage_range(value.unit(), value.raw() as int) ==> is_instant(value.nanoseconds()),
{
}

/// What is accepted as a timestamp is the integer that was stored, in the range of its unit.
pub proof fn law_what_is_accepted_is_what_was_stored(
    unit: TimeUnit,
    storage_value: ValueView,
    zone_error: Option<ZoneError>,
)
    ensures
        match native_check(unit, storage_value, zone_error) {
            Ok(v) => storage_value matches ValueView::Primitive(p) && p.integer() == Some(v as int)
                && in_storage_range(unit, v as int) && zone_error is None,
            Err(TimestampError::OutOfRange { value, unit: u, min, max }) => storage_value
                matches ValueView::Primitive(p) && p.integer() == Some(value as int) && u == unit
                && storage_limits(unit) == Some((min, max)) && !(min <= value <= max),
            Err(TimestampError::DaysUnit) => unit == TimeUnit::Days,
            Err(TimestampError::NotAnI64) => !(storage_value matches ValueView::Primitive(p)
                && p.integer() matches Some(v) && i64::MIN <= v <= i64::MAX),
            Err(TimestampError::InvalidTimezone(e)) => zone_error == Some(e),
            Err(TimestampError::StorageNotI64) => false,
        },
{
}

/// What metadata is read as is written as the same bytes: the tag, the length and the time zone.
/// What follows the time zone is passed over.
pub proof fn law_parsed_metadata_is_written_back(data: Seq<u8>)
    requires
        parsed_metadata(data) is Ok,
    ensures
        metadata_bytes(parsed_metadata(data)->Ok_0).is_prefix_of(data),
{
    let options = parsed_metadata(data)->Ok_0;
    let declared = data[1] as int + 256 * (data[2] as int);
    let bytes = metadata_bytes(options);
    if declared > 0 {
        let tz = data.subrange(3, 3 + declared);
        vstd::utf8::decode_utf8_encode_utf8(tz);
        assert(encode_utf8(options.tz->Some_0) == tz);
    }
    assert(bytes =~= data.take(bytes.len() as int));
}

/// Metadata has the tag of the unit first, and then the time zone with its length in front, the
/// lower byte first.
pub proof fn law_metadata_holds_the_time_zone(options: TimestampOptionsView)
    requires
        options.tz matches Some(tz) ==> encode_utf8(tz).len() <= 65_535,
    ensures
        ({
            let data = metadata_bytes(options);
            let len = data[1] as int + 256 * (data[2] as int);
            &&& data.len() == 3 + len
            &&& TimeUnit::of_tag(data[0]) == Some(options.unit)
            &&& options.tz is None ==> len == 0
            &&& options.tz matches Some(tz) ==> data.skip(3) == encode_utf8(tz)
        }),
{
    let data = metadata_bytes(options);
    let tz = match options.tz {
        Some(tz) => encode_utf8(tz),
        None => Seq::empty(),
    };
    assert(data.skip(3) =~= tz);
}

/// An instant without a time zone has one text, and at a fixed offset the one text that it has at
/// that offset.
pub proof fn law_an_instant_has_one_text(nanoseconds: int, offset: i32, text: String, other: String)
    ensures
        is_text_in(None, nanoseconds, text) <==> text@ == rendered_instant(nanoseconds),
        is_text_in(Some(ResolvedZone::Fixed(offset)), nanoseconds, text) <==> text@
            == rendered_at_offset(nanoseconds, offset as int),
        is_text_of(None, nanoseconds, text) && is_text_of(None, nanoseconds, other) ==> text@
            == other@,
{
}

/// The text of an instant with a time zone is that in a zone of the database, or at the offset that
/// the time zone is written as, or in UTC where the time zone is no offset that there is.
pub proof fn law_where_an_instant_is_shown(timezone: Seq<char>, nanoseconds: int, text: String)
    requires
        is_zoned_text(timezone, nanoseconds, text),
    ensures
        (exists|zone: TimeZone| #[trigger] zone_renders(nanoseconds, &zone, text)) || match offset_seconds(
            encode_utf8(timezone),
        ) {
            Some(s) if -26 * 3600 < s < 26 * 3600 => text@ == rendered_at_offset(nanoseconds, s),
            _ => text@ == rendered_instant(nanoseconds),
        },
{
    let outcome = choose|outcome: Result<ResolvedZone, ZoneError>| #[trigger]
        resolves_to(timezone, outcome) && is_text_in(
            match outcome {
                Ok(zone) => Some(zone),
                Err(_) => None,
            },
            nanoseconds,
            text,
        );
    law_what_resolves(timezone, outcome);
    if let Ok(ResolvedZone::Named(zone)) = outcome {
        assert(zone_renders(nanoseconds, &zone, text));
    }
}

/// A raw integer is a timestamp exactly if it is one as a stored value of 64 bits, and is refused
/// for the same.
pub proof fn law_raw_integers_are_checked_as_stored_ones(unit: TimeUnit, value: i64)
    ensures
        match raw_check(unit, value as int) {
            Ok(_) => native_check(unit, ValueView::Primitive(PValue::I64(value)), None) == Ok::<
                i64,
                TimestampError,
            >(value),
            Err(e) => native_check(unit, ValueView::Primitive(PValue::I64(value)), None) == Err::<
                i64,
                TimestampError,
            >(e),
        },
        unit == TimeUnit::Days ==> raw_check(unit, value as int) is Err,
{
}

/// Options are displayed with the time zone behind the unit, so that options of one unit are
/// displayed alike only if their time zones are one.
pub proof fn law_time_zones_are_told_apart(unit: TimeUnit, a: Seq<char>, b: Seq<char>)
    ensures
        ({
            let with = |tz: Option<Seq<char>>| TimestampOptionsView { unit, tz };
            &&& displayed_options(with(None)) == unit.name_spec()
            &&& displayed_options(with(Some(a))).take(unit.name_spec().len() as int)
                == unit.name_spec()
            &&& displayed_options(with(Some(a))).skip(unit.name_spec().len() + 5int) == a
            &&& displayed_options(with(Some(a))) == displayed_options(with(Some(b))) ==> a == b
            &&& displayed_options(with(Some(a))) != displayed_options(with(None))
        }),
{
    reveal_strlit(", tz=");
    let name = unit.name_spec();
    let with = |tz: Option<Seq<char>>| TimestampOptionsView { unit, tz };
    assert(displayed_options(with(Some(a))).skip(name.len() + 5int) =~= a);
    assert(displayed_options(with(Some(b))).skip(name.len() + 5int) =~= b);
    assert(displayed_options(with(Some(a))).len() == name.len() + 5 + a.len());
}

/// A type is stored as timestamps are exactly if it is stored as integers of 64 bits, whether they
/// can be null or not.
pub proof fn law_timestamps_are_stored_in_64_bits(
    ext_dtype: ExtDType,
    n: Nullability,
    ptype: PType,
    r: Result<(), TimestampError>,
)
    requires
        call_ensures(Timestamp::validate_dtype, (&ext_dtype,), r),
    ensures
        *ext_dtype@.storage == DTypeView::Primitive(ptype, n) ==> (r is Ok <==> ptype == PType::I64),
        !(*ext_dtype@.storage is Primitive) ==> r is Err,
        r matches Err(e) ==> e is StorageNotI64,
{
}

} // verus!
