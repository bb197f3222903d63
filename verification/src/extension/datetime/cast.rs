//! Value conversion between temporal extension types.
//!
//! A date value is a count of its unit since the epoch and a timestamp value is a count of its
//! unit since the same epoch, so converting between them is a rescale of the storage value. The
//! array kernel and the scalar cast have to agree on it: a file is pruned on the scalar
//! conversion of its statistics, and its surviving rows are filtered on the array one. Both use
//! `DateToTimestamp`, so neither can accept a value that the other refuses.

use crate::dtype::TimeUnit;
use crate::extension::datetime::timestamp::{
    in_storage_range, storage_limits, Timestamp, TimestampError,
};
use vstd::prelude::*;

verus! {

/// Why a date is not converted to a timestamp.
#[derive(Clone, Copy, Debug, PartialEq, Eq, Structural)]
pub enum ConvertError {
    /// The target unit cannot hold the value exactly.
    Inexact { value: i64 },
    /// The converted value does not fit `i64`.
    Overflow { value: i64 },
    /// The converted value is outside the instants that a timestamp can represent.
    OutOfRange { value: i64 },
}

/// The number of nanoseconds in one unit.
pub open spec fn nanoseconds_per(unit: TimeUnit) -> int {
    match unit {
        TimeUnit::Nanoseconds => 1,
        TimeUnit::Microseconds => 1_000,
        TimeUnit::Milliseconds => 1_000_000,
        TimeUnit::Seconds => 1_000_000_000,
        TimeUnit::Days => 86_400_000_000_000,
    }
}

/// Returns the number of nanoseconds in one unit.
pub fn to_nanoseconds(unit: TimeUnit) -> (r: i64)
    ensures
        r == nanoseconds_per(unit),
{
    match unit {
        TimeUnit::Nanoseconds => 1,
        TimeUnit::Microseconds => 1_000,
        TimeUnit::Milliseconds => 1_000_000,
        TimeUnit::Seconds => 1_000_000_000,
        TimeUnit::Days => 86_400_000_000_000,
    }
}

/// The timestamp, in units of `target`, of a date that is `value` units of `source` since the
/// epoch: the count whose nanoseconds are those of the date.
pub open spec fn converted(source: TimeUnit, target: TimeUnit, value: i64) -> Result<
    i64,
    ConvertError,
> {
    let nanoseconds = value * nanoseconds_per(source);
    let scaled = nanoseconds / nanoseconds_per(target);
    if nanoseconds % nanoseconds_per(target) != 0 {
        Err(ConvertError::Inexact { value })
    } else if !(i64::MIN <= scaled <= i64::MAX) {
        Err(ConvertError::Overflow { value })
    } else if !in_storage_range(target, scaled) {
        Err(ConvertError::OutOfRange { value })
    } else {
        Ok(scaled as i64)
    }
}

/// Converts date values into timestamp values of another unit.
///
/// Built once per conversion, so the work per value is arithmetic and two comparisons.
#[derive(Clone, Copy, Debug, PartialEq, Eq, Structural)]
pub struct DateToTimestamp {
    /// The scale to apply. At most one of these is other than 1.
    pub multiply: i64,
    pub divide: i64,
    /// The instants that the target can hold, in the target's own unit.
    pub min: i64,
    pub max: i64,
}

impl DateToTimestamp {
    /// Whether this is the conversion from `source` dates to `target` timestamps.
    pub open spec fn is_for(self, source: TimeUnit, target: TimeUnit) -> bool {
        let s = nanoseconds_per(source);
        let t = nanoseconds_per(target);
        &&& self.multiply == if s >= t {
            s / t
        } else {
            1
        }
        &&& self.divide == if s >= t {
            1
        } else {
            t / s
        }
        &&& storage_limits(target) == Some((self.min, self.max))
    }

    /// Prepares the conversion from `source_unit` dates to `target_unit` timestamps.
    pub fn new(source_unit: TimeUnit, target_unit: TimeUnit) -> (r: Result<Self, TimestampError>)
        ensures
            target_unit == TimeUnit::Days ==> r == Err::<Self, TimestampError>(
                TimestampError::DaysUnit,
            ),
            target_unit != TimeUnit::Days ==> (r matches Ok(conversion) && conversion.is_for(
                source_unit,
                target_unit,
            )),
    {
        let source_ns: i64 = to_nanoseconds(source_unit);
        let target_ns: i64 = to_nanoseconds(target_unit);
        let (multiply, divide): (i64, i64) = if source_ns >= target_ns {
            (source_ns / target_ns, 1)
        } else {
            (1, target_ns / source_ns)
        };
        match Timestamp::storage_range(target_unit) {
            Ok((min, max)) => Ok(DateToTimestamp { multiply, divide, min, max }),
            Err(e) => Err(e),
        }
    }

    /// Rescales one date value into the target timestamp's unit.
    ///
    /// Refuses rather than rounds or wraps: a value that the target unit cannot hold exactly,
    /// one that leaves the `i64` range, and one that lands outside the instants that a timestamp
    /// can represent are all errors, because a silently moved instant is a wrong comparison.
    pub fn convert(&self, value: i64) -> (r: Result<i64, ConvertError>)
        requires
            exists|source: TimeUnit, target: TimeUnit| #[trigger] self.is_for(source, target),
        ensures
            forall|source: TimeUnit, target: TimeUnit| #[trigger]
                self.is_for(source, target) ==> r == converted(source, target, value),
    {
        proof {
            let (source, target) = choose|source: TimeUnit, target: TimeUnit| #[trigger]
                self.is_for(source, target);
            lemma_scale_bounds(*self, source, target);
            assert forall|s: TimeUnit, t: TimeUnit| #[trigger] self.is_for(s, t) implies converted(
                s,
                t,
                value,
            ) == scaled_by(*self, value) by {
                lemma_scale_is_the_conversion(*self, s, t, value);
            }
            assert(-0x8000_0000_0000_0000 * 86_400_000_000_000 <= value * self.multiply
                <= 0x7fff_ffff_ffff_ffff * 86_400_000_000_000) by (nonlinear_arith)
                requires
                    1 <= self.multiply <= 86_400_000_000_000,
                    -0x8000_0000_0000_0000 <= value <= 0x7fff_ffff_ffff_ffff,
            ;
        }
        let mut scaled: i128 = value as i128 * self.multiply as i128;
        if self.divide != 1 {
            let divisor: i128 = self.divide as i128;
            // The quotient of the magnitudes, for it is used only where the division is exact.
            let negative = scaled < 0;
            let magnitude: i128 = if negative {
                -scaled
            } else {
                scaled
            };
            proof {
                lemma_exact_division(scaled as int, divisor as int);
            }
            if magnitude % divisor != 0 {
                return Err(ConvertError::Inexact { value });
            }
            let quotient: i128 = magnitude / divisor;
            scaled = if negative {
                -quotient
            } else {
                quotient
            };
        }
        if scaled < i64::MIN as i128 || scaled > i64::MAX as i128 {
            return Err(ConvertError::Overflow { value });
        }
        let scaled: i64 = scaled as i64;
        if scaled < self.min || scaled > self.max {
            return Err(ConvertError::OutOfRange { value });
        }
        Ok(scaled)
    }
}

/// What the scale makes of a value.
spec fn scaled_by(c: DateToTimestamp, value: i64) -> Result<i64, ConvertError> {
    let product = value * c.multiply;
    let scaled = product / c.divide as int;
    if product % c.divide as int != 0 {
        Err(ConvertError::Inexact { value })
    } else if !(i64::MIN <= scaled <= i64::MAX) {
        Err(ConvertError::Overflow { value })
    } else if !(c.min <= scaled <= c.max) {
        Err(ConvertError::OutOfRange { value })
    } else {
        Ok(scaled as i64)
    }
}

proof fn lemma_scale_bounds(c: DateToTimestamp, source: TimeUnit, target: TimeUnit)
    requires
        c.is_for(source, target),
    ensures
        1 <= c.multiply <= 86_400_000_000_000,
        1 <= c.divide <= 86_400_000_000_000,
{
}

proof fn lemma_scale_is_the_conversion(
    c: DateToTimestamp,
    source: TimeUnit,
    target: TimeUnit,
    value: i64,
)
    requires
        c.is_for(source, target),
    ensures
        converted(source, target, value) == scaled_by(c, value),
{
    let s = nanoseconds_per(source);
    let t = nanoseconds_per(target);
    if s >= t {
        assert(s == t * c.multiply);
        assert(value * s == (value * c.multiply) * t) by (nonlinear_arith)
            requires
                s == t * c.multiply,
        ;
        let k = value * c.multiply;
        assert((k * t) / t == k && (k * t) % t == 0) by (nonlinear_arith)
            requires
                t > 0,
        ;
    } else {
        assert(t == s * c.divide);
        let d = c.divide as int;
        let v = value as int;
        assert(value * c.multiply == v);
        assert((v * s) / (d * s) == v / d && ((v * s) % (d * s) == 0 <==> v % d == 0)) by {
            lemma_common_factor(v, d, s);
            let r = v % d;
            assert(r * s == 0 <==> r == 0) by (nonlinear_arith)
                requires
                    s > 0,
            ;
        }
        assert(t == d * s) by (nonlinear_arith)
            requires
                t == s * d,
        ;
    }
}

proof fn lemma_common_factor(v: int, d: int, s: int)
    requires
        d > 0,
        s > 0,
    ensures
        (v * s) / (d * s) == v / d,
        (v * s) % (d * s) == (v % d) * s,
{
    let q = v / d;
    let r = v % d;
    assert(v == d * q + r && 0 <= r < d) by (nonlinear_arith)
        requires
            d > 0,
            q == v / d,
            r == v % d,
    ;
    assert(v * s == (d * s) * q + r * s) by (nonlinear_arith)
        requires
            v == d * q + r,
    ;
    assert(0 <= r * s < d * s) by (nonlinear_arith)
        requires
            0 <= r < d,
            s > 0,
    ;
    vstd::arithmetic::div_mod::lemma_fundamental_div_mod_converse(v * s, d * s, q, r * s);
}

proof fn lemma_exact_division(x: int, d: int)
    requires
        d > 0,
    ensures
        x < 0 ==> ((-x) % d == 0 <==> x % d == 0),
        x < 0 && x % d == 0 ==> x / d == -((-x) / d),
{
    if x < 0 {
        let q = (-x) / d;
        let r = (-x) % d;
        assert(-x == d * q + r && 0 <= r < d) by (nonlinear_arith)
            requires
                d > 0,
                q == (-x) / d,
                r == (-x) % d,
        ;
        if r == 0 {
            assert(x == (-q) * d + 0) by (nonlinear_arith)
                requires
                    -x == d * q,
            ;
            vstd::arithmetic::div_mod::lemma_fundamental_div_mod_converse(x, d, -q, 0);
        } else {
            assert(x == (-q - 1) * d + (d - r)) by (nonlinear_arith)
                requires
                    -x == d * q + r,
            ;
            vstd::arithmetic::div_mod::lemma_fundamental_div_mod_converse(x, d, -q - 1, d - r);
        }
    }
}

/// A converted date is the same instant: its nanoseconds since the epoch are those of the date.
pub proof fn law_conversion_keeps_the_instant(source: TimeUnit, target: TimeUnit, value: i64)
    ensures
        converted(source, target, value) matches Ok(v) ==> v * nanoseconds_per(target) == value
            * nanoseconds_per(source),
{
    let n = value * nanoseconds_per(source);
    let t = nanoseconds_per(target);
    if n % t == 0 {
        assert(n == (n / t) * t) by (nonlinear_arith)
            requires
                n % t == 0,
                t > 0,
        ;
    }
}

/// A converted date can always be carried by a timestamp: it lies in the target's storage range.
pub proof fn law_converted_date_is_a_timestamp(source: TimeUnit, target: TimeUnit, value: i64)
    ensures
        converted(source, target, value) matches Ok(v) ==> in_storage_range(target, v as int),
{
}

/// A later date is never converted to an earlier timestamp.
pub proof fn law_conversion_is_monotone(source: TimeUnit, target: TimeUnit, a: i64, b: i64)
    requires
        a <= b,
        converted(source, target, a) is Ok,
        converted(source, target, b) is Ok,
    ensures
        converted(source, target, a)->Ok_0 <= converted(source, target, b)->Ok_0,
{
    let s = nanoseconds_per(source);
    let t = nanoseconds_per(target);
    assert(a * s <= b * s) by (nonlinear_arith)
        requires
            a <= b,
            s > 0,
    ;
    vstd::arithmetic::div_mod::lemma_div_is_ordered(a * s, b * s, t);
}

/// Each unit is so many of the next finer one, and the order of the units is that of their lengths.
pub proof fn law_units_are_multiples_of_one_another(a: TimeUnit, b: TimeUnit)
    ensures
        nanoseconds_per(TimeUnit::Nanoseconds) == 1,
        nanoseconds_per(TimeUnit::Microseconds) == 1000 * nanoseconds_per(TimeUnit::Nanoseconds),
        nanoseconds_per(TimeUnit::Milliseconds) == 1000 * nanoseconds_per(TimeUnit::Microseconds),
        nanoseconds_per(TimeUnit::Seconds) == 1000 * nanoseconds_per(TimeUnit::Milliseconds),
        nanoseconds_per(TimeUnit::Days) == 24 * 60 * 60 * nanoseconds_per(TimeUnit::Seconds),
        a.rank() <= b.rank() <==> nanoseconds_per(a) <= nanoseconds_per(b),
        a.rank() == b.rank() <==> a == b,
        nanoseconds_per(a.finer_spec(b)) == (if nanoseconds_per(a) <= nanoseconds_per(b) {
            nanoseconds_per(a)
        } else {
            nanoseconds_per(b)
        }),
        0 <= a.rank() <= u8::MAX,
        TimeUnit::of_tag(a.rank() as u8) == Some(a),
{
}

/// A date is converted wherever there is a timestamp for it: if so many of the target's units are
/// the same instant and a timestamp can hold them, the date becomes them.
pub proof fn law_a_date_with_a_timestamp_is_converted(
    source: TimeUnit,
    target: TimeUnit,
    value: i64,
    v: i64,
)
    requires
        v * nanoseconds_per(target) == value * nanoseconds_per(source),
        in_storage_range(target, v as int),
    ensures
        converted(source, target, value) == Ok::<i64, ConvertError>(v),
{
    let t = nanoseconds_per(target);
    let n = value * nanoseconds_per(source);
    assert(n / t == v && n % t == 0) by (nonlinear_arith)
        requires
            n == v * t,
            t > 0,
    ;
}

/// A date is refused for the first thing that is wrong with it: that no whole number of the target's
/// units is that instant, that the number does not fit `i64`, or that no timestamp holds it.
pub proof fn law_why_a_date_is_refused(source: TimeUnit, target: TimeUnit, value: i64, v: int)
    requires
        v * nanoseconds_per(target) == value * nanoseconds_per(source),
    ensures
        converted(source, target, value) != Err::<i64, ConvertError>(
            ConvertError::Inexact { value },
        ),
        converted(source, target, value) == Err::<i64, ConvertError>(
            ConvertError::Overflow { value },
        ) <==> !(i64::MIN <= v <= i64::MAX),
        converted(source, target, value) == Err::<i64, ConvertError>(
            ConvertError::OutOfRange { value },
        ) <==> i64::MIN <= v <= i64::MAX && !in_storage_range(target, v),
{
    let t = nanoseconds_per(target);
    let n = value * nanoseconds_per(source);
    assert(n / t == v && n % t == 0) by (nonlinear_arith)
        requires
            n == v * t,
            t > 0,
    ;
}

/// The conversion that is prepared keeps the lengths of the units: multiplied and divided as it says,
/// a unit of the source is as long as one of the target.
pub proof fn law_the_scale_relates_the_units(
    conversion: DateToTimestamp,
    source: TimeUnit,
    target: TimeUnit,
)
    requires
        conversion.is_for(source, target),
    ensures
        conversion.multiply >= 1,
        conversion.divide >= 1,
        conversion.multiply * nanoseconds_per(target) == conversion.divide * nanoseconds_per(source),
        forall|v: i64|
            conversion.min <= v <= conversion.max <==> #[trigger] in_storage_range(
                target,
                v as int,
            ),
{
}

} // verus!
