//! Casting arrays of decimals.

use crate::arrays::validity::Validity;
use crate::dtype::{DType, DTypeView, DecimalDType, Nullability, PType};
use crate::scalar::{PValue, I256};
use vstd::prelude::*;

verus! {

/// The integer types that decimals are stored as, from the narrowest to the widest.
#[derive(Clone, Copy, Debug, PartialEq, Eq, Structural)]
pub enum DecimalType {
    I8,
    I16,
    I32,
    I64,
    I128,
    I256,
}

impl DecimalType {
    /// The place of the type among the types, from the narrowest.
    pub open spec fn rank_spec(self) -> int {
        match self {
            DecimalType::I8 => 0,
            DecimalType::I16 => 1,
            DecimalType::I32 => 2,
            DecimalType::I64 => 3,
            DecimalType::I128 => 4,
            DecimalType::I256 => 5,
        }
    }

    /// Returns the place of the type among the types, from the narrowest.
    pub fn rank(self) -> (r: u8)
        ensures
            r == self.rank_spec(),
    {
        match self {
            DecimalType::I8 => 0,
            DecimalType::I16 => 1,
            DecimalType::I32 => 2,
            DecimalType::I64 => 3,
            DecimalType::I128 => 4,
            DecimalType::I256 => 5,
        }
    }

    /// The narrowest type that holds every decimal of so many digits.
    pub open spec fn smallest_for(precision: int) -> DecimalType {
        if precision <= 2 {
            DecimalType::I8
        } else if precision <= 4 {
            DecimalType::I16
        } else if precision <= 9 {
            DecimalType::I32
        } else if precision <= 18 {
            DecimalType::I64
        } else if precision <= 38 {
            DecimalType::I128
        } else {
            DecimalType::I256
        }
    }

    /// Returns the narrowest type that holds every decimal of the type.
    pub fn smallest_decimal_value_type(dtype: DecimalDType) -> (r: DecimalType)
        ensures
            r == DecimalType::smallest_for(dtype.precision as int),
    {
        if dtype.precision <= 2 {
            DecimalType::I8
        } else if dtype.precision <= 4 {
            DecimalType::I16
        } else if dtype.precision <= 9 {
            DecimalType::I32
        } else if dtype.precision <= 18 {
            DecimalType::I64
        } else if dtype.precision <= 38 {
            DecimalType::I128
        } else {
            DecimalType::I256
        }
    }
}

/// The stored integers of decimals.
#[derive(Debug)]
pub enum DecimalValues {
    I8(Vec<i8>),
    I16(Vec<i16>),
    I32(Vec<i32>),
    I64(Vec<i64>),
    I128(Vec<i128>),
    I256(Vec<I256>),
}

impl DecimalValues {
    /// The integers themselves.
    pub open spec fn ints(self) -> Seq<int> {
        match self {
            DecimalValues::I8(v) => Seq::new(v@.len(), |i: int| v@[i] as int),
            DecimalValues::I16(v) => Seq::new(v@.len(), |i: int| v@[i] as int),
            DecimalValues::I32(v) => Seq::new(v@.len(), |i: int| v@[i] as int),
            DecimalValues::I64(v) => Seq::new(v@.len(), |i: int| v@[i] as int),
            DecimalValues::I128(v) => Seq::new(v@.len(), |i: int| v@[i] as int),
            DecimalValues::I256(v) => Seq::new(v@.len(), |i: int| v@[i].as_int()),
        }
    }

    /// The type that they are stored as.
    pub open spec fn stored_as(self) -> DecimalType {
        match self {
            DecimalValues::I8(_) => DecimalType::I8,
            DecimalValues::I16(_) => DecimalType::I16,
            DecimalValues::I32(_) => DecimalType::I32,
            DecimalValues::I64(_) => DecimalType::I64,
            DecimalValues::I128(_) => DecimalType::I128,
            DecimalValues::I256(_) => DecimalType::I256,
        }
    }

    /// Returns the type that they are stored as.
    pub fn values_type(&self) -> (r: DecimalType)
        ensures
            r == self.stored_as(),
    {
        match self {
            DecimalValues::I8(_) => DecimalType::I8,
            DecimalValues::I16(_) => DecimalType::I16,
            DecimalValues::I32(_) => DecimalType::I32,
            DecimalValues::I64(_) => DecimalType::I64,
            DecimalValues::I128(_) => DecimalType::I128,
            DecimalValues::I256(_) => DecimalType::I256,
        }
    }

    /// Returns how many there are.
    pub fn len(&self) -> (r: usize)
        ensures
            r == self.ints().len(),
    {
        match self {
            DecimalValues::I8(v) => v.len(),
            DecimalValues::I16(v) => v.len(),
            DecimalValues::I32(v) => v.len(),
            DecimalValues::I64(v) => v.len(),
            DecimalValues::I128(v) => v.len(),
            DecimalValues::I256(v) => v.len(),
        }
    }

    /// Returns the integer at `i`.
    pub fn get(&self, i: usize) -> (r: I256)
        requires
            i < self.ints().len(),
        ensures
            r.as_int() == self.ints()[i as int],
    {
        match self {
            DecimalValues::I8(v) => I256::from_i128(v[i] as i128),
            DecimalValues::I16(v) => I256::from_i128(v[i] as i128),
            DecimalValues::I32(v) => I256::from_i128(v[i] as i128),
            DecimalValues::I64(v) => I256::from_i128(v[i] as i128),
            DecimalValues::I128(v) => I256::from_i128(v[i]),
            DecimalValues::I256(v) => v[i],
        }
    }

    /// Returns the integer at `i` where they are stored in no more than 128 bits.
    fn get_i128(&self, i: usize) -> (r: i128)
        requires
            i < self.ints().len(),
            self.stored_as().rank_spec() <= 4,
        ensures
            r == self.ints()[i as int],
            self.stored_as() == DecimalType::I8 ==> i8::MIN <= r <= i8::MAX,
            self.stored_as().rank_spec() <= 1 ==> i16::MIN <= r <= i16::MAX,
            self.stored_as().rank_spec() <= 2 ==> i32::MIN <= r <= i32::MAX,
            self.stored_as().rank_spec() <= 3 ==> i64::MIN <= r <= i64::MAX,
    {
        match self {
            DecimalValues::I8(v) => v[i] as i128,
            DecimalValues::I16(v) => v[i] as i128,
            DecimalValues::I32(v) => v[i] as i128,
            DecimalValues::I64(v) => v[i] as i128,
            DecimalValues::I128(v) => v[i],
            DecimalValues::I256(_) => 0,
        }
    }

    /// Returns the same integers stored as a type that is not narrower.
    pub fn upcast(&self, to: DecimalType) -> (r: DecimalValues)
        requires
            self.stored_as().rank_spec() <= to.rank_spec(),
        ensures
            r.stored_as() == to,
            r.ints() == self.ints(),
    {
        let n: usize = self.len();
        let mut i: usize = 0;
        match to {
            DecimalType::I8 => {
                let mut out: Vec<i8> = Vec::new();
                while i < n
                    invariant
                        0 <= i <= n,
                        n == self.ints().len(),
                        self.stored_as() == DecimalType::I8,
                        out.len() == i,
                        forall|j: int| 0 <= j < i ==> #[trigger] out@[j] == self.ints()[j],
                    decreases n - i,
                {
                    out.push(self.get_i128(i) as i8);
                    i += 1;
                }
                let r = DecimalValues::I8(out);
                assert(r.ints() =~= self.ints());
                r
            },
            DecimalType::I16 => {
                let mut out: Vec<i16> = Vec::new();
                while i < n
                    invariant
                        0 <= i <= n,
                        n == self.ints().len(),
                        self.stored_as().rank_spec() <= 1,
                        out.len() == i,
                        forall|j: int| 0 <= j < i ==> #[trigger] out@[j] == self.ints()[j],
                    decreases n - i,
                {
                    out.push(self.get_i128(i) as i16);
                    i += 1;
                }
                let r = DecimalValues::I16(out);
                assert(r.ints() =~= self.ints());
                r
            },
            DecimalType::I32 => {
                let mut out: Vec<i32> = Vec::new();
                while i < n
                    invariant
                        0 <= i <= n,
                        n == self.ints().len(),
                        self.stored_as().rank_spec() <= 2,
                        out.len() == i,
                        forall|j: int| 0 <= j < i ==> #[trigger] out@[j] == self.ints()[j],
                    decreases n - i,
                {
                    out.push(self.get_i128(i) as i32);
                    i += 1;
                }
                let r = DecimalValues::I32(out);
                assert(r.ints() =~= self.ints());
                r
            },
            DecimalType::I64 => {
                let mut out: Vec<i64> = Vec::new();
                while i < n
                    invariant
                        0 <= i <= n,
                        n == self.ints().len(),
                        self.stored_as().rank_spec() <= 3,
                        out.len() == i,
                        forall|j: int| 0 <= j < i ==> #[trigger] out@[j] == self.ints()[j],
                    decreases n - i,
                {
                    out.push(self.get_i128(i) as i64);
                    i += 1;
                }
                let r = DecimalValues::I64(out);
                assert(r.ints() =~= self.ints());
                r
            },
            DecimalType::I128 => {
                let mut out: Vec<i128> = Vec::new();
                while i < n
                    invariant
                        0 <= i <= n,
                        n == self.ints().len(),
                        self.stored_as().rank_spec() <= 4,
                        out.len() == i,
                        forall|j: int| 0 <= j < i ==> #[trigger] out@[j] == self.ints()[j],
                    decreases n - i,
                {
                    out.push(self.get_i128(i));
                    i += 1;
                }
                let r = DecimalValues::I128(out);
                assert(r.ints() =~= self.ints());
                r
            },
            DecimalType::I256 => {
                let mut out: Vec<I256> = Vec::new();
                while i < n
                    invariant
                        0 <= i <= n,
                        n == self.ints().len(),
                        out.len() == i,
                        forall|j: int|
                            0 <= j < i ==> (#[trigger] out@[j]).as_int() == self.ints()[j],
                    decreases n - i,
                {
                    out.push(self.get(i));
                    i += 1;
                }
                let r = DecimalValues::I256(out);
                assert(r.ints() =~= self.ints());
                r
            },
        }
    }
}

/// An array of decimals: the stored integers, their type, and which are not null.
#[derive(Debug)]
pub struct DecimalArray {
    pub values: DecimalValues,
    pub decimal_dtype: DecimalDType,
    pub validity: Validity,
}

impl DecimalArray {
    /// Whether the validity is one of the values.
    pub open spec fn wf(self) -> bool {
        self.validity.wf(self.values.ints().len())
    }

    /// The type of the array.
    pub open spec fn dtype_spec(self) -> DTypeView {
        DTypeView::Decimal(self.decimal_dtype, self.validity.nullability_spec())
    }

    /// Returns the type of the array.
    pub fn dtype(&self) -> (r: DType)
        ensures
            r@ == self.dtype_spec(),
    {
        DType::Decimal(self.decimal_dtype, self.validity.nullability())
    }

    /// Whether `r` holds the same integers and nulls as this array.
    pub open spec fn same_content(self, r: DecimalArray) -> bool {
        &&& r.wf()
        &&& r.values.ints() == self.values.ints()
        &&& r.validity.agrees(self.validity, self.values.ints().len())
    }
}

/// Why a decimal is not converted to a primitive value.
#[derive(Clone, Debug, PartialEq, Eq)]
pub enum ValueError {
    /// The stored integer of this text is no floating-point number.
    NoFloat(String),
    /// The number of this text has no counterpart in the target type.
    NoCounterpart(String),
}

/// Why an array of decimals is not cast.
#[derive(Clone, Debug, PartialEq, Eq)]
pub enum DecimalCastError {
    /// The target has another scale.
    Scale { from: i8, to: i8 },
    /// The target has fewer digits.
    Precision { from: u8, to: u8 },
    /// A null cannot be cast to a type without a null.
    InvalidValues,
    /// The values would have to be narrowed.
    Narrowing { from: DecimalType, to: DecimalType },
    /// The value at the place is not converted to the primitive type.
    Value { index: usize, error: ValueError, ptype: PType },
}

impl DecimalCastError {
    /// The message of the error.
    pub open spec fn message_spec(self) -> Seq<char> {
        match self {
            DecimalCastError::Scale { from, to } => "Casting decimal with scale "@
                + crate::text::signed_decimal(from as int) + " to scale "@
                + crate::text::signed_decimal(to as int) + " not yet implemented"@,
            DecimalCastError::Precision { from, to } => "Downcasting decimal from precision "@
                + crate::text::decimal(from as nat) + " to "@ + crate::text::decimal(to as nat)
                + " not yet implemented"@,
            DecimalCastError::InvalidValues =>
                "Cannot cast array with invalid values to non-nullable type."@,
            DecimalCastError::Narrowing { from, to } => "Cannot downcast decimal values from "@
                + from.name_spec() + " to "@ + to.name_spec() + ". Only upcasting is supported."@,
            DecimalCastError::Value { error, ptype, .. } => match error {
                ValueError::NoFloat(value) => "Failed to cast decimal value "@ + value@ + " to "@
                    + "f64"@,
                ValueError::NoCounterpart(value) => "Failed to cast decimal value "@ + value@
                    + " to "@ + ptype.name_spec(),
            },
        }
    }

    /// Returns the message of the error.
    pub fn to_string(&self) -> (r: String)
        ensures
            r@ == self.message_spec(),
    {
        match self {
            DecimalCastError::Scale { from, to } => {
                let mut text = "Casting decimal with scale ".to_owned();
                text.append(crate::text::signed_decimal_string(*from as i64).as_str());
                text.append(" to scale ");
                text.append(crate::text::signed_decimal_string(*to as i64).as_str());
                text.append(" not yet implemented");
                text
            },
            DecimalCastError::Precision { from, to } => {
                let mut text = "Downcasting decimal from precision ".to_owned();
                text.append(crate::text::decimal_string(*from as u64).as_str());
                text.append(" to ");
                text.append(crate::text::decimal_string(*to as u64).as_str());
                text.append(" not yet implemented");
                text
            },
            DecimalCastError::InvalidValues => {
                "Cannot cast array with invalid values to non-nullable type.".to_owned()
            },
            DecimalCastError::Narrowing { from, to } => {
                let mut text = "Cannot downcast decimal values from ".to_owned();
                text.append(from.name());
                text.append(" to ");
                text.append(to.name());
                text.append(". Only upcasting is supported.");
                text
            },
            DecimalCastError::Value { error, ptype, .. } => {
                let (value, target) = match error {
                    ValueError::NoFloat(value) => (value, "f64"),
                    ValueError::NoCounterpart(value) => (value, ptype.name()),
                };
                let mut text = "Failed to cast decimal value ".to_owned();
                text.append(value.as_str());
                text.append(" to ");
                text.append(target);
                text
            },
        }
    }
}

impl DecimalType {
    /// The name of the type.
    pub open spec fn name_spec(self) -> Seq<char> {
        match self {
            DecimalType::I8 => "I8"@,
            DecimalType::I16 => "I16"@,
            DecimalType::I32 => "I32"@,
            DecimalType::I64 => "I64"@,
            DecimalType::I128 => "I128"@,
            DecimalType::I256 => "I256"@,
        }
    }

    /// Returns the name of the type.
    pub fn name(&self) -> (r: &'static str)
        ensures
            r@ == self.name_spec(),
    {
        match self {
            DecimalType::I8 => "I8",
            DecimalType::I16 => "I16",
            DecimalType::I32 => "I32",
            DecimalType::I64 => "I64",
            DecimalType::I128 => "I128",
            DecimalType::I256 => "I256",
        }
    }
}

/// Upcasts an array to a wider physical representation while keeping the same precision and
/// scale. Only widening is supported.
pub fn upcast_decimal_values(array: &DecimalArray, to_values_type: DecimalType) -> (r: Result<
    DecimalArray,
    DecimalCastError,
>)
    requires
        array.wf(),
    ensures
        to_values_type.rank_spec() < array.values.stored_as().rank_spec() ==> r == Err::<
            DecimalArray,
            DecimalCastError,
        >(
            DecimalCastError::Narrowing {
                from: array.values.stored_as(),
                to: to_values_type,
            },
        ),
        to_values_type.rank_spec() >= array.values.stored_as().rank_spec() ==> (r matches Ok(out)
            && array.same_content(out) && out.values.stored_as() == to_values_type
            && out.decimal_dtype == array.decimal_dtype && out.dtype_spec() == array.dtype_spec()),
{
    let from = array.values.values_type();
    if to_values_type.rank() < from.rank() {
        return Err(DecimalCastError::Narrowing { from, to: to_values_type });
    }
    let values = array.values.upcast(to_values_type);
    let validity = array.validity.duplicate();
    assert(array.validity.wf(array.values.ints().len()));
    Ok(DecimalArray { values, decimal_dtype: array.decimal_dtype, validity })
}

/// Returns the array with another nullability, if that is all that the cast changes and it takes
/// no look at the values.
pub fn reduce_cast(array: &DecimalArray, target: &DType) -> (r: Option<DecimalArray>)
    requires
        array.wf(),
    ensures
        match target@ {
            DTypeView::Decimal(to, n) => {
                &&& r is Some <==> to == array.decimal_dtype && (n == Nullability::Nullable
                    || array.validity is NonNullable || array.validity is AllValid
                    || array.values.ints().len() == 0)
                &&& r matches Some(out) ==> array.same_content(out) && out.dtype_spec() == target@
                    && out.values.stored_as() == array.values.stored_as()
            },
            _ => r is None,
        },
{
    match target {
        DType::Decimal(to, n) => {
            if *to != array.decimal_dtype {
                return None;
            }
            match array.validity.trivial_cast_nullability(*n, array.values.len()) {
                None => None,
                Some(validity) => {
                    let values = array.values.upcast(array.values.values_type());
                    Some(DecimalArray { values, decimal_dtype: *to, validity })
                },
            }
        },
        _ => None,
    }
}

/// What casting an array to a decimal type gives.
pub open spec fn is_decimal_cast(
    array: DecimalArray,
    to: DecimalDType,
    n: Nullability,
    r: Result<DecimalArray, DecimalCastError>,
) -> bool {
    let from = array.decimal_dtype;
    let smallest = DecimalType::smallest_for(to.precision as int);
    if from.scale != to.scale {
        r == Err::<DecimalArray, DecimalCastError>(
            DecimalCastError::Scale { from: from.scale, to: to.scale },
        )
    } else if to.precision < from.precision {
        r == Err::<DecimalArray, DecimalCastError>(
            DecimalCastError::Precision { from: from.precision, to: to.precision },
        )
    } else if n == Nullability::NonNullable && !array.validity.all_valid(
        array.values.ints().len(),
    ) {
        r == Err::<DecimalArray, DecimalCastError>(DecimalCastError::InvalidValues)
    } else {
        r matches Ok(out) && {
            &&& array.same_content(out)
            &&& out.dtype_spec() == DTypeView::Decimal(to, n)
            &&& out.values.stored_as() == if array.dtype_spec() != DTypeView::Decimal(to, n)
                && smallest.rank_spec() > array.values.stored_as().rank_spec() {
                smallest
            } else {
                array.values.stored_as()
            }
        }
    }
}

/// Casts an array to a decimal type of the same scale and no fewer digits. The values are widened
/// where the target needs a wider physical type.
pub fn cast_to_decimal(array: &DecimalArray, to: DecimalDType, n: Nullability) -> (r: Result<
    DecimalArray,
    DecimalCastError,
>)
    requires
        array.wf(),
    ensures
        is_decimal_cast(*array, to, n, r),
{
    let from = array.decimal_dtype;
    if from.scale != to.scale {
        return Err(DecimalCastError::Scale { from: from.scale, to: to.scale });
    }
    if to.precision < from.precision {
        return Err(DecimalCastError::Precision { from: from.precision, to: to.precision });
    }
    let validity = match array.validity.cast_nullability(n, array.values.len()) {
        Ok(validity) => validity,
        Err(_) => {
            return Err(DecimalCastError::InvalidValues);
        },
    };
    let current = array.values.values_type();
    let smallest = DecimalType::smallest_decimal_value_type(to);
    let same = to == from && n == array.validity.nullability();
    let target = if !same && smallest.rank() > current.rank() {
        smallest
    } else {
        current
    };
    let values = array.values.upcast(target);
    Ok(DecimalArray { values, decimal_dtype: to, validity })
}

/// Whether some value of the stored integer `n` converts so.
pub open spec fn converts<F: Fn(I256, i8, PType) -> Result<PValue, ValueError>>(
    convert: F,
    n: int,
    scale: i8,
    ptype: PType,
    to: Result<PValue, ValueError>,
) -> bool {
    exists|v: I256| v.as_int() == n && #[trigger] convert.ensures((v, scale, ptype), to)
}

/// Whether the stored integer `n` may convert to something.
pub open spec fn has_counterpart<F: Fn(I256, i8, PType) -> Result<PValue, ValueError>>(
    convert: F,
    n: int,
    scale: i8,
    ptype: PType,
) -> bool {
    exists|to: PValue| #[trigger] converts(convert, n, scale, ptype, Ok(to))
}

/// Converts stored decimals to primitive values, one at a time and in order. A null is given the
/// type's zero, whatever is stored in its place; the first value that has no counterpart fails
/// the whole.
pub fn cast_decimal_buffer_to_primitive<F: Fn(I256, i8, PType) -> Result<PValue, ValueError>>(
    values: &DecimalValues,
    validity: &Validity,
    scale: i8,
    ptype: PType,
    convert: F,
) -> (r: Result<Vec<PValue>, DecimalCastError>)
    requires
        validity.wf(values.ints().len()),
        forall|v: I256| #[trigger] convert.requires((v, scale, ptype)),
    ensures
        match r {
            Ok(out) => out.len() == values.ints().len() && forall|i: int|
                0 <= i < out.len() ==> if validity.valid(i) {
                    converts(convert, values.ints()[i], scale, ptype, Ok(#[trigger] out@[i]))
                } else {
                    out@[i] == zero_of(ptype)
                },
            Err(e) => e matches DecimalCastError::Value { index, error, ptype: to } && to == ptype
                && index < values.ints().len() && validity.valid(index as int) && converts(
                convert,
                values.ints()[index as int],
                scale,
                ptype,
                Err(error),
            ) && forall|i: int|
                0 <= i < index && validity.valid(i) ==> has_counterpart(
                    convert,
                    #[trigger] values.ints()[i],
                    scale,
                    ptype,
                ),
        },
{
    let zero: PValue = zero_value(ptype);
    let mut out: Vec<PValue> = Vec::new();
    let mut i: usize = 0;
    let n: usize = values.len();
    while i < n
        invariant
            0 <= i <= n,
            n == values.ints().len(),
            zero == zero_of(ptype),
            validity.wf(values.ints().len()),
            forall|v: I256| #[trigger] convert.requires((v, scale, ptype)),
            out.len() == i,
            forall|j: int|
                0 <= j < i ==> if validity.valid(j) {
                    converts(convert, values.ints()[j], scale, ptype, Ok(#[trigger] out@[j]))
                } else {
                    out@[j] == zero_of(ptype)
                },
        decreases n - i,
    {
        let value = if validity.is_valid(i) {
            let v = values.get(i);
            let converted = convert(v, scale, ptype);
            assert(converts(convert, values.ints()[i as int], scale, ptype, converted));
            match converted {
                Ok(p) => p,
                Err(error) => {
                    assert forall|j: int| 0 <= j < i && validity.valid(j) implies has_counterpart(
                        convert,
                        #[trigger] values.ints()[j],
                        scale,
                        ptype,
                    ) by {
                        assert(converts(
                            convert,
                            values.ints()[j],
                            scale,
                            ptype,
                            Ok(out@[j]),
                        ));
                    }
                    return Err(DecimalCastError::Value { index: i, error, ptype });
                },
            }
        } else {
            zero
        };
        out.push(value);
        i += 1;
    }
    Ok(out)
}

/// The zero of a primitive type.
pub open spec fn zero_of(ptype: PType) -> PValue {
    match ptype {
        PType::U8 => PValue::U8(0),
        PType::U16 => PValue::U16(0),
        PType::U32 => PValue::U32(0),
        PType::U64 => PValue::U64(0),
        PType::I8 => PValue::I8(0),
        PType::I16 => PValue::I16(0),
        PType::I32 => PValue::I32(0),
        PType::I64 => PValue::I64(0),
        PType::F16 => PValue::F16(0),
        PType::F32 => PValue::F32(0),
        PType::F64 => PValue::F64(0),
    }
}

/// Returns the zero of a primitive type.
pub fn zero_value(ptype: PType) -> (r: PValue)
    ensures
        r == zero_of(ptype),
        r.ptype_spec() == ptype,
{
    match ptype {
        PType::U8 => PValue::U8(0),
        PType::U16 => PValue::U16(0),
        PType::U32 => PValue::U32(0),
        PType::U64 => PValue::U64(0),
        PType::I8 => PValue::I8(0),
        PType::I16 => PValue::I16(0),
        PType::I32 => PValue::I32(0),
        PType::I64 => PValue::I64(0),
        PType::F16 => PValue::F16(0),
        PType::F32 => PValue::F32(0),
        PType::F64 => PValue::F64(0),
    }
}

/// What an array of decimals was cast to.
#[derive(Debug)]
pub enum CastDecimals {
    /// Primitive values of the type, and which are not null.
    Primitive(PType, Vec<PValue>, Validity),
    Decimal(DecimalArray),
}

/// Casts an array of decimals to a primitive or a decimal type. There is no cast to any other
/// type. A primitive value comes from `convert`, which is handed each stored integer that is not
/// null, with the scale of the decimals and the type to convert to, and says why there is none.
pub fn cast_kernel<F: Fn(I256, i8, PType) -> Result<PValue, ValueError>>(
    array: &DecimalArray,
    target: &DType,
    convert: F,
) -> (r: Result<Option<CastDecimals>, DecimalCastError>)
    requires
        array.wf(),
        forall|v: I256, ptype: PType| #[trigger]
            convert.requires((v, array.decimal_dtype.scale, ptype)),
    ensures
        match target@ {
            DTypeView::Primitive(ptype, n) => if n == Nullability::NonNullable
                && !array.validity.all_valid(array.values.ints().len()) {
                r == Err::<Option<CastDecimals>, DecimalCastError>(DecimalCastError::InvalidValues)
            } else {
                match r {
                    Ok(Some(CastDecimals::Primitive(p, out, validity))) => {
                        &&& p == ptype
                        &&& array.validity.is_cast_to(validity, n, array.values.ints().len())
                        &&& out.len() == array.values.ints().len()
                        &&& forall|i: int|
                            0 <= i < out.len() ==> if array.validity.valid(i) {
                                converts(
                                    convert,
                                    array.values.ints()[i],
                                    array.decimal_dtype.scale,
                                    ptype,
                                    Ok(#[trigger] out@[i]),
                                )
                            } else {
                                out@[i] == zero_of(ptype)
                            }
                    },
                    Ok(_) => false,
                    Err(e) => e matches DecimalCastError::Value { index, error, ptype: to } && to
                        == ptype && index < array.values.ints().len() && array.validity.valid(
                        index as int,
                    ) && converts(
                        convert,
                        array.values.ints()[index as int],
                        array.decimal_dtype.scale,
                        ptype,
                        Err(error),
                    ) && forall|i: int|
                        0 <= i < index && array.validity.valid(i) ==> has_counterpart(
                            convert,
                            #[trigger] array.values.ints()[i],
                            array.decimal_dtype.scale,
                            ptype,
                        ),
                }
            },
            DTypeView::Decimal(to, n) => match r {
                Ok(Some(CastDecimals::Decimal(out))) => is_decimal_cast(*array, to, n, Ok(out)),
                Ok(_) => false,
                Err(e) => is_decimal_cast(*array, to, n, Err(e)),
            },
            _ => r == Ok::<Option<CastDecimals>, DecimalCastError>(None),
        },
{
    match target {
        DType::Primitive(ptype, n) => {
            let validity = match array.validity.cast_nullability(*n, array.values.len()) {
                Ok(validity) => validity,
                Err(_) => {
                    return Err(DecimalCastError::InvalidValues);
                },
            };
            match cast_decimal_buffer_to_primitive(
                &array.values,
                &array.validity,
                array.decimal_dtype.scale,
                *ptype,
                convert,
            ) {
                Ok(values) => Ok(Some(CastDecimals::Primitive(*ptype, values, validity))),
                Err(e) => Err(e),
            }
        },
        DType::Decimal(to, n) => match cast_to_decimal(array, *to, *n) {
            Ok(out) => Ok(Some(CastDecimals::Decimal(out))),
            Err(e) => Err(e),
        },
        _ => Ok(None),
    }
}

/// What each of two casts keeps, both together keep: the values and which of them are null.
pub proof fn law_widening_composes(a: DecimalArray, b: DecimalArray, c: DecimalArray)
    requires
        a.same_content(b),
        b.same_content(c),
    ensures
        a.same_content(c),
{
    assert forall|i: int| 0 <= i < a.values.ints().len() implies #[trigger] c.validity.valid(i)
        == a.validity.valid(i) by {
        assert(b.validity.valid(i) == a.validity.valid(i));
    }
}

/// A cast that succeeds stores the values in a type wide enough for the digits of the target,
/// where it changes the type at all.
pub proof fn law_cast_is_wide_enough(
    array: DecimalArray,
    to: DecimalDType,
    n: Nullability,
    out: DecimalArray,
)
    requires
        is_decimal_cast(array, to, n, Ok(out)),
        array.dtype_spec() != DTypeView::Decimal(to, n),
    ensures
        out.values.stored_as().rank_spec() >= DecimalType::smallest_for(
            to.precision as int,
        ).rank_spec(),
{
}

/// Ten to the power of `n`.
pub open spec fn ten_to(n: nat) -> int
    decreases n,
{
    if n == 0 {
        1
    } else {
        10 * ten_to((n - 1) as nat)
    }
}

impl DecimalType {
    /// The greatest integer that the type holds. It holds all down to one less than its opposite.
    pub open spec fn greatest(self) -> int {
        match self {
            DecimalType::I8 => i8::MAX as int,
            DecimalType::I16 => i16::MAX as int,
            DecimalType::I32 => i32::MAX as int,
            DecimalType::I64 => i64::MAX as int,
            DecimalType::I128 => i128::MAX as int,
            DecimalType::I256 => (i128::MAX + 1) * (u128::MAX + 1) - 1,
        }
    }
}

proof fn lemma_ten_to_grows(a: nat, b: nat)
    requires
        a <= b,
    ensures
        0 < ten_to(a) <= ten_to(b),
    decreases b,
{
    if a < b {
        lemma_ten_to_grows(a, (b - 1) as nat);
    } else if b > 0 {
        lemma_ten_to_grows((a - 1) as nat, (b - 1) as nat);
    }
}

proof fn lemma_powers_of_ten()
    ensures
        ten_to(2) == 100,
        ten_to(3) == 1_000,
        ten_to(4) == 10_000,
        ten_to(5) == 100_000,
        ten_to(9) == 1_000_000_000,
        ten_to(10) == 10_000_000_000,
        ten_to(18) == 1_000_000_000_000_000_000,
        ten_to(19) == 10_000_000_000_000_000_000,
        ten_to(38) == 100_000_000_000_000_000_000_000_000_000_000_000_000int,
        ten_to(39) == 1_000_000_000_000_000_000_000_000_000_000_000_000_000int,
        ten_to(76)
            == 10_000_000_000_000_000_000_000_000_000_000_000_000_000_000_000_000_000_000_000_000_000_000_000_000_000int,
{
    reveal_with_fuel(ten_to, 11);
    assert(ten_to(10) == 10_000_000_000);
    assert(ten_to(20) == 100_000_000_000_000_000_000int);
    assert(ten_to(30) == 1_000_000_000_000_000_000_000_000_000_000int);
    assert(ten_to(40) == 10_000_000_000_000_000_000_000_000_000_000_000_000_000int);
    assert(ten_to(50) == 100_000_000_000_000_000_000_000_000_000_000_000_000_000_000_000_000int);
    assert(ten_to(60)
        == 1_000_000_000_000_000_000_000_000_000_000_000_000_000_000_000_000_000_000_000_000int);
    assert(ten_to(70)
        == 10_000_000_000_000_000_000_000_000_000_000_000_000_000_000_000_000_000_000_000_000_000_000_000int);
}

/// The type that decimals are stored as by their digits holds each integer of so many digits, and no
/// narrower type does.
pub proof fn law_the_storage_is_the_narrowest_that_holds_the_digits(
    precision: nat,
    other: DecimalType,
)
    requires
        1 <= precision <= 76,
    ensures
        ({
            let smallest = DecimalType::smallest_for(precision as int);
            &&& ten_to(precision) - 1 <= smallest.greatest()
            &&& ten_to(precision) - 1 <= other.greatest() ==> smallest.rank_spec()
                <= other.rank_spec()
        }),
{
    lemma_powers_of_ten();
    let widest: nat = if precision <= 2 {
        2
    } else if precision <= 4 {
        4
    } else if precision <= 9 {
        9
    } else if precision <= 18 {
        18
    } else if precision <= 38 {
        38
    } else {
        76
    };
    lemma_ten_to_grows(precision, widest);
    if precision > 2 {
        lemma_ten_to_grows(3, precision);
    }
    if precision > 4 {
        lemma_ten_to_grows(5, precision);
    }
    if precision > 9 {
        lemma_ten_to_grows(10, precision);
    }
    if precision > 18 {
        lemma_ten_to_grows(19, precision);
    }
    if precision > 38 {
        lemma_ten_to_grows(39, precision);
    }
}

/// A type that comes later among the types holds more.
pub proof fn law_a_wider_type_holds_more(a: DecimalType, b: DecimalType)
    ensures
        a.rank_spec() < b.rank_spec() <==> a.greatest() < b.greatest(),
        a.rank_spec() == b.rank_spec() <==> a == b,
{
}

/// A cast keeps each number: the stored integers, the scale and the nulls are those of the array,
/// and the type is the one that was asked for. It never stores the integers in a narrower type.
pub proof fn law_a_cast_keeps_the_numbers(
    array: DecimalArray,
    to: DecimalDType,
    n: Nullability,
    out: DecimalArray,
    i: int,
)
    requires
        is_decimal_cast(array, to, n, Ok(out)),
        0 <= i < array.values.ints().len(),
    ensures
        out.values.ints().len() == array.values.ints().len(),
        out.values.ints()[i] == array.values.ints()[i],
        out.validity.valid(i) == array.validity.valid(i),
        out.decimal_dtype == to,
        out.decimal_dtype.scale == array.decimal_dtype.scale,
        out.decimal_dtype.precision >= array.decimal_dtype.precision,
        out.validity.nullability_spec() == n,
        n == Nullability::NonNullable ==> out.validity.valid(i),
        out.values.stored_as().rank_spec() >= array.values.stored_as().rank_spec(),
{
    assert(out.validity.valid(i) == array.validity.valid(i));
}

/// A cast fails for another scale, for fewer digits, or for a null that has no place in the type, in
/// this order, and for nothing else.
pub proof fn law_when_a_cast_of_decimals_fails(
    array: DecimalArray,
    to: DecimalDType,
    n: Nullability,
    r: Result<DecimalArray, DecimalCastError>,
)
    requires
        is_decimal_cast(array, to, n, r),
    ensures
        r is Ok <==> array.decimal_dtype.scale == to.scale && array.decimal_dtype.precision
            <= to.precision && (n == Nullability::Nullable || forall|i: int|
            0 <= i < array.values.ints().len() ==> #[trigger] array.validity.valid(i)),
        r matches Err(e) ==> match e {
            DecimalCastError::Scale { from, to: t } => from != t && from
                == array.decimal_dtype.scale && t == to.scale,
            DecimalCastError::Precision { from, to: t } => t < from && from
                == array.decimal_dtype.precision && t == to.precision && array.decimal_dtype.scale
                == to.scale,
            DecimalCastError::InvalidValues => n == Nullability::NonNullable,
            _ => false,
        },
{
}

/// A cast that changes nothing of the type leaves the storage as it is.
pub proof fn law_a_cast_to_the_own_type_keeps_the_storage(array: DecimalArray, out: DecimalArray)
    requires
        is_decimal_cast(
            array,
            array.decimal_dtype,
            array.validity.nullability_spec(),
            Ok(out),
        ),
    ensures
        out.values.stored_as() == array.values.stored_as(),
        out.dtype_spec() == array.dtype_spec(),
{
}

/// What stands in the place of a null is the zero of the type.
pub proof fn law_a_null_is_given_a_zero(ptype: PType)
    ensures
        zero_of(ptype).ptype_spec() == ptype,
        zero_of(ptype).place() == 0,
        zero_of(ptype).integer() matches Some(v) ==> v == 0,
{
}

} // verus!
