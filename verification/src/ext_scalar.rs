//! Scalars of extension types.

use crate::dtype::{
    law_nullability_is_all_that_changes, DType, DTypeView, ExtDType, ExtDTypeView, ExtKind,
    ExtKindView, Nullability, PType,
};
use crate::extension::datetime::cast::{
    converted, law_conversion_keeps_the_instant, nanoseconds_per, ConvertError, DateToTimestamp,
};
use crate::extension::datetime::timestamp::{is_text_of, native_check, storage_limits, Timestamp};
use crate::extension::datetime::timezone::{zone_verdict, ZoneError};
use crate::scalar::{
    has_form, int_relation, is_build_of, law_nulls_come_first, option_relation, seen_from_the_other,
    PValue, Relation, Scalar, ScalarError, ScalarView, Value, ValueView,
};
use std::cmp::Ordering;
use vstd::prelude::*;

verus! {

/// A scalar of an extension type.
#[derive(Clone, Copy, Debug)]
pub struct ExtScalar<'a> {
    dtype: &'a DType,
    ext_dtype: &'a ExtDType,
    value: Option<&'a Value>,
}

/// Why an extension scalar is not cast to a type.
#[derive(Clone, Copy, Debug, PartialEq, Eq, Structural)]
pub enum ExtCastError {
    /// There is no cast from the one type to the other.
    Incompatible,
    /// A timestamp is never stored in days.
    DaysUnit,
    /// The date has no timestamp in the target's unit.
    Convert(ConvertError),
    /// The target type refuses the value.
    Refused(ScalarError),
}

/// What an optional reference to a value is.
pub open spec fn reference_view(value: Option<&Value>) -> Option<ValueView> {
    match value {
        Some(v) => Some(v@),
        None => None,
    }
}

/// Whether a timestamp type in it is stored as timestamps are.
pub open spec fn is_valid_dtype(dtype: DTypeView) -> bool {
    dtype matches DTypeView::Extension(ext) ==> (ext.kind is Timestamp ==> *ext.storage matches DTypeView::Primitive(
        PType::I64,
        _,
    ))
}

/// The value that an extension scalar has in another type, before the type checks it.
///
/// A null has one only in a type with a null. The storage type and the same extension type keep
/// the value. A date has one in a timestamp type: it is rescaled, never relabelled. There is no
/// other cast.
pub open spec fn cast_value(
    ext: ExtDTypeView,
    value: Option<ValueView>,
    target: DTypeView,
) -> Result<Option<ValueView>, ExtCastError> {
    if value is None && !target.is_nullable() {
        Err(ExtCastError::Incompatible)
    } else if ext.storage.same_base(target) {
        Ok(value)
    } else {
        match target {
            DTypeView::Extension(t) => if ext.kind == t.kind && ext.storage.same_base(*t.storage) {
                Ok(value)
            } else {
                match (ext.kind, t.kind) {
                    (ExtKindView::Date(source), ExtKindView::Timestamp(options)) => match value {
                        None => Ok(None),
                        Some(ValueView::Primitive(p)) => match p.integer() {
                            Some(v) => if !(i64::MIN <= v <= i64::MAX) {
                                Err(ExtCastError::Incompatible)
                            } else if storage_limits(options.unit) is None {
                                Err(ExtCastError::DaysUnit)
                            } else {
                                match converted(source, options.unit, v as i64) {
                                    Ok(c) => Ok(Some(ValueView::Primitive(PValue::I64(c)))),
                                    Err(e) => Err(ExtCastError::Convert(e)),
                                }
                            },
                            None => Err(ExtCastError::Incompatible),
                        },
                        _ => Err(ExtCastError::Incompatible),
                    },
                    _ => Err(ExtCastError::Incompatible),
                }
            },
            _ => Err(ExtCastError::Incompatible),
        }
    }
}

impl Scalar {
    /// Returns the scalar as one of an extension type.
    pub fn as_extension(&self) -> (r: ExtScalar<'_>)
        requires
            self@.dtype is Extension,
            has_form(self@.value, self@.dtype),
        ensures
            r.wf(),
            r.full_dtype() == self@.dtype,
            r.stored() == self@.value,
    {
        ExtScalar::new_unchecked(&self.dtype, self.value.as_ref())
    }
}

impl<'a> ExtScalar<'a> {
    /// The extension type.
    pub closed spec fn ext(self) -> ExtDTypeView {
        self.ext_dtype@
    }

    /// The storage value, or null.
    pub closed spec fn stored(self) -> Option<ValueView> {
        reference_view(self.value)
    }

    /// The type of the scalar.
    pub closed spec fn full_dtype(self) -> DTypeView {
        self.dtype@
    }

    /// Whether the type is the extension type, and the value belongs to what it is stored as.
    pub open spec fn wf(self) -> bool {
        &&& self.full_dtype() == DTypeView::Extension(self.ext())
        &&& has_form(self.stored(), *self.ext().storage)
    }

    /// Creates a new extension scalar from a type, which has to be an extension type, and a value
    /// that was verified to belong to it.
    pub fn new_unchecked(dtype: &'a DType, value: Option<&'a Value>) -> (r: Self)
        requires
            dtype@ is Extension,
            has_form(reference_view(value), dtype@),
        ensures
            r.wf(),
            r.full_dtype() == dtype@,
            r.stored() == reference_view(value),
    {
        match dtype {
            DType::Extension(ext_dtype) => ExtScalar { dtype, ext_dtype, value },
            _ => vstd::pervasive::unreached(),
        }
    }

    /// Returns the type of the extension scalar.
    pub fn dtype(&self) -> (r: &DType)
        ensures
            r@ == self.full_dtype(),
    {
        self.dtype
    }

    /// Returns the extension data type.
    pub fn ext_dtype(&self) -> (r: &'a ExtDType)
        ensures
            r@ == self.ext(),
    {
        self.ext_dtype
    }

    /// Returns the storage value, or nothing for null.
    pub fn stored_value(&self) -> (r: Option<&'a Value>)
        ensures
            reference_view(r) == self.stored(),
    {
        self.value
    }

    /// Returns the storage scalar of the extension scalar.
    pub fn to_storage_scalar(&self) -> (r: Scalar)
        requires
            self.wf(),
        ensures
            r@ == (ScalarView { dtype: *self.ext().storage, value: self.stored() }),
    {
        let value = match self.value {
            Some(v) => Some(v.duplicate()),
            None => None,
        };
        Scalar::new_unchecked(self.ext_dtype.storage.duplicate(), value)
    }

    /// Casts this scalar to the given type.
    pub fn cast(&self, target_dtype: &DType) -> (r: Result<Scalar, ExtCastError>)
        requires
            self.wf(),
            is_valid_dtype(target_dtype@),
        ensures
            match cast_value(self.ext(), self.stored(), target_dtype@) {
                Err(e) => r == Err::<Scalar, ExtCastError>(e),
                Ok(value) => match r {
                    Ok(scalar) => is_build_of(Ok(scalar), target_dtype@, value),
                    Err(ExtCastError::Refused(e)) => is_build_of(Err(e), target_dtype@, value),
                    Err(_) => false,
                },
            },
    {
        if self.value.is_none() && !target_dtype.is_nullable() {
            return Err(ExtCastError::Incompatible);
        }
        if self.ext_dtype.storage.eq_ignore_nullability(target_dtype) {
            // Casting from an extension type to the underlying storage type is fine.
            return self.relabel(target_dtype);
        }
        if let DType::Extension(target_ext) = target_dtype {
            // The same extension type: the value already means what the target says it does.
            if self.ext_dtype.eq_ignore_nullability(target_ext) {
                return self.relabel(target_dtype);
            }
            // A different one needs the value converted.
            if let ExtKind::Date(source_unit) = &self.ext_dtype.kind {
                if let ExtKind::Timestamp(options) = &target_ext.kind {
                    return self.cast_date_to_timestamp(*source_unit, options.unit, target_dtype);
                }
            }
        }
        Err(ExtCastError::Incompatible)
    }

    /// Makes a scalar of the target type with this scalar's value.
    fn relabel(&self, target_dtype: &DType) -> (r: Result<Scalar, ExtCastError>)
        ensures
            match r {
                Ok(scalar) => is_build_of(Ok(scalar), target_dtype@, self.stored()),
                Err(ExtCastError::Refused(e)) => is_build_of(
                    Err(e),
                    target_dtype@,
                    self.stored(),
                ),
                Err(_) => false,
            },
    {
        let value = match self.value {
            Some(v) => Some(v.duplicate()),
            None => None,
        };
        match Scalar::try_new(target_dtype.duplicate(), value) {
            Ok(scalar) => Ok(scalar),
            Err(e) => Err(ExtCastError::Refused(e)),
        }
    }

    /// Converts a date scalar to a timestamp one, rescaling the value.
    fn cast_date_to_timestamp(
        &self,
        source_unit: crate::dtype::TimeUnit,
        target_unit: crate::dtype::TimeUnit,
        target_dtype: &DType,
    ) -> (r: Result<Scalar, ExtCastError>)
        requires
            self.wf(),
            self.ext().kind == ExtKindView::Date(source_unit),
            target_dtype@ matches DTypeView::Extension(t) && (t.kind matches ExtKindView::Timestamp(
                options,
            ) && options.unit == target_unit) && !(self.ext().storage.same_base(target_dtype@)),
            self.stored() is None ==> target_dtype@.is_nullable(),
        ensures
            match cast_value(self.ext(), self.stored(), target_dtype@) {
                Err(e) => r == Err::<Scalar, ExtCastError>(e),
                Ok(value) => match r {
                    Ok(scalar) => is_build_of(Ok(scalar), target_dtype@, value),
                    Err(ExtCastError::Refused(e)) => is_build_of(Err(e), target_dtype@, value),
                    Err(_) => false,
                },
            },
    {
        let value: i64 = match self.value {
            None => {
                return self.relabel(target_dtype);
            },
            Some(v) => match v {
                Value::Primitive(p) => match p.to_i64() {
                    Some(v) => v,
                    None => {
                        return Err(ExtCastError::Incompatible);
                    },
                },
                _ => {
                    return Err(ExtCastError::Incompatible);
                },
            },
        };
        let conversion = match DateToTimestamp::new(source_unit, target_unit) {
            Ok(conversion) => conversion,
            Err(_) => {
                return Err(ExtCastError::DaysUnit);
            },
        };
        assert(conversion.is_for(source_unit, target_unit));
        match conversion.convert(value) {
            Err(e) => Err(ExtCastError::Convert(e)),
            Ok(converted) => match Scalar::try_new(
                target_dtype.duplicate(),
                Some(Value::Primitive(PValue::I64(converted))),
            ) {
                Ok(scalar) => Ok(scalar),
                Err(e) => Err(ExtCastError::Refused(e)),
            },
        }
    }

    /// Whether two extension scalars are of one type up to nullability and hold the same.
    pub open spec fn same(self, other: Self) -> bool {
        &&& self.ext().kind == other.ext().kind
        &&& self.ext().storage.same_base(*other.ext().storage)
        &&& self.stored() == other.stored()
    }

    /// How two extension scalars stand to each other, if they are of one type up to nullability.
    pub open spec fn relation(self, other: Self) -> Option<Relation> {
        if self.ext().kind == other.ext().kind && self.ext().storage.same_base(
            *other.ext().storage,
        ) {
            option_relation(self.stored(), other.stored())
        } else {
            None
        }
    }

    /// Returns how two extension scalars stand to each other, if they are of one type.
    pub fn relate(&self, other: &Self) -> (r: Option<Relation>)
        ensures
            r == self.relation(*other),
    {
        if !self.ext_dtype.eq_ignore_nullability(other.ext_dtype) {
            return None;
        }
        match (self.value, other.value) {
            (None, None) => Some(Relation::Equal),
            (None, Some(_)) => Some(Relation::Less),
            (Some(_), None) => Some(Relation::Greater),
            (Some(x), Some(y)) => x.relate(y),
        }
    }

    /// Returns the text of the scalar: `null`, or the instant of a timestamp, in its time zone if
    /// it has one. A value that is no timestamp has none. How values of other extension types are
    /// written is up to those types: see `to_text_with`.
    pub fn to_text(&self) -> (r: Option<String>)
        requires
            self.wf(),
        ensures
            self.stored() is None ==> (r matches Some(text) && text@ == "null"@),
            self.stored() is Some && !(self.ext().kind is Timestamp) ==> r is None,
            self.stored() matches Some(value) ==> (self.ext().kind matches ExtKindView::Timestamp(
                options,
            ) ==> match value {
                ValueView::Primitive(PValue::I64(raw)) => exists|error: Option<ZoneError>| #[trigger]
                    zone_verdict(options.tz, error) && match native_check(
                        options.unit,
                        value,
                        error,
                    ) {
                        Ok(_) => r matches Some(text) && is_text_of(
                            options.tz,
                            raw * nanoseconds_per(options.unit),
                            text,
                        ),
                        Err(_) => r is None,
                    },
                _ => r is None,
            }),
    {
        let value = match self.value {
            None => {
                return Some("null".to_owned());
            },
            Some(value) => value,
        };
        match &self.ext_dtype.kind {
            ExtKind::Timestamp(options) => match value {
                Value::Primitive(PValue::I64(_)) => match Timestamp::unpack_native(options, value) {
                    Ok(native) => Some(native.to_string()),
                    Err(_) => None,
                },
                _ => None,
            },
            _ => None,
        }
    }
}

impl<'a> ExtScalar<'a> {
    /// Returns the text of the scalar, given how its type writes the value: `null`, the instant of
    /// a timestamp, or what the type writes.
    pub fn to_text_with(&self, own: String) -> (r: String)
        requires
            self.wf(),
        ensures
            self.stored() is None ==> r@ == "null"@,
            self.stored() is Some && !(self.ext().kind is Timestamp) ==> r@ == own@,
            self.stored() matches Some(value) ==> (self.ext().kind matches ExtKindView::Timestamp(
                options,
            ) ==> match value {
                ValueView::Primitive(PValue::I64(raw)) => exists|error: Option<ZoneError>| #[trigger]
                    zone_verdict(options.tz, error) && match native_check(
                        options.unit,
                        value,
                        error,
                    ) {
                        Ok(_) => is_text_of(options.tz, raw * nanoseconds_per(options.unit), r),
                        Err(_) => r@ == own@,
                    },
                _ => r@ == own@,
            }),
    {
        match self.to_text() {
            Some(text) => text,
            None => own,
        }
    }
}

impl<'a> PartialEq for ExtScalar<'a> {
    fn eq(&self, other: &Self) -> (r: bool) {
        self.ext_dtype.eq_ignore_nullability(other.ext_dtype) && match (self.value, other.value) {
            (Some(x), Some(y)) => x.equals(y),
            (None, None) => true,
            _ => false,
        }
    }
}

impl<'a> vstd::std_specs::cmp::PartialEqSpecImpl for ExtScalar<'a> {
    open spec fn obeys_eq_spec() -> bool {
        true
    }

    open spec fn eq_spec(&self, other: &Self) -> bool {
        self.same(*other)
    }
}

impl<'a> Eq for ExtScalar<'a> {

}

/// The standard ordering for a relation.
pub open spec fn ordering_of(relation: Option<Relation>) -> Option<Ordering> {
    match relation {
        Some(Relation::Less) => Some(Ordering::Less),
        Some(Relation::Equal) => Some(Ordering::Equal),
        Some(Relation::Greater) => Some(Ordering::Greater),
        None => None,
    }
}

impl<'a> PartialOrd for ExtScalar<'a> {
    fn partial_cmp(&self, other: &Self) -> (r: Option<Ordering>) {
        match self.relate(other) {
            Some(Relation::Less) => Some(Ordering::Less),
            Some(Relation::Equal) => Some(Ordering::Equal),
            Some(Relation::Greater) => Some(Ordering::Greater),
            None => None,
        }
    }
}

impl<'a> vstd::std_specs::cmp::PartialOrdSpecImpl for ExtScalar<'a> {
    open spec fn obeys_partial_cmp_spec() -> bool {
        true
    }

    open spec fn partial_cmp_spec(&self, other: &Self) -> Option<Ordering> {
        ordering_of(self.relation(*other))
    }
}

/// Casting a date to a timestamp and casting its storage value agree with the array kernel: both
/// give the converted value, or refuse with it.
pub proof fn law_cast_of_a_date_is_its_conversion(
    ext: ExtDTypeView,
    value: i64,
    target: DTypeView,
)
    requires
        ext.kind is Date,
        *ext.storage is Primitive,
        target matches DTypeView::Extension(t) && t.kind is Timestamp && !(t.kind->Timestamp_0.unit
            is Days),
    ensures
        cast_value(ext, Some(ValueView::Primitive(PValue::I64(value))), target) == match converted(
            ext.kind->Date_0,
            target->Extension_0.kind->Timestamp_0.unit,
            value,
        ) {
            Ok(c) => Ok::<Option<ValueView>, ExtCastError>(
                Some(ValueView::Primitive(PValue::I64(c))),
            ),
            Err(e) => Err(ExtCastError::Convert(e)),
        },
{
}

/// Timestamps of different units are never relabelled as each other.
pub proof fn law_timestamp_units_do_not_mix(
    ext: ExtDTypeView,
    value: Option<ValueView>,
    target: ExtDTypeView,
)
    requires
        ext.kind is Timestamp,
        *ext.storage is Primitive,
        target.kind is Timestamp,
        ext.kind->Timestamp_0.unit != target.kind->Timestamp_0.unit,
    ensures
        cast_value(ext, value, DTypeView::Extension(target)) == Err::<
            Option<ValueView>,
            ExtCastError,
        >(ExtCastError::Incompatible),
{
}

/// A cast keeps what a scalar means: a null stays null, a date becomes the timestamp of the same
/// instant, and any other value stays as it is.
pub proof fn law_a_cast_keeps_the_meaning(
    ext: ExtDTypeView,
    value: Option<ValueView>,
    target: DTypeView,
)
    requires
        cast_value(ext, value, target) is Ok,
    ensures
        ({
            let out = cast_value(ext, value, target)->Ok_0;
            &&& value is None ==> out is None && target.is_nullable()
            &&& out == value || (ext.kind matches ExtKindView::Date(source)
                && target matches DTypeView::Extension(t)
                && t.kind matches ExtKindView::Timestamp(options)
                && value matches Some(ValueView::Primitive(p))
                && p.integer() matches Some(v)
                && out matches Some(ValueView::Primitive(PValue::I64(c)))
                && c * nanoseconds_per(options.unit) == v * nanoseconds_per(source))
        }),
{
    if let (ExtKindView::Date(source), DTypeView::Extension(t)) = (ext.kind, target) {
        if let (ExtKindView::Timestamp(options), Some(ValueView::Primitive(p))) = (t.kind, value) {
            if let Some(v) = p.integer() {
                if i64::MIN <= v <= i64::MAX {
                    law_conversion_keeps_the_instant(source, options.unit, v as i64);
                }
            }
        }
    }
}

/// A scalar is cast to what it is stored as and to its own type, whether these have a null or not;
/// but a null is cast to no type without one.
pub proof fn law_a_cast_to_the_own_type_succeeds(
    ext: ExtDTypeView,
    value: Option<ValueView>,
    n: Nullability,
)
    requires
        !ext.storage.is_nullable(),
    ensures
        ({
            let storage = ext.storage.with_nullability(n);
            let own = DTypeView::Extension(ext).with_nullability(n);
            let fits = value is Some || n == Nullability::Nullable;
            &&& cast_value(ext, value, storage) == (if fits {
                Ok::<Option<ValueView>, ExtCastError>(value)
            } else {
                Err(ExtCastError::Incompatible)
            })
            &&& cast_value(ext, value, own) == (if fits {
                Ok::<Option<ValueView>, ExtCastError>(value)
            } else {
                Err(ExtCastError::Incompatible)
            })
        }),
{
    law_nullability_is_all_that_changes(*ext.storage, n);
    law_nullability_is_all_that_changes(DTypeView::Extension(ext), n);
}

/// There is no cast to another extension type but from a date to a timestamp, and none to a type
/// that is neither an extension type nor what the scalar is stored as.
pub proof fn law_there_is_no_other_cast(
    ext: ExtDTypeView,
    value: Option<ValueView>,
    target: DTypeView,
)
    requires
        !ext.storage.same_base(target),
        target matches DTypeView::Extension(t) ==> !(ext.kind == t.kind && ext.storage.same_base(
            *t.storage,
        )) && !(ext.kind is Date && t.kind is Timestamp),
    ensures
        cast_value(ext, value, target) == Err::<Option<ValueView>, ExtCastError>(
            ExtCastError::Incompatible,
        ),
{
}

/// Extension scalars of one type are ordered: two stand at one place exactly if they are equal, one
/// stands to another as that does to it the other way round, and what stands before another stands
/// before all that the other stands before. A null stands before each value, and scalars of two
/// types do not compare.
pub proof fn law_extension_scalars_are_ordered(
    a: ExtScalar<'_>,
    b: ExtScalar<'_>,
    c: ExtScalar<'_>,
)
    ensures
        a.relation(b) == Some(Relation::Equal) <==> a.same(b),
        b.relation(a) == seen_from_the_other(a.relation(b)),
        a.relation(b) == Some(Relation::Less) && b.relation(c) == Some(Relation::Less)
            ==> a.relation(c) == Some(Relation::Less),
        a.relation(b) is Some ==> a.ext().kind == b.ext().kind && a.ext().storage.same_base(
            *b.ext().storage,
        ),
        a.relation(b) is Some && a.stored() is None && b.stored() is Some ==> a.relation(b) == Some(
            Relation::Less,
        ),
{
    law_nulls_come_first(a.stored(), b.stored(), c.stored());
    law_nulls_come_first(b.stored(), a.stored(), c.stored());
}

/// The standard ordering of two integers is that of their relation.
pub proof fn law_the_ordering_is_that_of_the_relation(a: int, b: int)
    ensures
        ordering_of(Some(int_relation(a, b))) == Some(
            if a < b {
                Ordering::Less
            } else if a > b {
                Ordering::Greater
            } else {
                Ordering::Equal
            },
        ),
        ordering_of(None) is None,
{
}

} // verus!
