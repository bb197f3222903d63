//! Casting arrays of extension types.

use crate::arrays::validity::Validity;
use crate::dtype::{
    DType, DTypeView, ExtDType, ExtDTypeView, ExtKind, ExtKindView, Nullability, TimeUnit,
};
use crate::ext_scalar::{cast_value, ExtCastError};
use crate::extension::datetime::cast::{converted, ConvertError, DateToTimestamp};
use crate::extension::datetime::timestamp::storage_limits;
use crate::scalar::{PValue, ValueView};
use vstd::prelude::*;

verus! {

/// How a cast of an extension array is done without a look at its values.
#[derive(Debug)]
pub enum CastReduction {
    /// The result is the storage array cast to the type.
    Storage(DType),
    /// The result is of the extension type, over the storage array cast to its storage type.
    Extension(ExtDType),
    /// The cast takes a look at the values.
    Deferred,
}

/// Returns how a cast of an extension array is done without a look at its values: to a type that
/// is no extension type by casting the storage, to the same extension type by casting the storage
/// underneath. Another extension type takes a conversion of each value.
/// Where the storage is to be cast first, `CastReduction::with_storage` says what follows from that.
pub fn reduce_cast(ext_dtype: &ExtDType, target: &DType) -> (r: CastReduction)
    ensures
        match target@ {
            DTypeView::Extension(t) => if ext_dtype@.kind == t.kind
                && ext_dtype@.storage.same_base(*t.storage) {
                r matches CastReduction::Extension(e) && e@ == t
            } else {
                r is Deferred
            },
            _ => r matches CastReduction::Storage(d) && d@ == target@,
        },
{
    match target {
        DType::Extension(t) => if ext_dtype.eq_ignore_nullability(t) {
            CastReduction::Extension(t.duplicate())
        } else {
            CastReduction::Deferred
        },
        _ => CastReduction::Storage(target.duplicate()),
    }
}

/// What a cast of an extension array gives without a look at its values, over storage of type `A`.
#[derive(Debug)]
pub enum ReducedCast<A> {
    Storage(A),
    Extension(ExtDType, A),
    /// The cast takes a look at the values.
    Deferred,
}

/// What follows from casting the storage. Where the target is no extension type, the cast of the
/// storage is the whole cast, and so is its failure. Where the target is the same extension type,
/// storage that cannot be cast defers the cast.
pub open spec fn reduced<A, E>(reduction: CastReduction, storage: Result<A, E>) -> Result<
    ReducedCast<A>,
    E,
> {
    match (reduction, storage) {
        (CastReduction::Storage(_), Ok(a)) => Ok(ReducedCast::Storage(a)),
        (CastReduction::Storage(_), Err(e)) => Err(e),
        (CastReduction::Extension(ext), Ok(a)) => Ok(ReducedCast::Extension(ext, a)),
        (CastReduction::Extension(_), Err(_)) => Ok(ReducedCast::Deferred),
        (CastReduction::Deferred, _) => Ok(ReducedCast::Deferred),
    }
}

impl CastReduction {
    /// Returns the type that the storage array is to be cast to, if it is.
    pub fn storage_target(&self) -> (r: Option<&DType>)
        ensures
            match *self {
                CastReduction::Storage(dtype) => r == Some(&dtype),
                CastReduction::Extension(ext) => r == Some(&*ext.storage),
                CastReduction::Deferred => r is None,
            },
    {
        match self {
            CastReduction::Storage(dtype) => Some(dtype),
            CastReduction::Extension(ext) => Some(&ext.storage),
            CastReduction::Deferred => None,
        }
    }

    /// Returns what the cast gives, given what casting the storage array gave.
    pub fn with_storage<A, E>(self, storage: Result<A, E>) -> (r: Result<ReducedCast<A>, E>)
        ensures
            r == reduced(self, storage),
    {
        match (self, storage) {
            (CastReduction::Storage(_), Ok(a)) => Ok(ReducedCast::Storage(a)),
            (CastReduction::Storage(_), Err(e)) => Err(e),
            (CastReduction::Extension(ext), Ok(a)) => Ok(ReducedCast::Extension(ext, a)),
            (CastReduction::Extension(_), Err(_)) => Ok(ReducedCast::Deferred),
            (CastReduction::Deferred, _) => Ok(ReducedCast::Deferred),
        }
    }
}

/// Values of type `i64`, some of which may be null.
#[derive(Debug)]
pub struct I64Array {
    pub values: Vec<i64>,
    pub validity: Validity,
}

impl I64Array {
    /// Whether the validity is one of the values.
    pub open spec fn wf(self) -> bool {
        self.validity.wf(self.values@.len())
    }

    /// The value at `i`, or null.
    pub open spec fn at(self, i: int) -> Option<i64> {
        if self.validity.valid(i) {
            Some(self.values@[i])
        } else {
            None
        }
    }
}

/// Why dates are not converted to timestamps.
#[derive(Clone, Copy, Debug, PartialEq, Eq, Structural)]
pub enum TemporalCastError {
    /// A timestamp is never stored in days.
    DaysUnit,
    /// A date has no timestamp.
    Convert(ConvertError),
    /// A null cannot be cast to a type without a null.
    InvalidValues,
}

/// The first error among the dates that are not null, if there is one.
pub open spec fn first_error(
    values: Seq<i64>,
    validity: Validity,
    source: TimeUnit,
    target: TimeUnit,
    len: int,
) -> Option<ConvertError>
    decreases len,
{
    if len <= 0 {
        None
    } else {
        match first_error(values, validity, source, target, len - 1) {
            Some(e) => Some(e),
            None => if validity.valid(len - 1) {
                match converted(source, target, values[len - 1]) {
                    Ok(_) => None,
                    Err(e) => Some(e),
                }
            } else {
                None
            },
        }
    }
}

proof fn lemma_first_error_stays(
    values: Seq<i64>,
    validity: Validity,
    source: TimeUnit,
    target: TimeUnit,
    i: int,
    len: int,
)
    requires
        0 <= i <= len,
        first_error(values, validity, source, target, i) is Some,
    ensures
        first_error(values, validity, source, target, len) == first_error(
            values,
            validity,
            source,
            target,
            i,
        ),
    decreases len - i,
{
    if i < len {
        lemma_first_error_stays(values, validity, source, target, i, len - 1);
    }
}

proof fn lemma_no_error_before(
    values: Seq<i64>,
    validity: Validity,
    source: TimeUnit,
    target: TimeUnit,
    i: int,
    len: int,
)
    requires
        0 <= i < len,
        first_error(values, validity, source, target, len) is None,
    ensures
        validity.valid(i) ==> converted(source, target, values[i]) is Ok,
    decreases len,
{
    if i < len - 1 {
        lemma_no_error_before(values, validity, source, target, i, len - 1);
    }
}

/// Converts date values to timestamp values. Nulls stay null, whatever is stored in their place;
/// a date that has no timestamp fails the whole.
pub fn cast_date_values_to_timestamp(
    array: &I64Array,
    source_unit: TimeUnit,
    target_unit: TimeUnit,
) -> (r: Result<I64Array, TemporalCastError>)
    requires
        array.wf(),
    ensures
        match storage_limits(target_unit) {
            None => r == Err::<I64Array, TemporalCastError>(TemporalCastError::DaysUnit),
            Some(_) => match first_error(
                array.values@,
                array.validity,
                source_unit,
                target_unit,
                array.values@.len() as int,
            ) {
                Some(e) => r == Err::<I64Array, TemporalCastError>(TemporalCastError::Convert(e)),
                None => r matches Ok(out) && {
                    &&& out.wf()
                    &&& out.values.len() == array.values.len()
                    &&& out.validity.nullability_spec() == array.validity.nullability_spec()
                    &&& forall|i: int|
                        0 <= i < array.values.len() ==> #[trigger] out.at(i) == match array.at(i) {
                            Some(v) => Some(converted(source_unit, target_unit, v)->Ok_0),
                            None => None,
                        }
                    &&& forall|i: int|
                        0 <= i < array.values.len() && !array.validity.valid(i)
                            ==> #[trigger] out.values@[i] == 0
                },
            },
        },
{
    let conversion = match DateToTimestamp::new(source_unit, target_unit) {
        Ok(conversion) => conversion,
        Err(_) => {
            return Err(TemporalCastError::DaysUnit);
        },
    };
    assert(conversion.is_for(source_unit, target_unit));
    let mut values: Vec<i64> = Vec::new();
    let mut i: usize = 0;
    while i < array.values.len()
        invariant
            0 <= i <= array.values.len(),
            array.wf(),
            storage_limits(target_unit) is Some,
            conversion.is_for(source_unit, target_unit),
            values.len() == i,
            first_error(
                array.values@,
                array.validity,
                source_unit,
                target_unit,
                i as int,
            ) is None,
            forall|j: int|
                0 <= j < i ==> #[trigger] values@[j] == if array.validity.valid(j) {
                    converted(source_unit, target_unit, array.values@[j])->Ok_0
                } else {
                    0
                },
        decreases array.values.len() - i,
    {
        // A null keeps a placeholder, so that what is stored in its place cannot fail the cast.
        let value: i64 = if array.validity.is_valid(i) {
            match conversion.convert(array.values[i]) {
                Ok(value) => value,
                Err(e) => {
                    proof {
                        lemma_first_error_stays(
                            array.values@,
                            array.validity,
                            source_unit,
                            target_unit,
                            i as int + 1,
                            array.values@.len() as int,
                        );
                    }
                    return Err(TemporalCastError::Convert(e));
                },
            }
        } else {
            0
        };
        values.push(value);
        i += 1;
    }
    let validity = array.validity.duplicate();
    let out = I64Array { values, validity };
    proof {
        assert(array.validity.wf(array.values@.len()));
        assert forall|k: int| 0 <= k < array.values.len() implies #[trigger] out.at(k)
            == match array.at(k) {
            Some(v) => Some(converted(source_unit, target_unit, v)->Ok_0),
            None => None,
        } by {
            assert(out.validity.valid(k) == array.validity.valid(k));
        }
    }
    Ok(out)
}

/// What an extension array is cast to by converting its values.
///
/// Only dates become timestamps; any other pair of extension types, or a type that is no
/// extension type, has no conversion. The result has a null exactly if the storage of the target
/// has one; a null date has no place in a type without.
pub fn cast_temporal_date_to_timestamp(
    ext_dtype: &ExtDType,
    storage: &I64Array,
    target: &DType,
) -> (r: Result<Option<I64Array>, TemporalCastError>)
    requires
        storage.wf(),
    ensures
        match temporal_units(ext_dtype@, target@) {
            None => r matches Ok(None),
            Some((source, unit)) => match storage_limits(unit) {
                None => r == Err::<Option<I64Array>, TemporalCastError>(
                    TemporalCastError::DaysUnit,
                ),
                Some(_) => match first_error(
                    storage.values@,
                    storage.validity,
                    source,
                    unit,
                    storage.values@.len() as int,
                ) {
                    Some(e) => r == Err::<Option<I64Array>, TemporalCastError>(
                        TemporalCastError::Convert(e),
                    ),
                    None => {
                        let n = target@->Extension_0.storage.nullability();
                        let len = storage.values@.len();
                        if n == Nullability::NonNullable && !storage.validity.all_valid(len) {
                            r == Err::<Option<I64Array>, TemporalCastError>(
                                TemporalCastError::InvalidValues,
                            )
                        } else {
                            r matches Ok(Some(out)) && {
                                &&& out.wf()
                                &&& out.values.len() == storage.values.len()
                                &&& storage.validity.is_cast_to(out.validity, n, len)
                                &&& forall|i: int|
                                    0 <= i < storage.values.len() ==> #[trigger] out.at(i)
                                        == match storage.at(i) {
                                        Some(v) => Some(converted(source, unit, v)->Ok_0),
                                        None => None,
                                    }
                            }
                        }
                    },
                },
            },
        },
{
    match target {
        DType::Extension(t) => match (&ext_dtype.kind, &t.kind) {
            (ExtKind::Date(source), ExtKind::Timestamp(options)) => {
                let out = match cast_date_values_to_timestamp(storage, *source, options.unit) {
                    Ok(out) => out,
                    Err(e) => {
                        return Err(e);
                    },
                };
                let len: usize = out.values.len();
                match storage.validity.cast_nullability(t.storage.nullability(), len) {
                    Ok(validity) => {
                        let ghost values = out;
                        let cast = I64Array { values: out.values, validity };
                        assert forall|i: int| 0 <= i < len implies #[trigger] cast.at(i)
                            == values.at(i) by {
                            assert(cast.validity.valid(i) == storage.validity.valid(i));
                            assert(values.at(i) is Some == storage.validity.valid(i));
                        }
                        Ok(Some(cast))
                    },
                    Err(_) => Err(TemporalCastError::InvalidValues),
                }
            },
            _ => Ok(None),
        },
        _ => Ok(None),
    }
}

/// The units of a conversion from dates to timestamps, if the two types are that.
pub open spec fn temporal_units(ext: ExtDTypeView, target: DTypeView) -> Option<
    (TimeUnit, TimeUnit),
> {
    match target {
        DTypeView::Extension(t) => match (ext.kind, t.kind) {
            (ExtKindView::Date(source), ExtKindView::Timestamp(options)) => Some(
                (source, options.unit),
            ),
            _ => None,
        },
        _ => None,
    }
}

/// Casting an array of dates succeeds exactly when every date that is not null can be converted:
/// one date is refused by the array exactly when it is refused on its own.
pub proof fn law_array_and_single_value_agree(
    values: Seq<i64>,
    validity: Validity,
    source: TimeUnit,
    target: TimeUnit,
)
    ensures
        first_error(values, validity, source, target, values.len() as int) is None
            <==> forall|i: int|
            0 <= i < values.len() && #[trigger] validity.valid(i) ==> converted(
                source,
                target,
                values[i],
            ) is Ok,
{
    let n = values.len() as int;
    if first_error(values, validity, source, target, n) is None {
        assert forall|i: int| 0 <= i < n && #[trigger] validity.valid(i) implies converted(
            source,
            target,
            values[i],
        ) is Ok by {
            lemma_no_error_before(values, validity, source, target, i, n);
        }
    } else {
        lemma_error_has_a_value(values, validity, source, target, n);
    }
}

/// What a value of an array of dates is as a scalar.
pub open spec fn date_value(value: Option<i64>) -> Option<ValueView> {
    match value {
        Some(v) => Some(ValueView::Primitive(PValue::I64(v))),
        None => None,
    }
}

/// An array of dates is cast to a timestamp type exactly when each of its values, null or not, is
/// cast on its own, and then to the same: what the array refuses is what a scalar refuses.
pub proof fn law_array_and_scalar_cast_agree(
    ext: ExtDTypeView,
    storage: I64Array,
    target: DTypeView,
)
    requires
        storage.wf(),
        *ext.storage is Primitive,
        temporal_units(ext, target) matches Some((_, unit)) && storage_limits(unit) is Some,
    ensures
        ({
            let (source, unit) = temporal_units(ext, target)->Some_0;
            let len = storage.values@.len();
            let refused = first_error(
                storage.values@,
                storage.validity,
                source,
                unit,
                len as int,
            ) is Some || (target->Extension_0.storage.nullability() == Nullability::NonNullable
                && !storage.validity.all_valid(len));
            &&& !refused <==> forall|i: int|
                0 <= i < len ==> cast_value(
                    ext,
                    date_value(#[trigger] storage.at(i)),
                    target,
                ) is Ok
            &&& !refused ==> forall|i: int|
                0 <= i < len ==> cast_value(ext, date_value(#[trigger] storage.at(i)), target)
                    == Ok::<Option<ValueView>, ExtCastError>(
                    date_value(
                        match storage.at(i) {
                            Some(v) => Some(converted(source, unit, v)->Ok_0),
                            None => None,
                        },
                    ),
                )
        }),
{
    let (source, unit) = temporal_units(ext, target)->Some_0;
    let len = storage.values@.len();
    let n = target->Extension_0.storage.nullability();
    law_array_and_single_value_agree(storage.values@, storage.validity, source, unit);
    let all_cast = forall|i: int|
        0 <= i < len ==> cast_value(ext, date_value(#[trigger] storage.at(i)), target) is Ok;
    assert(target.is_nullable() == (n == Nullability::Nullable));
    if all_cast {
        assert forall|i: int| 0 <= i < len && #[trigger] storage.validity.valid(i) implies converted(
            source,
            unit,
            storage.values@[i],
        ) is Ok by {
            assert(cast_value(ext, date_value(storage.at(i)), target) is Ok);
        }
        if n == Nullability::NonNullable {
            assert forall|i: int| 0 <= i < len implies #[trigger] storage.validity.valid(i) by {
                assert(cast_value(ext, date_value(storage.at(i)), target) is Ok);
            }
        }
    }
}

proof fn lemma_error_has_a_value(
    values: Seq<i64>,
    validity: Validity,
    source: TimeUnit,
    target: TimeUnit,
    len: int,
)
    requires
        0 <= len <= values.len(),
        first_error(values, validity, source, target, len) is Some,
    ensures
        exists|i: int|
            0 <= i < len && #[trigger] validity.valid(i) && converted(
                source,
                target,
                values[i],
            ) is Err,
    decreases len,
{
    if len > 0 {
        if first_error(values, validity, source, target, len - 1) is Some {
            lemma_error_has_a_value(values, validity, source, target, len - 1);
        } else {
            assert(validity.valid(len - 1));
        }
    }
}

/// What an array of dates is refused for is why the first date of it that has no timestamp has none.
pub proof fn law_the_first_date_without_a_timestamp_is_told(
    values: Seq<i64>,
    validity: Validity,
    source: TimeUnit,
    target: TimeUnit,
    len: int,
)
    requires
        0 <= len <= values.len(),
        first_error(values, validity, source, target, len) is Some,
    ensures
        exists|i: int|
            0 <= i < len && #[trigger] validity.valid(i) && converted(source, target, values[i])
                == Err::<i64, ConvertError>(
                first_error(values, validity, source, target, len)->Some_0,
            ) && (forall|j: int|
                0 <= j < i && #[trigger] validity.valid(j) ==> converted(
                    source,
                    target,
                    values[j],
                ) is Ok),
    decreases len,
{
    if first_error(values, validity, source, target, len - 1) is Some {
        law_the_first_date_without_a_timestamp_is_told(values, validity, source, target, len - 1);
    } else {
        assert(validity.valid(len - 1));
        assert forall|j: int| 0 <= j < len - 1 && #[trigger] validity.valid(j) implies converted(
            source,
            target,
            values[j],
        ) is Ok by {
            lemma_no_error_before(values, validity, source, target, j, len - 1);
        }
    }
}

/// A cast to a type that is no extension type is what the cast of the storage is, be it a failure; a
/// cast to the same extension type takes the storage that was cast, and never fails without a look
/// at the values.
pub proof fn law_what_follows_from_the_storage<A, E>(
    dtype: DType,
    ext: ExtDType,
    storage: Result<A, E>,
)
    ensures
        reduced(CastReduction::Storage(dtype), storage) is Err <==> storage is Err,
        storage matches Err(e) ==> reduced(CastReduction::Storage(dtype), storage) == Err::<
            ReducedCast<A>,
            E,
        >(e),
        storage matches Ok(a) ==> reduced(CastReduction::Storage(dtype), storage) == Ok::<
            ReducedCast<A>,
            E,
        >(ReducedCast::Storage(a)),
        storage matches Ok(a) ==> reduced(CastReduction::Extension(ext), storage) == Ok::<
            ReducedCast<A>,
            E,
        >(ReducedCast::Extension(ext, a)),
        storage is Err ==> (reduced(CastReduction::Extension(ext), storage) matches Ok(r)
            && r is Deferred),
        reduced(CastReduction::Deferred, storage) matches Ok(r) && r is Deferred,
{
}

/// Only a date is converted, and only to a timestamp: from the unit of the one to that of the other.
pub proof fn law_only_dates_become_timestamps(ext: ExtDTypeView, target: DTypeView)
    ensures
        temporal_units(ext, target) is Some <==> ext.kind is Date && target is Extension
            && target->Extension_0.kind is Timestamp,
        temporal_units(ext, target) matches Some((source, unit)) ==> ext.kind == ExtKindView::Date(
            source,
        ) && target->Extension_0.kind->Timestamp_0.unit == unit,
{
}

/// The storage is cast to the type that the cast asks of it: the target itself, or what the target
/// is stored as. A cast that is put off asks nothing of the storage.
pub proof fn law_what_the_storage_is_cast_to(
    dtype: DType,
    ext: ExtDType,
    plain: Option<&DType>,
    stored: Option<&DType>,
    deferred: Option<&DType>,
)
    requires
        call_ensures(CastReduction::storage_target, (&CastReduction::Storage(dtype),), plain),
        call_ensures(CastReduction::storage_target, (&CastReduction::Extension(ext),), stored),
        call_ensures(CastReduction::storage_target, (&CastReduction::Deferred,), deferred),
    ensures
        plain == Some(&dtype),
        stored == Some(&*ext.storage),
        deferred is None,
{
}

} // verus!
