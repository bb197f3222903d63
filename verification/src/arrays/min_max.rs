//! The least and the greatest value of an array.

use crate::dtype::{DType, DTypeView, ExtDType, Nullability};
use crate::scalar::{
    has_form, is_build_of, law_nulls_come_first, law_what_is_made_is_what_was_given,
    option_duplicate, option_relation, relate_options, timestamp_parts, Relation, Scalar, ScalarError,
    ScalarView,
};
use vstd::prelude::*;

verus! {

/// The least and the greatest value of an array.
#[derive(Debug)]
pub struct MinMaxResult {
    pub min: Scalar,
    pub max: Scalar,
}

/// What a `MinMaxResult` is.
pub struct MinMaxView {
    pub min: ScalarView,
    pub max: ScalarView,
}

impl MinMaxResult {
    /// The two values.
    pub open spec fn view(&self) -> MinMaxView {
        MinMaxView { min: self.min@, max: self.max@ }
    }
}

/// The least and the greatest value of the arrays so far, if there was any.
#[derive(Debug)]
pub struct MinMaxPartial {
    pub result: Option<MinMaxResult>,
}

/// The lesser of two scalars, the first where neither is less.
pub open spec fn lesser(a: ScalarView, b: ScalarView) -> ScalarView {
    if option_relation(b.value, a.value) == Some(Relation::Less) {
        b
    } else {
        a
    }
}

/// The greater of two scalars, the first where neither is greater.
pub open spec fn greater(a: ScalarView, b: ScalarView) -> ScalarView {
    if option_relation(b.value, a.value) == Some(Relation::Greater) {
        b
    } else {
        a
    }
}

/// The least and the greatest value of two arrays together.
pub open spec fn merged(a: Option<MinMaxView>, b: Option<MinMaxView>) -> Option<MinMaxView> {
    match (a, b) {
        (None, _) => b,
        (_, None) => a,
        (Some(x), Some(y)) => Some(
            MinMaxView { min: lesser(x.min, y.min), max: greater(x.max, y.max) },
        ),
    }
}

impl MinMaxPartial {
    /// The two values, if there are any.
    pub open spec fn view(&self) -> Option<MinMaxView> {
        match self.result {
            Some(result) => Some(result@),
            None => None,
        }
    }

    /// Takes the values of one more array into account.
    pub fn merge(&mut self, local: Option<MinMaxResult>)
        ensures
            final(self)@ == merged(
                old(self)@,
                match local {
                    Some(result) => Some(result@),
                    None => None,
                },
            ),
    {
        let local = match local {
            Some(local) => local,
            None => {
                return ;
            },
        };
        match self.result.take() {
            None => {
                self.result = Some(local);
            },
            Some(current) => {
                let less: bool = match relate_options(&local.min.value, &current.min.value) {
                    Some(Relation::Less) => true,
                    _ => false,
                };
                let more: bool = match relate_options(&local.max.value, &current.max.value) {
                    Some(Relation::Greater) => true,
                    _ => false,
                };
                self.result =
                Some(
                    MinMaxResult {
                        min: if less {
                            local.min
                        } else {
                            current.min
                        },
                        max: if more {
                            local.max
                        } else {
                            current.max
                        },
                    },
                );
            },
        }
    }
}

/// Whether `r` is the two stored values as values of an extension type, or why the first of them
/// that is none is none.
pub open spec fn is_extension_of(
    r: Result<MinMaxResult, ScalarError>,
    dtype: DTypeView,
    storage: MinMaxView,
) -> bool {
    match r {
        Ok(result) => is_build_of(Ok(result.min), dtype, storage.min.value) && is_build_of(
            Ok(result.max),
            dtype,
            storage.max.value,
        ),
        Err(e) => is_build_of(Err(e), dtype, storage.min.value) || (exists|min: Scalar|
            #[trigger] is_build_of(Ok(min), dtype, storage.min.value)) && is_build_of(
            Err(e),
            dtype,
            storage.max.value,
        ),
    }
}

/// Returns the two stored values as values of an extension type without a null.
pub fn extension_min_max(ext: &ExtDType, storage: &MinMaxResult) -> (r: Result<
    MinMaxResult,
    ScalarError,
>)
    ensures
        is_extension_of(
            r,
            DTypeView::Extension(ext@).with_nullability(Nullability::NonNullable),
            storage@,
        ),
{
    let dtype = DType::Extension(ext.duplicate()).with_nullability(Nullability::NonNullable);
    let min = match Scalar::try_new(dtype.duplicate(), option_duplicate(&storage.min.value)) {
        Ok(min) => min,
        Err(e) => {
            return Err(e);
        },
    };
    let max = match Scalar::try_new(dtype.duplicate(), option_duplicate(&storage.max.value)) {
        Ok(max) => max,
        Err(e) => {
            assert(is_build_of(Ok(min), dtype@, storage@.min.value));
            return Err(e);
        },
    };
    Ok(MinMaxResult { min, max })
}

/// Takes an array of an extension type into account, of whose storage the least and the greatest
/// value are given. Where one of the two is no value of the extension type, nothing is changed.
pub fn accumulate_extension(
    partial: &mut MinMaxPartial,
    ext: &ExtDType,
    storage: Option<MinMaxResult>,
) -> (r: Result<(), ScalarError>)
    ensures
        storage is None ==> r is Ok,
        r is Err ==> final(partial)@ == old(partial)@ && is_extension_of(
            Err(r->Err_0),
            DTypeView::Extension(ext@).with_nullability(Nullability::NonNullable),
            storage->Some_0@,
        ),
        r is Ok && storage is None ==> final(partial)@ == old(partial)@,
        r is Ok && storage is Some ==> exists|local: MinMaxResult|
            is_extension_of(
                Ok(local),
                DTypeView::Extension(ext@).with_nullability(Nullability::NonNullable),
                storage->Some_0@,
            ) && final(partial)@ == merged(old(partial)@, Some(#[trigger] local@)),
{
    let storage = match storage {
        Some(storage) => storage,
        None => {
            return Ok(());
        },
    };
    match extension_min_max(ext, &storage) {
        Ok(local) => {
            let ghost witness = local;
            partial.merge(Some(local));
            assert(partial@ == merged(old(partial)@, Some(witness@)));
            Ok(())
        },
        Err(e) => Err(e),
    }
}

/// The least value of two arrays together is one of their least values and not greater than either,
/// and the greatest is one of their greatest and not less than either. An array without a value
/// changes nothing.
pub proof fn law_merging_keeps_the_bounds(a: Option<MinMaxView>, b: Option<MinMaxView>)
    ensures
        a is None ==> merged(a, b) == b,
        b is None ==> merged(a, b) == a,
        (a matches Some(x) && b matches Some(y)) ==> {
            let (x, y) = (a->Some_0, b->Some_0);
            &&& merged(a, b) matches Some(m)
            &&& m.min == x.min || m.min == y.min
            &&& m.max == x.max || m.max == y.max
            &&& option_relation(m.min.value, x.min.value) != Some(Relation::Greater)
            &&& option_relation(m.min.value, y.min.value) != Some(Relation::Greater)
            &&& option_relation(m.max.value, x.max.value) != Some(Relation::Less)
            &&& option_relation(m.max.value, y.max.value) != Some(Relation::Less)
        },
{
    if let (Some(x), Some(y)) = (a, b) {
        law_nulls_come_first(x.min.value, y.min.value, None);
        law_nulls_come_first(x.max.value, y.max.value, None);
        law_nulls_come_first(x.min.value, x.min.value, None);
        law_nulls_come_first(y.min.value, y.min.value, None);
        law_nulls_come_first(x.max.value, x.max.value, None);
        law_nulls_come_first(y.max.value, y.max.value, None);
    }
}

/// Arrays may be taken into account in any order: the values are the same, where they can be held
/// against each other.
pub proof fn law_the_order_of_arrays_does_not_matter(a: MinMaxView, b: MinMaxView)
    requires
        option_relation(a.min.value, b.min.value) is Some,
        option_relation(a.max.value, b.max.value) is Some,
    ensures
        merged(Some(a), Some(b))->Some_0.min.value == merged(Some(b), Some(a))->Some_0.min.value,
        merged(Some(a), Some(b))->Some_0.max.value == merged(Some(b), Some(a))->Some_0.max.value,
{
    law_nulls_come_first(a.min.value, b.min.value, None);
    law_nulls_come_first(a.max.value, b.max.value, None);
}

/// The bounds of an array of an extension type are those of its storage, as values of that type.
pub proof fn law_the_bounds_of_the_storage_are_kept(
    result: MinMaxResult,
    dtype: DTypeView,
    storage: MinMaxView,
)
    requires
        is_extension_of(Ok(result), dtype, storage),
    ensures
        result@.min.value == storage.min.value,
        result@.max.value == storage.max.value,
        result@.min.dtype == dtype,
        result@.max.dtype == dtype,
{
    law_what_is_made_is_what_was_given(result.min, dtype, storage.min.value);
    law_what_is_made_is_what_was_given(result.max, dtype, storage.max.value);
}

/// Bounds are refused where one of them is no value of the type by its form, and for nothing else
/// unless they are timestamps.
pub proof fn law_why_bounds_are_refused(
    r: Result<MinMaxResult, ScalarError>,
    dtype: DTypeView,
    storage: MinMaxView,
)
    requires
        is_extension_of(r, dtype, storage),
    ensures
        !has_form(storage.min.value, dtype) ==> r == Err::<MinMaxResult, ScalarError>(
            ScalarError::WrongForm,
        ),
        !has_form(storage.max.value, dtype) ==> r is Err,
        has_form(storage.min.value, dtype) && has_form(storage.max.value, dtype) && timestamp_parts(
            dtype,
            storage.min.value,
        ) is None && timestamp_parts(dtype, storage.max.value) is None ==> r is Ok,
{
    if let Ok(result) = r {
        assert(is_build_of(Ok(result.min), dtype, storage.min.value));
        assert(is_build_of(Ok(result.max), dtype, storage.max.value));
    }
}

} // verus!
