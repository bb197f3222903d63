//! Membership answered on another form of the needles.

use crate::arrays::array::values_view;
use crate::dtype::{DType, DTypeView, Nullability};
use crate::list_contains::compute::{answers, comparable, lemma_needles_fit, ListContains};
use crate::list_contains::hash::is_member;
use crate::list_contains::inputs::{
    list_elements, stored_as, BoolArray, ListInput, NeedleArray, NeedleStorage, Needles,
};
use crate::scalar::{has_form, option_duplicate, option_view, Scalar, Value, ValueView};
use std::sync::Arc;
use vstd::prelude::*;

verus! {

/// Whether the lists are one constant list of the type of the needles, and not null.
pub open spec fn is_constant_list_for(list: ListInput, needle: DTypeView) -> bool {
    list is Constant && list_elements(list->Constant_0@.value) is Some && comparable(
        list.dtype_spec(),
        needle,
    )
}

/// What an extension type is stored as, one step down.
pub open spec fn storage_of(dtype: DTypeView) -> DTypeView {
    match dtype {
        DTypeView::Extension(ext) => *ext.storage,
        _ => dtype,
    }
}

fn storage_dtype(dtype: &DType) -> (r: DType)
    ensures
        r@ == storage_of(dtype@),
{
    match dtype {
        DType::Extension(ext) => ext.storage.duplicate(),
        _ => dtype.duplicate(),
    }
}

proof fn lemma_storage_keeps_form(value: Option<ValueView>, dtype: DTypeView)
    requires
        has_form(value, dtype),
        dtype is Extension,
    ensures
        has_form(value, storage_of(dtype)),
{
}

proof fn lemma_storage_array(element: NeedleArray, storage: NeedleArray)
    requires
        element.wf(),
        element.dtype@ is Extension,
        storage.dtype@ == storage_of(element.dtype@),
        storage.storage == element.storage,
    ensures
        storage.wf(),
        storage.rows() == element.rows(),
        forall|i: int| #[trigger] storage.value_at(i) == element.value_at(i),
        forall|i: int|
            #![trigger storage.valid(i)]
            #![trigger element.valid(i)]
            storage.valid(i) == element.valid(i),
{
    assert(stored_as(storage.dtype@) == stored_as(element.dtype@));
    if let NeedleStorage::Values(values) = *element.storage {
        assert forall|i: int| 0 <= i < values@.len() implies has_form(
            option_view(#[trigger] values@[i]),
            storage.dtype@,
        ) by {
            lemma_storage_keeps_form(option_view(values@[i]), element.dtype@);
        }
    }
}

/// Returns copies of the values.
fn duplicate_values(values: &Vec<Option<Value>>) -> (r: Vec<Option<Value>>)
    ensures
        values_view(r@) == values_view(values@),
{
    let mut copy: Vec<Option<Value>> = Vec::new();
    let mut i: usize = 0;
    while i < values.len()
        invariant
            0 <= i <= values.len(),
            copy@.len() == i,
            forall|j: int| 0 <= j < i ==> option_view(#[trigger] copy@[j]) == option_view(values@[j]),
        decreases values.len() - i,
    {
        copy.push(option_duplicate(&values[i]));
        i += 1;
    }
    assert(values_view(copy@) =~= values_view(values@));
    copy
}

/// Returns the answers of a membership test for needles of an extension type, through their
/// storage; or nothing, if the lists are not one constant list of the type of the needles.
///
/// A value of an extension type is the value that it is stored as, so membership is membership
/// among the stored values.
pub fn extension_list_contains(list: &ListInput, element: &NeedleArray) -> (r: Option<BoolArray>)
    requires
        list.wf(),
        list is Constant ==> list.dtype_spec() is List,
        element.wf(),
        element.dtype@ is Extension,
        list.rows() == element.rows(),
    ensures
        r is Some <==> is_constant_list_for(*list, element.dtype@),
        r matches Some(array) ==> array.values@ == answers(*list, Needles::Array(*element))
            && array.nullability == list.dtype_spec().nullability().union_spec(
            element.dtype@.nullability(),
        ),
{
    let (scalar, len): (&Scalar, usize) = match list {
        ListInput::Constant(scalar, len) => (scalar, *len),
        ListInput::Lists(_) => {
            return None;
        },
    };
    let elements: &Vec<Option<Value>> = match &scalar.value {
        Some(Value::List(elements)) => elements,
        _ => {
            return None;
        },
    };
    let (item, nullability): (&DType, Nullability) = match &scalar.dtype {
        DType::List(item, n) => (item, *n),
        _ => vstd::pervasive::unreached(),
    };
    if !item.eq_ignore_nullability(&element.dtype) {
        return None;
    }
    let storage = NeedleArray {
        dtype: storage_dtype(&element.dtype),
        storage: Arc::clone(&element.storage),
    };
    let stored = duplicate_values(elements);
    let ghost content = values_view(stored@);
    let storage_list = Scalar::new_unchecked(
        DType::List(Box::new(storage_dtype(item)), nullability),
        Some(Value::List(stored)),
    );
    proof {
        lemma_storage_array(*element, storage);
        assert(list_elements(scalar@.value)->Some_0 =~= content);
        assert(storage_list@.value->Some_0->List_0 =~= content);
        assert forall|j: int| 0 <= j < content.len() implies has_form(
            #[trigger] content[j],
            storage_of(item@),
        ) by {
            lemma_storage_keeps_form(content[j], item@);
        }
        assert(has_form(storage_list@.value, storage_list@.dtype));
    }
    let storage_input = ListInput::Constant(storage_list, len);
    let needles = Needles::Array(storage);
    match ListContains.execute(&storage_input, &needles) {
        Ok(array) => {
            proof {
                let original = Needles::Array(*element);
                assert(original.all_invalid_spec() == needles.all_invalid_spec());
                assert(comparable(storage_input.dtype_spec(), needles.dtype_spec()));
                assert(comparable(list.dtype_spec(), element.dtype@));
                assert forall|i: int| 0 <= i < len implies array.values@[i] == answers(
                    *list,
                    original,
                )[i] by {
                    assert(needles.value_at(i) == original.value_at(i));
                    assert(storage_input.list_at(i) == list.list_at(i));
                }
                assert(array.values@ =~= answers(*list, original));
            }
            Some(array)
        },
        Err(_) => vstd::pervasive::unreached(),
    }
}

/// The rows per element of the list below which compressing the list does not pay.
pub const MIN_ROWS_PER_LIST_ELEMENT: usize = 32;

/// Whether a function that compresses computes `f`.
pub open spec fn computes<F: Fn(&Vec<u8>) -> Vec<u8>>(
    compress: F,
    f: spec_fn(Seq<u8>) -> Seq<u8>,
) -> bool {
    forall|bytes: &Vec<u8>, code: Vec<u8>| #[trigger]
        compress.ensures((bytes,), code) ==> code@ == f(bytes@)
}

/// The code of a string or of a byte string.
pub open spec fn code_of(value: ValueView, f: spec_fn(Seq<u8>) -> Seq<u8>) -> ValueView {
    match value {
        ValueView::Utf8(bytes) => ValueView::Binary(f(bytes)),
        ValueView::Binary(bytes) => ValueView::Binary(f(bytes)),
        _ => value,
    }
}

/// The codes of strings or of byte strings; null for null.
pub open spec fn codes_of(
    values: Seq<Option<ValueView>>,
    f: spec_fn(Seq<u8>) -> Seq<u8>,
) -> Seq<Option<ValueView>> {
    Seq::new(
        values.len(),
        |i: int|
            match values[i] {
                Some(v) => Some(code_of(v, f)),
                None => None,
            },
    )
}

/// Whether membership is answered on codes: one constant list of the type of the needles, with
/// enough rows for its length and without a null.
pub open spec fn answered_on_codes(list: ListInput, needle: DTypeView, rows: nat) -> bool {
    &&& is_constant_list_for(list, needle)
    &&& list_elements(list->Constant_0@.value)->Some_0.len() * MIN_ROWS_PER_LIST_ELEMENT <= rows
    &&& forall|j: int|
        0 <= j < list_elements(list->Constant_0@.value)->Some_0.len() ==> (
        #[trigger] list_elements(list->Constant_0@.value)->Some_0[j]) is Some
}

/// The answers of a membership test on codes.
pub open spec fn code_answers(elements: Seq<Option<ValueView>>, codes: NeedleArray) -> Seq<
    Option<bool>,
> {
    Seq::new(
        codes.rows(),
        |i: int|
            if Needles::Array(codes).all_invalid_spec() {
                None
            } else {
                Some(is_member(elements, codes.value_at(i)))
            },
    )
}

/// Whether answers that were given on codes are those of the membership test on the strings that
/// the codes stand for, row for row, where the codes are made by a lossless function.
pub open spec fn answers_as_strings<F: Fn(&Vec<u8>) -> Vec<u8>>(
    compress: F,
    list: ListInput,
    dtype: DTypeView,
    codes: NeedleArray,
    given: Seq<Option<bool>>,
) -> bool {
    forall|f: spec_fn(Seq<u8>) -> Seq<u8>, strings: NeedleArray|
        computes(compress, f) && lossless(f) && strings.wf() && strings.dtype@ == dtype
            && #[trigger] are_codes_of(codes, strings, f) ==> given == answers(
            list,
            Needles::Array(strings),
        )
}

proof fn lemma_codes_answer_as_strings<F: Fn(&Vec<u8>) -> Vec<u8>>(
    compress: F,
    list: ListInput,
    dtype: DTypeView,
    codes: NeedleArray,
    given: Seq<Option<bool>>,
)
    requires
        list.wf(),
        dtype is Utf8 || dtype is Binary,
        list.rows() == codes.rows(),
        answered_on_codes(list, dtype, codes.rows()),
        forall|f: spec_fn(Seq<u8>) -> Seq<u8>| #[trigger]
            computes(compress, f) ==> given == code_answers(
                codes_of(list_elements(list->Constant_0@.value)->Some_0, f),
                codes,
            ),
    ensures
        answers_as_strings(compress, list, dtype, codes, given),
{
    assert forall|f: spec_fn(Seq<u8>) -> Seq<u8>, strings: NeedleArray|
        computes(compress, f) && lossless(f) && strings.wf() && strings.dtype@ == dtype
            && #[trigger] are_codes_of(codes, strings, f) implies given == answers(
        list,
        Needles::Array(strings),
    ) by {
        assert(strings.content().len() == codes.content().len());
        law_answers_on_codes_are_the_answers_on_strings(list, codes, strings, f);
    }
}

/// Returns the answers of a membership test for needles that are compressed, without decompressing
/// any of them; or nothing, if the test is not answered on codes.
///
/// The list is compressed once, and its codes are looked for among those of the needles. Compression
/// under one table of symbols is deterministic and lossless, so two strings are equal exactly when
/// their codes are: where `compress` is such, and the codes are those of `strings`, the answers are
/// those of the membership test on the strings, row for row.
pub fn fsst_list_contains<F: Fn(&Vec<u8>) -> Vec<u8>>(
    list: &ListInput,
    dtype: &DType,
    codes: &NeedleArray,
    compress: F,
) -> (r: Option<BoolArray>)
    requires
        list.wf(),
        list is Constant ==> list.dtype_spec() is List,
        dtype@ is Utf8 || dtype@ is Binary,
        codes.wf(),
        codes.dtype@ == DTypeView::Binary(dtype@.nullability()),
        list.rows() == codes.rows(),
        forall|bytes: &Vec<u8>| #[trigger] compress.requires((bytes,)),
    ensures
        r is Some <==> answered_on_codes(*list, dtype@, codes.rows()),
        r matches Some(array) ==> array.nullability == list.dtype_spec().nullability().union_spec(
            dtype@.nullability(),
        ),
        r matches Some(array) ==> forall|f: spec_fn(Seq<u8>) -> Seq<u8>| #[trigger]
            computes(compress, f) ==> array.values@ == code_answers(
                codes_of(list_elements(list->Constant_0@.value)->Some_0, f),
                *codes,
            ),
        r matches Some(array) ==> answers_as_strings(
            compress,
            *list,
            dtype@,
            *codes,
            array.values@,
        ),
{
    let (scalar, len): (&Scalar, usize) = match list {
        ListInput::Constant(scalar, len) => (scalar, *len),
        ListInput::Lists(_) => {
            return None;
        },
    };
    let elements: &Vec<Option<Value>> = match &scalar.value {
        Some(Value::List(elements)) => elements,
        _ => {
            return None;
        },
    };
    let ghost view = values_view(elements@);
    assert(list_elements(scalar@.value)->Some_0 =~= view);
    let (item, nullability): (&DType, Nullability) = match &scalar.dtype {
        DType::List(item, n) => (item, *n),
        _ => vstd::pervasive::unreached(),
    };
    if !item.eq_ignore_nullability(dtype) {
        return None;
    }
    if elements.len() > codes.len() / MIN_ROWS_PER_LIST_ELEMENT {
        return None;
    }
    let mut code_list: Vec<Option<Value>> = Vec::new();
    let mut i: usize = 0;
    while i < elements.len()
        invariant
            0 <= i <= elements.len(),
            view == values_view(elements@),
            list_elements(list->Constant_0@.value) == Some(view),
            item@ is Utf8 || item@ is Binary,
            forall|j: int| 0 <= j < view.len() ==> has_form(#[trigger] view[j], item@),
            forall|bytes: &Vec<u8>| #[trigger] compress.requires((bytes,)),
            code_list@.len() == i,
            forall|j: int|
                0 <= j < i ==> (#[trigger] code_list@[j]) is Some && code_list@[j]->Some_0 is Binary,
            forall|j: int| 0 <= j < i ==> (#[trigger] view[j]) is Some,
            forall|f: spec_fn(Seq<u8>) -> Seq<u8>|
                computes(compress, f) ==> forall|j: int|
                    0 <= j < i ==> option_view(#[trigger] code_list@[j]) == #[trigger] codes_of(
                        view,
                        f,
                    )[j],
        decreases elements.len() - i,
    {
        assert(view[i as int] == option_view(elements@[i as int]));
        assert(has_form(view[i as int], item@));
        let bytes: &Vec<u8> = match &elements[i] {
            Some(Value::Utf8(bytes)) => bytes,
            Some(Value::Binary(bytes)) => bytes,
            _ => {
                return None;
            },
        };
        let code = compress(bytes);
        code_list.push(Some(Value::Binary(code)));
        i += 1;
    }
    let ghost code_view = values_view(code_list@);
    let code_scalar = Scalar::new_unchecked(
        DType::List(Box::new(DType::Binary(Nullability::NonNullable)), nullability),
        Some(Value::List(code_list)),
    );
    let needles = Needles::Array(
        NeedleArray { dtype: codes.dtype.duplicate(), storage: Arc::clone(&codes.storage) },
    );
    proof {
        lemma_same_array(*codes, needles->Array_0);
        assert(code_scalar@.value->Some_0->List_0 =~= code_view);
        assert forall|j: int| 0 <= j < code_view.len() implies has_form(
            #[trigger] code_view[j],
            DTypeView::Binary(Nullability::NonNullable),
        ) by {
            assert(code_view[j] == option_view(code_list@[j]));
        }
        assert(code_scalar@.dtype == DTypeView::List(
            Box::new(DTypeView::Binary(Nullability::NonNullable)),
            nullability,
        )) by {
            reveal_with_fuel(DType::view, 2);
        }
        assert(has_form(code_scalar@.value, code_scalar@.dtype));
    }
    let input = ListInput::Constant(code_scalar, len);
    match ListContains.execute(&input, &needles) {
        Ok(array) => {
            proof {
                assert forall|f: spec_fn(Seq<u8>) -> Seq<u8>| #[trigger]
                    computes(compress, f) implies array.values@ == code_answers(
                    codes_of(list_elements(list->Constant_0@.value)->Some_0, f),
                    *codes,
                ) by {
                    assert(code_view =~= codes_of(view, f));
                    assert(array.values@ =~= code_answers(codes_of(view, f), *codes));
                }
                lemma_codes_answer_as_strings(compress, *list, dtype@, *codes, array.values@);
            }
            Some(array)
        },
        Err(_) => vstd::pervasive::unreached(),
    }
}

proof fn lemma_same_array(a: NeedleArray, b: NeedleArray)
    requires
        a.wf(),
        a.dtype@ == b.dtype@,
        a.storage == b.storage,
    ensures
        b.wf(),
        b.rows() == a.rows(),
        forall|i: int| #[trigger] b.value_at(i) == a.value_at(i),
        forall|i: int|
            #![trigger b.valid(i)]
            #![trigger a.valid(i)]
            b.valid(i) == a.valid(i),
{
}

/// Whether no two byte strings have the same code.
pub open spec fn lossless(f: spec_fn(Seq<u8>) -> Seq<u8>) -> bool {
    forall|a: Seq<u8>, b: Seq<u8>| #[trigger] f(a) == #[trigger] f(b) ==> a == b
}

/// Under a lossless compression the codes answer as the strings do: a code is among the codes of a
/// list exactly when its string is in the list.
pub proof fn law_codes_answer_as_strings_do(
    elements: Seq<Option<ValueView>>,
    needle: Option<ValueView>,
    dtype: DTypeView,
    f: spec_fn(Seq<u8>) -> Seq<u8>,
)
    requires
        lossless(f),
        dtype is Utf8 || dtype is Binary,
        forall|j: int| 0 <= j < elements.len() ==> has_form(#[trigger] elements[j], dtype),
        needle is Some ==> has_form(needle, dtype),
    ensures
        is_member(codes_of(elements, f), codes_of(seq![needle], f)[0]) == is_member(
            elements,
            needle,
        ),
{
    let coded = codes_of(elements, f);
    let code = codes_of(seq![needle], f)[0];
    if is_member(coded, code) {
        let j = choose|j: int| 0 <= j < coded.len() && coded[j] == code;
        assert(has_form(elements[j], dtype));
        assert(elements[j] == needle);
    }
    if is_member(elements, needle) {
        let j = choose|j: int| 0 <= j < elements.len() && elements[j] == needle;
        assert(coded[j] == code);
    }
}

/// Whether an array holds the codes of another one, row by row.
pub open spec fn are_codes_of(
    codes: NeedleArray,
    strings: NeedleArray,
    f: spec_fn(Seq<u8>) -> Seq<u8>,
) -> bool {
    &&& codes.dtype@ == DTypeView::Binary(strings.dtype@.nullability())
    &&& codes.content() == codes_of(strings.content(), f)
}

/// Where membership is answered on codes, it is answered row for row as the membership test answers
/// it on the strings that the codes stand for, under a lossless compression: what
/// `fsst_list_contains` returns for the codes is what `ListContains::execute` returns for the
/// strings.
pub proof fn law_answers_on_codes_are_the_answers_on_strings(
    list: ListInput,
    codes: NeedleArray,
    strings: NeedleArray,
    f: spec_fn(Seq<u8>) -> Seq<u8>,
)
    requires
        list.wf(),
        strings.wf(),
        strings.dtype@ is Utf8 || strings.dtype@ is Binary,
        list.rows() == strings.rows(),
        lossless(f),
        are_codes_of(codes, strings, f),
        answered_on_codes(list, strings.dtype@, codes.rows()),
    ensures
        code_answers(codes_of(list_elements(list->Constant_0@.value)->Some_0, f), codes) == answers(
            list,
            Needles::Array(strings),
        ),
{
    let elements = list_elements(list->Constant_0@.value)->Some_0;
    let dtype = strings.dtype@;
    let needles = Needles::Array(strings);
    let coded = Needles::Array(codes);
    let on_codes = code_answers(codes_of(elements, f), codes);
    assert(strings.content().len() == strings.rows());
    assert(codes.content().len() == codes.rows());
    assert forall|i: int| 0 <= i < strings.rows() implies #[trigger] codes.value_at(i) == codes_of(
        seq![strings.value_at(i)],
        f,
    )[0] && codes.valid(i) == strings.valid(i) by {
        assert(codes.content()[i] == codes_of(strings.content(), f)[i]);
        assert(strings.content()[i] == strings.value_at(i));
    }
    assert(needles.all_invalid_spec() == coded.all_invalid_spec()) by {
        if needles.all_invalid_spec() {
            assert forall|i: int| 0 <= i < codes.rows() implies !#[trigger] codes.valid(i) by {
                assert(codes.value_at(i) == codes_of(seq![strings.value_at(i)], f)[0]);
                assert(!strings.valid(i));
            }
        }
        if coded.all_invalid_spec() {
            assert forall|i: int| 0 <= i < strings.rows() implies !#[trigger] strings.valid(i) by {
                assert(codes.value_at(i) == codes_of(seq![strings.value_at(i)], f)[0]);
                assert(!codes.valid(i));
            }
        }
    }
    assert forall|j: int| 0 <= j < elements.len() implies has_form(#[trigger] elements[j], dtype) by {
        assert(list_elements(list->Constant_0@.value)->Some_0[j] is Some);
        reveal_with_fuel(has_form, 2);
    }
    lemma_needles_fit(strings);
    assert forall|i: int| 0 <= i < on_codes.len() implies on_codes[i] == answers(
        list,
        needles,
    )[i] by {
        let needle = strings.value_at(i);
        assert(codes.value_at(i) == codes_of(seq![needle], f)[0]);
        assert(strings.content()[i] == needle);
        if needle is Some {
            assert(has_form(needle, dtype));
        }
        law_codes_answer_as_strings_do(elements, needle, dtype, f);
    }
    assert(on_codes =~= answers(list, needles));
}

/// Membership is answered on codes exactly if there is one list for all rows, of the type of the
/// needles, which neither is nor holds a null, and at least 32 rows for each of its elements.
pub proof fn law_when_codes_are_asked(scalar: Scalar, len: usize, needle: DTypeView, rows: nat)
    ensures
        answered_on_codes(ListInput::Constant(scalar, len), needle, rows) <==> (
        scalar@.value matches Some(ValueView::List(elements)) && comparable(scalar@.dtype, needle)
            && 32 * elements.len() <= rows && (forall|j: int|
            0 <= j < elements.len() ==> (#[trigger] elements[j]) is Some)),
{
}

/// Lists by row are never answered on codes, nor through what an extension type is stored as.
pub proof fn law_lists_by_row_are_answered_as_they_are(list: ListInput, needle: DTypeView, rows: nat)
    requires
        list is Lists,
    ensures
        !answered_on_codes(list, needle, rows),
        !is_constant_list_for(list, needle),
{
}

} // verus!
