//! The function `vortex.list.contains`.

use crate::arrays::array::values_view;
use crate::dtype::{law_nullability_is_all_that_changes, DType, DTypeView, Nullability};
use crate::list_contains::hash::{elements_fit, fits, hash_probe_contains, is_member};
use crate::list_contains::inputs::{
    list_elements, BoolArray, ListInput, ListViewArray, NeedleArray, Needles,
};
use crate::list_contains::probe::{list_matches, process_matches};
use crate::scalar::{
    has_form, option_equals, option_view, Scalar, ScalarView, Value, ValueView,
};
use vstd::prelude::*;

verus! {

/// Why a membership test is refused.
#[derive(Debug)]
pub enum ListContainsError {
    /// The first argument is no list.
    NotAList(DType),
    /// The elements of the lists are not of the type of the needles.
    ElementMismatch { element: DType, value: DType },
}

/// The length of a list from which on membership is answered by a set, in place of one comparison
/// per element.
pub const HASH_PROBE_MIN_ELEMENTS: usize = 4;

/// The type of the elements of a list type.
pub open spec fn element_dtype(dtype: DTypeView) -> Option<DTypeView> {
    match dtype {
        DTypeView::List(e, _) => Some(*e),
        _ => None,
    }
}

/// Whether the needles are of the type of the elements, up to nullability.
pub open spec fn comparable(list: DTypeView, needle: DTypeView) -> bool {
    element_dtype(list) is Some && element_dtype(list)->Some_0.same_base(needle)
}

/// The answers of a membership test. Where all lists or all needles are null, so is each answer;
/// else the answer is null where the list is, and a null needle is in no list.
pub open spec fn answers(list: ListInput, needles: Needles) -> Seq<Option<bool>> {
    Seq::new(
        list.rows(),
        |i: int|
            if list.all_invalid_spec() || needles.all_invalid_spec() {
                None
            } else {
                match list.list_at(i) {
                    None => None,
                    Some(elements) => Some(
                        comparable(list.dtype_spec(), needles.dtype_spec()) && is_member(
                            elements,
                            needles.value_at(i),
                        ),
                    ),
                }
            },
    )
}

/// The answer to whether one list holds one value: null where one of the two is.
pub open spec fn scalar_answer(list: ScalarView, needle: ScalarView) -> Option<bool> {
    match list_elements(list.value) {
        None => None,
        Some(elements) => if needle.value is None {
            None
        } else {
            Some(comparable(list.dtype, needle.dtype) && is_member(elements, needle.value))
        },
    }
}

/// Returns whether the list holds the value; null where one of the two is null.
pub fn compute_contains_scalar(list: &Scalar, needle: &Scalar) -> (r: Scalar)
    requires
        list@.dtype is List,
        has_form(list@.value, list@.dtype),
        has_form(needle@.value, needle@.dtype),
    ensures
        r@ == (ScalarView {
            dtype: DTypeView::Bool(list@.dtype.nullability().union_spec(needle@.dtype.nullability())),
            value: match scalar_answer(list@, needle@) {
                None => None,
                Some(b) => Some(ValueView::Bool(b)),
            },
        }),
{
    let nullability = list.dtype.nullability().union(needle.dtype.nullability());
    if list.is_null() || needle.is_null() {
        return Scalar::null(DType::Bool(nullability));
    }
    let same: bool = match &list.dtype {
        DType::List(e, _) => e.eq_ignore_nullability(&needle.dtype),
        _ => false,
    };
    match &list.value {
        Some(Value::List(elements)) => {
            let found = same && holds(elements, &needle.value);
            assert(list_elements(list@.value)->Some_0 =~= values_view(elements@));
            Scalar::bool(found, nullability)
        },
        _ => vstd::pervasive::unreached(),
    }
}

/// Returns whether an element equals the value.
fn holds(elements: &Vec<Option<Value>>, needle: &Option<Value>) -> (r: bool)
    ensures
        r == values_view(elements@).contains(option_view(*needle)),
{
    let ghost view = values_view(elements@);
    let mut i: usize = 0;
    while i < elements.len()
        invariant
            0 <= i <= elements.len(),
            view == values_view(elements@),
            forall|j: int| 0 <= j < i ==> #[trigger] view[j] != option_view(*needle),
        decreases elements.len() - i,
    {
        if option_equals(&elements[i], needle) {
            assert(view[i as int] == option_view(*needle));
            return true;
        }
        i += 1;
    }
    false
}

/// Returns, for each needle, whether the list holds it, by one comparison per element.
pub fn equality_contains(elements: &Vec<Option<Value>>, values: &NeedleArray) -> (r: Vec<bool>)
    requires
        values.wf(),
    ensures
        r@ == Seq::new(
            values.rows(),
            |i: int| is_member(values_view(elements@), values.value_at(i)),
        ),
{
    let len: usize = values.len();
    let mut bits: Vec<bool> = Vec::new();
    let mut i: usize = 0;
    while i < len
        invariant
            0 <= i <= len,
            len == values.rows(),
            values.wf(),
            bits@.len() == i,
            forall|j: int|
                0 <= j < i ==> #[trigger] bits@[j] == is_member(
                    values_view(elements@),
                    values.value_at(j),
                ),
        decreases len - i,
    {
        let needle = values.get(i);
        bits.push(needle.is_some() && holds(elements, &needle));
        i += 1;
    }
    assert(bits@ =~= Seq::new(
        values.rows(),
        |i: int| is_member(values_view(elements@), values.value_at(i)),
    ));
    bits
}

/// Returns, for each needle, whether the list holds it. No answer is null.
pub fn constant_list_scalar_contains(
    elements: &Vec<Option<Value>>,
    values: &NeedleArray,
    nullability: Nullability,
) -> (r: BoolArray)
    requires
        values.wf(),
        elements_fit(values_view(elements@), values.dtype@),
        elements_fit(values.content(), values.dtype@),
    ensures
        r.nullability == nullability,
        r.values@ == Seq::new(
            values.rows(),
            |i: int| Some(is_member(values_view(elements@), values.value_at(i))),
        ),
{
    let bits = if elements.len() >= HASH_PROBE_MIN_ELEMENTS {
        match hash_probe_contains(elements, values) {
            Some(bits) => bits,
            None => equality_contains(elements, values),
        }
    } else {
        equality_contains(elements, values)
    };
    let mut answers: Vec<Option<bool>> = Vec::new();
    let mut i: usize = 0;
    while i < bits.len()
        invariant
            0 <= i <= bits.len(),
            answers@.len() == i,
            forall|j: int| 0 <= j < i ==> #[trigger] answers@[j] == Some(bits@[j]),
        decreases bits.len() - i,
    {
        answers.push(Some(bits[i]));
        i += 1;
    }
    assert(answers@ =~= Seq::new(
        values.rows(),
        |i: int| Some(is_member(values_view(elements@), values.value_at(i))),
    ));
    BoolArray { nullability, values: answers }
}

/// Whether the list at each row holds the value; null where the list is.
pub open spec fn list_answers(lists: ListViewArray, value: ValueView) -> Seq<Option<bool>> {
    Seq::new(
        lists.offsets@.len(),
        |i: int|
            match lists.list_at(i) {
                None => None,
                Some(elements) => Some(elements.contains(Some(value))),
            },
    )
}

/// Returns an answer per list, with a null where the list is null.
fn with_validity(bits: &Vec<bool>, lists: &ListViewArray) -> (r: Vec<Option<bool>>)
    requires
        lists.wf(),
        bits@.len() == lists.offsets@.len(),
    ensures
        r@ == Seq::new(
            lists.offsets@.len(),
            |i: int| if lists.validity.valid(i) { Some(bits@[i]) } else { None },
        ),
{
    let mut answers: Vec<Option<bool>> = Vec::new();
    let mut i: usize = 0;
    while i < bits.len()
        invariant
            0 <= i <= bits.len(),
            lists.wf(),
            bits@.len() == lists.offsets@.len(),
            answers@.len() == i,
            forall|j: int|
                0 <= j < i ==> #[trigger] answers@[j] == (if lists.validity.valid(j) {
                    Some(bits@[j])
                } else {
                    None
                }),
        decreases bits.len() - i,
    {
        if lists.validity.is_valid(i) {
            answers.push(Some(bits[i]));
        } else {
            answers.push(None);
        }
        i += 1;
    }
    answers
}

/// Returns `false` for each list that is valid, and null for one that is null.
pub fn list_false_or_null(lists: &ListViewArray, nullability: Nullability) -> (r: BoolArray)
    requires
        lists.wf(),
    ensures
        r.nullability == nullability,
        r.values@ == Seq::new(
            lists.offsets@.len(),
            |i: int| if lists.validity.valid(i) { Some(false) } else { None },
        ),
{
    let mut bits: Vec<bool> = Vec::new();
    let mut i: usize = 0;
    while i < lists.offsets.len()
        invariant
            0 <= i <= lists.offsets.len(),
            bits@.len() == i,
            forall|j: int| 0 <= j < i ==> !#[trigger] bits@[j],
        decreases lists.offsets.len() - i,
    {
        bits.push(false);
        i += 1;
    }
    let values = with_validity(&bits, lists);
    assert(values@ =~= Seq::new(
        lists.offsets@.len(),
        |i: int| if lists.validity.valid(i) { Some(false) } else { None },
    ));
    BoolArray { nullability, values }
}

/// Returns `true` for each list with an element, `false` for one without, and null for one that is
/// null.
pub fn list_is_not_empty(lists: &ListViewArray, nullability: Nullability) -> (r: BoolArray)
    requires
        lists.wf(),
    ensures
        r.nullability == nullability,
        r.values@ == Seq::new(
            lists.offsets@.len(),
            |i: int| if lists.validity.valid(i) { Some(lists.sizes@[i] != 0) } else { None },
        ),
{
    let mut bits: Vec<bool> = Vec::new();
    let mut i: usize = 0;
    while i < lists.sizes.len()
        invariant
            0 <= i <= lists.sizes.len(),
            bits@.len() == i,
            forall|j: int| 0 <= j < i ==> #[trigger] bits@[j] == (lists.sizes@[j] != 0),
        decreases lists.sizes.len() - i,
    {
        bits.push(lists.sizes[i] != 0);
        i += 1;
    }
    let values = with_validity(&bits, lists);
    assert(values@ =~= Seq::new(
        lists.offsets@.len(),
        |i: int| if lists.validity.valid(i) { Some(lists.sizes@[i] != 0) } else { None },
    ));
    BoolArray { nullability, values }
}

/// Returns, for each list, whether it holds the value; null where the list is.
pub fn list_contains_scalar(
    lists: &ListViewArray,
    value: &Value,
    nullability: Nullability,
) -> (r: BoolArray)
    requires
        lists.wf(),
    ensures
        r.nullability == nullability,
        r.values@ == list_answers(*lists, value@),
{
    let ghost view = values_view(lists.elements@);
    let mut matches: Vec<bool> = Vec::new();
    let mut any: bool = false;
    let mut all: bool = true;
    let mut i: usize = 0;
    while i < lists.elements.len()
        invariant
            0 <= i <= lists.elements.len(),
            view == values_view(lists.elements@),
            matches@.len() == i,
            forall|j: int| 0 <= j < i ==> #[trigger] matches@[j] == (view[j] == Some(value@)),
            !any ==> forall|j: int| 0 <= j < i ==> !#[trigger] matches@[j],
            all ==> forall|j: int| 0 <= j < i ==> #[trigger] matches@[j],
        decreases lists.elements.len() - i,
    {
        let same: bool = match &lists.elements[i] {
            Some(element) => element.equals(value),
            None => false,
        };
        matches.push(same);
        any = any || same;
        all = all && same;
        i += 1;
    }
    let r = if !any {
        list_false_or_null(lists, nullability)
    } else if all {
        list_is_not_empty(lists, nullability)
    } else {
        let bits = process_matches(&matches, &lists.offsets, &lists.sizes);
        BoolArray { nullability, values: with_validity(&bits, lists) }
    };
    proof {
        let expected = list_answers(*lists, value@);
        assert forall|k: int| 0 <= k < lists.offsets@.len() implies r.values@[k] == expected[k] by {
            let (o, s) = (lists.offsets@[k], lists.sizes@[k]);
            assert(o + s <= lists.elements@.len());
            if lists.validity.valid(k) {
                let sub = view.subrange(o as int, o + s);
                if sub.contains(Some(value@)) {
                    let j = choose|j: int| 0 <= j < sub.len() && sub[j] == Some(value@);
                    assert(matches@[o + j] == (view[o + j] == Some(value@)));
                    assert(matches@[o + j]);
                }
                assert forall|j: int| o <= j < o + s && #[trigger] matches@[j] implies sub.contains(
                    Some(value@),
                ) by {
                    assert(sub[j - o] == Some(value@));
                }
                if all && s > 0 {
                    assert(matches@[o as int]);
                }
                if any && !all {
                    let found = list_matches(matches@, lists.offsets@, lists.sizes@)[k];
                    assert(found == sub.contains(Some(value@)));
                }
            }
        }
        assert(r.values@ =~= expected);
    }
    r
}

/// Returns null in each of so many rows.
fn all_null(len: usize) -> (r: Vec<Option<bool>>)
    ensures
        r@ == Seq::new(len as nat, |i: int| None::<bool>),
{
    let mut values: Vec<Option<bool>> = Vec::new();
    let mut i: usize = 0;
    while i < len
        invariant
            0 <= i <= len,
            values@ =~= Seq::new(i as nat, |i: int| None::<bool>),
        decreases len - i,
    {
        values.push(None);
        i += 1;
    }
    values
}

/// Whether the arguments of a membership test are ones that it answers: with lists by row, the
/// needle is one constant, unless the test is refused or all is null.
pub open spec fn supported(list: ListInput, needles: Needles) -> bool {
    ||| list is Constant
    ||| needles is Constant
    ||| !comparable(list.dtype_spec(), needles.dtype_spec())
    ||| list.all_invalid_spec()
    ||| needles.all_invalid_spec()
}

proof fn lemma_same_base_fits(v: ValueView, e: DTypeView, dtype: DTypeView)
    requires
        has_form(Some(v), e),
        e.same_base(dtype),
    ensures
        fits(v, dtype),
{
    reveal_with_fuel(has_form, 2);
}

/// Returns the answers of a membership test whose arguments are not both constant.
pub fn compute_list_contains(list: &ListInput, value: &Needles) -> (r: Result<
    BoolArray,
    ListContainsError,
>)
    requires
        list.wf(),
        value.wf(),
        list.rows() == value.rows(),
        supported(*list, *value),
        !(list is Constant && value is Constant),
    ensures
        r is Ok <==> comparable(list.dtype_spec(), value.dtype_spec()),
        r matches Ok(array) ==> array.nullability == list.dtype_spec().nullability().union_spec(
            value.dtype_spec().nullability(),
        ) && array.values@ == answers(*list, *value),
        r matches Err(ListContainsError::NotAList(dtype)) ==> !(list.dtype_spec() is List) && dtype@
            == list.dtype_spec(),
        r matches Err(ListContainsError::ElementMismatch { element, value: v }) ==> list.dtype_spec()
            == DTypeView::List(Box::new(element@), list.dtype_spec().nullability()) && v@
            == value.dtype_spec(),
{
    let dtype = list.dtype();
    let nullability = dtype.nullability().union(value.dtype().nullability());
    let element: DType = match dtype {
        DType::List(element, _) => *element,
        other => {
            return Err(ListContainsError::NotAList(other));
        },
    };
    if !element.eq_ignore_nullability(value.dtype()) {
        return Err(
            ListContainsError::ElementMismatch { element, value: value.dtype().duplicate() },
        );
    }
    let len: usize = list.len();
    if value.all_invalid() || list.all_invalid() {
        let values = all_null(len);
        assert(values@ =~= answers(*list, *value));
        return Ok(BoolArray { nullability: Nullability::Nullable, values });
    }
    match (list, value) {
        (ListInput::Lists(lists), Needles::Constant(scalar, _)) => match &scalar.value {
            Some(needle) => {
                let r = list_contains_scalar(lists, needle, nullability);
                assert(r.values@ =~= answers(*list, *value));
                Ok(r)
            },
            None => vstd::pervasive::unreached(),
        },
        (ListInput::Constant(scalar, _), Needles::Array(needles)) => match &scalar.value {
            Some(Value::List(elements)) => {
                proof {
                    let view = values_view(elements@);
                    assert(list_elements(scalar@.value)->Some_0 =~= view);
                    assert forall|j: int|
                        0 <= j < view.len() && (#[trigger] view[j]) is Some implies fits(
                        view[j]->Some_0,
                        needles.dtype@,
                    ) by {
                        lemma_same_base_fits(view[j]->Some_0, element@, needles.dtype@);
                    }
                    lemma_needles_fit(*needles);
                }
                let r = constant_list_scalar_contains(elements, needles, nullability);
                assert(r.values@ =~= answers(*list, *value));
                Ok(r)
            },
            _ => vstd::pervasive::unreached(),
        },
        _ => vstd::pervasive::unreached(),
    }
}

/// The values of an array belong to its type.
pub proof fn lemma_needles_fit(needles: NeedleArray)
    requires
        needles.wf(),
    ensures
        elements_fit(needles.content(), needles.dtype@),
{
    reveal_with_fuel(has_form, 2);
    let content = needles.content();
    assert forall|j: int|
        0 <= j < content.len() && (#[trigger] content[j]) is Some implies fits(
        content[j]->Some_0,
        needles.dtype@,
    ) by {
        if let crate::list_contains::inputs::NeedleStorage::Values(values) = *needles.storage {
            assert(has_form(option_view(values@[j]), needles.dtype@));
        }
    }
}

/// The function that tells whether a list contains a value.
#[derive(Clone, Copy, Debug)]
pub struct ListContains;

impl ListContains {
    /// Returns the name of the function.
    pub fn id(&self) -> (r: &'static str)
        ensures
            r@ == "vortex.list.contains"@,
    {
        "vortex.list.contains"
    }

    /// Returns the options of the function as bytes: there are none.
    pub fn serialize(&self) -> (r: Vec<u8>)
        ensures
            r@ == Seq::<u8>::empty(),
    {
        Vec::new()
    }

    /// Returns the number of arguments.
    pub fn arity(&self) -> (r: usize)
        ensures
            r == 2,
    {
        2
    }

    /// Returns the name of an argument.
    pub fn child_name(&self, child_idx: usize) -> (r: &'static str)
        requires
            child_idx < 2,
        ensures
            r@ == (if child_idx == 0 { "list"@ } else { "needle"@ }),
    {
        if child_idx == 0 {
            "list"
        } else {
            "needle"
        }
    }

    /// Returns the type of the answers, which can be null if one of the arguments can.
    pub fn return_dtype(&self, arg_dtypes: &Vec<DType>) -> (r: Result<DType, ListContainsError>)
        requires
            arg_dtypes@.len() == 2,
        ensures
            r is Ok <==> arg_dtypes@[0]@ is List,
            r matches Ok(dtype) ==> dtype@ == DTypeView::Bool(
                arg_dtypes@[0]@.nullability().union_spec(arg_dtypes@[1]@.nullability()),
            ),
            r matches Err(e) ==> (e matches ListContainsError::NotAList(dtype) && dtype@
                == arg_dtypes@[0]@),
    {
        match &arg_dtypes[0] {
            DType::List(_, n) => Ok(DType::Bool(n.union(arg_dtypes[1].nullability()))),
            other => Err(ListContainsError::NotAList(other.duplicate())),
        }
    }

    /// Returns the answers of a membership test.
    pub fn execute(&self, list: &ListInput, needles: &Needles) -> (r: Result<
        BoolArray,
        ListContainsError,
    >)
        requires
            list.wf(),
            needles.wf(),
            list.rows() == needles.rows(),
            supported(*list, *needles),
            list is Constant && needles is Constant ==> list.dtype_spec() is List,
        ensures
            r is Ok <==> comparable(list.dtype_spec(), needles.dtype_spec()) || (list is Constant
                && needles is Constant),
            r matches Ok(array) ==> array.nullability == list.dtype_spec().nullability().union_spec(
                needles.dtype_spec().nullability(),
            ) && array.values@ == answers(*list, *needles),
            r matches Err(ListContainsError::NotAList(dtype)) ==> !(list.dtype_spec() is List)
                && dtype@ == list.dtype_spec(),
            r matches Err(ListContainsError::ElementMismatch { element, value }) ==> list.dtype_spec()
                == DTypeView::List(Box::new(element@), list.dtype_spec().nullability()) && value@
                == needles.dtype_spec(),
    {
        match (list, needles) {
            (ListInput::Constant(l, len), Needles::Constant(n, _)) => {
                let one = compute_contains_scalar(l, n);
                let answer: Option<bool> = match &one.value {
                    Some(Value::Bool(b)) => Some(*b),
                    _ => None,
                };
                let mut values: Vec<Option<bool>> = Vec::new();
                let mut i: usize = 0;
                while i < *len
                    invariant
                        0 <= i <= *len,
                        values@ =~= Seq::new(i as nat, |i: int| answer),
                    decreases *len - i,
                {
                    values.push(answer);
                    i += 1;
                }
                assert(values@ =~= answers(*list, *needles));
                Ok(
                    BoolArray {
                        nullability: l.dtype.nullability().union(n.dtype.nullability()),
                        values,
                    },
                )
            },
            _ => compute_list_contains(list, needles),
        }
    }

    /// Returns whether the nullness of the arguments matters: an empty list does not contain null.
    pub fn is_null_sensitive(&self) -> (r: bool)
        ensures
            r,
    {
        true
    }

    /// Returns whether the function can fail on arguments of the right types.
    pub fn is_fallible(&self) -> (r: bool)
        ensures
            !r,
    {
        false
    }
}

/// Whether the list in a row has an element that is the value.
pub open spec fn has_element(list: ListInput, i: int, value: ValueView) -> bool {
    match list {
        ListInput::Constant(scalar, _) => scalar@.value matches Some(ValueView::List(elements))
            && exists|j: int| 0 <= j < elements.len() && elements[j] == Some(value),
        ListInput::Lists(lists) => exists|j: int|
            lists.offsets@[i] <= j < lists.offsets@[i] + lists.sizes@[i] && option_view(
                #[trigger] lists.elements@[j],
            ) == Some(value),
    }
}

/// Whether the list in a row is null.
pub open spec fn list_is_null(list: ListInput, i: int) -> bool {
    match list {
        ListInput::Constant(scalar, _) => scalar@.value is None,
        ListInput::Lists(lists) => !lists.validity.valid(i),
    }
}

/// The answer in a row is true exactly if the list is not null, the needle is not null, and an
/// element of the list is the needle; it is null where the list is, and in all rows where each
/// needle is; and it is false in all other rows.
pub proof fn law_what_an_answer_says(list: ListInput, needles: Needles, i: int)
    requires
        list.wf(),
        needles.wf(),
        list.rows() == needles.rows(),
        0 <= i < list.rows(),
        comparable(list.dtype_spec(), needles.dtype_spec()),
    ensures
        ({
            let answer = answers(list, needles)[i];
            &&& answer == Some(true) <==> !list_is_null(list, i) && (needles.value_at(i) matches Some(
                value,
            ) && has_element(list, i, value))
            &&& answer is None <==> list_is_null(list, i) || needles.all_invalid_spec()
            &&& answers(list, needles).len() == list.rows()
        }),
{
    match list {
        ListInput::Constant(scalar, _) => {
            if let Some(v) = scalar@.value {
                assert(v is List);
                if let Some(value) = needles.value_at(i) {
                    let elements = v->List_0;
                    if elements.contains(Some(value)) {
                        let j = choose|j: int| 0 <= j < elements.len() && elements[j] == Some(value);
                        assert(elements[j] == Some(value));
                    }
                    if has_element(list, i, value) {
                        assert(elements.contains(Some(value)));
                    }
                }
            }
        },
        ListInput::Lists(lists) => {
            if lists.validity.valid(i) {
                let (o, s) = (lists.offsets@[i] as int, lists.sizes@[i] as int);
                assert(o + s <= lists.elements@.len());
                let part = values_view(lists.elements@).subrange(o, o + s);
                if let Some(value) = needles.value_at(i) {
                    if part.contains(Some(value)) {
                        let j = choose|j: int| 0 <= j < part.len() && part[j] == Some(value);
                        assert(option_view(lists.elements@[o + j]) == Some(value));
                    }
                    if has_element(list, i, value) {
                        let j = choose|j: int|
                            o <= j < o + s && option_view(#[trigger] lists.elements@[j]) == Some(
                                value,
                            );
                        assert(part[j - o] == Some(value));
                    }
                }
            }
        },
    }
    if needles.value_at(i) is Some {
        assert(!needles.all_invalid_spec()) by {
            if let Needles::Array(array) = needles {
                assert(array.valid(i));
            }
        }
    }
}

/// A list and a value that are the same in each row are answered as the one list and the one value
/// are.
pub proof fn law_one_row_is_answered_as_one_value(list: Scalar, needle: Scalar, len: usize, i: int)
    requires
        list@.dtype is List,
        has_form(list@.value, list@.dtype),
        has_form(needle@.value, needle@.dtype),
        0 <= i < len,
    ensures
        answers(ListInput::Constant(list, len), Needles::Constant(needle, len))[i] == scalar_answer(
            list@,
            needle@,
        ),
{
}

/// Lists that are looked through for one value are answered as they are with that value in each row.
pub proof fn law_lists_are_answered_for_one_value(lists: ListViewArray, needle: Scalar, i: int)
    requires
        lists.wf(),
        0 <= i < lists.offsets@.len(),
        needle@.value is Some,
        comparable(ListInput::Lists(lists).dtype_spec(), needle@.dtype),
    ensures
        answers(
            ListInput::Lists(lists),
            Needles::Constant(needle, lists.offsets.len()),
        )[i] == list_answers(lists, needle@.value->Some_0)[i],
{
}

/// A list of elements is compared with values of their type, whether these have a null or not, and
/// nothing else is.
pub proof fn law_what_is_comparable(list: DTypeView, needle: DTypeView, n: Nullability)
    ensures
        comparable(list, needle) <==> (list matches DTypeView::List(e, _) && e.same_base(needle)),
        comparable(list, needle.with_nullability(n)) == comparable(list, needle),
{
    law_nullability_is_all_that_changes(needle, n);
}

} // verus!
