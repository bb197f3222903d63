//! Membership answered by a set that is built from the list once.

use crate::arrays::array::values_view;
use crate::dtype::{DType, DTypeView, PType};
use crate::list_contains::byte_set::ByteSet;
use crate::list_contains::inputs::NeedleArray;
use crate::list_contains::probe::probe_rows;
use crate::scalar::{option_view, PValue, Value, ValueView};
use std::collections::HashSet;
use vstd::prelude::*;

verus! {

/// Whether a list holds a value. A null is no value, and no list holds it.
pub open spec fn is_member(elements: Seq<Option<ValueView>>, needle: Option<ValueView>) -> bool {
    needle is Some && elements.contains(needle)
}

/// Whether a value is of the kind that a type of primitives or of bytes has.
pub open spec fn fits(v: ValueView, dtype: DTypeView) -> bool {
    match dtype {
        DTypeView::Primitive(p, _) => v is Primitive && v->Primitive_0.ptype_spec() == p,
        DTypeView::Utf8(_) => v is Utf8,
        DTypeView::Binary(_) => v is Binary,
        _ => true,
    }
}

/// Whether the elements that are not null are of the kind of the type.
pub open spec fn elements_fit(elements: Seq<Option<ValueView>>, dtype: DTypeView) -> bool {
    forall|j: int|
        0 <= j < elements.len() && (#[trigger] elements[j]) is Some ==> fits(
            elements[j]->Some_0,
            dtype,
        )
}

/// Whether a set answers membership: the needles are primitives or bytes, and no element is null.
pub open spec fn probe_covers(elements: Seq<Option<ValueView>>, dtype: DTypeView) -> bool {
    &&& dtype is Primitive || dtype is Utf8 || dtype is Binary
    &&& forall|j: int| 0 <= j < elements.len() ==> (#[trigger] elements[j]) is Some
}

/// Whether each element is a primitive value of the type.
pub open spec fn all_of_ptype(elements: Seq<Option<ValueView>>, ptype: PType) -> bool {
    forall|j: int|
        0 <= j < elements.len() ==> (#[trigger] elements[j]) is Some && elements[j]->Some_0 is Primitive
            && elements[j]->Some_0->Primitive_0.ptype_spec() == ptype
}

proof fn lemma_place_tells_values_apart(a: PValue, b: PValue)
    requires
        a.ptype_spec() == b.ptype_spec(),
        a.place() == b.place(),
    ensures
        a == b,
{
}

/// The keys of a list: the places of its values among those of their type.
pub open spec fn keys(elements: Seq<Option<ValueView>>) -> Set<i128> {
    Set::new(
        |k: i128|
            exists|j: int|
                0 <= j < elements.len() && (#[trigger] elements[j])->Some_0->Primitive_0.place()
                    == k,
    )
}

/// Returns the keys of a list, if each element is a primitive value of the type.
///
/// The key of a value is its place among those of its type, by which a float is told from another
/// one by its bits: a NaN is itself, and the two zeros are two values.
pub fn primitive_key_set(elements: &Vec<Option<Value>>, ptype: PType) -> (r: Option<HashSet<i128>>)
    ensures
        r is Some <==> all_of_ptype(values_view(elements@), ptype),
        r matches Some(set) ==> set@ == keys(values_view(elements@)),
{
    broadcast use vstd::std_specs::hash::group_hash_axioms;

    let mut set: HashSet<i128> = HashSet::new();
    let ghost view = values_view(elements@);
    let mut i: usize = 0;
    assert(set@ =~= keys(view.take(0)));
    while i < elements.len()
        invariant
            0 <= i <= elements.len(),
            view == values_view(elements@),
            all_of_ptype(view.take(i as int), ptype),
            set@ =~= keys(view.take(i as int)),
        decreases elements.len() - i,
    {
        broadcast use vstd::std_specs::hash::group_hash_axioms;

        assert(view[i as int] == option_view(elements@[i as int]));
        let p: PValue = match &elements[i] {
            Some(Value::Primitive(p)) => *p,
            _ => {
                return None;
            },
        };
        if p.ptype() != ptype {
            return None;
        }
        let ghost before = set@;
        set.insert(p.rank());
        proof {
            let (now, next) = (view.take(i as int), view.take(i + 1));
            assert(forall|j: int| 0 <= j < i ==> #[trigger] next[j] == now[j]);
            assert(next[i as int] == view[i as int]);
            assert forall|k: i128| set@.contains(k) == keys(next).contains(k) by {
                if keys(now).contains(k) {
                    let j = choose|j: int|
                        0 <= j < now.len() && (#[trigger] now[j])->Some_0->Primitive_0.place() == k;
                    assert(next[j]->Some_0->Primitive_0.place() == k);
                }
                if k == p.place() {
                    assert(next[i as int]->Some_0->Primitive_0.place() == k);
                }
                if keys(next).contains(k) {
                    let j = choose|j: int|
                        0 <= j < next.len() && (#[trigger] next[j])->Some_0->Primitive_0.place()
                            == k;
                    if j < i {
                        assert(now[j]->Some_0->Primitive_0.place() == k);
                    }
                }
            }
        }
        i += 1;
    }
    assert(view.take(i as int) =~= view);
    Some(set)
}

/// A set of keys holds the key of a value exactly when the list holds the value.
pub proof fn law_key_means_member(
    elements: Seq<Option<ValueView>>,
    ptype: PType,
    p: PValue,
    k: i128,
)
    requires
        all_of_ptype(elements, ptype),
        p.ptype_spec() == ptype,
        k == p.place(),
    ensures
        keys(elements).contains(k) == is_member(elements, Some(ValueView::Primitive(p))),
{
    let needle = Some(ValueView::Primitive(p));
    if keys(elements).contains(k) {
        let j = choose|j: int|
            0 <= j < elements.len() && (#[trigger] elements[j])->Some_0->Primitive_0.place() == k;
        lemma_place_tells_values_apart(elements[j]->Some_0->Primitive_0, p);
        assert(elements[j] == needle);
    }
    if elements.contains(needle) {
        let j = choose|j: int| 0 <= j < elements.len() && elements[j] == needle;
        assert(elements[j]->Some_0->Primitive_0.place() == k);
    }
}

/// The bytes of a string or of a byte string.
pub open spec fn bytes_of(v: ValueView) -> Seq<u8> {
    match v {
        ValueView::Utf8(bytes) => bytes,
        ValueView::Binary(bytes) => bytes,
        _ => Seq::empty(),
    }
}

/// Returns, for each needle of bytes, whether the list holds it; or nothing, if an element is null.
///
/// The set holds the bytes of the elements, and the needles are read where they lie.
pub fn bytes_probe_contains(elements: &Vec<Option<Value>>, values: &NeedleArray) -> (r: Option<
    Vec<bool>,
>)
    requires
        values.wf(),
        values.dtype@ is Utf8 || values.dtype@ is Binary,
        elements_fit(values_view(elements@), values.dtype@),
        elements_fit(values.content(), values.dtype@),
    ensures
        r is Some <==> probe_covers(values_view(elements@), values.dtype@),
        r matches Some(bits) ==> bits@ == Seq::new(
            values.rows(),
            |i: int| is_member(values_view(elements@), values.value_at(i)),
        ),
{
    let ghost view = values_view(elements@);
    let mut set = ByteSet::new();
    let mut i: usize = 0;
    while i < elements.len()
        invariant
            0 <= i <= elements.len(),
            view == values_view(elements@),
            values.dtype@ is Utf8 || values.dtype@ is Binary,
            elements_fit(view, values.dtype@),
            set.wf(),
            set.keys_view().len() == i,
            forall|j: int|
                #![trigger view[j]]
                0 <= j < i ==> view[j] is Some && set.keys_view()[j] == bytes_of(view[j]->Some_0),
        decreases elements.len() - i,
    {
        assert(view[i as int] == option_view(elements@[i as int]));
        let bytes: &Vec<u8> = match &elements[i] {
            Some(Value::Utf8(bytes)) => bytes,
            Some(Value::Binary(bytes)) => bytes,
            _ => {
                return None;
            },
        };
        set.insert(bytes);
        i += 1;
    }
    let len: usize = values.len();
    let validity = values.mask();
    let hit = |idx: usize| -> (h: bool)
        requires
            idx < len,
            values.valid(idx as int),
            values.wf(),
            len == values.rows(),
            set.wf(),
            values.stored(idx as int) is Utf8 || values.stored(idx as int) is Binary,
        ensures
            h == set.holds(bytes_of(values.stored(idx as int))),
        { set.contains(values.bytes_at(idx)) };
    proof {
        assert forall|i: usize| i < len && validity.value(i as int) implies #[trigger] hit.requires(
            (i,),
        ) by {
            assert(validity.value(i as int) == values.valid(i as int));
            assert(values.content()[i as int] is Some);
        }
    }
    let bits = probe_rows(len, &validity, hit);
    proof {
        let expected = Seq::new(values.rows(), |i: int| is_member(view, values.value_at(i)));
        assert forall|k: int| 0 <= k < len implies bits@[k] == expected[k] by {
            let row = k as usize;
            assert(validity.value(k) == values.valid(k));
            assert(bits@[row as int] == bits@[k]);
            if values.valid(k) {
                assert(values.content()[k] is Some);
                let stored = values.stored(k);
                if set.holds(bytes_of(stored)) {
                    let j = choose|j: int|
                        0 <= j < set.keys_view().len() && set.keys_view()[j] == bytes_of(stored);
                    assert(view[j] == Some(stored));
                }
                if view.contains(Some(stored)) {
                    let j = choose|j: int| 0 <= j < view.len() && view[j] == Some(stored);
                    assert(set.keys_view()[j] == bytes_of(stored));
                }
            }
        }
        assert(bits@ =~= expected);
    }
    Some(bits)
}

/// Returns, for each needle, whether the list holds it; or nothing, if a set does not answer that.
///
/// A null needle is not in the list, so no answer is null.
pub fn hash_probe_contains(elements: &Vec<Option<Value>>, values: &NeedleArray) -> (r: Option<
    Vec<bool>,
>)
    requires
        values.wf(),
        elements_fit(values_view(elements@), values.dtype@),
        elements_fit(values.content(), values.dtype@),
    ensures
        r is Some <==> probe_covers(values_view(elements@), values.dtype@),
        r matches Some(bits) ==> bits@ == Seq::new(
            values.rows(),
            |i: int| is_member(values_view(elements@), values.value_at(i)),
        ),
{
    broadcast use vstd::std_specs::hash::group_hash_axioms;

    let ghost view = values_view(elements@);
    let ptype: PType = match &values.dtype {
        DType::Primitive(ptype, _) => *ptype,
        DType::Utf8(_) => {
            return bytes_probe_contains(elements, values);
        },
        DType::Binary(_) => {
            return bytes_probe_contains(elements, values);
        },
        _ => {
            return None;
        },
    };
    let set = match primitive_key_set(elements, ptype) {
        Some(set) => set,
        None => {
            return None;
        },
    };
    let len: usize = values.len();
    let validity = values.mask();
    let hit = |idx: usize| -> (h: bool)
        requires
            idx < len,
            values.valid(idx as int),
            values.wf(),
            len == values.rows(),
            values.stored(idx as int) is Primitive,
            set@ == keys(values_view(elements@)),
            all_of_ptype(values_view(elements@), ptype),
            values.stored(idx as int)->Primitive_0.ptype_spec() == ptype,
        ensures
            h == is_member(values_view(elements@), Some(values.stored(idx as int))),
        {
            broadcast use vstd::std_specs::hash::group_hash_axioms;

            let p: PValue = values.primitive_at(idx);
            let k: i128 = p.rank();
            proof {
                law_key_means_member(values_view(elements@), ptype, p, k);
            }
            set.contains(&k)
        };
    proof {
        assert forall|i: usize| i < len && validity.value(i as int) implies #[trigger] hit.requires(
            (i,),
        ) by {
            assert(validity.value(i as int) == values.valid(i as int));
            assert(values.content()[i as int] is Some);
        }
    }
    let bits = probe_rows(len, &validity, hit);
    proof {
        let expected = Seq::new(values.rows(), |i: int| is_member(view, values.value_at(i)));
        assert forall|k: int| 0 <= k < len implies bits@[k] == expected[k] by {
            let row = k as usize;
            assert(validity.value(k) == values.valid(k));
            assert(bits@[row as int] == bits@[k]);
        }
        assert(bits@ =~= expected);
    }
    Some(bits)
}

/// A list holds the values that its parts hold: one element holds itself, two lists together what
/// each holds, and no list holds a null.
pub proof fn law_what_a_list_holds(
    a: Seq<Option<ValueView>>,
    b: Seq<Option<ValueView>>,
    element: Option<ValueView>,
    needle: Option<ValueView>,
)
    ensures
        !is_member(a, None),
        !is_member(Seq::empty(), needle),
        is_member(seq![element], needle) <==> needle is Some && element == needle,
        is_member(a + b, needle) <==> is_member(a, needle) || is_member(b, needle),
{
    let one = seq![element];
    if element == needle {
        assert(one[0] == needle);
    }
    if a.contains(needle) {
        let j = choose|j: int| 0 <= j < a.len() && a[j] == needle;
        assert((a + b)[j] == needle);
    }
    if b.contains(needle) {
        let j = choose|j: int| 0 <= j < b.len() && b[j] == needle;
        assert((a + b)[a.len() + j] == needle);
    }
}

/// A set answers exactly for primitive values, texts and byte strings, and only where no element is
/// null.
pub proof fn law_when_a_set_answers(elements: Seq<Option<ValueView>>, dtype: DTypeView)
    ensures
        probe_covers(elements, dtype) <==> !elements.contains(None) && match dtype {
            DTypeView::Primitive(..) => true,
            DTypeView::Utf8(_) => true,
            DTypeView::Binary(_) => true,
            _ => false,
        },
{
    if !elements.contains(None) {
        assert forall|j: int| 0 <= j < elements.len() implies (#[trigger] elements[j]) is Some by {
            assert(elements.contains(elements[j]));
        }
    }
}

} // verus!
