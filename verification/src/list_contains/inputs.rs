//! The lists and the needles of a membership test, and its answers.

use crate::arrays::array::values_view;
use crate::arrays::validity::Validity;
use crate::arrays::views_side::{BinaryView, ViewsSide};
use crate::dtype::{DType, DTypeView, ExtDTypeView, ExtKindView, Nullability};
use crate::list_contains::probe::Mask;
use crate::scalar::{has_form, option_duplicate, option_view, PValue, Scalar, Value, ValueView};
use std::sync::Arc;
use vstd::prelude::*;
use vstd::slice::*;

verus! {

/// Lists that lie anywhere, also one over another, in an array of elements.
#[derive(Debug)]
pub struct ListViewArray {
    pub element_dtype: DType,
    pub elements: Vec<Option<Value>>,
    pub offsets: Vec<usize>,
    pub sizes: Vec<usize>,
    pub validity: Validity,
}

impl ListViewArray {
    /// Whether each list lies inside the elements. There is room in `usize` for one word of bits
    /// past the elements.
    pub open spec fn wf(self) -> bool {
        &&& self.offsets@.len() == self.sizes@.len()
        &&& self.validity.wf(self.offsets@.len())
        &&& self.elements@.len() + 64 <= usize::MAX
        &&& forall|i: int|
            0 <= i < self.offsets@.len() ==> (#[trigger] self.offsets@[i]) + self.sizes@[i]
                <= self.elements@.len()
        &&& forall|i: int|
            0 <= i < self.elements@.len() ==> has_form(
                option_view(#[trigger] self.elements@[i]),
                self.element_dtype@,
            )
    }

    /// The elements of the list at `i`, or null.
    pub open spec fn list_at(self, i: int) -> Option<Seq<Option<ValueView>>> {
        if self.validity.valid(i) {
            Some(
                values_view(self.elements@).subrange(
                    self.offsets@[i] as int,
                    self.offsets@[i] + self.sizes@[i],
                ),
            )
        } else {
            None
        }
    }
}

/// The lists of a membership test: the same one in each row, or one by row.
#[derive(Debug)]
pub enum ListInput {
    Constant(Scalar, usize),
    Lists(ListViewArray),
}

/// The elements of a list, or null.
pub open spec fn list_elements(value: Option<ValueView>) -> Option<Seq<Option<ValueView>>> {
    match value {
        Some(ValueView::List(elements)) => Some(elements),
        _ => None,
    }
}

impl ListInput {
    /// Whether the values belong to their types.
    pub open spec fn wf(self) -> bool {
        match self {
            ListInput::Constant(list, _) => has_form(list@.value, list@.dtype),
            ListInput::Lists(lists) => lists.wf(),
        }
    }

    /// The type of the lists.
    pub open spec fn dtype_spec(self) -> DTypeView {
        match self {
            ListInput::Constant(list, _) => list@.dtype,
            ListInput::Lists(lists) => DTypeView::List(
                Box::new(lists.element_dtype@),
                lists.validity.nullability_spec(),
            ),
        }
    }

    /// The number of rows.
    pub open spec fn rows(self) -> nat {
        match self {
            ListInput::Constant(_, len) => len as nat,
            ListInput::Lists(lists) => lists.offsets@.len(),
        }
    }

    /// The list at `i`, or null.
    pub open spec fn list_at(self, i: int) -> Option<Seq<Option<ValueView>>> {
        match self {
            ListInput::Constant(list, _) => list_elements(list@.value),
            ListInput::Lists(lists) => lists.list_at(i),
        }
    }

    /// Whether the lists can be null, and all are.
    pub open spec fn all_invalid_spec(self) -> bool {
        &&& self.dtype_spec().is_nullable()
        &&& match self {
            ListInput::Constant(list, _) => list@.value is None,
            ListInput::Lists(lists) => forall|i: int|
                0 <= i < lists.offsets@.len() ==> !#[trigger] lists.validity.valid(i),
        }
    }

    /// Returns the type of the lists.
    pub fn dtype(&self) -> (r: DType)
        ensures
            r@ == self.dtype_spec(),
    {
        match self {
            ListInput::Constant(list, _) => list.dtype.duplicate(),
            ListInput::Lists(lists) => DType::List(
                Box::new(lists.element_dtype.duplicate()),
                lists.validity.nullability(),
            ),
        }
    }

    /// Returns the number of rows.
    pub fn len(&self) -> (r: usize)
        ensures
            r == self.rows(),
    {
        match self {
            ListInput::Constant(_, len) => *len,
            ListInput::Lists(lists) => lists.offsets.len(),
        }
    }

    /// Returns whether the lists can be null, and all are.
    pub fn all_invalid(&self) -> (r: bool)
        requires
            self.wf(),
        ensures
            r == self.all_invalid_spec(),
    {
        match self {
            ListInput::Constant(list, _) => list.dtype.is_nullable() && list.is_null(),
            ListInput::Lists(lists) => match lists.validity.nullability() {
                Nullability::NonNullable => false,
                Nullability::Nullable => all_false(&lists.validity, lists.offsets.len()),
            },
        }
    }
}

/// Returns whether none of the values is valid.
fn all_false(validity: &Validity, len: usize) -> (r: bool)
    requires
        validity.wf(len as nat),
    ensures
        r == (forall|i: int| 0 <= i < len ==> !#[trigger] validity.valid(i)),
{
    let mut i: usize = 0;
    while i < len
        invariant
            0 <= i <= len,
            validity.wf(len as nat),
            forall|j: int| 0 <= j < i ==> !#[trigger] validity.valid(j),
        decreases len - i,
    {
        if validity.is_valid(i) {
            assert(validity.valid(i as int));
            return false;
        }
        i += 1;
    }
    true
}

/// Returns which of the values are valid.
fn validity_mask(validity: &Validity, len: usize) -> (r: Mask)
    requires
        validity.wf(len as nat),
    ensures
        r.len_spec() == len,
        forall|i: int| 0 <= i < len ==> #[trigger] r.value(i) == validity.valid(i),
{
    match validity {
        Validity::NonNullable => Mask::AllTrue(len),
        Validity::AllValid => Mask::AllTrue(len),
        Validity::AllInvalid => Mask::AllFalse(len),
        Validity::Array(valid) => {
            let mut bits: Vec<bool> = Vec::new();
            let mut i: usize = 0;
            while i < len
                invariant
                    0 <= i <= len,
                    len == valid@.len(),
                    bits@ =~= valid@.take(i as int),
                decreases len - i,
            {
                bits.push(valid[i]);
                i += 1;
            }
            Mask::Values(bits)
        },
    }
}

/// The type that an extension type is stored as, and any other type itself.
pub open spec fn stored_as(dtype: DTypeView) -> DTypeView
    decreases dtype,
{
    match dtype {
        DTypeView::Extension(ext) => stored_as(*ext.storage),
        _ => dtype,
    }
}

/// Bytes as a value of a type.
pub open spec fn text_value(dtype: DTypeView, bytes: Seq<u8>) -> ValueView {
    if stored_as(dtype) is Binary {
        ValueView::Binary(bytes)
    } else {
        ValueView::Utf8(bytes)
    }
}

fn is_stored_as_binary(dtype: &DType) -> (r: bool)
    ensures
        r == (stored_as(dtype@) is Binary),
    decreases dtype,
{
    match dtype {
        DType::Extension(ext) => is_stored_as_binary(&ext.storage),
        DType::Binary(_) => true,
        _ => false,
    }
}

/// How the values of an array lie in memory.
#[derive(Debug)]
pub enum NeedleStorage {
    /// One primitive value per row, also where the row is null.
    Primitive(Vec<PValue>, Validity),
    /// The bytes of all rows one after the other, with one offset per row and a final end.
    VarBin { offsets: Vec<usize>, bytes: Vec<u8>, validity: Validity },
    /// One view per row.
    Views { views: Vec<BinaryView>, buffers: Vec<Vec<u8>>, validity: Validity },
    /// One value, or null, per row.
    Values(Vec<Option<Value>>),
}

/// An array of values to look for.
#[derive(Debug)]
pub struct NeedleArray {
    pub dtype: DType,
    pub storage: Arc<NeedleStorage>,
}

impl NeedleArray {
    /// The number of rows.
    pub open spec fn rows(&self) -> nat {
        match *self.storage {
            NeedleStorage::Primitive(values, _) => values@.len(),
            NeedleStorage::VarBin { offsets, .. } => (offsets@.len() - 1) as nat,
            NeedleStorage::Views { views, .. } => views@.len(),
            NeedleStorage::Values(values) => values@.len(),
        }
    }

    /// Whether the row at `i` is not null.
    pub open spec fn valid(&self, i: int) -> bool {
        match *self.storage {
            NeedleStorage::Primitive(_, validity) => validity.valid(i),
            NeedleStorage::VarBin { validity, .. } => validity.valid(i),
            NeedleStorage::Views { validity, .. } => validity.valid(i),
            NeedleStorage::Values(values) => values@[i] is Some,
        }
    }

    /// What lies at the row at `i`, also where the row is null.
    pub open spec fn stored(&self, i: int) -> ValueView {
        match *self.storage {
            NeedleStorage::Primitive(values, _) => ValueView::Primitive(values@[i]),
            NeedleStorage::VarBin { offsets, bytes, .. } => text_value(
                self.dtype@,
                bytes@.subrange(offsets@[i] as int, offsets@[i + 1] as int),
            ),
            NeedleStorage::Views { views, buffers, .. } => text_value(
                self.dtype@,
                views@[i].bytes(buffers@),
            ),
            NeedleStorage::Values(values) => values@[i]->Some_0@,
        }
    }

    /// The value at `i`, or null.
    pub open spec fn value_at(&self, i: int) -> Option<ValueView> {
        if self.valid(i) {
            Some(self.stored(i))
        } else {
            None
        }
    }

    /// The values of the array.
    pub open spec fn content(&self) -> Seq<Option<ValueView>> {
        Seq::new(self.rows(), |i: int| self.value_at(i))
    }

    /// Whether the storage is sound and fits the type.
    pub open spec fn wf(&self) -> bool {
        match *self.storage {
            NeedleStorage::Primitive(values, validity) => {
                &&& stored_as(self.dtype@) is Primitive
                &&& validity.wf(values@.len())
                &&& validity.nullability_spec() == self.dtype@.nullability()
                &&& forall|i: int|
                    0 <= i < values@.len() ==> (#[trigger] values@[i]).ptype_spec() == stored_as(
                        self.dtype@,
                    )->Primitive_0
            },
            NeedleStorage::VarBin { offsets, bytes, validity } => {
                &&& stored_as(self.dtype@) is Utf8 || stored_as(self.dtype@) is Binary
                &&& offsets@.len() >= 1
                &&& validity.wf((offsets@.len() - 1) as nat)
                &&& validity.nullability_spec() == self.dtype@.nullability()
                &&& forall|i: int|
                    #![trigger offsets@[i]]
                    0 <= i < offsets@.len() - 1 ==> offsets@[i] <= offsets@[i + 1] <= bytes@.len()
            },
            NeedleStorage::Views { views, buffers, validity } => {
                &&& stored_as(self.dtype@) is Utf8 || stored_as(self.dtype@) is Binary
                &&& validity.wf(views@.len())
                &&& validity.nullability_spec() == self.dtype@.nullability()
                &&& forall|i: int| 0 <= i < views@.len() ==> (#[trigger] views@[i]).wf(buffers@)
            },
            NeedleStorage::Values(values) => forall|i: int|
                0 <= i < values@.len() ==> has_form(
                    option_view(#[trigger] values@[i]),
                    self.dtype@,
                ),
        }
    }

    /// Returns the number of rows.
    pub fn len(&self) -> (r: usize)
        requires
            self.wf(),
        ensures
            r == self.rows(),
    {
        match &*self.storage {
            NeedleStorage::Primitive(values, _) => values.len(),
            NeedleStorage::VarBin { offsets, .. } => offsets.len() - 1,
            NeedleStorage::Views { views, .. } => views.len(),
            NeedleStorage::Values(values) => values.len(),
        }
    }

    /// Returns whether the row at `i` is not null.
    pub fn is_valid(&self, i: usize) -> (r: bool)
        requires
            self.wf(),
            i < self.rows(),
        ensures
            r == self.valid(i as int),
    {
        match &*self.storage {
            NeedleStorage::Primitive(_, validity) => validity.is_valid(i),
            NeedleStorage::VarBin { validity, .. } => validity.is_valid(i),
            NeedleStorage::Views { validity, .. } => validity.is_valid(i),
            NeedleStorage::Values(values) => values[i].is_some(),
        }
    }

    /// Returns which rows are not null.
    pub fn mask(&self) -> (r: Mask)
        requires
            self.wf(),
        ensures
            r.len_spec() == self.rows(),
            forall|i: int| 0 <= i < self.rows() ==> #[trigger] r.value(i) == self.valid(i),
    {
        let len: usize = self.len();
        match &*self.storage {
            NeedleStorage::Primitive(_, validity) => validity_mask(validity, len),
            NeedleStorage::VarBin { validity, .. } => validity_mask(validity, len),
            NeedleStorage::Views { validity, .. } => validity_mask(validity, len),
            NeedleStorage::Values(values) => {
                let mut bits: Vec<bool> = Vec::new();
                let mut i: usize = 0;
                while i < len
                    invariant
                        0 <= i <= len,
                        len == values@.len(),
                        bits@.len() == i,
                        forall|j: int| 0 <= j < i ==> #[trigger] bits@[j] == (values@[j] is Some),
                    decreases len - i,
                {
                    bits.push(values[i].is_some());
                    i += 1;
                }
                Mask::Values(bits)
            },
        }
    }

    /// Returns the primitive value at `i`.
    pub fn primitive_at(&self, i: usize) -> (r: PValue)
        requires
            self.wf(),
            i < self.rows(),
            self.valid(i as int),
            self.stored(i as int) is Primitive,
        ensures
            ValueView::Primitive(r) == self.stored(i as int),
    {
        match &*self.storage {
            NeedleStorage::Primitive(values, _) => values[i],
            NeedleStorage::Values(values) => match &values[i] {
                Some(Value::Primitive(p)) => *p,
                _ => vstd::pervasive::unreached(),
            },
            _ => vstd::pervasive::unreached(),
        }
    }

    /// Returns the bytes of the string, or byte string, at `i`.
    pub fn bytes_at(&self, i: usize) -> (r: &[u8])
        requires
            self.wf(),
            i < self.rows(),
            self.valid(i as int),
            self.stored(i as int) is Utf8 || self.stored(i as int) is Binary,
        ensures
            self.stored(i as int) == (if self.stored(i as int) is Binary {
                ValueView::Binary(r@)
            } else {
                ValueView::Utf8(r@)
            }),
    {
        match &*self.storage {
            NeedleStorage::VarBin { offsets, bytes, .. } => {
                assert(offsets@[i as int] <= offsets@[i + 1] <= bytes@.len());
                assert(i + 1 < offsets.len());
                slice_subrange(bytes.as_slice(), offsets[i], offsets[i + 1])
            },
            NeedleStorage::Views { views, buffers, .. } => {
                let side = ViewsSide::new(views, buffers);
                side.view_bytes(side.view_unchecked(i))
            },
            NeedleStorage::Values(values) => match &values[i] {
                Some(Value::Utf8(bytes)) => bytes.as_slice(),
                Some(Value::Binary(bytes)) => bytes.as_slice(),
                _ => vstd::pervasive::unreached(),
            },
            _ => vstd::pervasive::unreached(),
        }
    }

    /// Returns the value at `i`, or null.
    pub fn get(&self, i: usize) -> (r: Option<Value>)
        requires
            self.wf(),
            i < self.rows(),
        ensures
            option_view(r) == self.value_at(i as int),
    {
        if !self.is_valid(i) {
            return None;
        }
        match &*self.storage {
            NeedleStorage::Primitive(values, _) => Some(Value::Primitive(values[i])),
            NeedleStorage::Values(values) => option_duplicate(&values[i]),
            _ => {
                let bytes = slice_to_vec(self.bytes_at(i));
                if is_stored_as_binary(&self.dtype) {
                    Some(Value::Binary(bytes))
                } else {
                    Some(Value::Utf8(bytes))
                }
            },
        }
    }
}

fn slice_to_vec(bytes: &[u8]) -> (r: Vec<u8>)
    ensures
        r@ == bytes@,
{
    let mut copy: Vec<u8> = Vec::new();
    let mut i: usize = 0;
    while i < bytes.len()
        invariant
            0 <= i <= bytes.len(),
            copy@ =~= bytes@.take(i as int),
        decreases bytes.len() - i,
    {
        copy.push(bytes[i]);
        i += 1;
    }
    assert(copy@ =~= bytes@);
    copy
}

/// The values to look for: the same one in each row, or one by row.
#[derive(Debug)]
pub enum Needles {
    Constant(Scalar, usize),
    Array(NeedleArray),
}

impl Needles {
    /// Whether the values belong to their type.
    pub open spec fn wf(self) -> bool {
        match self {
            Needles::Constant(value, _) => has_form(value@.value, value@.dtype),
            Needles::Array(array) => array.wf(),
        }
    }

    /// The type of the values.
    pub open spec fn dtype_spec(self) -> DTypeView {
        match self {
            Needles::Constant(value, _) => value@.dtype,
            Needles::Array(array) => array.dtype@,
        }
    }

    /// The number of rows.
    pub open spec fn rows(self) -> nat {
        match self {
            Needles::Constant(_, len) => len as nat,
            Needles::Array(array) => array.rows(),
        }
    }

    /// The value at `i`, or null.
    pub open spec fn value_at(self, i: int) -> Option<ValueView> {
        match self {
            Needles::Constant(value, _) => value@.value,
            Needles::Array(array) => array.value_at(i),
        }
    }

    /// Whether the values can be null, and all are.
    pub open spec fn all_invalid_spec(self) -> bool {
        &&& self.dtype_spec().is_nullable()
        &&& match self {
            Needles::Constant(value, _) => value@.value is None,
            Needles::Array(array) => forall|i: int|
                0 <= i < array.rows() ==> !#[trigger] array.valid(i),
        }
    }

    /// Returns the type of the values.
    pub fn dtype(&self) -> (r: &DType)
        ensures
            r@ == self.dtype_spec(),
    {
        match self {
            Needles::Constant(value, _) => &value.dtype,
            Needles::Array(array) => &array.dtype,
        }
    }

    /// Returns whether the values can be null, and all are.
    pub fn all_invalid(&self) -> (r: bool)
        requires
            self.wf(),
        ensures
            r == self.all_invalid_spec(),
    {
        if !self.dtype().is_nullable() {
            return false;
        }
        match self {
            Needles::Constant(value, _) => value.is_null(),
            Needles::Array(array) => {
                let len: usize = array.len();
                let mut i: usize = 0;
                while i < len
                    invariant
                        0 <= i <= len,
                        len == array.rows(),
                        array.wf(),
                        *self == Needles::Array(*array),
                        forall|j: int| 0 <= j < i ==> !#[trigger] array.valid(j),
                    decreases len - i,
                {
                    if array.is_valid(i) {
                        assert(array.valid(i as int));
                        return false;
                    }
                    i += 1;
                }
                true
            },
        }
    }
}

/// Answers, row by row.
#[derive(Debug)]
pub struct BoolArray {
    pub nullability: Nullability,
    pub values: Vec<Option<bool>>,
}

/// An array of values to look for holds, in each row, what its storage has there: a primitive value,
/// the bytes between two offsets, the bytes of a view, or a value; and null where the row is not
/// valid.
pub proof fn law_what_an_array_of_needles_holds(array: NeedleArray, i: int)
    requires
        array.wf(),
        0 <= i < array.rows(),
    ensures
        array.content().len() == array.rows(),
        array.content()[i] == array.value_at(i),
        match *array.storage {
            NeedleStorage::Primitive(values, validity) => array.rows() == values.len()
                && array.value_at(i) == (if validity.valid(i) {
                Some(ValueView::Primitive(values@[i]))
            } else {
                None
            }),
            NeedleStorage::VarBin { offsets, bytes, validity } => array.rows() + 1 == offsets.len()
                && (array.value_at(i) is Some <==> validity.valid(i)) && (array.value_at(i) matches Some(v)
                ==> v == text_value(
                array.dtype@,
                bytes@.subrange(offsets@[i] as int, offsets@[i + 1] as int),
            )),
            NeedleStorage::Views { views, buffers, validity } => array.rows() == views.len() && (
            array.value_at(i) is Some <==> validity.valid(i)) && (array.value_at(i) matches Some(v)
                ==> v == text_value(array.dtype@, views@[i].bytes(buffers@))),
            NeedleStorage::Values(values) => array.rows() == values.len() && array.value_at(i)
                == option_view(values@[i]),
        },
{
}

/// Bytes are a byte string where the type, or what it is stored as, is one of byte strings, and a
/// text otherwise.
pub proof fn law_bytes_are_of_the_type(kind: ExtKindView, n: Nullability, bytes: Seq<u8>)
    ensures
        text_value(DTypeView::Binary(n), bytes) == ValueView::Binary(bytes),
        text_value(DTypeView::Utf8(n), bytes) == ValueView::Utf8(bytes),
        text_value(
            DTypeView::Extension(
                ExtDTypeView { kind, storage: Box::new(DTypeView::Binary(n)) },
            ),
            bytes,
        ) == ValueView::Binary(bytes),
{
    reveal_with_fuel(stored_as, 2);
}

/// Lists by row lie where their offsets and sizes say, and are null where they are not valid; a
/// constant list is the same in each row.
pub proof fn law_where_a_list_lies(list: ListInput, i: int, j: int)
    requires
        list.wf(),
        0 <= i < list.rows(),
    ensures
        match list {
            ListInput::Constant(scalar, len) => list.rows() == len && list.list_at(i) == (
            match scalar@.value {
                Some(ValueView::List(elements)) => Some(elements),
                _ => None,
            }),
            ListInput::Lists(lists) => list.rows() == lists.offsets.len() && (list.list_at(i) is Some
                <==> lists.validity.valid(i)) && (list.list_at(i) matches Some(elements)
                ==> elements.len() == lists.sizes@[i] && (0 <= j < elements.len() ==> elements[j]
                == option_view(lists.elements@[lists.offsets@[i] + j]))),
        },
{
    if let ListInput::Lists(lists) = list {
        assert(lists.offsets@[i] + lists.sizes@[i] <= lists.elements@.len());
    }
}

} // verus!
