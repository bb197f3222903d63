//! Arrays by their logical content.

use crate::dtype::DType;
use crate::scalar::{option_duplicate, option_view, Scalar, Value, ValueView};
use vstd::prelude::*;

verus! {

/// Values of one type, some of which may be null.
#[derive(Debug)]
pub struct ValueArray {
    pub dtype: DType,
    pub values: Vec<Option<Value>>,
}

/// What the values of an array are.
pub open spec fn values_view(values: Seq<Option<Value>>) -> Seq<Option<ValueView>> {
    Seq::new(values.len(), |i: int| option_view(values[i]))
}

impl ValueArray {
    /// The values of the array.
    pub open spec fn content(self) -> Seq<Option<ValueView>> {
        values_view(self.values@)
    }

    /// Returns the number of values.
    pub fn len(&self) -> (r: usize)
        ensures
            r == self.content().len(),
    {
        self.values.len()
    }

    /// Returns an array of no values.
    pub fn empty(dtype: DType) -> (r: ValueArray)
        ensures
            r.dtype == dtype,
            r.content() == Seq::<Option<ValueView>>::empty(),
    {
        let r = ValueArray { dtype, values: Vec::new() };
        assert(r.content() =~= Seq::<Option<ValueView>>::empty());
        r
    }

    /// Returns an array of one value, so many times.
    pub fn constant(scalar: Scalar, len: usize) -> (r: ValueArray)
        ensures
            r.dtype == scalar.dtype,
            r.content() == Seq::new(len as nat, |i: int| option_view(scalar.value)),
    {
        let mut values: Vec<Option<Value>> = Vec::new();
        let mut i: usize = 0;
        while i < len
            invariant
                0 <= i <= len,
                values.len() == i,
                forall|j: int|
                    0 <= j < i ==> option_view(#[trigger] values@[j]) == option_view(scalar.value),
            decreases len - i,
        {
            values.push(option_duplicate(&scalar.value));
            i += 1;
        }
        let r = ValueArray { dtype: scalar.dtype, values };
        assert(r.content() =~= Seq::new(len as nat, |i: int| option_view(scalar.value)));
        r
    }

    /// Returns a copy of the array.
    pub fn duplicate(&self) -> (r: ValueArray)
        ensures
            r.dtype@ == self.dtype@,
            r.content() == self.content(),
    {
        let mut values: Vec<Option<Value>> = Vec::new();
        let mut i: usize = 0;
        while i < self.values.len()
            invariant
                0 <= i <= self.values.len(),
                values.len() == i,
                forall|j: int|
                    0 <= j < i ==> option_view(#[trigger] values@[j]) == option_view(
                        self.values@[j],
                    ),
            decreases self.values.len() - i,
        {
            values.push(option_duplicate(&self.values[i]));
            i += 1;
        }
        let r = ValueArray { dtype: self.dtype.duplicate(), values };
        assert(r.content() =~= self.content());
        r
    }
}

} // verus!
