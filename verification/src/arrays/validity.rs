//! Which values of an array are not null.

use crate::dtype::Nullability;
use vstd::prelude::*;

verus! {

/// Which values of an array are not null.
#[derive(Debug)]
pub enum Validity {
    /// The type has no null.
    NonNullable,
    AllValid,
    AllInvalid,
    /// For each value, whether it is valid.
    Array(Vec<bool>),
}

/// A value that is null cannot be cast to a type without a null.
#[derive(Clone, Copy, Debug, PartialEq, Eq, Structural)]
pub struct InvalidValues;

impl Validity {
    /// Whether this is the validity of an array of so many values.
    pub open spec fn wf(self, len: nat) -> bool {
        self matches Validity::Array(valid) ==> valid@.len() == len
    }

    /// Whether the value at `i` is not null.
    pub open spec fn valid(self, i: int) -> bool {
        match self {
            Validity::NonNullable => true,
            Validity::AllValid => true,
            Validity::AllInvalid => false,
            Validity::Array(valid) => valid@[i],
        }
    }

    /// Whether the type has a null.
    pub open spec fn nullability_spec(self) -> Nullability {
        match self {
            Validity::NonNullable => Nullability::NonNullable,
            _ => Nullability::Nullable,
        }
    }

    /// Whether the first `len` values are all valid.
    pub open spec fn all_valid(self, len: nat) -> bool {
        forall|i: int| 0 <= i < len ==> #[trigger] self.valid(i)
    }

    /// Whether two validities say the same of the first `len` values.
    pub open spec fn agrees(self, other: Validity, len: nat) -> bool {
        forall|i: int| 0 <= i < len ==> #[trigger] self.valid(i) == other.valid(i)
    }

    /// Returns whether the type has a null.
    pub fn nullability(&self) -> (r: Nullability)
        ensures
            r == self.nullability_spec(),
    {
        match self {
            Validity::NonNullable => Nullability::NonNullable,
            _ => Nullability::Nullable,
        }
    }

    /// Returns whether the value at `i` is not null.
    pub fn is_valid(&self, i: usize) -> (r: bool)
        requires
            self matches Validity::Array(valid) ==> i < valid@.len(),
        ensures
            r == self.valid(i as int),
    {
        match self {
            Validity::NonNullable => true,
            Validity::AllValid => true,
            Validity::AllInvalid => false,
            Validity::Array(valid) => valid[i],
        }
    }

    /// Returns a copy of the validity.
    pub fn duplicate(&self) -> (r: Validity)
        ensures
            r.nullability_spec() == self.nullability_spec(),
            forall|len: nat| self.wf(len) == r.wf(len),
            forall|len: nat| #[trigger] self.wf(len) ==> r.agrees(*self, len),
            self is Array <==> r is Array,
            self is AllValid <==> r is AllValid,
            self is AllInvalid <==> r is AllInvalid,
            self is NonNullable <==> r is NonNullable,
    {
        match self {
            Validity::NonNullable => Validity::NonNullable,
            Validity::AllValid => Validity::AllValid,
            Validity::AllInvalid => Validity::AllInvalid,
            Validity::Array(valid) => {
                let mut copy: Vec<bool> = Vec::new();
                let mut i: usize = 0;
                while i < valid.len()
                    invariant
                        0 <= i <= valid.len(),
                        copy@ =~= valid@.take(i as int),
                    decreases valid.len() - i,
                {
                    copy.push(valid[i]);
                    i += 1;
                }
                assert(copy@ =~= valid@);
                Validity::Array(copy)
            },
        }
    }

    /// Whether `r` is this validity in a type of another nullability.
    pub open spec fn is_cast_to(self, r: Validity, n: Nullability, len: nat) -> bool {
        &&& r.wf(len)
        &&& r.nullability_spec() == n
        &&& r.agrees(self, len)
    }

    /// Returns the validity in a type of another nullability. A null cannot be cast to a type
    /// without a null.
    pub fn cast_nullability(&self, n: Nullability, len: usize) -> (r: Result<
        Validity,
        InvalidValues,
    >)
        requires
            self.wf(len as nat),
        ensures
            r is Ok <==> n == Nullability::Nullable || self.all_valid(len as nat),
            r matches Ok(v) ==> self.is_cast_to(v, n, len as nat),
            r matches Ok(v) ==> (n == Nullability::NonNullable ==> v is NonNullable),
            r matches Ok(v) ==> (n == Nullability::Nullable && self is NonNullable ==> v is AllValid),
    {
        match n {
            Nullability::Nullable => match self {
                Validity::NonNullable => Ok(Validity::AllValid),
                _ => Ok(self.duplicate()),
            },
            Nullability::NonNullable => {
                let mut i: usize = 0;
                while i < len
                    invariant
                        0 <= i <= len,
                        n == Nullability::NonNullable,
                        self.wf(len as nat),
                        forall|j: int| 0 <= j < i ==> #[trigger] self.valid(j),
                    decreases len - i,
                {
                    if !self.is_valid(i) {
                        assert(!self.valid(i as int));
                        return Err(InvalidValues);
                    }
                    i += 1;
                }
                Ok(Validity::NonNullable)
            },
        }
    }

    /// Returns the validity in a type of another nullability, if that takes no look at the
    /// values: any type with a null, and a type without one where none is marked invalid.
    pub fn trivial_cast_nullability(&self, n: Nullability, len: usize) -> (r: Option<Validity>)
        requires
            self.wf(len as nat),
        ensures
            r is Some <==> n == Nullability::Nullable || self is NonNullable || self is AllValid
                || len == 0,
            r matches Some(v) ==> self.is_cast_to(v, n, len as nat),
    {
        match n {
            Nullability::Nullable => match self {
                Validity::NonNullable => Some(Validity::AllValid),
                _ => Some(self.duplicate()),
            },
            Nullability::NonNullable => match self {
                Validity::NonNullable => Some(Validity::NonNullable),
                Validity::AllValid => Some(Validity::NonNullable),
                _ => if len == 0 {
                    Some(Validity::NonNullable)
                } else {
                    None
                },
            },
        }
    }
}

/// A cast to a type of another nullability keeps which values are null.
pub proof fn law_a_cast_keeps_the_nulls(
    validity: Validity,
    r: Validity,
    n: Nullability,
    len: nat,
    i: int,
)
    requires
        validity.is_cast_to(r, n, len),
        0 <= i < len,
    ensures
        r.valid(i) == validity.valid(i),
        r.wf(len),
        r is NonNullable <==> n == Nullability::NonNullable,
        n == Nullability::NonNullable ==> validity.valid(i),
{
    assert(r.valid(i) == validity.valid(i));
}

/// Values of a type without a null are all valid, and so are those of an array without a null.
pub proof fn law_what_is_marked_valid_is_valid(validity: Validity, len: nat, i: int)
    requires
        0 <= i < len,
        validity.wf(len),
    ensures
        validity is NonNullable || validity is AllValid ==> validity.valid(i) && validity.all_valid(
            len,
        ),
        validity is AllInvalid ==> !validity.valid(i) && !validity.all_valid(len),
        validity.all_valid(len) ==> validity.valid(i),
        validity.nullability_spec() == Nullability::NonNullable <==> validity is NonNullable,
{
    if validity is AllInvalid {
        assert(!validity.valid(i));
    }
}

} // verus!
