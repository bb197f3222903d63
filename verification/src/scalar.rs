//! Single values.

use crate::dtype::{
    bytes_copy, bytes_eq, law_nullability_is_all_that_changes, DType, DTypeView, ExtKind, ExtKindView,
    FieldDTypeView, Nullability, PType, TimestampOptionsView,
};
use crate::extension::datetime::timestamp::{
    in_storage_range, law_a_zone_only_adds_its_own_fault, native_check, Timestamp, TimestampError,
};
use crate::extension::datetime::timezone::{zone_verdict, ZoneError};
use vstd::prelude::*;

verus! {

/// A primitive value. A floating-point value is held by its bits, so that every value equals
/// itself and zeros of different sign differ.
#[derive(Clone, Copy, Debug, PartialEq, Eq, Structural)]
pub enum PValue {
    U8(u8),
    U16(u16),
    U32(u32),
    U64(u64),
    I8(i8),
    I16(i16),
    I32(i32),
    I64(i64),
    F16(u16),
    F32(u32),
    F64(u64),
}

impl PValue {
    /// The type of the value.
    pub open spec fn ptype_spec(self) -> PType {
        match self {
            PValue::U8(_) => PType::U8,
            PValue::U16(_) => PType::U16,
            PValue::U32(_) => PType::U32,
            PValue::U64(_) => PType::U64,
            PValue::I8(_) => PType::I8,
            PValue::I16(_) => PType::I16,
            PValue::I32(_) => PType::I32,
            PValue::I64(_) => PType::I64,
            PValue::F16(_) => PType::F16,
            PValue::F32(_) => PType::F32,
            PValue::F64(_) => PType::F64,
        }
    }

    /// Returns the type of the value.
    pub fn ptype(&self) -> (r: PType)
        ensures
            r == self.ptype_spec(),
    {
        match self {
            PValue::U8(_) => PType::U8,
            PValue::U16(_) => PType::U16,
            PValue::U32(_) => PType::U32,
            PValue::U64(_) => PType::U64,
            PValue::I8(_) => PType::I8,
            PValue::I16(_) => PType::I16,
            PValue::I32(_) => PType::I32,
            PValue::I64(_) => PType::I64,
            PValue::F16(_) => PType::F16,
            PValue::F32(_) => PType::F32,
            PValue::F64(_) => PType::F64,
        }
    }

    /// The integer that the value is, if it is one.
    pub open spec fn integer(self) -> Option<int> {
        match self {
            PValue::U8(v) => Some(v as int),
            PValue::U16(v) => Some(v as int),
            PValue::U32(v) => Some(v as int),
            PValue::U64(v) => Some(v as int),
            PValue::I8(v) => Some(v as int),
            PValue::I16(v) => Some(v as int),
            PValue::I32(v) => Some(v as int),
            PValue::I64(v) => Some(v as int),
            _ => None,
        }
    }

    /// Returns the value as an `i64`, if it is an integer that fits.
    pub fn to_i64(&self) -> (r: Option<i64>)
        ensures
            r == match self.integer() {
                Some(v) => if i64::MIN <= v <= i64::MAX {
                    Some(v as i64)
                } else {
                    None
                },
                None => None,
            },
    {
        match self {
            PValue::U8(v) => Some(*v as i64),
            PValue::U16(v) => Some(*v as i64),
            PValue::U32(v) => Some(*v as i64),
            PValue::U64(v) => if *v <= 0x7fff_ffff_ffff_ffff {
                Some(*v as i64)
            } else {
                None
            },
            PValue::I8(v) => Some(*v as i64),
            PValue::I16(v) => Some(*v as i64),
            PValue::I32(v) => Some(*v as i64),
            PValue::I64(v) => Some(*v),
            _ => None,
        }
    }
}

/// A signed integer of 256 bits: `high * 2^128 + low`.
#[derive(Clone, Copy, Debug, PartialEq, Eq, Structural)]
pub struct I256 {
    pub high: i128,
    pub low: u128,
}

impl I256 {
    /// The integer itself.
    pub open spec fn as_int(self) -> int {
        self.high * 0x1_0000_0000_0000_0000_0000_0000_0000_0000int + self.low
    }

    /// Returns the same integer in 256 bits.
    pub fn from_i128(v: i128) -> (r: I256)
        ensures
            r.as_int() == v,
    {
        if v >= 0 {
            I256 { high: 0, low: v as u128 }
        } else {
            let low: u128 = u128::MAX - ((-(v + 1)) as u128);
            I256 { high: -1, low }
        }
    }
}

/// A value that is not null. A value of an extension type is the value that it is stored as.
#[derive(Debug)]
pub enum Value {
    Bool(bool),
    Primitive(PValue),
    Decimal(I256),
    /// The bytes of a text in UTF-8.
    Utf8(Vec<u8>),
    Binary(Vec<u8>),
    /// The elements of a list, or the members of a struct.
    List(Vec<Option<Value>>),
}

/// What a `Value` is.
pub enum ValueView {
    Bool(bool),
    Primitive(PValue),
    Decimal(I256),
    Utf8(Seq<u8>),
    Binary(Seq<u8>),
    List(Seq<Option<ValueView>>),
}

impl Value {
    /// The value itself.
    pub open spec fn view(&self) -> ValueView
        decreases self,
    {
        match self {
            Value::Bool(v) => ValueView::Bool(*v),
            Value::Primitive(v) => ValueView::Primitive(*v),
            Value::Decimal(v) => ValueView::Decimal(*v),
            Value::Utf8(v) => ValueView::Utf8(v@),
            Value::Binary(v) => ValueView::Binary(v@),
            Value::List(v) => ValueView::List(
                Seq::new(
                    v@.len(),
                    |i: int|
                        if 0 <= i < v@.len() {
                            match v@[i] {
                                Some(x) => Some(x.view()),
                                None => None,
                            }
                        } else {
                            None
                        },
                ),
            ),
        }
    }

    /// Returns whether the values are the same.
    pub fn equals(&self, other: &Value) -> (r: bool)
        ensures
            r == (self@ == other@),
        decreases self,
    {
        match (self, other) {
            (Value::Bool(a), Value::Bool(b)) => *a == *b,
            (Value::Primitive(a), Value::Primitive(b)) => *a == *b,
            (Value::Decimal(a), Value::Decimal(b)) => *a == *b,
            (Value::Utf8(a), Value::Utf8(b)) => bytes_eq(a, b),
            (Value::Binary(a), Value::Binary(b)) => bytes_eq(a, b),
            (Value::List(a), Value::List(b)) => {
                if a.len() != b.len() {
                    assert(self@->List_0.len() != other@->List_0.len());
                    return false;
                }
                let mut i: usize = 0;
                while i < a.len()
                    invariant
                        0 <= i <= a.len(),
                        a.len() == b.len(),
                        *self == Value::List(*a),
                        *other == Value::List(*b),
                        forall|j: int|
                            0 <= j < i ==> self@->List_0[j] == #[trigger] other@->List_0[j],
                    decreases a.len() - i,
                {
                    let same = match (&a[i], &b[i]) {
                        (Some(x), Some(y)) => x.equals(y),
                        (None, None) => true,
                        _ => false,
                    };
                    if !same {
                        assert(self@->List_0[i as int] != other@->List_0[i as int]);
                        return false;
                    }
                    i += 1;
                }
                assert(self@->List_0 =~= other@->List_0);
                true
            },
            _ => false,
        }
    }

    /// Returns a copy of the value.
    pub fn duplicate(&self) -> (r: Value)
        ensures
            r@ == self@,
        decreases self,
    {
        match self {
            Value::Bool(v) => Value::Bool(*v),
            Value::Primitive(v) => Value::Primitive(*v),
            Value::Decimal(v) => Value::Decimal(*v),
            Value::Utf8(v) => Value::Utf8(bytes_copy(v)),
            Value::Binary(v) => Value::Binary(bytes_copy(v)),
            Value::List(v) => {
                let mut out: Vec<Option<Value>> = Vec::new();
                let mut i: usize = 0;
                while i < v.len()
                    invariant
                        0 <= i <= v.len(),
                        *self == Value::List(*v),
                        out.len() == i,
                        forall|j: int|
                            0 <= j < i ==> option_view(#[trigger] out@[j]) == option_view(v@[j]),
                    decreases v.len() - i,
                {
                    assert(decreases_to!(*self => self->List_0));
                    assert(decreases_to!(v@ => v@[i as int]));
                    let copy = match &v[i] {
                        Some(x) => Some(x.duplicate()),
                        None => None,
                    };
                    out.push(copy);
                    i += 1;
                }
                let r = Value::List(out);
                assert(r@->List_0 =~= self@->List_0);
                r
            },
        }
    }
}

/// What an optional value is.
pub open spec fn option_view(value: Option<Value>) -> Option<ValueView> {
    match value {
        Some(v) => Some(v@),
        None => None,
    }
}

/// Returns a copy of an optional value.
pub fn option_duplicate(value: &Option<Value>) -> (r: Option<Value>)
    ensures
        option_view(r) == option_view(*value),
{
    match value {
        Some(v) => Some(v.duplicate()),
        None => None,
    }
}

/// Returns whether two optional values are the same.
pub fn option_equals(a: &Option<Value>, b: &Option<Value>) -> (r: bool)
    ensures
        r == (option_view(*a) == option_view(*b)),
{
    match (a, b) {
        (Some(x), Some(y)) => x.equals(y),
        (None, None) => true,
        _ => false,
    }
}

/// Whether a value, or null, belongs to a type by its form. What an extension type asks of a
/// value beyond the form of its storage is not told here.
pub open spec fn has_form(value: Option<ValueView>, dtype: DTypeView) -> bool
    decreases dtype,
{
    match value {
        None => dtype.is_nullable(),
        Some(v) => match (v, dtype) {
            (ValueView::Bool(_), DTypeView::Bool(_)) => true,
            (ValueView::Primitive(p), DTypeView::Primitive(q, _)) => p.ptype_spec() == q,
            (ValueView::Decimal(_), DTypeView::Decimal(..)) => true,
            (ValueView::Utf8(_), DTypeView::Utf8(_)) => true,
            (ValueView::Binary(_), DTypeView::Binary(_)) => true,
            (ValueView::List(elements), DTypeView::List(e, _)) => forall|i: int|
                0 <= i < elements.len() ==> has_form(#[trigger] elements[i], *e),
            (ValueView::List(members), DTypeView::Struct(f, _)) => members.len() == f.len()
                && forall|i: int|
                0 <= i < f.len() ==> has_form(#[trigger] members[i], f[i].dtype),
            (_, DTypeView::Extension(ext)) => has_form(Some(v), *ext.storage),
            _ => false,
        },
    }
}

/// Returns whether a value, or null, belongs to a type by its form.
pub fn check_form(value: &Option<Value>, dtype: &DType) -> (r: bool)
    ensures
        r == has_form(option_view(*value), dtype@),
    decreases dtype,
{
    match value {
        None => dtype.is_nullable(),
        Some(v) => check_value_form(v, dtype),
    }
}

fn check_value_form(v: &Value, dtype: &DType) -> (r: bool)
    ensures
        r == has_form(Some(v@), dtype@),
    decreases dtype,
{
    match dtype {
        DType::Extension(ext) => check_value_form(v, &ext.storage),
        DType::List(e, n) => match v {
            Value::List(elements) => {
                let mut i: usize = 0;
                while i < elements.len()
                    invariant
                        0 <= i <= elements.len(),
                        *v == Value::List(*elements),
                        *dtype == DType::List(*e, *n),
                        forall|j: int| 0 <= j < i ==> has_form(#[trigger] v@->List_0[j], e@),
                    decreases elements.len() - i,
                {
                    let ok = match &elements[i] {
                        None => e.is_nullable(),
                        Some(x) => check_value_form(x, e),
                    };
                    if !ok {
                        assert(!has_form(v@->List_0[i as int], e@));
                        return false;
                    }
                    i += 1;
                }
                true
            },
            _ => false,
        },
        DType::Struct(f, n) => match v {
            Value::List(members) => {
                if members.len() != f.len() {
                    return false;
                }
                let mut i: usize = 0;
                while i < members.len()
                    invariant
                        0 <= i <= members.len(),
                        members.len() == f.len(),
                        *v == Value::List(*members),
                        *dtype == DType::Struct(*f, *n),
                        forall|j: int|
                            0 <= j < i ==> has_form(
                                #[trigger] v@->List_0[j],
                                dtype@->Struct_0[j].dtype,
                            ),
                    decreases members.len() - i,
                {
                    assert(decreases_to!(*dtype => dtype->Struct_0));
                    assert(decreases_to!(f@ => f@[i as int]));
                    let field = &f[i].dtype;
                    let ok = match &members[i] {
                        None => field.is_nullable(),
                        Some(x) => check_value_form(x, field),
                    };
                    if !ok {
                        assert(!has_form(v@->List_0[i as int], dtype@->Struct_0[i as int].dtype));
                        return false;
                    }
                    i += 1;
                }
                true
            },
            _ => false,
        },
        DType::Bool(_) => match v {
            Value::Bool(_) => true,
            _ => false,
        },
        DType::Primitive(q, _) => match v {
            Value::Primitive(p) => p.ptype() == *q,
            _ => false,
        },
        DType::Decimal(_, _) => match v {
            Value::Decimal(_) => true,
            _ => false,
        },
        DType::Utf8(_) => match v {
            Value::Utf8(_) => true,
            _ => false,
        },
        DType::Binary(_) => match v {
            Value::Binary(_) => true,
            _ => false,
        },
        DType::Null => false,
    }
}

/// Why a value makes no scalar of a type.
#[derive(Clone, Copy, Debug, PartialEq, Eq, Structural)]
pub enum ScalarError {
    /// The value does not belong to the type by its form.
    WrongForm,
    /// The value is no timestamp.
    Timestamp(TimestampError),
}

/// Whether `r` is what making a scalar of a type and a value gives: the value has to belong to the
/// type by its form, and one of a timestamp has to be an instant in a time zone that resolves.
pub open spec fn is_build_of(
    r: Result<Scalar, ScalarError>,
    dtype: DTypeView,
    value: Option<ValueView>,
) -> bool {
    if !has_form(value, dtype) {
        r == Err::<Scalar, ScalarError>(ScalarError::WrongForm)
    } else {
        match timestamp_parts(dtype, value) {
            None => r matches Ok(scalar) && scalar@ == (ScalarView { dtype, value }),
            Some((options, v)) => match native_check(options.unit, v, None) {
                Err(e) => r == Err::<Scalar, ScalarError>(ScalarError::Timestamp(e)),
                Ok(_) => exists|error: Option<ZoneError>| #[trigger]
                    zone_verdict(options.tz, error) && match error {
                        None => r matches Ok(scalar) && scalar@ == (ScalarView { dtype, value }),
                        Some(e) => r == Err::<Scalar, ScalarError>(
                            ScalarError::Timestamp(TimestampError::InvalidTimezone(e)),
                        ),
                    },
            },
        }
    }
}

/// The options and the value of a timestamp that is not null.
pub open spec fn timestamp_parts(dtype: DTypeView, value: Option<ValueView>) -> Option<
    (TimestampOptionsView, ValueView),
> {
    match (dtype, value) {
        (DTypeView::Extension(ext), Some(v)) => match ext.kind {
            ExtKindView::Timestamp(options) => Some((options, v)),
            _ => None,
        },
        _ => None,
    }
}

fn is_integer_value(v: &Value) -> (r: bool)
    ensures
        r == (v@ matches ValueView::Primitive(p) && p.integer() is Some),
{
    match v {
        Value::Primitive(p) => match p {
            PValue::F16(_) => false,
            PValue::F32(_) => false,
            PValue::F64(_) => false,
            _ => true,
        },
        _ => false,
    }
}

/// How two values stand to each other.
#[derive(Clone, Copy, Debug, PartialEq, Eq, Structural)]
pub enum Relation {
    Less,
    Equal,
    Greater,
}

/// How two integers stand to each other.
pub open spec fn int_relation(a: int, b: int) -> Relation {
    if a < b {
        Relation::Less
    } else if a == b {
        Relation::Equal
    } else {
        Relation::Greater
    }
}

/// The place of a floating-point value of so many bits among all of them: negative values before
/// positive ones, a number that is none beyond the infinities.
pub open spec fn float_place(bits: int, sign_bit: int) -> int {
    if bits < sign_bit {
        bits
    } else {
        sign_bit - 1 - bits
    }
}

impl PValue {
    /// The place of the value among those of its type.
    pub open spec fn place(self) -> int {
        match self {
            PValue::U8(v) => v as int,
            PValue::U16(v) => v as int,
            PValue::U32(v) => v as int,
            PValue::U64(v) => v as int,
            PValue::I8(v) => v as int,
            PValue::I16(v) => v as int,
            PValue::I32(v) => v as int,
            PValue::I64(v) => v as int,
            PValue::F16(v) => float_place(v as int, 0x8000),
            PValue::F32(v) => float_place(v as int, 0x8000_0000),
            PValue::F64(v) => float_place(v as int, 0x8000_0000_0000_0000),
        }
    }

    /// Returns the place of the value among those of its type.
    pub fn rank(&self) -> (r: i128)
        ensures
            r == self.place(),
    {
        match self {
            PValue::U8(v) => *v as i128,
            PValue::U16(v) => *v as i128,
            PValue::U32(v) => *v as i128,
            PValue::U64(v) => *v as i128,
            PValue::I8(v) => *v as i128,
            PValue::I16(v) => *v as i128,
            PValue::I32(v) => *v as i128,
            PValue::I64(v) => *v as i128,
            PValue::F16(v) => if *v < 0x8000 {
                *v as i128
            } else {
                0x7fff - *v as i128
            },
            PValue::F32(v) => if *v < 0x8000_0000 {
                *v as i128
            } else {
                0x7fff_ffff - *v as i128
            },
            PValue::F64(v) => if *v < 0x8000_0000_0000_0000 {
                *v as i128
            } else {
                0x7fff_ffff_ffff_ffff - *v as i128
            },
        }
    }
}

/// How two byte strings stand to each other: by the first byte that differs, and a prefix before
/// what it is a prefix of.
pub open spec fn bytes_relation(a: Seq<u8>, b: Seq<u8>) -> Relation
    decreases a.len(),
{
    if a.len() == 0 && b.len() == 0 {
        Relation::Equal
    } else if a.len() == 0 {
        Relation::Less
    } else if b.len() == 0 {
        Relation::Greater
    } else if a[0] != b[0] {
        int_relation(a[0] as int, b[0] as int)
    } else {
        bytes_relation(a.drop_first(), b.drop_first())
    }
}

/// How two values of one type stand to each other; values of different types do not compare.
pub open spec fn value_relation(a: ValueView, b: ValueView) -> Option<Relation>
    decreases a,
{
    match (a, b) {
        (ValueView::Bool(x), ValueView::Bool(y)) => Some(
            if x == y {
                Relation::Equal
            } else if y {
                Relation::Less
            } else {
                Relation::Greater
            },
        ),
        (ValueView::Primitive(x), ValueView::Primitive(y)) => if x.ptype_spec() == y.ptype_spec() {
            Some(int_relation(x.place(), y.place()))
        } else {
            None
        },
        (ValueView::Decimal(x), ValueView::Decimal(y)) => Some(
            int_relation(x.as_int(), y.as_int()),
        ),
        (ValueView::Utf8(x), ValueView::Utf8(y)) => Some(bytes_relation(x, y)),
        (ValueView::Binary(x), ValueView::Binary(y)) => Some(bytes_relation(x, y)),
        (ValueView::List(x), ValueView::List(y)) => list_relation(x, y),
        _ => None,
    }
}

/// How two lists stand to each other: by the first element that differs. A null stands before
/// every value.
pub open spec fn list_relation(
    a: Seq<Option<ValueView>>,
    b: Seq<Option<ValueView>>,
) -> Option<Relation>
    decreases a,
{
    if a.len() == 0 && b.len() == 0 {
        Some(Relation::Equal)
    } else if a.len() == 0 {
        Some(Relation::Less)
    } else if b.len() == 0 {
        Some(Relation::Greater)
    } else {
        let first = match (a[0], b[0]) {
            (None, None) => Some(Relation::Equal),
            (None, Some(_)) => Some(Relation::Less),
            (Some(_), None) => Some(Relation::Greater),
            (Some(x), Some(y)) => value_relation(x, y),
        };
        if first == Some(Relation::Equal) {
            list_relation(a.drop_first(), b.drop_first())
        } else {
            first
        }
    }
}

/// How two values or nulls stand to each other. A null stands before every value.
pub open spec fn option_relation(a: Option<ValueView>, b: Option<ValueView>) -> Option<Relation> {
    match (a, b) {
        (None, None) => Some(Relation::Equal),
        (None, Some(_)) => Some(Relation::Less),
        (Some(_), None) => Some(Relation::Greater),
        (Some(x), Some(y)) => value_relation(x, y),
    }
}

/// Returns how two byte strings stand to each other.
pub fn relate_bytes(a: &Vec<u8>, b: &Vec<u8>) -> (r: Relation)
    ensures
        r == bytes_relation(a@, b@),
{
    let mut i: usize = 0;
    assert(a@.skip(0) =~= a@);
    assert(b@.skip(0) =~= b@);
    while i < a.len() && i < b.len()
        invariant
            0 <= i <= a.len(),
            i <= b.len(),
            bytes_relation(a@, b@) == bytes_relation(a@.skip(i as int), b@.skip(i as int)),
        decreases a.len() - i,
    {
        proof {
            assert(a@.skip(i as int).drop_first() =~= a@.skip(i as int + 1));
            assert(b@.skip(i as int).drop_first() =~= b@.skip(i as int + 1));
        }
        if a[i] < b[i] {
            return Relation::Less;
        }
        if a[i] > b[i] {
            return Relation::Greater;
        }
        i += 1;
    }
    if a.len() == b.len() {
        Relation::Equal
    } else if a.len() < b.len() {
        Relation::Less
    } else {
        Relation::Greater
    }
}

impl I256 {
    /// Returns how two integers stand to each other.
    pub fn relate(&self, other: &I256) -> (r: Relation)
        ensures
            r == int_relation(self.as_int(), other.as_int()),
    {
        proof {
            let m = 0x1_0000_0000_0000_0000_0000_0000_0000_0000int;
            let a = self.high as int;
            let b = other.high as int;
            assert(a < b ==> a * m + m <= b * m) by (nonlinear_arith)
                requires
                    m > 0,
            ;
            assert(b < a ==> b * m + m <= a * m) by (nonlinear_arith)
                requires
                    m > 0,
            ;
        }
        if self.high < other.high {
            Relation::Less
        } else if self.high > other.high {
            Relation::Greater
        } else if self.low < other.low {
            Relation::Less
        } else if self.low > other.low {
            Relation::Greater
        } else {
            Relation::Equal
        }
    }
}

impl Value {
    /// Returns how two values stand to each other.
    pub fn relate(&self, other: &Value) -> (r: Option<Relation>)
        ensures
            r == value_relation(self@, other@),
        decreases self,
    {
        match (self, other) {
            (Value::Bool(x), Value::Bool(y)) => if *x == *y {
                Some(Relation::Equal)
            } else if *y {
                Some(Relation::Less)
            } else {
                Some(Relation::Greater)
            },
            (Value::Primitive(x), Value::Primitive(y)) => if x.ptype() == y.ptype() {
                let a: i128 = x.rank();
                let b: i128 = y.rank();
                if a < b {
                    Some(Relation::Less)
                } else if a == b {
                    Some(Relation::Equal)
                } else {
                    Some(Relation::Greater)
                }
            } else {
                None
            },
            (Value::Decimal(x), Value::Decimal(y)) => Some(x.relate(y)),
            (Value::Utf8(x), Value::Utf8(y)) => Some(relate_bytes(x, y)),
            (Value::Binary(x), Value::Binary(y)) => Some(relate_bytes(x, y)),
            (Value::List(a), Value::List(b)) => {
                let mut i: usize = 0;
                let ghost x = self@->List_0;
                let ghost y = other@->List_0;
                assert(x.skip(0) =~= x);
                assert(y.skip(0) =~= y);
                while i < a.len() && i < b.len()
                    invariant
                        0 <= i <= a.len(),
                        i <= b.len(),
                        *self == Value::List(*a),
                        *other == Value::List(*b),
                        x == self@->List_0,
                        y == other@->List_0,
                        list_relation(x, y) == list_relation(x.skip(i as int), y.skip(i as int)),
                    decreases a.len() - i,
                {
                    proof {
                        assert(x.skip(i as int).drop_first() =~= x.skip(i as int + 1));
                        assert(y.skip(i as int).drop_first() =~= y.skip(i as int + 1));
                        assert(decreases_to!(*self => self->List_0));
                        assert(decreases_to!(a@ => a@[i as int]));
                    }
                    let first = match (&a[i], &b[i]) {
                        (None, None) => Some(Relation::Equal),
                        (None, Some(_)) => Some(Relation::Less),
                        (Some(_), None) => Some(Relation::Greater),
                        (Some(p), Some(q)) => p.relate(q),
                    };
                    match first {
                        Some(Relation::Equal) => {},
                        _ => {
                            return first;
                        },
                    }
                    i += 1;
                }
                if a.len() == b.len() {
                    Some(Relation::Equal)
                } else if a.len() < b.len() {
                    Some(Relation::Less)
                } else {
                    Some(Relation::Greater)
                }
            },
            _ => None,
        }
    }
}

/// Returns how two values or nulls stand to each other.
pub fn relate_options(a: &Option<Value>, b: &Option<Value>) -> (r: Option<Relation>)
    ensures
        r == option_relation(option_view(*a), option_view(*b)),
{
    match (a, b) {
        (None, None) => Some(Relation::Equal),
        (None, Some(_)) => Some(Relation::Less),
        (Some(_), None) => Some(Relation::Greater),
        (Some(x), Some(y)) => x.relate(y),
    }
}

/// A value of a type, or its null.
#[derive(Debug)]
pub struct Scalar {
    pub dtype: DType,
    pub value: Option<Value>,
}

/// What a `Scalar` is.
pub struct ScalarView {
    pub dtype: DTypeView,
    pub value: Option<ValueView>,
}

impl ScalarView {
    /// Whether the scalars are of one type up to nullability and hold the same.
    pub open spec fn same(self, other: ScalarView) -> bool {
        self.dtype.same_base(other.dtype) && self.value == other.value
    }
}

impl Scalar {
    /// The scalar itself.
    pub open spec fn view(&self) -> ScalarView {
        ScalarView { dtype: self.dtype@, value: option_view(self.value) }
    }

    /// Makes a scalar of a value that is known to belong to the type.
    pub fn new_unchecked(dtype: DType, value: Option<Value>) -> (r: Scalar)
        ensures
            r.dtype == dtype,
            r.value == value,
    {
        Scalar { dtype, value }
    }

    /// Makes a scalar of a value that is checked against the type: it has to belong to the type by
    /// its form, and a timestamp has to be an instant in a time zone that resolves.
    pub fn try_new(dtype: DType, value: Option<Value>) -> (r: Result<Scalar, ScalarError>)
        ensures
            is_build_of(r, dtype@, option_view(value)),
    {
        if !check_form(&value, &dtype) {
            return Err(ScalarError::WrongForm);
        }
        match &dtype {
            DType::Extension(ext) => match &ext.kind {
                ExtKind::Timestamp(options) => match &value {
                    Some(v) => {
                        if !is_integer_value(v) {
                            return Err(ScalarError::Timestamp(TimestampError::NotAnI64));
                        }
                        let unpacked = Timestamp::unpack_native(options, v);
                        proof {
                            let error = choose|error: Option<ZoneError>| #[trigger]
                                zone_verdict(options@.tz, error) && match native_check(
                                    options@.unit,
                                    v@,
                                    error,
                                ) {
                                    Ok(_) => unpacked is Ok,
                                    Err(e) => unpacked is Err && unpacked->Err_0 == e,
                                };
                            law_a_zone_only_adds_its_own_fault(
                                options@.unit,
                                v@,
                                options@.tz,
                                error,
                            );
                        }
                        match unpacked {
                            Ok(_) => {},
                            Err(e) => {
                                return Err(ScalarError::Timestamp(e));
                            },
                        }
                    },
                    None => {},
                },
                _ => {},
            },
            _ => {},
        }
        Ok(Scalar { dtype, value })
    }

    /// Makes the null of a type.
    pub fn null(dtype: DType) -> (r: Scalar)
        requires
            dtype@.is_nullable(),
        ensures
            r.dtype == dtype,
            r.value is None,
    {
        Scalar { dtype, value: None }
    }

    /// Makes a `bool` scalar.
    pub fn bool(value: bool, nullability: Nullability) -> (r: Scalar)
        ensures
            r@ == (ScalarView {
                dtype: DTypeView::Bool(nullability),
                value: Some(ValueView::Bool(value)),
            }),
    {
        Scalar { dtype: DType::Bool(nullability), value: Some(Value::Bool(value)) }
    }

    /// Makes a scalar of a primitive value.
    pub fn primitive(value: PValue, nullability: Nullability) -> (r: Scalar)
        ensures
            r@ == (ScalarView {
                dtype: DTypeView::Primitive(value.ptype_spec(), nullability),
                value: Some(ValueView::Primitive(value)),
            }),
    {
        Scalar {
            dtype: DType::Primitive(value.ptype(), nullability),
            value: Some(Value::Primitive(value)),
        }
    }

    /// Returns whether the scalar is null.
    pub fn is_null(&self) -> (r: bool)
        ensures
            r == (self@.value is None),
    {
        self.value.is_none()
    }

    /// Returns a copy of the scalar.
    pub fn duplicate(&self) -> (r: Scalar)
        ensures
            r@ == self@,
    {
        Scalar { dtype: self.dtype.duplicate(), value: option_duplicate(&self.value) }
    }

    /// Returns whether the scalars are of one type up to nullability and hold the same.
    pub fn equals(&self, other: &Scalar) -> (r: bool)
        ensures
            r == self@.same(other@),
    {
        self.dtype.eq_ignore_nullability(&other.dtype) && option_equals(&self.value, &other.value)
    }
}

/// How two values stand to each other, seen from the other one.
pub open spec fn seen_from_the_other(r: Option<Relation>) -> Option<Relation> {
    match r {
        Some(Relation::Less) => Some(Relation::Greater),
        Some(Relation::Equal) => Some(Relation::Equal),
        Some(Relation::Greater) => Some(Relation::Less),
        None => None,
    }
}

/// Integers of one type stand to each other as the numbers that they are.
pub proof fn law_integers_are_ordered_by_value(p: PValue, q: PValue)
    requires
        p.ptype_spec() == q.ptype_spec(),
        p.integer() is Some,
    ensures
        q.integer() is Some,
        value_relation(ValueView::Primitive(p), ValueView::Primitive(q)) == Some(
            if p.integer()->Some_0 < q.integer()->Some_0 {
                Relation::Less
            } else if p.integer()->Some_0 > q.integer()->Some_0 {
                Relation::Greater
            } else {
                Relation::Equal
            },
        ),
{
}

/// Floating-point values stand to each other in their total order: one with the sign bit before one
/// without, two without it by their bits, and two with it the other way round.
pub proof fn law_floats_are_totally_ordered(a: u64, b: u64, c: u32, d: u32, e: u16, f: u16)
    ensures
        value_relation(
            ValueView::Primitive(PValue::F64(a)),
            ValueView::Primitive(PValue::F64(b)),
        ) == Some(Relation::Less) <==> (a >= 0x8000_0000_0000_0000 && b < 0x8000_0000_0000_0000) || (
        a < b && b < 0x8000_0000_0000_0000) || (a > b && b >= 0x8000_0000_0000_0000),
        value_relation(
            ValueView::Primitive(PValue::F32(c)),
            ValueView::Primitive(PValue::F32(d)),
        ) == Some(Relation::Less) <==> (c >= 0x8000_0000 && d < 0x8000_0000) || (c < d && d
            < 0x8000_0000) || (c > d && d >= 0x8000_0000),
        value_relation(
            ValueView::Primitive(PValue::F16(e)),
            ValueView::Primitive(PValue::F16(f)),
        ) == Some(Relation::Less) <==> (e >= 0x8000 && f < 0x8000) || (e < f && f < 0x8000) || (e > f
            && f >= 0x8000),
{
}

/// Byte strings stand to each other by the first byte in which they differ; one that is the
/// beginning of the other stands before it.
pub proof fn law_bytes_are_ordered_by_the_first_difference(a: Seq<u8>, b: Seq<u8>, k: int)
    requires
        0 <= k <= a.len(),
        k <= b.len(),
        forall|i: int| 0 <= i < k ==> a[i] == b[i],
    ensures
        k < a.len() && k < b.len() && a[k] < b[k] ==> bytes_relation(a, b) == Relation::Less,
        k < a.len() && k < b.len() && a[k] > b[k] ==> bytes_relation(a, b) == Relation::Greater,
        k == a.len() && k < b.len() ==> bytes_relation(a, b) == Relation::Less,
        k < a.len() && k == b.len() ==> bytes_relation(a, b) == Relation::Greater,
        k == a.len() && k == b.len() ==> bytes_relation(a, b) == Relation::Equal,
    decreases k,
{
    if k > 0 {
        assert(a[0] == b[0]);
        let (x, y) = (a.drop_first(), b.drop_first());
        assert forall|i: int| 0 <= i < k - 1 implies x[i] == y[i] by {
            assert(a[i + 1] == b[i + 1]);
        }
        law_bytes_are_ordered_by_the_first_difference(x, y, k - 1);
    }
}

proof fn lemma_bytes_swap(a: Seq<u8>, b: Seq<u8>)
    ensures
        Some(bytes_relation(b, a)) == seen_from_the_other(Some(bytes_relation(a, b))),
        bytes_relation(a, b) == Relation::Equal <==> a == b,
    decreases a.len(),
{
    if a.len() > 0 && b.len() > 0 {
        lemma_bytes_swap(a.drop_first(), b.drop_first());
        assert(a =~= seq![a[0]] + a.drop_first());
        assert(b =~= seq![b[0]] + b.drop_first());
    } else if a.len() == 0 && b.len() == 0 {
        assert(a =~= b);
    }
}

proof fn lemma_bytes_follow(a: Seq<u8>, b: Seq<u8>, c: Seq<u8>)
    requires
        bytes_relation(a, b) == Relation::Less,
        bytes_relation(b, c) == Relation::Less,
    ensures
        bytes_relation(a, c) == Relation::Less,
    decreases a.len(),
{
    if a.len() > 0 && b.len() > 0 && c.len() > 0 && a[0] == b[0] && b[0] == c[0] {
        lemma_bytes_follow(a.drop_first(), b.drop_first(), c.drop_first());
    }
}

proof fn lemma_decimal_is_told_by_its_integer(x: I256, y: I256)
    ensures
        x.as_int() == y.as_int() <==> x == y,
{
    let m = 0x1_0000_0000_0000_0000_0000_0000_0000_0000int;
    let (a, b) = (x.high as int, y.high as int);
    assert(a < b ==> a * m + m <= b * m) by (nonlinear_arith)
        requires
            m > 0,
    ;
    assert(b < a ==> b * m + m <= a * m) by (nonlinear_arith)
        requires
            m > 0,
    ;
}

/// A value stands to another as that does to it, the other way round; and they stand at one place
/// exactly if they are the same.
pub proof fn law_the_order_of_values_is_antisymmetric(a: ValueView, b: ValueView)
    ensures
        value_relation(b, a) == seen_from_the_other(value_relation(a, b)),
        value_relation(a, b) == Some(Relation::Equal) <==> a == b,
    decreases a,
{
    match (a, b) {
        (ValueView::Utf8(x), ValueView::Utf8(y)) => {
            lemma_bytes_swap(x, y);
        },
        (ValueView::Binary(x), ValueView::Binary(y)) => {
            lemma_bytes_swap(x, y);
        },
        (ValueView::Decimal(x), ValueView::Decimal(y)) => {
            lemma_decimal_is_told_by_its_integer(x, y);
        },
        (ValueView::List(x), ValueView::List(y)) => {
            lemma_lists_swap(x, y);
        },
        _ => {},
    }
}

proof fn lemma_lists_swap(a: Seq<Option<ValueView>>, b: Seq<Option<ValueView>>)
    ensures
        list_relation(b, a) == seen_from_the_other(list_relation(a, b)),
        list_relation(a, b) == Some(Relation::Equal) <==> a == b,
    decreases a,
{
    if a.len() > 0 && b.len() > 0 {
        if let (Some(x), Some(y)) = (a[0], b[0]) {
            assert(decreases_to!(a => a[0]));
            law_the_order_of_values_is_antisymmetric(x, y);
        }
        lemma_lists_swap(a.drop_first(), b.drop_first());
        assert(a =~= seq![a[0]] + a.drop_first());
        assert(b =~= seq![b[0]] + b.drop_first());
    } else if a.len() == 0 && b.len() == 0 {
        assert(a =~= b);
    }
}

/// A value that stands before another stands before all that the other stands before.
pub proof fn law_the_order_of_values_is_transitive(a: ValueView, b: ValueView, c: ValueView)
    requires
        value_relation(a, b) == Some(Relation::Less),
        value_relation(b, c) == Some(Relation::Less),
    ensures
        value_relation(a, c) == Some(Relation::Less),
    decreases a,
{
    match (a, b, c) {
        (ValueView::Utf8(x), ValueView::Utf8(y), ValueView::Utf8(z)) => {
            lemma_bytes_follow(x, y, z);
        },
        (ValueView::Binary(x), ValueView::Binary(y), ValueView::Binary(z)) => {
            lemma_bytes_follow(x, y, z);
        },
        (ValueView::List(x), ValueView::List(y), ValueView::List(z)) => {
            lemma_lists_follow(x, y, z);
        },
        _ => {},
    }
}

proof fn lemma_lists_follow(
    a: Seq<Option<ValueView>>,
    b: Seq<Option<ValueView>>,
    c: Seq<Option<ValueView>>,
)
    requires
        list_relation(a, b) == Some(Relation::Less),
        list_relation(b, c) == Some(Relation::Less),
    ensures
        list_relation(a, c) == Some(Relation::Less),
    decreases a,
{
    if a.len() > 0 && b.len() > 0 && c.len() > 0 {
        if let (Some(x), Some(y)) = (a[0], b[0]) {
            law_the_order_of_values_is_antisymmetric(x, y);
            if let Some(z) = c[0] {
                law_the_order_of_values_is_antisymmetric(y, z);
                law_the_order_of_values_is_antisymmetric(x, z);
                if value_relation(x, y) == Some(Relation::Less) && value_relation(y, z) == Some(
                    Relation::Less,
                ) {
                    assert(decreases_to!(a => a[0]));
                    law_the_order_of_values_is_transitive(x, y, z);
                }
            }
        }
        if a[0] == b[0] && b[0] == c[0] {
            if let Some(x) = a[0] {
                law_the_order_of_values_is_antisymmetric(x, x);
            }
            lemma_lists_follow(a.drop_first(), b.drop_first(), c.drop_first());
        }
    }
}

/// Values and nulls are ordered as values are, with each null before each value.
pub proof fn law_nulls_come_first(a: Option<ValueView>, b: Option<ValueView>, c: Option<ValueView>)
    ensures
        a is None && b is Some ==> option_relation(a, b) == Some(Relation::Less),
        option_relation(b, a) == seen_from_the_other(option_relation(a, b)),
        option_relation(a, b) == Some(Relation::Equal) <==> a == b,
        option_relation(a, b) == Some(Relation::Less) && option_relation(b, c) == Some(
            Relation::Less,
        ) ==> option_relation(a, c) == Some(Relation::Less),
        a is Some && b is Some ==> option_relation(a, b) == value_relation(a->Some_0, b->Some_0),
{
    if let (Some(x), Some(y)) = (a, b) {
        law_the_order_of_values_is_antisymmetric(x, y);
        if let Some(z) = c {
            if value_relation(x, y) == Some(Relation::Less) && value_relation(y, z) == Some(
                Relation::Less,
            ) {
                law_the_order_of_values_is_transitive(x, y, z);
            }
        }
    }
}

/// A value belongs to a type whether or not the type has a null, and a null exactly if it has.
pub proof fn law_only_a_null_needs_a_nullable_type(v: ValueView, dtype: DTypeView, n: Nullability)
    ensures
        has_form(Some(v), dtype.with_nullability(n)) <==> has_form(Some(v), dtype),
        has_form(None, dtype) <==> dtype.is_nullable(),
    decreases dtype,
{
    if let DTypeView::Extension(ext) = dtype {
        law_only_a_null_needs_a_nullable_type(v, *ext.storage, n);
    }
}

/// A scalar that was made is of the type and has the value that it was made of, and the value
/// belongs to the type; one of a timestamp type is null or an instant.
pub proof fn law_what_is_made_is_what_was_given(
    scalar: Scalar,
    dtype: DTypeView,
    value: Option<ValueView>,
)
    requires
        is_build_of(Ok(scalar), dtype, value),
    ensures
        scalar@.dtype == dtype,
        scalar@.value == value,
        has_form(value, dtype),
        value is None ==> dtype.is_nullable(),
        dtype matches DTypeView::Extension(ext) ==> ext.kind matches ExtKindView::Timestamp(options)
            ==> value matches Some(v) ==> (v matches ValueView::Primitive(p)
            && p.integer() matches Some(raw) && in_storage_range(options.unit, raw)),
{
}

/// A value is refused only for its form, or as no timestamp: a value of the form of any other type
/// is always accepted, and so is each null of a type that has one.
pub proof fn law_what_belongs_to_a_type_is_accepted(
    r: Result<Scalar, ScalarError>,
    dtype: DTypeView,
    value: Option<ValueView>,
)
    requires
        is_build_of(r, dtype, value),
        has_form(value, dtype),
        value is None || !(dtype is Extension) || !(dtype->Extension_0.kind is Timestamp),
    ensures
        r is Ok,
{
}

/// A value is refused where it does not belong to the type by its form.
pub proof fn law_what_has_another_form_is_refused(
    r: Result<Scalar, ScalarError>,
    dtype: DTypeView,
    value: Option<ValueView>,
)
    requires
        is_build_of(r, dtype, value),
        !has_form(value, dtype),
    ensures
        r == Err::<Scalar, ScalarError>(ScalarError::WrongForm),
{
}

/// A plain value belongs to the types of its kind and to no other plain type, and a list or the
/// members of a struct belong to a type exactly if each of them belongs to the type in its place.
pub proof fn law_which_values_belong_to_a_type(
    v: ValueView,
    n: Nullability,
    ptype: PType,
    element: DTypeView,
    fields: Seq<FieldDTypeView>,
)
    ensures
        has_form(Some(v), DTypeView::Bool(n)) <==> v is Bool,
        has_form(Some(v), DTypeView::Primitive(ptype, n)) <==> v is Primitive
            && v->Primitive_0.ptype_spec() == ptype,
        has_form(Some(v), DTypeView::Utf8(n)) <==> v is Utf8,
        has_form(Some(v), DTypeView::Binary(n)) <==> v is Binary,
        !has_form(Some(v), DTypeView::Null),
        has_form(Some(v), DTypeView::List(Box::new(element), n)) <==> v is List && forall|i: int|
            0 <= i < v->List_0.len() ==> has_form(#[trigger] v->List_0[i], element),
        has_form(Some(v), DTypeView::Struct(fields, n)) <==> v is List && v->List_0.len()
            == fields.len() && forall|i: int|
            0 <= i < fields.len() ==> has_form(#[trigger] v->List_0[i], fields[i].dtype),
{
}

/// Being the same up to nullability is an equivalence, and a scalar is the same as its copies of
/// either nullability and as no scalar of another value or another type.
pub proof fn law_what_is_the_same(a: ScalarView, b: ScalarView, c: ScalarView, n: Nullability)
    ensures
        a.same(a),
        a.same(b) ==> b.same(a),
        a.same(b) && b.same(c) ==> a.same(c),
        a.same(ScalarView { dtype: a.dtype.with_nullability(n), value: a.value }),
        a.same(b) ==> a.value == b.value,
        a.same(b) ==> a.dtype.same_base(b.dtype),
{
    law_nullability_is_all_that_changes(a.dtype, n);
}

} // verus!
