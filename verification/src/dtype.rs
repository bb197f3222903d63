//! The logical types of values.

use vstd::prelude::*;

verus! {

/// Whether a type has a null.
#[derive(Clone, Copy, Debug, PartialEq, Eq, Structural)]
pub enum Nullability {
    NonNullable,
    Nullable,
}

impl Nullability {
    /// Nullable if one of the two is.
    pub open spec fn union_spec(self, other: Nullability) -> Nullability {
        if self == Nullability::Nullable || other == Nullability::Nullable {
            Nullability::Nullable
        } else {
            Nullability::NonNullable
        }
    }

    /// Returns nullable if one of the two is.
    pub fn union(self, other: Nullability) -> (r: Nullability)
        ensures
            r == self.union_spec(other),
    {
        match (self, other) {
            (Nullability::NonNullable, Nullability::NonNullable) => Nullability::NonNullable,
            _ => Nullability::Nullable,
        }
    }
}

/// The primitive types.
#[derive(Clone, Copy, Debug, PartialEq, Eq, Structural)]
pub enum PType {
    U8,
    U16,
    U32,
    U64,
    I8,
    I16,
    I32,
    I64,
    F16,
    F32,
    F64,
}

impl PType {
    /// The name of the type.
    pub open spec fn name_spec(self) -> Seq<char> {
        match self {
            PType::U8 => "U8"@,
            PType::U16 => "U16"@,
            PType::U32 => "U32"@,
            PType::U64 => "U64"@,
            PType::I8 => "I8"@,
            PType::I16 => "I16"@,
            PType::I32 => "I32"@,
            PType::I64 => "I64"@,
            PType::F16 => "F16"@,
            PType::F32 => "F32"@,
            PType::F64 => "F64"@,
        }
    }

    /// Returns the name of the type.
    pub fn name(&self) -> (r: &'static str)
        ensures
            r@ == self.name_spec(),
    {
        match self {
            PType::U8 => "U8",
            PType::U16 => "U16",
            PType::U32 => "U32",
            PType::U64 => "U64",
            PType::I8 => "I8",
            PType::I16 => "I16",
            PType::I32 => "I32",
            PType::I64 => "I64",
            PType::F16 => "F16",
            PType::F32 => "F32",
            PType::F64 => "F64",
        }
    }
}

/// A decimal type: the number of digits, and how many of them stand after the point.
#[derive(Clone, Copy, Debug, PartialEq, Eq, Structural)]
pub struct DecimalDType {
    pub precision: u8,
    pub scale: i8,
}

/// The unit of a point in time, from the finest to the coarsest.
#[derive(Clone, Copy, Debug, PartialEq, Eq, Structural)]
pub enum TimeUnit {
    Nanoseconds,
    Microseconds,
    Milliseconds,
    Seconds,
    Days,
}

impl TimeUnit {
    /// The place of the unit among the units, from the finest.
    pub open spec fn rank(self) -> int {
        match self {
            TimeUnit::Nanoseconds => 0,
            TimeUnit::Microseconds => 1,
            TimeUnit::Milliseconds => 2,
            TimeUnit::Seconds => 3,
            TimeUnit::Days => 4,
        }
    }

    /// Returns the tag that stands for the unit in serialized metadata.
    pub fn tag(self) -> (r: u8)
        ensures
            r == self.rank(),
    {
        match self {
            TimeUnit::Nanoseconds => 0,
            TimeUnit::Microseconds => 1,
            TimeUnit::Milliseconds => 2,
            TimeUnit::Seconds => 3,
            TimeUnit::Days => 4,
        }
    }

    /// The unit that a tag stands for.
    pub open spec fn of_tag(tag: u8) -> Option<TimeUnit> {
        if tag == 0 {
            Some(TimeUnit::Nanoseconds)
        } else if tag == 1 {
            Some(TimeUnit::Microseconds)
        } else if tag == 2 {
            Some(TimeUnit::Milliseconds)
        } else if tag == 3 {
            Some(TimeUnit::Seconds)
        } else if tag == 4 {
            Some(TimeUnit::Days)
        } else {
            None
        }
    }

    /// Returns the unit that a tag stands for.
    pub fn from_tag(tag: u8) -> (r: Option<TimeUnit>)
        ensures
            r == TimeUnit::of_tag(tag),
    {
        match tag {
            0 => Some(TimeUnit::Nanoseconds),
            1 => Some(TimeUnit::Microseconds),
            2 => Some(TimeUnit::Milliseconds),
            3 => Some(TimeUnit::Seconds),
            4 => Some(TimeUnit::Days),
            _ => None,
        }
    }

    /// The unit's short name.
    pub open spec fn name_spec(self) -> Seq<char> {
        match self {
            TimeUnit::Nanoseconds => "ns"@,
            TimeUnit::Microseconds => "µs"@,
            TimeUnit::Milliseconds => "ms"@,
            TimeUnit::Seconds => "s"@,
            TimeUnit::Days => "days"@,
        }
    }

    /// Returns the unit's short name.
    pub fn name(self) -> (r: &'static str)
        ensures
            r@ == self.name_spec(),
    {
        match self {
            TimeUnit::Nanoseconds => "ns",
            TimeUnit::Microseconds => "µs",
            TimeUnit::Milliseconds => "ms",
            TimeUnit::Seconds => "s",
            TimeUnit::Days => "days",
        }
    }

    /// The finer of the two units.
    pub open spec fn finer_spec(self, other: TimeUnit) -> TimeUnit {
        if self.rank() <= other.rank() {
            self
        } else {
            other
        }
    }

    /// Returns the finer of the two units.
    pub fn finer(self, other: TimeUnit) -> (r: TimeUnit)
        ensures
            r == self.finer_spec(other),
    {
        if self.tag() <= other.tag() {
            self
        } else {
            other
        }
    }
}

/// The unit of a timestamp, and the time zone that it is displayed in.
#[derive(Debug)]
pub struct TimestampOptions {
    pub unit: TimeUnit,
    pub tz: Option<String>,
}

/// What `TimestampOptions` are.
pub struct TimestampOptionsView {
    pub unit: TimeUnit,
    pub tz: Option<Seq<char>>,
}

/// What an optional text is.
pub open spec fn text_view(text: Option<String>) -> Option<Seq<char>> {
    match text {
        Some(t) => Some(t@),
        None => None,
    }
}

/// Returns whether two optional texts are the same.
pub fn text_eq(a: &Option<String>, b: &Option<String>) -> (r: bool)
    ensures
        r == (text_view(*a) == text_view(*b)),
{
    match (a, b) {
        (Some(x), Some(y)) => *x == *y,
        (None, None) => true,
        _ => false,
    }
}

/// Returns a copy of an optional text.
pub fn text_copy(a: &Option<String>) -> (r: Option<String>)
    ensures
        r == *a,
{
    match a {
        Some(x) => Some(x.clone()),
        None => None,
    }
}

impl TimestampOptions {
    /// The options themselves.
    pub open spec fn view(&self) -> TimestampOptionsView {
        TimestampOptionsView { unit: self.unit, tz: text_view(self.tz) }
    }

    /// Returns a copy of the options.
    pub fn duplicate(&self) -> (r: TimestampOptions)
        ensures
            r@ == self@,
    {
        TimestampOptions { unit: self.unit, tz: text_copy(&self.tz) }
    }

    /// Returns whether the options are the same.
    pub fn equals(&self, other: &TimestampOptions) -> (r: bool)
        ensures
            r == (self@ == other@),
    {
        self.unit == other.unit && text_eq(&self.tz, &other.tz)
    }
}

/// What tells extension types apart, beside what they are stored as.
#[derive(Debug)]
pub enum ExtKind {
    Date(TimeUnit),
    Time(TimeUnit),
    Timestamp(TimestampOptions),
    /// Another extension type, by its id and its metadata.
    Other(String, Vec<u8>),
}

/// What an `ExtKind` is.
pub enum ExtKindView {
    Date(TimeUnit),
    Time(TimeUnit),
    Timestamp(TimestampOptionsView),
    Other(Seq<char>, Seq<u8>),
}

/// Returns whether two byte strings are the same.
pub fn bytes_eq(a: &Vec<u8>, b: &Vec<u8>) -> (r: bool)
    ensures
        r == (a@ == b@),
{
    if a.len() != b.len() {
        return false;
    }
    let mut i: usize = 0;
    while i < a.len()
        invariant
            0 <= i <= a.len(),
            a.len() == b.len(),
            forall|j: int| 0 <= j < i ==> a@[j] == b@[j],
        decreases a.len() - i,
    {
        if a[i] != b[i] {
            return false;
        }
        i += 1;
    }
    assert(a@ =~= b@);
    true
}

/// Returns a copy of a byte string.
pub fn bytes_copy(a: &Vec<u8>) -> (r: Vec<u8>)
    ensures
        r@ == a@,
{
    let mut r: Vec<u8> = Vec::new();
    let mut i: usize = 0;
    while i < a.len()
        invariant
            0 <= i <= a.len(),
            r@ =~= a@.take(i as int),
        decreases a.len() - i,
    {
        r.push(a[i]);
        i += 1;
    }
    assert(a@.take(i as int) =~= a@);
    r
}

impl ExtKind {
    /// The kind itself.
    pub open spec fn view(&self) -> ExtKindView {
        match self {
            ExtKind::Date(unit) => ExtKindView::Date(*unit),
            ExtKind::Time(unit) => ExtKindView::Time(*unit),
            ExtKind::Timestamp(options) => ExtKindView::Timestamp(options@),
            ExtKind::Other(id, metadata) => ExtKindView::Other(id@, metadata@),
        }
    }

    /// Returns a copy of the kind.
    pub fn duplicate(&self) -> (r: ExtKind)
        ensures
            r@ == self@,
    {
        match self {
            ExtKind::Date(unit) => ExtKind::Date(*unit),
            ExtKind::Time(unit) => ExtKind::Time(*unit),
            ExtKind::Timestamp(options) => ExtKind::Timestamp(options.duplicate()),
            ExtKind::Other(id, metadata) => ExtKind::Other(id.clone(), bytes_copy(metadata)),
        }
    }

    /// Returns whether the kinds are the same.
    pub fn equals(&self, other: &ExtKind) -> (r: bool)
        ensures
            r == (self@ == other@),
    {
        match (self, other) {
            (ExtKind::Date(a), ExtKind::Date(b)) => *a == *b,
            (ExtKind::Time(a), ExtKind::Time(b)) => *a == *b,
            (ExtKind::Timestamp(a), ExtKind::Timestamp(b)) => a.equals(b),
            (ExtKind::Other(a, x), ExtKind::Other(b, y)) => *a == *b && bytes_eq(x, y),
            _ => false,
        }
    }

    /// The id of the extension type.
    pub open spec fn id_spec(self) -> Seq<char> {
        match self {
            ExtKind::Date(_) => "vortex.date"@,
            ExtKind::Time(_) => "vortex.time"@,
            ExtKind::Timestamp(_) => "vortex.timestamp"@,
            ExtKind::Other(id, _) => id@,
        }
    }

    /// Returns the id of the extension type.
    pub fn id(&self) -> (r: String)
        ensures
            r@ == self.id_spec(),
    {
        match self {
            ExtKind::Date(_) => "vortex.date".to_owned(),
            ExtKind::Time(_) => "vortex.time".to_owned(),
            ExtKind::Timestamp(_) => "vortex.timestamp".to_owned(),
            ExtKind::Other(id, _) => id.clone(),
        }
    }
}

/// A type with a meaning of its own that is stored as another type.
#[derive(Debug)]
pub struct ExtDType {
    pub kind: ExtKind,
    pub storage: Box<DType>,
}

/// What an `ExtDType` is.
pub struct ExtDTypeView {
    pub kind: ExtKindView,
    pub storage: Box<DTypeView>,
}

/// A named member of a struct type.
#[derive(Debug)]
pub struct FieldDType {
    pub name: String,
    pub dtype: DType,
}

/// What a `FieldDType` is.
pub struct FieldDTypeView {
    pub name: Seq<char>,
    pub dtype: DTypeView,
}

/// A logical type.
#[derive(Debug)]
pub enum DType {
    Null,
    Bool(Nullability),
    Primitive(PType, Nullability),
    Decimal(DecimalDType, Nullability),
    Utf8(Nullability),
    Binary(Nullability),
    List(Box<DType>, Nullability),
    Struct(Vec<FieldDType>, Nullability),
    Extension(ExtDType),
}

/// What a `DType` is.
pub enum DTypeView {
    Null,
    Bool(Nullability),
    Primitive(PType, Nullability),
    Decimal(DecimalDType, Nullability),
    Utf8(Nullability),
    Binary(Nullability),
    List(Box<DTypeView>, Nullability),
    Struct(Seq<FieldDTypeView>, Nullability),
    Extension(ExtDTypeView),
}

impl DTypeView {
    /// Whether the type has a null. An extension type has one if what it is stored as has one.
    pub open spec fn nullability(self) -> Nullability
        decreases self,
    {
        match self {
            DTypeView::Null => Nullability::Nullable,
            DTypeView::Bool(n) => n,
            DTypeView::Primitive(_, n) => n,
            DTypeView::Decimal(_, n) => n,
            DTypeView::Utf8(n) => n,
            DTypeView::Binary(n) => n,
            DTypeView::List(_, n) => n,
            DTypeView::Struct(_, n) => n,
            DTypeView::Extension(ext) => ext.storage.nullability(),
        }
    }

    /// Whether the type has a null.
    pub open spec fn is_nullable(self) -> bool {
        self.nullability() == Nullability::Nullable
    }

    /// The type with another nullability. The null type keeps its own.
    pub open spec fn with_nullability(self, n: Nullability) -> DTypeView
        decreases self,
    {
        match self {
            DTypeView::Null => DTypeView::Null,
            DTypeView::Bool(_) => DTypeView::Bool(n),
            DTypeView::Primitive(p, _) => DTypeView::Primitive(p, n),
            DTypeView::Decimal(d, _) => DTypeView::Decimal(d, n),
            DTypeView::Utf8(_) => DTypeView::Utf8(n),
            DTypeView::Binary(_) => DTypeView::Binary(n),
            DTypeView::List(e, _) => DTypeView::List(e, n),
            DTypeView::Struct(f, _) => DTypeView::Struct(f, n),
            DTypeView::Extension(ext) => DTypeView::Extension(
                ExtDTypeView {
                    kind: ext.kind,
                    storage: Box::new(ext.storage.with_nullability(n)),
                },
            ),
        }
    }

    /// The type with a null.
    pub open spec fn as_nullable(self) -> DTypeView {
        self.with_nullability(Nullability::Nullable)
    }

    /// The type, nullable if it is or `n` is.
    pub open spec fn union_nullability(self, n: Nullability) -> DTypeView {
        self.with_nullability(self.nullability().union_spec(n))
    }

    /// The type with no null anywhere in it.
    pub open spec fn erased(self) -> DTypeView
        decreases self,
    {
        match self {
            DTypeView::Null => DTypeView::Null,
            DTypeView::Bool(_) => DTypeView::Bool(Nullability::NonNullable),
            DTypeView::Primitive(p, _) => DTypeView::Primitive(p, Nullability::NonNullable),
            DTypeView::Decimal(d, _) => DTypeView::Decimal(d, Nullability::NonNullable),
            DTypeView::Utf8(_) => DTypeView::Utf8(Nullability::NonNullable),
            DTypeView::Binary(_) => DTypeView::Binary(Nullability::NonNullable),
            DTypeView::List(e, _) => DTypeView::List(
                Box::new(e.erased()),
                Nullability::NonNullable,
            ),
            DTypeView::Struct(f, _) => DTypeView::Struct(
                Seq::new(
                    f.len(),
                    |i: int|
                        if 0 <= i < f.len() {
                            FieldDTypeView { name: f[i].name, dtype: f[i].dtype.erased() }
                        } else {
                            arbitrary()
                        },
                ),
                Nullability::NonNullable,
            ),
            DTypeView::Extension(ext) => DTypeView::Extension(
                ExtDTypeView { kind: ext.kind, storage: Box::new(ext.storage.erased()) },
            ),
        }
    }

    /// Whether the types differ in nullability only.
    pub open spec fn same_base(self, other: DTypeView) -> bool {
        self.erased() == other.erased()
    }
}

impl DType {
    /// The type itself.
    pub open spec fn view(&self) -> DTypeView
        decreases self,
    {
        match self {
            DType::Null => DTypeView::Null,
            DType::Bool(n) => DTypeView::Bool(*n),
            DType::Primitive(p, n) => DTypeView::Primitive(*p, *n),
            DType::Decimal(d, n) => DTypeView::Decimal(*d, *n),
            DType::Utf8(n) => DTypeView::Utf8(*n),
            DType::Binary(n) => DTypeView::Binary(*n),
            DType::List(e, n) => DTypeView::List(Box::new(e.view()), *n),
            DType::Struct(f, n) => DTypeView::Struct(
                Seq::new(
                    f@.len(),
                    |i: int|
                        if 0 <= i < f@.len() {
                            FieldDTypeView { name: f@[i].name@, dtype: f@[i].dtype.view() }
                        } else {
                            arbitrary()
                        },
                ),
                *n,
            ),
            DType::Extension(ext) => DTypeView::Extension(
                ExtDTypeView { kind: ext.kind@, storage: Box::new(ext.storage.view()) },
            ),
        }
    }

    /// Returns whether the type has a null.
    pub fn nullability(&self) -> (r: Nullability)
        ensures
            r == self@.nullability(),
        decreases self,
    {
        match self {
            DType::Null => Nullability::Nullable,
            DType::Bool(n) => *n,
            DType::Primitive(_, n) => *n,
            DType::Decimal(_, n) => *n,
            DType::Utf8(n) => *n,
            DType::Binary(n) => *n,
            DType::List(_, n) => *n,
            DType::Struct(_, n) => *n,
            DType::Extension(ext) => ext.storage.nullability(),
        }
    }

    /// Returns whether the type has a null.
    pub fn is_nullable(&self) -> (r: bool)
        ensures
            r == self@.is_nullable(),
    {
        self.nullability() == Nullability::Nullable
    }

    /// Returns the type with another nullability.
    pub fn with_nullability(&self, n: Nullability) -> (r: DType)
        ensures
            r@ == self@.with_nullability(n),
        decreases self,
    {
        match self {
            DType::Null => DType::Null,
            DType::Bool(_) => DType::Bool(n),
            DType::Primitive(p, _) => DType::Primitive(*p, n),
            DType::Decimal(d, _) => DType::Decimal(*d, n),
            DType::Utf8(_) => DType::Utf8(n),
            DType::Binary(_) => DType::Binary(n),
            DType::List(e, _) => DType::List(Box::new(e.duplicate()), n),
            DType::Struct(f, old_n) => {
                let copy = copy_fields(f);
                let r = DType::Struct(copy, n);
                assert(r@->Struct_0 =~= self@->Struct_0);
                r
            },
            DType::Extension(ext) => DType::Extension(
                ExtDType {
                    kind: ext.kind.duplicate(),
                    storage: Box::new(ext.storage.with_nullability(n)),
                },
            ),
        }
    }

    /// Returns the type with a null.
    pub fn as_nullable(&self) -> (r: DType)
        ensures
            r@ == self@.as_nullable(),
    {
        self.with_nullability(Nullability::Nullable)
    }

    /// Returns the type, nullable if it is or `n` is.
    pub fn union_nullability(&self, n: Nullability) -> (r: DType)
        ensures
            r@ == self@.union_nullability(n),
    {
        self.with_nullability(self.nullability().union(n))
    }

    /// Returns a copy of the type.
    pub fn duplicate(&self) -> (r: DType)
        ensures
            r@ == self@,
        decreases self, 1int,
    {
        match self {
            DType::Null => DType::Null,
            DType::Bool(n) => DType::Bool(*n),
            DType::Primitive(p, n) => DType::Primitive(*p, *n),
            DType::Decimal(d, n) => DType::Decimal(*d, *n),
            DType::Utf8(n) => DType::Utf8(*n),
            DType::Binary(n) => DType::Binary(*n),
            DType::List(e, n) => DType::List(Box::new(e.duplicate()), *n),
            DType::Struct(f, n) => {
                assert(decreases_to!(*self => self->Struct_0));
                let copy = copy_fields(f);
                let r = DType::Struct(copy, *n);
                assert(r@->Struct_0 =~= self@->Struct_0);
                r
            },
            DType::Extension(ext) => DType::Extension(
                ExtDType {
                    kind: ext.kind.duplicate(),
                    storage: Box::new(ext.storage.duplicate()),
                },
            ),
        }
    }

    /// Returns whether the types are the same.
    #[verifier::rlimit(40)]
    #[verifier::spinoff_prover]
    pub fn equals(&self, other: &DType) -> (r: bool)
        ensures
            r == (self@ == other@),
        decreases self,
    {
        match (self, other) {
            (DType::Null, DType::Null) => true,
            (DType::Bool(a), DType::Bool(b)) => *a == *b,
            (DType::Primitive(p, a), DType::Primitive(q, b)) => *p == *q && *a == *b,
            (DType::Decimal(p, a), DType::Decimal(q, b)) => *p == *q && *a == *b,
            (DType::Utf8(a), DType::Utf8(b)) => *a == *b,
            (DType::Binary(a), DType::Binary(b)) => *a == *b,
            (DType::List(p, a), DType::List(q, b)) => *a == *b && p.equals(q),
            (DType::Struct(f, a), DType::Struct(g, b)) => {
                if *a != *b || f.len() != g.len() {
                    assert(*a == *b ==> self@->Struct_0.len() != other@->Struct_0.len());
                    return false;
                }
                let mut i: usize = 0;
                while i < f.len()
                    invariant
                        0 <= i <= f.len(),
                        f.len() == g.len(),
                        *self == DType::Struct(*f, *a),
                        *other == DType::Struct(*g, *b),
                        forall|j: int|
                            0 <= j < i ==> self@->Struct_0[j] == #[trigger] other@->Struct_0[j],
                    decreases f.len() - i,
                {
                    assert(decreases_to!(*self => self->Struct_0));
                    assert(decreases_to!(f@ => f@[i as int]));
                    let same = f[i].name == g[i].name && f[i].dtype.equals(&g[i].dtype);
                    if !same {
                        assert(self@->Struct_0[i as int] != other@->Struct_0[i as int]);
                        return false;
                    }
                    i += 1;
                }
                assert(self@->Struct_0 =~= other@->Struct_0);
                true
            },
            (DType::Extension(a), DType::Extension(b)) => a.kind.equals(&b.kind)
                && a.storage.equals(&b.storage),
            _ => false,
        }
    }

    /// Returns whether the types differ in nullability only.
    pub fn eq_ignore_nullability(&self, other: &DType) -> (r: bool)
        ensures
            r == self@.same_base(other@),
        decreases self,
    {
        match (self, other) {
            (DType::Null, DType::Null) => true,
            (DType::Bool(_), DType::Bool(_)) => true,
            (DType::Primitive(p, _), DType::Primitive(q, _)) => *p == *q,
            (DType::Decimal(p, _), DType::Decimal(q, _)) => *p == *q,
            (DType::Utf8(_), DType::Utf8(_)) => true,
            (DType::Binary(_), DType::Binary(_)) => true,
            (DType::List(p, _), DType::List(q, _)) => p.eq_ignore_nullability(q),
            (DType::Struct(f, a), DType::Struct(g, b)) => {
                if f.len() != g.len() {
                    assert(self@.erased()->Struct_0.len() != other@.erased()->Struct_0.len());
                    return false;
                }
                let mut i: usize = 0;
                while i < f.len()
                    invariant
                        0 <= i <= f.len(),
                        f.len() == g.len(),
                        *self == DType::Struct(*f, *a),
                        *other == DType::Struct(*g, *b),
                        forall|j: int|
                            0 <= j < i ==> self@.erased()->Struct_0[j]
                                == #[trigger] other@.erased()->Struct_0[j],
                    decreases f.len() - i,
                {
                    assert(decreases_to!(*self => self->Struct_0));
                    assert(decreases_to!(f@ => f@[i as int]));
                    let same = f[i].name == g[i].name && f[i].dtype.eq_ignore_nullability(
                        &g[i].dtype,
                    );
                    if !same {
                        assert(self@.erased()->Struct_0[i as int]
                            != other@.erased()->Struct_0[i as int]);
                        return false;
                    }
                    i += 1;
                }
                assert(self@.erased()->Struct_0 =~= other@.erased()->Struct_0);
                true
            },
            (DType::Extension(a), DType::Extension(b)) => a.kind.equals(&b.kind)
                && a.storage.eq_ignore_nullability(&b.storage),
            _ => false,
        }
    }
}

fn copy_fields(f: &Vec<FieldDType>) -> (r: Vec<FieldDType>)
    ensures
        r.len() == f.len(),
        forall|i: int|
            0 <= i < r.len() ==> (#[trigger] r@[i]).name@ == f@[i].name@ && r@[i].dtype@
                == f@[i].dtype@,
    decreases f, 0int,
{
    let mut out: Vec<FieldDType> = Vec::new();
    let mut i: usize = 0;
    while i < f.len()
        invariant
            0 <= i <= f.len(),
            out.len() == i,
            forall|j: int|
                0 <= j < i ==> (#[trigger] out@[j]).name@ == f@[j].name@ && out@[j].dtype@
                    == f@[j].dtype@,
        decreases f.len() - i,
    {
        assert(decreases_to!(f@ => f@[i as int]));
        let dtype = f[i].dtype.duplicate();
        out.push(FieldDType { name: f[i].name.clone(), dtype });
        i += 1;
    }
    out
}

impl ExtDType {
    /// The extension type itself.
    pub open spec fn view(&self) -> ExtDTypeView {
        ExtDTypeView { kind: self.kind@, storage: Box::new(self.storage@) }
    }

    /// Returns a copy of the extension type.
    pub fn duplicate(&self) -> (r: ExtDType)
        ensures
            r@ == self@,
    {
        ExtDType { kind: self.kind.duplicate(), storage: Box::new(self.storage.duplicate()) }
    }

    /// Returns whether the extension types differ in nullability only.
    pub fn eq_ignore_nullability(&self, other: &ExtDType) -> (r: bool)
        ensures
            r == (self@.kind == other@.kind && self.storage@.same_base(other.storage@)),
    {
        self.kind.equals(&other.kind) && self.storage.eq_ignore_nullability(&other.storage)
    }
}

/// Changing the nullability of a type changes nothing else.
pub proof fn law_nullability_is_all_that_changes(dtype: DTypeView, n: Nullability)
    ensures
        dtype.with_nullability(n).same_base(dtype),
        n == Nullability::Nullable ==> dtype.with_nullability(n).is_nullable(),
        dtype.with_nullability(n).nullability() == n || dtype.with_nullability(n) == dtype,
        !dtype.is_nullable() ==> dtype.with_nullability(n).nullability() == n,
        dtype.with_nullability(dtype.nullability()) == dtype,
    decreases dtype,
{
    if let DTypeView::Extension(ext) = dtype {
        law_nullability_is_all_that_changes(*ext.storage, n);
    }
}

/// Types that differ in nullability only are alike in all else, all the way down: of one kind, with
/// the same width, digits, names and metadata.
pub proof fn law_what_types_of_one_base_share(a: DTypeView, b: DTypeView)
    ensures
        a.same_base(b) <==> match (a, b) {
            (DTypeView::Null, DTypeView::Null) => true,
            (DTypeView::Bool(_), DTypeView::Bool(_)) => true,
            (DTypeView::Primitive(p, _), DTypeView::Primitive(q, _)) => p == q,
            (DTypeView::Decimal(p, _), DTypeView::Decimal(q, _)) => p.precision == q.precision
                && p.scale == q.scale,
            (DTypeView::Utf8(_), DTypeView::Utf8(_)) => true,
            (DTypeView::Binary(_), DTypeView::Binary(_)) => true,
            (DTypeView::List(p, _), DTypeView::List(q, _)) => p.same_base(*q),
            (DTypeView::Struct(f, _), DTypeView::Struct(g, _)) => f.len() == g.len() && forall|i: int|
                0 <= i < f.len() ==> (#[trigger] f[i]).name == g[i].name && f[i].dtype.same_base(
                    g[i].dtype,
                ),
            (DTypeView::Extension(p), DTypeView::Extension(q)) => p.kind == q.kind
                && p.storage.same_base(*q.storage),
            _ => false,
        },
{
    if let (DTypeView::Struct(f, _), DTypeView::Struct(g, _)) = (a, b) {
        let (x, y) = (a.erased()->Struct_0, b.erased()->Struct_0);
        assert(x.len() == f.len() && y.len() == g.len());
        if a.same_base(b) {
            assert forall|i: int| 0 <= i < f.len() implies (#[trigger] f[i]).name == g[i].name
                && f[i].dtype.same_base(g[i].dtype) by {
                assert(x[i] == y[i]);
            }
        }
        if f.len() == g.len() && forall|i: int|
            0 <= i < f.len() ==> (#[trigger] f[i]).name == g[i].name && f[i].dtype.same_base(
                g[i].dtype,
            ) {
            assert forall|i: int| 0 <= i < f.len() implies x[i] == y[i] by {
                assert(f[i].name == g[i].name);
            }
            assert(x =~= y);
        }
    }
}

/// A union of nullabilities has a null if one of the two has, in whichever order they come.
pub proof fn law_a_union_has_each_null(a: Nullability, b: Nullability)
    ensures
        a.union_spec(b) == b.union_spec(a),
        a.union_spec(b) == Nullability::NonNullable <==> a == Nullability::NonNullable && b
            == Nullability::NonNullable,
{
}

} // verus!
