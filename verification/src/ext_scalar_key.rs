//! What an extension scalar is hashed by.

use crate::dtype::{ExtKind, ExtKindView, PType};
use crate::ext_scalar::ExtScalar;
use crate::scalar::{option_view, PValue, Value, ValueView, I256};
use vstd::prelude::*;

verus! {

/// The number of a primitive type.
pub open spec fn ptype_number(ptype: PType) -> i128 {
    match ptype {
        PType::U8 => 0,
        PType::U16 => 1,
        PType::U32 => 2,
        PType::U64 => 3,
        PType::I8 => 4,
        PType::I16 => 5,
        PType::I32 => 6,
        PType::I64 => 7,
        PType::F16 => 8,
        PType::F32 => 9,
        PType::F64 => 10,
    }
}

fn number_of_ptype(ptype: PType) -> (r: i128)
    ensures
        r == ptype_number(ptype),
{
    match ptype {
        PType::U8 => 0,
        PType::U16 => 1,
        PType::U32 => 2,
        PType::U64 => 3,
        PType::I8 => 4,
        PType::I16 => 5,
        PType::I32 => 6,
        PType::I64 => 7,
        PType::F16 => 8,
        PType::F32 => 9,
        PType::F64 => 10,
    }
}

/// Bytes as numbers, with a -1 behind them.
pub open spec fn byte_words(bytes: Seq<u8>) -> Seq<i128>
    decreases bytes.len(),
{
    if bytes.len() == 0 {
        seq![-1i128]
    } else {
        seq![bytes[0] as i128] + byte_words(bytes.skip(1))
    }
}

/// Characters as numbers, with a -1 behind them.
pub open spec fn char_words(text: Seq<char>) -> Seq<i128>
    decreases text.len(),
{
    if text.len() == 0 {
        seq![-1i128]
    } else {
        seq![text[0] as u32 as i128] + char_words(text.skip(1))
    }
}

/// A value as numbers.
pub open spec fn value_words(v: ValueView) -> Seq<i128>
    decreases v,
{
    match v {
        ValueView::Bool(b) => seq![
            0i128,
            if b {
                1i128
            } else {
                0i128
            },
        ],
        ValueView::Primitive(p) => seq![1i128, ptype_number(p.ptype_spec()), p.place() as i128],
        ValueView::Decimal(d) => seq![
            2i128,
            d.high,
            (d.low / 0x1_0000_0000_0000_0000) as i128,
            (d.low % 0x1_0000_0000_0000_0000) as i128,
        ],
        ValueView::Utf8(bytes) => seq![3i128] + byte_words(bytes),
        ValueView::Binary(bytes) => seq![4i128] + byte_words(bytes),
        ValueView::List(elements) => seq![5i128] + list_words(elements),
    }
}

/// The elements of a list as numbers, with a -1 behind them.
pub open spec fn list_words(elements: Seq<Option<ValueView>>) -> Seq<i128>
    decreases elements,
{
    if elements.len() == 0 {
        seq![-1i128]
    } else {
        (match elements[0] {
            None => seq![6i128],
            Some(v) => seq![7i128] + value_words(v),
        }) + list_words(elements.subrange(1, elements.len() as int))
    }
}

/// What tells extension types apart, as numbers.
pub open spec fn kind_words(kind: ExtKindView) -> Seq<i128> {
    match kind {
        ExtKindView::Date(unit) => seq![0i128, unit.rank() as i128],
        ExtKindView::Time(unit) => seq![1i128, unit.rank() as i128],
        ExtKindView::Timestamp(options) => match options.tz {
            None => seq![2i128, options.unit.rank() as i128],
            Some(tz) => seq![3i128, options.unit.rank() as i128] + char_words(tz),
        },
        ExtKindView::Other(name, metadata) => seq![4i128] + char_words(name) + byte_words(metadata),
    }
}

/// What a scalar is hashed by: its extension type and its value, but not whether it can be null.
pub open spec fn key_words(kind: ExtKindView, value: Option<ValueView>) -> Seq<i128> {
    kind_words(kind) + (match value {
        None => seq![0i128],
        Some(v) => seq![1i128] + value_words(v),
    })
}

fn push_bytes(words: &mut Vec<i128>, bytes: &Vec<u8>)
    ensures
        final(words)@ == old(words)@ + byte_words(bytes@),
{
    let ghost goal = words@ + byte_words(bytes@);
    let mut i: usize = 0;
    assert(bytes@.skip(0) =~= bytes@);
    while i < bytes.len()
        invariant
            0 <= i <= bytes.len(),
            goal == words@ + byte_words(bytes@.skip(i as int)),
        decreases bytes.len() - i,
    {
        assert(bytes@.skip(i as int).skip(1) =~= bytes@.skip(i + 1));
        words.push(bytes[i] as i128);
        i += 1;
        assert(goal =~= words@ + byte_words(bytes@.skip(i as int)));
    }
    words.push(-1);
    assert(goal =~= words@);
}

fn push_chars(words: &mut Vec<i128>, text: &str)
    ensures
        final(words)@ == old(words)@ + char_words(text@),
{
    let ghost goal = words@ + char_words(text@);
    let len: usize = text.unicode_len();
    let mut i: usize = 0;
    assert(text@.skip(0) =~= text@);
    while i < len
        invariant
            0 <= i <= len,
            len == text@.len(),
            goal == words@ + char_words(text@.skip(i as int)),
        decreases len - i,
    {
        assert(text@.skip(i as int).skip(1) =~= text@.skip(i + 1));
        words.push(text.get_char(i) as u32 as i128);
        i += 1;
        assert(goal =~= words@ + char_words(text@.skip(i as int)));
    }
    words.push(-1);
    assert(goal =~= words@);
}

fn push_value(words: &mut Vec<i128>, v: &Value)
    ensures
        final(words)@ == old(words)@ + value_words(v@),
    decreases v,
{
    let ghost goal = words@ + value_words(v@);
    match v {
        Value::Bool(b) => {
            words.push(0);
            words.push(
                if *b {
                    1
                } else {
                    0
                },
            );
        },
        Value::Primitive(p) => {
            words.push(1);
            words.push(number_of_ptype(p.ptype()));
            words.push(p.rank());
        },
        Value::Decimal(d) => {
            words.push(2);
            words.push(d.high);
            words.push((d.low / 0x1_0000_0000_0000_0000) as i128);
            words.push((d.low % 0x1_0000_0000_0000_0000) as i128);
        },
        Value::Utf8(bytes) => {
            words.push(3);
            push_bytes(words, bytes);
        },
        Value::Binary(bytes) => {
            words.push(4);
            push_bytes(words, bytes);
        },
        Value::List(elements) => {
            words.push(5);
            let ghost view = v@->List_0;
            let mut i: usize = 0;
            assert(view.subrange(0, view.len() as int) =~= view);
            assert(goal =~= words@ + list_words(view.subrange(0, view.len() as int)));
            while i < elements.len()
                invariant
                    0 <= i <= elements.len(),
                    *v == Value::List(*elements),
                    view == v@->List_0,
                    goal == words@ + list_words(view.subrange(i as int, view.len() as int)),
                decreases elements.len() - i,
            {
                let ghost rest = view.subrange(i as int, view.len() as int);
                proof {
                    assert(decreases_to!(*v => v->List_0));
                    assert(decreases_to!(elements@ => elements@[i as int]));
                    assert(rest[0] == option_view(elements@[i as int]));
                    assert(rest.subrange(1, rest.len() as int) =~= view.subrange(
                        i + 1,
                        view.len() as int,
                    ));
                }
                match &elements[i] {
                    None => {
                        words.push(6);
                    },
                    Some(element) => {
                        proof {
                            assert(decreases_to!(elements@[i as int] => elements@[i as int]->Some_0));
                        }
                        words.push(7);
                        push_value(words, element);
                    },
                }
                i += 1;
                assert(goal =~= words@ + list_words(view.subrange(i as int, view.len() as int)));
            }
            words.push(-1);
        },
    }
    assert(goal =~= words@);
}

fn push_kind(words: &mut Vec<i128>, kind: &ExtKind)
    ensures
        final(words)@ == old(words)@ + kind_words(kind@),
{
    let ghost goal = words@ + kind_words(kind@);
    match kind {
        ExtKind::Date(unit) => {
            words.push(0);
            words.push(unit.tag() as i128);
        },
        ExtKind::Time(unit) => {
            words.push(1);
            words.push(unit.tag() as i128);
        },
        ExtKind::Timestamp(options) => match &options.tz {
            None => {
                words.push(2);
                words.push(options.unit.tag() as i128);
            },
            Some(tz) => {
                words.push(3);
                words.push(options.unit.tag() as i128);
                push_chars(words, tz.as_str());
            },
        },
        ExtKind::Other(name, metadata) => {
            words.push(4);
            push_chars(words, name.as_str());
            push_bytes(words, metadata);
        },
    }
    assert(goal =~= words@);
}

impl<'a> ExtScalar<'a> {
    /// Returns what the scalar is hashed by.
    pub fn hash_key(&self) -> (r: Vec<i128>)
        ensures
            r@ == key_words(self.ext().kind, self.stored()),
    {
        let mut words: Vec<i128> = Vec::new();
        push_kind(&mut words, &self.ext_dtype().kind);
        match self.stored_value() {
            None => {
                words.push(0);
            },
            Some(v) => {
                words.push(1);
                push_value(&mut words, v);
            },
        }
        assert(words@ =~= key_words(self.ext().kind, self.stored()));
        words
    }
}

/// Scalars that are equal are hashed by the same.
pub proof fn law_equal_scalars_have_one_key(a: ExtScalar<'_>, b: ExtScalar<'_>)
    requires
        a.same(b),
    ensures
        key_words(a.ext().kind, a.stored()) == key_words(b.ext().kind, b.stored()),
{
}

proof fn lemma_bytes_are_told(a: Seq<u8>, b: Seq<u8>, r: Seq<i128>, s: Seq<i128>)
    requires
        byte_words(a) + r == byte_words(b) + s,
    ensures
        a == b,
        r == s,
    decreases a.len(),
{
    let (x, y) = (byte_words(a) + r, byte_words(b) + s);
    assert(x[0] == y[0]);
    if a.len() == 0 {
        assert(b.len() == 0);
        assert(x.skip(1) =~= r);
        assert(y.skip(1) =~= s);
        assert(a =~= b);
    } else {
        assert(b.len() > 0);
        assert(x.skip(1) =~= byte_words(a.skip(1)) + r);
        assert(y.skip(1) =~= byte_words(b.skip(1)) + s);
        lemma_bytes_are_told(a.skip(1), b.skip(1), r, s);
        assert(a =~= seq![a[0]] + a.skip(1));
        assert(b =~= seq![b[0]] + b.skip(1));
    }
}

proof fn lemma_char_is_told(c: char, d: char)
    requires
        c as u32 == d as u32,
    ensures
        c == d,
{
}

proof fn lemma_chars_are_told(a: Seq<char>, b: Seq<char>, r: Seq<i128>, s: Seq<i128>)
    requires
        char_words(a) + r == char_words(b) + s,
    ensures
        a == b,
        r == s,
    decreases a.len(),
{
    let (x, y) = (char_words(a) + r, char_words(b) + s);
    assert(x[0] == y[0]);
    if a.len() == 0 {
        assert(b.len() == 0);
        assert(x.skip(1) =~= r);
        assert(y.skip(1) =~= s);
        assert(a =~= b);
    } else {
        assert(b.len() > 0);
        assert(x[0] == a[0] as u32 && y[0] == b[0] as u32);
        lemma_char_is_told(a[0], b[0]);
        assert(x.skip(1) =~= char_words(a.skip(1)) + r);
        assert(y.skip(1) =~= char_words(b.skip(1)) + s);
        lemma_chars_are_told(a.skip(1), b.skip(1), r, s);
        assert(a =~= seq![a[0]] + a.skip(1));
        assert(b =~= seq![b[0]] + b.skip(1));
    }
}

proof fn lemma_primitives_are_told(p: PValue, q: PValue)
    requires
        ptype_number(p.ptype_spec()) == ptype_number(q.ptype_spec()),
        p.place() as i128 == q.place() as i128,
    ensures
        p == q,
{
}

proof fn lemma_decimals_are_told(a: I256, b: I256)
    requires
        a.high == b.high,
        (a.low / 0x1_0000_0000_0000_0000) as i128 == (b.low / 0x1_0000_0000_0000_0000) as i128,
        (a.low % 0x1_0000_0000_0000_0000) as i128 == (b.low % 0x1_0000_0000_0000_0000) as i128,
    ensures
        a == b,
{
}

proof fn lemma_values_are_told(v: ValueView, w: ValueView, r: Seq<i128>, s: Seq<i128>)
    requires
        value_words(v) + r == value_words(w) + s,
    ensures
        v == w,
        r == s,
    decreases v,
{
    let (x, y) = (value_words(v) + r, value_words(w) + s);
    assert(x[0] == y[0]);
    assert(x[0] == value_words(v)[0]);
    assert(y[0] == value_words(w)[0]);
    match (v, w) {
        (ValueView::Bool(_), ValueView::Bool(_)) => {
            assert(x[1] == y[1]);
            assert(x.skip(2) =~= r);
            assert(y.skip(2) =~= s);
        },
        (ValueView::Primitive(p), ValueView::Primitive(q)) => {
            assert(x[1] == y[1] && x[2] == y[2]);
            lemma_primitives_are_told(p, q);
            assert(x.skip(3) =~= r);
            assert(y.skip(3) =~= s);
        },
        (ValueView::Decimal(d), ValueView::Decimal(e)) => {
            assert(x[1] == y[1] && x[2] == y[2] && x[3] == y[3]);
            lemma_decimals_are_told(d, e);
            assert(x.skip(4) =~= r);
            assert(y.skip(4) =~= s);
        },
        (ValueView::Utf8(a), ValueView::Utf8(b)) => {
            assert(x.skip(1) =~= byte_words(a) + r);
            assert(y.skip(1) =~= byte_words(b) + s);
            lemma_bytes_are_told(a, b, r, s);
        },
        (ValueView::Binary(a), ValueView::Binary(b)) => {
            assert(x.skip(1) =~= byte_words(a) + r);
            assert(y.skip(1) =~= byte_words(b) + s);
            lemma_bytes_are_told(a, b, r, s);
        },
        (ValueView::List(a), ValueView::List(b)) => {
            assert(x.skip(1) =~= list_words(a) + r);
            assert(y.skip(1) =~= list_words(b) + s);
            lemma_lists_are_told(a, b, r, s);
        },
        _ => {},
    }
}

proof fn lemma_lists_are_told(
    a: Seq<Option<ValueView>>,
    b: Seq<Option<ValueView>>,
    r: Seq<i128>,
    s: Seq<i128>,
)
    requires
        list_words(a) + r == list_words(b) + s,
    ensures
        a == b,
        r == s,
    decreases a,
{
    let (x, y) = (list_words(a) + r, list_words(b) + s);
    assert(x[0] == y[0]);
    assert(x[0] == list_words(a)[0]);
    assert(y[0] == list_words(b)[0]);
    if a.len() == 0 {
        assert(b.len() == 0);
        assert(x.skip(1) =~= r);
        assert(y.skip(1) =~= s);
        assert(a =~= b);
    } else {
        assert(b.len() > 0);
        let (ra, rb) = (a.subrange(1, a.len() as int), b.subrange(1, b.len() as int));
        let (ta, tb) = (list_words(ra) + r, list_words(rb) + s);
        match (a[0], b[0]) {
            (None, None) => {
                assert(x.skip(1) =~= ta);
                assert(y.skip(1) =~= tb);
            },
            (Some(v), Some(w)) => {
                assert(x.skip(1) =~= value_words(v) + ta);
                assert(y.skip(1) =~= value_words(w) + tb);
                assert(decreases_to!(a => a[0]));
                lemma_values_are_told(v, w, ta, tb);
            },
            _ => {},
        }
        lemma_lists_are_told(ra, rb, r, s);
        assert(a =~= seq![a[0]] + ra);
        assert(b =~= seq![b[0]] + rb);
    }
}

proof fn lemma_kinds_are_told(k: ExtKindView, l: ExtKindView, r: Seq<i128>, s: Seq<i128>)
    requires
        kind_words(k) + r == kind_words(l) + s,
    ensures
        k == l,
        r == s,
{
    let (x, y) = (kind_words(k) + r, kind_words(l) + s);
    assert(x[0] == y[0]);
    assert(x[0] == kind_words(k)[0]);
    assert(y[0] == kind_words(l)[0]);
    match (k, l) {
        (ExtKindView::Other(a, m), ExtKindView::Other(b, n)) => {
            assert(x.skip(1) =~= char_words(a) + (byte_words(m) + r));
            assert(y.skip(1) =~= char_words(b) + (byte_words(n) + s));
            lemma_chars_are_told(a, b, byte_words(m) + r, byte_words(n) + s);
            lemma_bytes_are_told(m, n, r, s);
        },
        (ExtKindView::Timestamp(o), ExtKindView::Timestamp(p)) => {
            assert(x[1] == y[1]);
            assert(x[1] == o.unit.rank() && y[1] == p.unit.rank());
            assert(o.unit == p.unit);
            match (o.tz, p.tz) {
                (Some(a), Some(b)) => {
                    assert(x.skip(2) =~= char_words(a) + r);
                    assert(y.skip(2) =~= char_words(b) + s);
                    lemma_chars_are_told(a, b, r, s);
                },
                _ => {
                    assert(x.skip(2) =~= r);
                    assert(y.skip(2) =~= s);
                },
            }
        },
        _ => {
            assert(x[1] == y[1]);
            assert(x.skip(2) =~= r);
            assert(y.skip(2) =~= s);
        },
    }
}

/// Scalars that are hashed by the same are of one extension type and have one value.
pub proof fn law_one_key_means_one_value(
    k: ExtKindView,
    v: Option<ValueView>,
    l: ExtKindView,
    w: Option<ValueView>,
)
    requires
        key_words(k, v) == key_words(l, w),
    ensures
        k == l,
        v == w,
{
    let tail = |value: Option<ValueView>| -> Seq<i128>
        {
            match value {
                None => seq![0i128],
                Some(v) => seq![1i128] + value_words(v),
            }
        };
    lemma_kinds_are_told(k, l, tail(v), tail(w));
    assert(tail(v)[0] == tail(w)[0]);
    if let (Some(a), Some(b)) = (v, w) {
        assert(tail(v).skip(1) =~= value_words(a) + Seq::<i128>::empty());
        assert(tail(w).skip(1) =~= value_words(b) + Seq::<i128>::empty());
        lemma_values_are_told(a, b, Seq::empty(), Seq::empty());
    }
}

} // verus!
