//! Whether lists contain values.

use std::sync::Arc;

use vortex_core::arrays::validity::Validity;
use vortex_core::arrays::views_side::{BinaryView, ViewsSide, MAX_INLINED_SIZE};
use vortex_core::dtype::{DType, ExtDType, Nullability, PType, TimeUnit};
use vortex_core::expr::expression::{get_item, list_contains, lit_i32, literal, root};
use vortex_core::extension::datetime::timestamp::Timestamp;
use vortex_core::list_contains::byte_set::ByteSet;
use vortex_core::list_contains::compute::{
    compute_contains_scalar, constant_list_scalar_contains, equality_contains, ListContains,
    ListContainsError, HASH_PROBE_MIN_ELEMENTS,
};
use vortex_core::list_contains::hash::hash_probe_contains;
use vortex_core::list_contains::inputs::{
    BoolArray, ListInput, ListViewArray, NeedleArray, NeedleStorage, Needles,
};
use vortex_core::list_contains::kernels::{extension_list_contains, fsst_list_contains};
use vortex_core::list_contains::probe::{pack_bits, probe_rows, process_matches, Mask};
use vortex_core::scalar::{PValue, Scalar, Value};

use Nullability::{NonNullable, Nullable};

fn i32_dtype(nullability: Nullability) -> DType {
    DType::Primitive(PType::I32, nullability)
}

fn i32_value(v: i32) -> Option<Value> {
    Some(Value::Primitive(PValue::I32(v)))
}

fn i32_values(values: &[i32]) -> Vec<Option<Value>> {
    values.iter().map(|v| i32_value(*v)).collect()
}

fn i32_scalar(v: i32) -> Scalar {
    Scalar::primitive(PValue::I32(v), NonNullable)
}

fn text(v: &str) -> Option<Value> {
    Some(Value::Utf8(v.as_bytes().to_vec()))
}

/// Lists that lie one after the other, from offsets with a final end.
fn lists(values: &[i32], offsets: &[usize], validity: Validity) -> ListInput {
    ListInput::Lists(ListViewArray {
        element_dtype: i32_dtype(NonNullable),
        elements: i32_values(values),
        offsets: offsets[..offsets.len() - 1].to_vec(),
        sizes: offsets.windows(2).map(|w| w[1] - w[0]).collect(),
        validity,
    })
}

fn list_views(
    element_dtype: DType,
    elements: Vec<Option<Value>>,
    offsets: &[usize],
    sizes: &[usize],
    validity: Validity,
) -> ListInput {
    ListInput::Lists(ListViewArray {
        element_dtype,
        elements,
        offsets: offsets.to_vec(),
        sizes: sizes.to_vec(),
        validity,
    })
}

fn i32_list(values: &[i32], nullability: Nullability) -> Scalar {
    Scalar::new_unchecked(
        DType::List(Box::new(i32_dtype(NonNullable)), nullability),
        Some(Value::List(i32_values(values))),
    )
}

fn constant(value: Scalar, list: &ListInput) -> Needles {
    Needles::Constant(value, list.len())
}

fn run(list: &ListInput, needles: &Needles) -> BoolArray {
    ListContains.execute(list, needles).unwrap()
}

fn needle_array(dtype: DType, storage: NeedleStorage) -> NeedleArray {
    NeedleArray {
        dtype,
        storage: Arc::new(storage),
    }
}

fn test_array() -> ListInput {
    lists(&[1, 1, 2, 2, 2, 2, 2, 3, 3, 3], &[0, 5, 10], Validity::AllValid)
}

fn contains_i32(list: &ListInput, v: i32) -> BoolArray {
    run(list, &constant(i32_scalar(v), list))
}

#[test]
fn test_one() {
    let item = contains_i32(&test_array(), 1);
    assert_eq!(item.nullability, Nullable);
    assert_eq!(item.values, vec![Some(true), Some(false)]);
}

#[test]
fn test_all() {
    let item = contains_i32(&test_array(), 2);
    assert_eq!(item.nullability, Nullable);
    assert_eq!(item.values, vec![Some(true), Some(true)]);
}

#[test]
fn test_none() {
    let item = contains_i32(&test_array(), 4);
    assert_eq!(item.nullability, Nullable);
    assert_eq!(item.values, vec![Some(false), Some(false)]);
}

#[test]
fn test_empty() {
    let arr = lists(&[1, 1, 2, 2, 2], &[0, 5, 5], Validity::AllValid);
    let item = contains_i32(&arr, 2);
    assert_eq!(item.nullability, Nullable);
    assert_eq!(item.values, vec![Some(true), Some(false)]);
}

#[test]
fn test_nullable() {
    let arr = lists(
        &[1, 1, 2, 2, 2],
        &[0, 5, 5],
        Validity::Array(vec![true, false]),
    );
    let item = contains_i32(&arr, 2);
    assert_eq!(item.values, vec![Some(true), None]);
}

#[test]
fn a_null_list_answers_null_whatever_the_elements_are() {
    for (values, needle, expected) in [
        ([7, 7, 7], 7, Some(true)),
        ([7, 8, 7], 7, Some(true)),
        ([8, 8, 8], 7, Some(false)),
    ] {
        let arr = lists(&values, &[0, 3, 3], Validity::Array(vec![true, false]));
        assert_eq!(contains_i32(&arr, needle).values, vec![expected, None]);
    }
}

#[test]
fn test_return_type() {
    let list = DType::List(Box::new(i32_dtype(NonNullable)), Nullable);
    let found = ListContains
        .return_dtype(&vec![list, i32_dtype(NonNullable)])
        .unwrap();
    assert!(found.equals(&DType::Bool(Nullable)));

    let refused = ListContains.return_dtype(&vec![i32_dtype(NonNullable), i32_dtype(NonNullable)]);
    assert!(matches!(refused, Err(ListContainsError::NotAList(_))));
}

#[test]
fn test_display() {
    let urgent = literal(
        Scalar::new_unchecked(DType::Utf8(NonNullable), text("urgent")),
        "\"urgent\"".to_string(),
    );
    let expr = list_contains(get_item("tags", root()), urgent);
    assert_eq!(expr.to_string(), "vortex.list.contains($.tags, \"urgent\")");

    let expr2 = list_contains(root(), lit_i32(42));
    assert_eq!(expr2.to_string(), "vortex.list.contains($, 42i32)");
}

#[test]
fn what_the_function_is() {
    assert_eq!(ListContains.id(), "vortex.list.contains");
    assert_eq!(ListContains.serialize(), Vec::<u8>::new());
    assert_eq!(ListContains.arity(), 2);
    assert_eq!(ListContains.child_name(0), "list");
    assert_eq!(ListContains.child_name(1), "needle");
    assert!(ListContains.is_null_sensitive());
    assert!(!ListContains.is_fallible());
}

#[test]
fn test_constant_scalars() {
    let list = ListInput::Constant(i32_list(&[1, 2, 3], NonNullable), 2);
    for (needle, expected) in [(2, true), (42, false)] {
        let item = contains_i32(&list, needle);
        assert_eq!(item.nullability, NonNullable);
        assert_eq!(item.values, vec![Some(expected); 2]);
    }
}

fn nonnull_strings(values: &[&[&str]]) -> ListInput {
    strings(values.iter().map(|v| v.iter().map(|s| text(s)).collect()).collect(), NonNullable)
}

fn null_strings(values: &[&[Option<&str>]]) -> ListInput {
    strings(
        values.iter().map(|v| v.iter().map(|s| s.and_then(text)).collect()).collect(),
        Nullable,
    )
}

fn strings(values: Vec<Vec<Option<Value>>>, nullability: Nullability) -> ListInput {
    let sizes: Vec<usize> = values.iter().map(|v| v.len()).collect();
    let offsets: Vec<usize> = (0..sizes.len()).map(|i| sizes[..i].iter().sum()).collect();
    list_views(
        DType::Utf8(nullability),
        values.into_iter().flatten().collect(),
        &offsets,
        &sizes,
        Validity::NonNullable,
    )
}

fn check_contains_nullable(
    list: ListInput,
    value: Option<&str>,
    expected: [Option<bool>; 3],
    expected_nullability: Nullability,
) {
    let element_nullability = match list.dtype() {
        DType::List(element, _) => element.nullability(),
        other => panic!("no list: {other:?}"),
    };
    let scalar = match value {
        None => Scalar::null(DType::Utf8(Nullable)),
        Some(v) => Scalar::new_unchecked(DType::Utf8(element_nullability), text(v)),
    };
    let result = run(&list, &constant(scalar, &list));
    assert_eq!(result.values, expected.to_vec());
    assert_eq!(result.nullability, expected_nullability);
}

#[test]
fn test_contains_nullable() {
    let (t, f) = (Some(true), Some(false));
    let a = Some("a");
    let b = Some("b");
    let cases: [(ListInput, Option<&str>, [Option<bool>; 3], Nullability); 8] = [
        (nonnull_strings(&[&[], &["a"], &["a", "b"]]), a, [f, t, t], NonNullable),
        (null_strings(&[&[], &[a, None], &[a, None, b]]), a, [f, t, t], Nullable),
        (null_strings(&[&[], &[a, None], &[b, None, None]]), a, [f, t, f], Nullable),
        (nonnull_strings(&[&[], &["a"], &["a"]]), a, [f, t, t], NonNullable),
        (nonnull_strings(&[&[], &[], &[]]), a, [f, f, f], NonNullable),
        (nonnull_strings(&[&["b"], &[], &["b"]]), a, [f, f, f], NonNullable),
        (
            null_strings(&[&[], &[None, None], &[None, None, None]]),
            None,
            [None, None, None],
            Nullable,
        ),
        (
            null_strings(&[&[], &[None, None], &[None, None, None]]),
            a,
            [f, f, f],
            Nullable,
        ),
    ];
    for (list, value, expected, nullability) in cases {
        check_contains_nullable(list, value, expected, nullability);
    }
}

#[test]
fn test_constant_list() {
    let list = ListInput::Constant(i32_list(&[1, 2, 3], NonNullable), 2);
    assert_eq!(contains_i32(&list, 2).values, vec![Some(true), Some(true)]);
}

#[test]
fn test_all_nulls() {
    let null = Scalar::null(DType::List(Box::new(i32_dtype(NonNullable)), Nullable));
    let list = ListInput::Constant(null, 5);
    let contains = contains_i32(&list, 2);
    assert_eq!(contains.values, vec![None; 5]);
    assert_eq!(contains.nullability, Nullable);
}

fn i32_needles(values: &[i32], validity: Validity) -> Needles {
    let nullability = match validity {
        Validity::NonNullable => NonNullable,
        _ => Nullable,
    };
    Needles::Array(needle_array(
        i32_dtype(nullability),
        NeedleStorage::Primitive(values.iter().map(|v| PValue::I32(*v)).collect(), validity),
    ))
}

#[test]
fn test_list_array_element() {
    let list = ListInput::Constant(i32_list(&[1, 3, 6], NonNullable), 7);
    let needles = i32_needles(&[0, 1, 2, 3, 4, 5, 6], Validity::NonNullable);
    let expected = [false, true, false, true, false, false, true].map(Some).to_vec();
    assert_eq!(run(&list, &needles).values, expected);
}

#[test]
fn needles_that_are_all_null_answer_null() {
    let list = ListInput::Constant(i32_list(&[1, 3, 6], NonNullable), 2);
    let needles = i32_needles(&[1, 3], Validity::AllInvalid);
    assert_eq!(run(&list, &needles).values, vec![None, None]);
    // With one that is not null, the others are in no list.
    let needles = i32_needles(&[1, 3], Validity::Array(vec![false, true]));
    assert_eq!(run(&list, &needles).values, vec![Some(false), Some(true)]);
}

#[test]
fn test_list_contains_empty_listview() {
    let list = list_views(
        i32_dtype(NonNullable),
        vec![],
        &[0, 0, 0, 0],
        &[0, 0, 0, 0],
        Validity::NonNullable,
    );
    assert_eq!(contains_i32(&list, 42).values, vec![Some(false); 4]);
}

#[test]
fn test_list_contains_all_null_elements() {
    let list = list_views(
        i32_dtype(Nullable),
        vec![None, None, None, None, None],
        &[0, 2, 4],
        &[2, 2, 1],
        Validity::NonNullable,
    );
    let null = Scalar::null(i32_dtype(Nullable));
    assert_eq!(run(&list, &constant(null, &list)).values, vec![None; 3]);
    assert_eq!(contains_i32(&list, 42).values, vec![Some(false); 3]);
}

#[test]
fn test_list_contains_large_offsets() {
    let list = list_views(
        i32_dtype(NonNullable),
        i32_values(&[1, 2, 3, 4, 5]),
        &[0, 1, 4, 0],
        &[1, 2, 1, 0],
        Validity::NonNullable,
    );
    let expected = [false, true, false, false].map(Some).to_vec();
    assert_eq!(contains_i32(&list, 2).values, expected);
    let expected5 = [false, false, true, false].map(Some).to_vec();
    assert_eq!(contains_i32(&list, 5).values, expected5);
}

#[test]
fn test_list_contains_offset_size_boundary() {
    let values: Vec<i32> = (0..256).collect();
    let list = list_views(
        i32_dtype(NonNullable),
        i32_values(&values),
        &[0, 100, 200, 254],
        &[50, 50, 54, 2],
        Validity::NonNullable,
    );
    let expected = [false, false, false, true].map(Some).to_vec();
    assert_eq!(contains_i32(&list, 255).values, expected);
    let expected_zero = [true, false, false, false].map(Some).to_vec();
    assert_eq!(contains_i32(&list, 0).values, expected_zero);
}

#[test]
fn arguments_that_are_refused() {
    let no_list = ListInput::Constant(i32_scalar(1), 1);
    let needles = i32_needles(&[1], Validity::NonNullable);
    assert!(matches!(
        ListContains.execute(&no_list, &needles),
        Err(ListContainsError::NotAList(_))
    ));
    let list = ListInput::Constant(i32_list(&[1], NonNullable), 1);
    let texts = Needles::Array(needle_array(
        DType::Utf8(NonNullable),
        NeedleStorage::Values(vec![text("a")]),
    ));
    assert!(matches!(
        ListContains.execute(&list, &texts),
        Err(ListContainsError::ElementMismatch { .. })
    ));
}

#[test]
fn one_list_and_one_value() {
    let list = i32_list(&[1, 2], NonNullable);
    let answer = |needle: &Scalar| match compute_contains_scalar(&list, needle).value {
        Some(Value::Bool(b)) => Some(b),
        None => None,
        other => panic!("no bool: {other:?}"),
    };
    assert_eq!(answer(&i32_scalar(2)), Some(true));
    assert_eq!(answer(&i32_scalar(3)), Some(false));
    assert_eq!(answer(&Scalar::null(i32_dtype(Nullable))), None);
    // A value of another type is in no list.
    assert_eq!(answer(&Scalar::primitive(PValue::I64(2), NonNullable)), Some(false));
}

// What each of many lists answers, row by row: `T` for true, `.` for false and `?` for null.

fn render(case: &str, list: Scalar, needles: NeedleArray) -> String {
    let len = needles.len();
    let result = run(&ListInput::Constant(list, len), &Needles::Array(needles));
    let answers: String = result
        .values
        .iter()
        .map(|v| match v {
            None => '?',
            Some(true) => 'T',
            Some(false) => '.',
        })
        .collect();
    format!("{case:34} {answers}")
}

fn int_needles() -> NeedleArray {
    let values = [0i64, 1, 2, 3, 4, 5, 7, 9, 15, 16, 63, 64, -1, 1_000, 0, 8];
    needle_array(
        DType::Primitive(PType::I64, Nullable),
        NeedleStorage::Primitive(
            values.iter().map(|v| PValue::I64(*v)).collect(),
            Validity::Array((0..16).map(|i| i % 3 != 0).collect()),
        ),
    )
}

fn list_of(element: DType, values: Vec<Option<Value>>, nullability: Nullability) -> Scalar {
    Scalar::new_unchecked(
        DType::List(Box::new(element), nullability),
        Some(Value::List(values)),
    )
}

fn i64_values(values: &[i64]) -> Vec<Option<Value>> {
    values.iter().map(|v| Some(Value::Primitive(PValue::I64(*v)))).collect()
}

fn int_list(len: usize, nullability: Nullability) -> Scalar {
    let values: Vec<i64> = (0..len as i64).map(|v| v * 2).collect();
    list_of(
        DType::Primitive(PType::I64, NonNullable),
        i64_values(&values),
        nullability,
    )
}

fn f64_value(v: f64) -> Option<Value> {
    Some(Value::Primitive(PValue::F64(v.to_bits())))
}

fn f64_list(values: Vec<f64>) -> Scalar {
    list_of(
        DType::Primitive(PType::F64, NonNullable),
        values.into_iter().map(f64_value).collect(),
        NonNullable,
    )
}

fn float_needles() -> NeedleArray {
    let values = [0.0f64, 1.0, 2.0, f64::NAN, 4.0, -0.0, 8.0, 1e9];
    needle_array(
        DType::Primitive(PType::F64, Nullable),
        NeedleStorage::Primitive(
            values.iter().map(|v| PValue::F64(v.to_bits())).collect(),
            Validity::AllValid,
        ),
    )
}

/// Views of byte strings: short ones hold their bytes, long ones point into a buffer.
fn views(values: &[Option<&[u8]>], dtype: DType) -> NeedleArray {
    let mut buffer = Vec::new();
    let mut views = Vec::new();
    for value in values {
        let bytes = value.unwrap_or(b"");
        if bytes.len() <= MAX_INLINED_SIZE {
            views.push(BinaryView::Inlined(bytes.to_vec()));
        } else {
            views.push(BinaryView::Reference {
                size: bytes.len() as u32,
                buffer_index: 0,
                offset: buffer.len() as u32,
            });
            buffer.extend_from_slice(bytes);
        }
    }
    let validity = match dtype.nullability() {
        NonNullable => Validity::NonNullable,
        Nullable => Validity::Array(values.iter().map(|v| v.is_some()).collect()),
    };
    needle_array(
        dtype,
        NeedleStorage::Views {
            views,
            buffers: vec![buffer],
            validity,
        },
    )
}

fn utf8_list(values: Vec<String>) -> Scalar {
    list_of(
        DType::Utf8(NonNullable),
        values.iter().map(|v| text(v)).collect(),
        NonNullable,
    )
}

fn string_views(values: &[String]) -> NeedleArray {
    let bytes: Vec<Option<&[u8]>> = values.iter().map(|v| Some(v.as_bytes())).collect();
    views(&bytes, DType::Utf8(NonNullable))
}

fn main_table() -> String {
    let mut rows = Vec::new();

    for len in [1usize, 2, 3, 4, 5, 8, 64, 2048] {
        for nullability in [NonNullable, Nullable] {
            let tag = if nullability == Nullable { "nullable" } else { "nonnull" };
            rows.push(render(
                &format!("i64 m={len} list={tag}"),
                int_list(len, nullability),
                int_needles(),
            ));
        }
    }

    let mut with_null = i64_values(&[0, 2, 4, 6, 8, 10, 12, 14]);
    with_null.push(None);
    rows.push(render(
        "i64 m=9 one-null-element",
        list_of(DType::Primitive(PType::I64, Nullable), with_null, Nullable),
        int_needles(),
    ));

    for len in [1usize, 2, 3, 4, 5, 64] {
        rows.push(render(
            &format!("f64 m={len}"),
            f64_list((0..len).map(|v| v as f64 * 2.0).collect()),
            float_needles(),
        ));
    }
    let mut nan_list: Vec<f64> = (0..8).map(|v| v as f64 * 2.0).collect();
    nan_list.push(f64::NAN);
    rows.push(render("f64 m=9 nan-in-list", f64_list(nan_list), float_needles()));

    for (tag, zero) in [("neg", -0.0f64), ("pos", 0.0f64)] {
        rows.push(render(
            &format!("f64 m=4 {tag}-zero-in-list"),
            f64_list(vec![zero, 3.0, 5.0, 7.0]),
            float_needles(),
        ));
    }

    let string_needles = ["k000", "k002", "k004", "zzz", "k126", "k010"].map(String::from);
    let keys = |len: usize| (0..len).map(|v| format!("k{:03}", v * 2)).collect();
    for len in [1usize, 2, 3, 4, 5, 64] {
        rows.push(render(
            &format!("utf8 m={len}"),
            utf8_list(keys(len)),
            string_views(&string_needles),
        ));
    }

    let long = |v: usize| format!("a string too long to inline {v:04}");
    rows.push(render(
        "utf8 m=8 long",
        utf8_list((0..8).map(|v| long(v * 2)).collect()),
        string_views(&[long(0), long(1), long(4), long(99), long(6)]),
    ));

    let nullable: [Option<&[u8]>; 5] = [Some(b"k000"), None, Some(b"k004"), None, Some(b"zzz")];
    rows.push(render(
        "utf8 m=4 nullable-needles",
        utf8_list(keys(4)),
        views(&nullable, DType::Utf8(Nullable)),
    ));

    let binaries: [Option<&[u8]>; 5] = [
        Some(&[0, 0xff]),
        Some(&[2, 0xff]),
        Some(&[1, 0xff]),
        None,
        Some(&[6, 0xff]),
    ];
    rows.push(render(
        "binary m=4",
        list_of(
            DType::Binary(NonNullable),
            (0..4u8).map(|v| Some(Value::Binary(vec![v * 2, 0xff]))).collect(),
            NonNullable,
        ),
        views(&binaries, DType::Binary(Nullable)),
    ));

    rows.push(render(
        "i32 m=8",
        list_of(
            i32_dtype(NonNullable),
            (0..8i32).map(|v| i32_value(v * 2)).collect(),
            NonNullable,
        ),
        needle_array(
            i32_dtype(Nullable),
            NeedleStorage::Primitive(
                [0i32, 3, 4, -1, 14, 15].map(PValue::I32).to_vec(),
                Validity::Array(vec![true, true, true, false, true, true]),
            ),
        ),
    ));
    rows.push(render(
        "u8 m=8",
        list_of(
            DType::Primitive(PType::U8, NonNullable),
            (0..8u8).map(|v| Some(Value::Primitive(PValue::U8(v * 2)))).collect(),
            NonNullable,
        ),
        needle_array(
            DType::Primitive(PType::U8, Nullable),
            NeedleStorage::Primitive(
                [0u8, 3, 4, 255, 14, 15].map(PValue::U8).to_vec(),
                Validity::AllValid,
            ),
        ),
    ));

    rows.push(render(
        "i64 m=8 duplicates",
        list_of(
            DType::Primitive(PType::I64, NonNullable),
            i64_values(&[0, 0, 2, 2, 2, 4, 4, 4]),
            NonNullable,
        ),
        int_needles(),
    ));
    rows.push(render("i64 m=0 empty", int_list(0, NonNullable), int_needles()));

    rows.join("\n")
}

const EXPECTED: &str = "\
i64 m=1 list=nonnull               ..............T.\n\
i64 m=1 list=nullable              ..............T.\n\
i64 m=2 list=nonnull               ..T...........T.\n\
i64 m=2 list=nullable              ..T...........T.\n\
i64 m=3 list=nonnull               ..T.T.........T.\n\
i64 m=3 list=nullable              ..T.T.........T.\n\
i64 m=4 list=nonnull               ..T.T.........T.\n\
i64 m=4 list=nullable              ..T.T.........T.\n\
i64 m=5 list=nonnull               ..T.T.........T.\n\
i64 m=5 list=nullable              ..T.T.........T.\n\
i64 m=8 list=nonnull               ..T.T.........T.\n\
i64 m=8 list=nullable              ..T.T.........T.\n\
i64 m=64 list=nonnull              ..T.T......T..T.\n\
i64 m=64 list=nullable             ..T.T......T..T.\n\
i64 m=2048 list=nonnull            ..T.T......T.TT.\n\
i64 m=2048 list=nullable           ..T.T......T.TT.\n\
i64 m=9 one-null-element           ..T.T.........T.\n\
f64 m=1                            T.......\n\
f64 m=2                            T.T.....\n\
f64 m=3                            T.T.T...\n\
f64 m=4                            T.T.T...\n\
f64 m=5                            T.T.T.T.\n\
f64 m=64                           T.T.T.T.\n\
f64 m=9 nan-in-list                T.TTT.T.\n\
f64 m=4 neg-zero-in-list           .....T..\n\
f64 m=4 pos-zero-in-list           T.......\n\
utf8 m=1                           T.....\n\
utf8 m=2                           TT....\n\
utf8 m=3                           TTT...\n\
utf8 m=4                           TTT...\n\
utf8 m=5                           TTT...\n\
utf8 m=64                          TTT.TT\n\
utf8 m=8 long                      T.T.T\n\
utf8 m=4 nullable-needles          T.T..\n\
binary m=4                         TT..T\n\
i32 m=8                            T.T.T.\n\
u8 m=8                             T.T.T.\n\
i64 m=8 duplicates                 ..T.T.........T.\n\
i64 m=0 empty                      ................";

#[test]
fn constant_list_contains_answers_are_unchanged() {
    let actual = main_table();
    assert_eq!(actual, EXPECTED);
}

#[test]
fn the_set_answers_as_the_comparisons_do() {
    let elements = i64_values(&[0, 2, 4, 64, 1_000]);
    assert!(elements.len() >= HASH_PROBE_MIN_ELEMENTS);
    let needles = int_needles();
    let probed = hash_probe_contains(&elements, &needles).unwrap();
    assert_eq!(probed, equality_contains(&elements, &needles));
    let answered = constant_list_scalar_contains(&elements, &needles, NonNullable);
    assert_eq!(
        answered.values,
        probed.iter().map(|b| Some(*b)).collect::<Vec<_>>()
    );
    // A null element is no key, and a needle that is no primitive and no bytes has none.
    let mut with_null = i64_values(&[0, 2, 4]);
    with_null.push(None);
    assert!(hash_probe_contains(&with_null, &needles).is_none());
    let bools = needle_array(
        DType::Bool(NonNullable),
        NeedleStorage::Values(vec![Some(Value::Bool(true))]),
    );
    assert!(hash_probe_contains(&vec![Some(Value::Bool(true))], &bools).is_none());
}

#[test]
fn a_set_of_byte_strings() {
    let (a, b) = (b"a".to_vec(), b"ab".to_vec());
    let mut set = ByteSet::new();
    assert!(!set.contains(b""));
    set.insert(&a);
    set.insert(&b);
    set.insert(&a);
    assert!(set.contains(b"a"));
    assert!(set.contains(b"ab"));
    assert!(!set.contains(b"b"));
    assert!(!set.contains(b""));
}

#[test]
fn rows_that_are_null_are_not_asked_about() {
    let hit = |i: usize| if i == 1 { panic!("asked about {i}") } else { i % 2 == 0 };
    let mask = Mask::Values(vec![true, false, true, true]);
    assert_eq!(probe_rows(4, &mask, hit), vec![true, false, true, false]);
    assert_eq!(probe_rows(3, &Mask::AllFalse(3), |_| true), vec![false; 3]);
    assert_eq!(probe_rows(3, &Mask::AllTrue(3), |i| i == 2), vec![false, false, true]);
}

#[test]
fn matches_are_looked_up_in_packed_bits() {
    let mut matches = vec![false; 300];
    matches[8] = true;
    matches[299] = true;
    let packed = pack_bits(&matches);
    assert_eq!(packed.len(), 38);
    assert_eq!(packed[1], 1);
    assert_eq!(packed[37], 0b1000);
    let offsets = vec![0, 8, 9, 0, 299, 100];
    let sizes = vec![8, 1, 290, 300, 1, 0];
    assert_eq!(
        process_matches(&matches, &offsets, &sizes),
        vec![false, true, false, true, true, false]
    );
}

#[test]
fn views_are_resolved_to_bytes() {
    let buffers = vec![b"0123456789abcdef".to_vec(), b"the quick brown fox".to_vec()];
    let list = vec![
        BinaryView::Inlined(b"short".to_vec()),
        BinaryView::Reference {
            size: 13,
            buffer_index: 1,
            offset: 4,
        },
    ];
    let side = ViewsSide::new(&list, &buffers);
    assert_eq!(side.len(), 2);
    assert_eq!(side.views().len(), 2);
    assert_eq!(side.view_bytes(side.view_unchecked(0)), b"short");
    assert_eq!(side.view_bytes(side.view_unchecked(1)), b"quick brown f");
}

// Needles that are compressed.

/// Each byte behind an escape, which no two byte strings share.
fn escape(bytes: &Vec<u8>) -> Vec<u8> {
    bytes.iter().flat_map(|b| [0xff, *b]).collect()
}

const VALUES: [Option<&str>; 8] = [
    Some("hello"),
    None,
    Some("world"),
    Some(""),
    Some("a value long enough to need a buffer 1"),
    Some("a value long enough to need a buffer 2"),
    Some("hello"),
    None,
];

fn varbin(values: &[Option<Vec<u8>>], dtype: DType) -> NeedleArray {
    let mut offsets = vec![0];
    let mut bytes = Vec::new();
    for value in values {
        if let Some(value) = value {
            bytes.extend_from_slice(value);
        }
        offsets.push(bytes.len());
    }
    let validity = match dtype.nullability() {
        NonNullable => Validity::NonNullable,
        Nullable => Validity::Array(values.iter().map(|v| v.is_some()).collect()),
    };
    needle_array(
        dtype,
        NeedleStorage::VarBin {
            offsets,
            bytes,
            validity,
        },
    )
}

/// The answers for strings and for their codes, which have to agree. The rows are repeated, so that
/// there are enough of them for the list to be compressed.
fn fsst_answers(values: &[Option<&str>], list: &[&str], nullability: Nullability) -> Vec<Option<bool>> {
    let times = 1 + 32 * list.len();
    let plain_values: Vec<Option<Vec<u8>>> = values
        .iter()
        .cycle()
        .take(values.len() * times)
        .map(|v| v.map(|v| v.as_bytes().to_vec()))
        .collect();
    let code_values: Vec<Option<Vec<u8>>> =
        plain_values.iter().map(|v| v.as_ref().map(escape)).collect();
    let dtype = DType::Utf8(nullability);
    let plain = varbin(&plain_values, dtype.duplicate());
    let codes = varbin(&code_values, DType::Binary(nullability));
    let list = utf8_list(list.iter().map(|v| v.to_string()).collect());
    let input = ListInput::Constant(list, plain_values.len());

    let generic = run(&input, &Needles::Array(plain));
    let compressed = fsst_list_contains(&input, &dtype, &codes, escape).unwrap();
    assert_eq!(generic.values, compressed.values);
    assert_eq!(generic.nullability, compressed.nullability);
    compressed.values[..values.len()].to_vec()
}

fn rows(answers: [bool; 8]) -> Vec<Option<bool>> {
    answers.map(Some).to_vec()
}

#[test]
fn probes_compressed_codes() {
    let list = ["hello", "world", "absent", "also absent", "and another"];
    assert_eq!(
        fsst_answers(&VALUES, &list, Nullable),
        rows([true, false, true, false, false, false, true, false])
    );
}

#[test]
fn empty_string_is_a_code_like_any_other() {
    assert_eq!(
        fsst_answers(&VALUES, &["", "a", "b", "c"], Nullable),
        rows([false, false, false, true, false, false, false, false])
    );
}

#[test]
fn a_shared_prefix_does_not_collide() {
    let list = ["a value long enough to need a buffer 1", "q", "qq", "qqq", "qqqq"];
    assert_eq!(
        fsst_answers(&VALUES, &list, Nullable),
        rows([false, false, false, false, true, false, false, false])
    );
}

#[test]
fn short_list_below_the_probe_threshold() {
    assert_eq!(
        fsst_answers(&VALUES, &["hello", ""], Nullable),
        rows([true, false, false, true, false, false, true, false])
    );
}

#[test]
fn empty_list_matches_nothing() {
    assert_eq!(fsst_answers(&VALUES, &[], Nullable), vec![Some(false); VALUES.len()]);
}

#[test]
fn non_nullable_needles() {
    let values = [Some("a"), Some("b"), Some("c"), Some("d")];
    assert_eq!(
        fsst_answers(&values, &["a", "c", "e", "f"], NonNullable),
        vec![Some(true), Some(false), Some(true), Some(false)]
    );
}

#[test]
fn mismatched_element_type_is_rejected() {
    let plain_values = [Some(b"a".to_vec()), Some(b"b".to_vec())];
    let code_values = plain_values.each_ref().map(|v| v.as_ref().map(escape));
    let dtype = DType::Utf8(NonNullable);
    let plain = varbin(&plain_values, dtype.duplicate());
    let codes = varbin(&code_values, DType::Binary(NonNullable));
    let list = list_of(
        DType::Binary(NonNullable),
        vec![
            Some(Value::Binary(b"a".to_vec())),
            Some(Value::Binary(b"c".to_vec())),
        ],
        NonNullable,
    );
    let input = ListInput::Constant(list, 2);
    assert!(fsst_list_contains(&input, &dtype, &codes, escape).is_none());
    assert!(ListContains.execute(&input, &Needles::Array(plain)).is_err());
}

#[test]
fn codes_are_not_asked_for_long_lists_or_nulls() {
    let dtype = DType::Utf8(NonNullable);
    let codes = varbin(&vec![Some(Vec::new()); 63], DType::Binary(NonNullable));
    let two = ListInput::Constant(utf8_list(vec!["a".into(), "b".into()]), 63);
    assert!(fsst_list_contains(&two, &dtype, &codes, escape).is_none());
    let one = ListInput::Constant(utf8_list(vec!["a".into()]), 63);
    assert!(fsst_list_contains(&one, &dtype, &codes, escape).is_some());
    let null = ListInput::Constant(list_of(DType::Utf8(Nullable), vec![None], NonNullable), 63);
    assert!(fsst_list_contains(&null, &dtype, &codes, escape).is_none());
}

// Needles of extension types.

fn timestamp_list(values: &[i64], unit: TimeUnit) -> Scalar {
    list_of(
        DType::Extension(Timestamp::new(unit, NonNullable)),
        i64_values(values),
        NonNullable,
    )
}

fn timestamp_needles(values: &[i64], unit: TimeUnit) -> NeedleArray {
    let ext: ExtDType = Timestamp::new(unit, NonNullable);
    needle_array(
        DType::Extension(ext),
        NeedleStorage::Primitive(
            values.iter().map(|v| PValue::I64(*v)).collect(),
            Validity::NonNullable,
        ),
    )
}

fn timestamps_in(list_values: &[i64], unit: TimeUnit) -> Vec<Option<bool>> {
    let needles = timestamp_needles(&[10, 20, 30, 40, 50], unit);
    let list = ListInput::Constant(timestamp_list(list_values, unit), 5);
    let kernel = extension_list_contains(&list, &needles).unwrap();
    let generic = run(&list, &Needles::Array(needles));
    assert_eq!(kernel.values, generic.values);
    kernel.values
}

#[test]
fn a_timestamp_list_is_answered_through_its_storage() {
    assert_eq!(
        timestamps_in(&[10, 30, 50, 70], TimeUnit::Milliseconds),
        [true, false, true, false, true].map(Some).to_vec()
    );
    assert_eq!(
        timestamps_in(&[20, 40], TimeUnit::Milliseconds),
        [false, true, false, true, false].map(Some).to_vec()
    );
}

#[test]
fn a_different_time_unit_is_not_matched_against_raw_storage() {
    let needles = timestamp_needles(&[10, 20, 30], TimeUnit::Milliseconds);
    let list = ListInput::Constant(timestamp_list(&[10], TimeUnit::Seconds), 3);
    assert!(extension_list_contains(&list, &needles).is_none());
    assert!(ListContains.execute(&list, &Needles::Array(needles)).is_err());
}
