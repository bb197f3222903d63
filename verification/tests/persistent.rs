//! Reading and writing the files of a table.

use std::ops::Range;
use std::sync::Arc;

use vortex_core::persistent::in_list::{
    collect_literals, contiguous_in_list_ranges, group_contiguous, in_list_expr_compactor,
    min_max_within_in_list,
};
use vortex_core::persistent::open::{
    apply_byte_range, batch_slices, byte_range_to_row_range, layout_reader_source,
    project_schema, projected_names, scan_limit, stops_on_filter_update, wants_file_pruner,
    ReaderEntry, ReaderSource,
};
use vortex_core::persistent::opener::{
    pushed_down, FileToOpen, OpenAction, OpenError, OpenEvent, Opening, ScanPlan, VortexOpener,
};
use vortex_core::persistent::physical_expr::{
    BinaryExpr, Column, InListExpr, ListValue, Operator, PhysicalExpr, ScalarValue,
};
use vortex_core::persistent::schema::{
    compute_logical_file_schema, merge_field_types, merge_fields, DataType, Field, Schema,
};
use vortex_core::persistent::sink::{
    context_for_single_file_demux, numbered_path, plan_files, total_row_count, DemuxSettings,
    FileSplitter,
};
use vortex_core::persistent::stopping_stream::{StreamEvent, StreamStep, VortexStoppingStream};

fn translates(byte_range: Range<u64>, row_count: u64, total_size: u64, expected: Range<u64>) {
    assert_eq!(
        byte_range_to_row_range(byte_range, row_count, total_size),
        expected
    );
}

#[test]
fn test_range_translation() {
    translates(0..100, 100, 100, 0..100);
    translates(0..105, 100, 105, 0..100);
    translates(0..50, 100, 105, 0..50);
    translates(50..105, 100, 105, 50..100);
    translates(0..1, 4, 8, 0..0);
    translates(1..8, 4, 8, 0..4);
}

#[test]
fn test_consecutive_ranges() {
    let row_count = 100;
    let total_size = 429;
    let bytes_a = 0..143;
    let bytes_b = 143..286;
    let bytes_c = 286..429;

    let rows_a = byte_range_to_row_range(bytes_a, row_count, total_size);
    let rows_b = byte_range_to_row_range(bytes_b, row_count, total_size);
    let rows_c = byte_range_to_row_range(bytes_c, row_count, total_size);

    assert_eq!(rows_a.end - rows_a.start, 35);
    assert_eq!(rows_b.end - rows_b.start, 36);
    assert_eq!(rows_c.end - rows_c.start, 29);

    assert_eq!(rows_a.start, 0);
    assert_eq!(rows_c.end, 100);
    for pair in [rows_a, rows_b, rows_c].windows(2) {
        assert_eq!(pair[0].end, pair[1].start);
    }
}

#[test]
fn a_range_of_a_file_is_translated() {
    assert_eq!(apply_byte_range(50..105, 105, 100), 50..100);
    assert_eq!(apply_byte_range(0..429, 429, 100), 0..100);
}

fn column_a() -> Arc<PhysicalExpr> {
    Arc::new(PhysicalExpr::Column(Column {
        name: "a".to_string(),
        index: 0,
    }))
}

fn literal(value: ScalarValue) -> Arc<PhysicalExpr> {
    Arc::new(PhysicalExpr::Literal(value))
}

fn in_list_of(list: Vec<Arc<PhysicalExpr>>) -> InListExpr {
    InListExpr {
        expr: column_a(),
        list,
        negated: false,
    }
}

fn a_in(values: &[i32]) -> InListExpr {
    in_list_of(vec![literal(ScalarValue::List(ListValue::Int32(values.to_vec())))])
}

/// The text of an expression.
fn shown(expr: &PhysicalExpr) -> String {
    match expr {
        PhysicalExpr::Column(c) => format!("{}@{}", c.name, c.index),
        PhysicalExpr::Literal(ScalarValue::Int32(Some(v))) => v.to_string(),
        PhysicalExpr::Literal(ScalarValue::Int64(Some(v))) => v.to_string(),
        PhysicalExpr::Binary(b) => shown_binary(b),
        other => panic!("not shown: {other:?}"),
    }
}

fn shown_binary(expr: &BinaryExpr) -> String {
    let op = match expr.op {
        Operator::And => "AND",
        Operator::GtEq => ">=",
        Operator::LtEq => "<=",
        other => panic!("not shown: {other:?}"),
    };
    format!("{} {} {}", shown(&expr.left), op, shown(&expr.right))
}

#[test]
fn test_contiguous_ranges_calculation() {
    let in_list_expr = a_in(&[1, 2, 3, 5, 6, 8]);
    let ranges = contiguous_in_list_ranges(&in_list_expr, 0);
    assert_eq!(ranges.len(), 3, "Should find 3 contiguous ranges");

    assert_eq!(shown_binary(&ranges[0]), "a@0 >= 1 AND a@0 <= 3");
    assert_eq!(shown_binary(&ranges[1]), "a@0 >= 5 AND a@0 <= 6");
    assert_eq!(shown_binary(&ranges[2]), "a@0 >= 8 AND a@0 <= 8");

    let ranges = contiguous_in_list_ranges(&in_list_expr, 1);
    assert_eq!(
        ranges.len(),
        1,
        "Should find 1 contiguous ranges with overlap of 1"
    );

    assert_eq!(shown_binary(&ranges[0]), "a@0 >= 1 AND a@0 <= 8");
}

#[test]
fn ranges_come_from_unsorted_members_too() {
    let list = in_list_of(vec![
        literal(ScalarValue::Int64(Some(7))),
        literal(ScalarValue::List(ListValue::Int64(vec![-1, 6]))),
        literal(ScalarValue::Int64(Some(0))),
    ]);
    let ranges = contiguous_in_list_ranges(&list, 0);
    let found: Vec<String> = ranges.iter().map(shown_binary).collect();
    assert_eq!(found, ["a@0 >= -1 AND a@0 <= 0", "a@0 >= 6 AND a@0 <= 7"]);
    let unread = in_list_of(vec![literal(ScalarValue::Boolean(Some(true)))]);
    assert!(contiguous_in_list_ranges(&unread, 0).is_empty());
    assert_eq!(
        group_contiguous(&vec![1, 3, 4, 9], 1),
        vec![(1, 4), (9, 9)]
    );
}

#[test]
fn test_min_max_within_in_list() {
    let in_list_expr = a_in(&[1, 2, 3, 5, 6, 8]);
    let within = |min: i32, max: i32| {
        min_max_within_in_list(
            &in_list_expr,
            &(ScalarValue::Int32(Some(min)), ScalarValue::Int32(Some(max))),
        )
    };
    assert!(within(1, 3));
    assert!(!within(4, 4));
    assert!(within(5, 6));
    assert!(!within(7, 7));
    assert!(within(8, 8));
    assert!(within(0, 8));
    assert!(within(4, 8));
    assert!(!within(10, 14));
}

#[test]
fn bounds_that_cannot_be_compared_exclude_nothing() {
    let list = a_in(&[1, 2]);
    let int32 = |v: i32| ScalarValue::Int32(Some(v));
    assert!(!min_max_within_in_list(&list, &(int32(5), int32(6))));
    assert!(min_max_within_in_list(
        &list,
        &(ScalarValue::Int64(Some(5)), ScalarValue::Int64(Some(6)))
    ));
    assert!(min_max_within_in_list(&list, &(int32(5), ScalarValue::Int32(None))));
    assert!(min_max_within_in_list(&in_list_of(vec![]), &(int32(5), int32(6))));
    let unread = in_list_of(vec![column_a()]);
    assert!(min_max_within_in_list(&unread, &(int32(5), int32(6))));
    assert!(collect_literals(&unread.list).is_none());
}

/// A dynamic filter, which counts how often it was replaced.
struct DynamicFilter {
    current: PhysicalExpr,
    generation: u64,
}

impl DynamicFilter {
    fn new(current: PhysicalExpr) -> Self {
        DynamicFilter {
            current: PhysicalExpr::Dynamic(Arc::new(current)),
            generation: 1,
        }
    }

    fn update(&mut self, current: PhysicalExpr) {
        self.current = PhysicalExpr::Dynamic(Arc::new(current));
        self.generation += 1;
    }
}

fn bounds(min: i32, max: i32) -> Vec<(ScalarValue, ScalarValue)> {
    vec![(ScalarValue::Int32(Some(min)), ScalarValue::Int32(Some(max)))]
}

#[test]
fn test_vortex_stopping_stream_continues_without_update() {
    let filter = DynamicFilter::new(PhysicalExpr::Binary(BinaryExpr {
        left: column_a(),
        op: Operator::Gt,
        right: literal(ScalarValue::Int32(Some(0))),
    }));
    let statistics = bounds(1, 10);
    let mut stream = VortexStoppingStream::new();
    let mut results = 0;
    for event in [StreamEvent::Batch, StreamEvent::Batch, StreamEvent::Batch, StreamEvent::End] {
        if stream.step(event, &filter.current, filter.generation, &statistics) == StreamStep::Yield {
            results += 1;
        }
    }
    assert_eq!(results, 3, "All batches should pass through");
}

#[test]
fn test_vortex_stopping_stream_stops_after_update() {
    let mut filter = DynamicFilter::new(PhysicalExpr::Literal(ScalarValue::Boolean(Some(true))));
    let statistics = bounds(1, 10);
    let mut stream = VortexStoppingStream::new();
    let mut next = |f: &DynamicFilter| {
        stream.step(StreamEvent::Batch, &f.current, f.generation, &statistics)
    };
    assert_eq!(next(&filter), StreamStep::Yield, "First batch should pass through");

    // stream will still continue as 10 is within the max of the file
    filter.update(PhysicalExpr::InList(a_in(&[10, 13, 14])));
    assert_eq!(next(&filter), StreamStep::Yield, "Stream should continue");

    // stream should stop now as no values overlap with file stats
    filter.update(PhysicalExpr::InList(a_in(&[12, 13, 14])));
    assert_eq!(next(&filter), StreamStep::End, "Stream should have stopped");
}

/// `count` values of the range, in no particular order.
fn values_in(range: Range<i32>, count: usize) -> Vec<i32> {
    let width = (range.end - range.start) as u64;
    let mut state: u64 = 42;
    (0..count)
        .map(|_| {
            state = state
                .wrapping_mul(6_364_136_223_846_793_005)
                .wrapping_add(1_442_695_040_888_963_407);
            range.start + ((state >> 33) % width) as i32
        })
        .collect()
}

#[test]
fn test_vortex_stopping_stream_over_wide_range() {
    let list = |range: Range<i32>| PhysicalExpr::InList(a_in(&values_in(range, 30000)));
    let mut filter = DynamicFilter::new(list(1..50000));
    let statistics = bounds(1, 50000);
    let mut stream = VortexStoppingStream::new();
    let mut next = |f: &DynamicFilter| {
        stream.step(StreamEvent::Batch, &f.current, f.generation, &statistics)
    };
    assert_eq!(next(&filter), StreamStep::Yield, "First batch should pass through");
    filter.update(list(25000..75000));
    assert_eq!(next(&filter), StreamStep::Yield, "Stream should continue");
    filter.update(list(55000..100000));
    assert_eq!(next(&filter), StreamStep::End, "Stream should have stopped");
}

#[test]
fn a_filter_is_looked_at_once_per_generation() {
    let outside = DynamicFilter::new(PhysicalExpr::InList(a_in(&[12])));
    let statistics = bounds(1, 10);
    let mut stream = VortexStoppingStream::new();
    assert!(stream.should_prune(&outside.current, 1, &statistics));
    assert!(!stream.should_prune(&outside.current, 1, &statistics));
    assert!(stream.should_prune(&outside.current, 2, &statistics));
    // An ended stream stays ended; one that waits has not looked at the filter.
    let mut stream = VortexStoppingStream::new();
    let mut step = |event: StreamEvent| stream.step(event, &outside.current, 1, &statistics);
    assert_eq!(step(StreamEvent::Pending), StreamStep::Pending);
    assert_eq!(step(StreamEvent::Batch), StreamStep::End);
    assert_eq!(step(StreamEvent::Batch), StreamStep::End);
    assert_eq!(step(StreamEvent::Pending), StreamStep::End);
}

fn or(left: PhysicalExpr, right: PhysicalExpr) -> BinaryExpr {
    BinaryExpr {
        left: Arc::new(left),
        op: Operator::Or,
        right: Arc::new(right),
    }
}

/// The integers of a list.
fn list_values(in_list: &InListExpr) -> Vec<i128> {
    collect_literals(&in_list.list).unwrap().iter().map(|l| l.value).collect()
}

/// `a NOT IN (values)`.
fn a_not_in(values: &[i32]) -> InListExpr {
    InListExpr {
        negated: true,
        ..a_in(values)
    }
}

#[test]
fn what_is_no_disjunction_of_lists_over_one_expression_is_left_alone() {
    let a = |values: &[i32]| PhysicalExpr::InList(a_in(values));
    let greater = PhysicalExpr::Binary(BinaryExpr {
        left: column_a(),
        op: Operator::Gt,
        right: literal(ScalarValue::Int32(Some(5))),
    });
    assert!(in_list_expr_compactor(&or(a(&[1]), greater)).is_none());
    let b = PhysicalExpr::InList(InListExpr {
        expr: Arc::new(PhysicalExpr::Column(Column {
            name: "b".to_string(),
            index: 1,
        })),
        ..a_in(&[2])
    });
    assert!(in_list_expr_compactor(&or(a(&[1]), b)).is_none());
    assert!(in_list_expr_compactor(&or(a(&[1]), PhysicalExpr::InList(a_not_in(&[2])))).is_none());
    assert!(in_list_expr_compactor(&or(PhysicalExpr::InList(a_not_in(&[2])), a(&[1]))).is_none());
    let and = BinaryExpr {
        op: Operator::And,
        ..or(a(&[1]), a(&[2]))
    };
    assert!(in_list_expr_compactor(&and).is_none());
    assert!(in_list_expr_compactor(&or(a(&[1]), PhysicalExpr::Binary(and))).is_none());
    let empty = || PhysicalExpr::InList(in_list_of(vec![]));
    assert!(in_list_expr_compactor(&or(empty(), empty())).is_none());
    // Other expressions are told apart by their numbers.
    let other = |n: u64| {
        PhysicalExpr::InList(InListExpr {
            expr: Arc::new(PhysicalExpr::Other(n)),
            ..a_in(&[4])
        })
    };
    assert!(in_list_expr_compactor(&or(other(1), other(2))).is_none());
    assert_eq!(
        list_values(&in_list_expr_compactor(&or(other(1), other(1))).unwrap()),
        [4, 4]
    );
}

#[test]
fn expressions_are_the_same_only_part_by_part() {
    let nested = |v: i64, negated: bool| {
        PhysicalExpr::InList(InListExpr {
            expr: Arc::new(PhysicalExpr::Dynamic(column_a())),
            list: vec![
                literal(ScalarValue::Int64(Some(v))),
                literal(ScalarValue::List(ListValue::UInt64(vec![1, 2]))),
            ],
            negated,
        })
    };
    assert!(nested(1, false).equals(&nested(1, false)));
    assert!(!nested(1, false).equals(&nested(2, false)));
    assert!(!nested(1, false).equals(&nested(1, true)));
    assert!(!nested(1, false).equals(&column_a()));
    assert!(!ScalarValue::Int32(Some(1)).equals(&ScalarValue::Int64(Some(1))));
    assert!(!ListValue::Int32(vec![1]).equals(&ListValue::Int32(vec![1, 2])));
    assert!(ScalarValue::Other(3).equals(&ScalarValue::Other(3).duplicate()));
}

#[test]
fn a_list_is_taken_by_its_members_alone() {
    let outside = DynamicFilter::new(PhysicalExpr::InList(a_not_in(&[12])));
    assert!(VortexStoppingStream::new().should_prune(&outside.current, 1, &bounds(1, 10)));
    assert!(!VortexStoppingStream::new().should_prune(&outside.current, 1, &bounds(1, 12)));
}

#[test]
fn what_comes_down_to_no_list_excludes_no_file() {
    let mixed = DynamicFilter::new(PhysicalExpr::Binary(or(
        PhysicalExpr::InList(a_in(&[12])),
        PhysicalExpr::InList(a_not_in(&[3])),
    )));
    assert!(!VortexStoppingStream::new().should_prune(&mixed.current, 1, &bounds(1, 10)));
    // `a IN (12) OR a > 5` holds on rows of the file.
    let wider = DynamicFilter::new(PhysicalExpr::Binary(or(
        PhysicalExpr::InList(a_in(&[12])),
        PhysicalExpr::Binary(BinaryExpr {
            left: column_a(),
            op: Operator::Gt,
            right: literal(ScalarValue::Int32(Some(5))),
        }),
    )));
    assert!(!VortexStoppingStream::new().should_prune(&wider.current, 1, &bounds(1, 10)));
}

#[test]
fn disjunctions_of_lists_come_down_to_one_list() {
    let chain = || {
        or(
            PhysicalExpr::InList(a_in(&[1, 2])),
            PhysicalExpr::Binary(or(
                PhysicalExpr::InList(a_in(&[20])),
                PhysicalExpr::InList(a_in(&[30])),
            )),
        )
    };
    let compacted = in_list_expr_compactor(&chain()).unwrap();
    assert_eq!(compacted.list.len(), 3);
    assert_eq!(shown(&compacted.expr), "a@0");
    assert!(!compacted.negated);
    assert_eq!(list_values(&compacted), [1, 2, 20, 30]);
    assert!(in_list_expr_compactor(&or(
        PhysicalExpr::Literal(ScalarValue::Boolean(None)),
        PhysicalExpr::InList(a_in(&[1]))
    ))
    .is_none());

    // What one bracket holds does not matter.
    let chain_to_the_left = or(
        PhysicalExpr::Binary(or(
            PhysicalExpr::InList(a_in(&[1])),
            PhysicalExpr::InList(a_in(&[2])),
        )),
        PhysicalExpr::InList(a_in(&[3])),
    );
    let compacted = in_list_expr_compactor(&chain_to_the_left).unwrap();
    assert_eq!(list_values(&compacted), [1, 2, 3]);
    assert_eq!(shown(&compacted.expr), "a@0");
    assert!(!compacted.negated);
    let both_sides = or(
        PhysicalExpr::Binary(chain()),
        PhysicalExpr::Binary(or(
            PhysicalExpr::InList(a_in(&[])),
            PhysicalExpr::InList(a_in(&[7])),
        )),
    );
    let compacted = in_list_expr_compactor(&both_sides).unwrap();
    assert_eq!(list_values(&compacted), [1, 2, 20, 30, 7]);

    // The filter may be such a disjunction, on the right of another expression.
    let filter = PhysicalExpr::Binary(BinaryExpr {
        left: literal(ScalarValue::Boolean(Some(true))),
        op: Operator::And,
        right: Arc::new(PhysicalExpr::Dynamic(Arc::new(PhysicalExpr::Binary(chain())))),
    });
    assert!(VortexStoppingStream::new().should_prune(&filter, 1, &bounds(3, 19)));
    assert!(!VortexStoppingStream::new().should_prune(&filter, 1, &bounds(3, 20)));
}

#[test]
fn what_is_decided_when_a_file_is_opened() {
    assert!(wants_file_pruner(Some(true), false));
    assert!(wants_file_pruner(Some(false), true));
    assert!(!wants_file_pruner(Some(false), false));
    assert!(!wants_file_pruner(None, true));
    assert!(stops_on_filter_update(Some(true), true));
    assert!(!stops_on_filter_update(Some(true), false));
    assert!(!stops_on_filter_update(Some(false), true));
    assert_eq!(scan_limit(Some(3), false), Some(3));
    assert_eq!(scan_limit(Some(3), true), None);
    assert_eq!(layout_reader_source(ReaderEntry::Alive), ReaderSource::Reuse);
    assert_eq!(layout_reader_source(ReaderEntry::Dropped), ReaderSource::CreateAndShare);
    assert_eq!(layout_reader_source(ReaderEntry::Vacant), ReaderSource::CreateAndShare);
}

fn opener_of(predicate: Option<bool>, has_filter: bool) -> VortexOpener {
    VortexOpener {
        projection: None,
        has_filter,
        file_pruning_predicate: predicate,
        adapts_expressions: true,
        partition_fields: vec![field("part", other("Int32"))],
        logical_schema: Schema {
            fields: vec![field("a", other("Utf8")), field("b", other("Int16"))],
        },
        limit: Some(10),
        has_output_ordering: true,
    }
}

/// Opens a file, with an answer to each thing that is to be done. Returns what was done and the
/// plan of the scan.
fn opened(
    opener: &VortexOpener,
    file: &FileToOpen,
    pruned: bool,
    reader: ReaderEntry,
    pushable: &[bool],
) -> (Vec<String>, Option<ScanPlan>) {
    let mut done = vec![];
    let (mut phase, mut action) = opener.open(file, Opening::Start, OpenEvent::Begin);
    loop {
        let event = match action {
            OpenAction::MakePruner {
                partition_fields,
                partition_values,
            } => {
                assert_eq!(partition_fields.len(), opener.partition_fields.len());
                assert_eq!(partition_values.len(), file.partition_values.len());
                done.push("make pruner".to_string());
                OpenEvent::PrunerMade
            }
            OpenAction::AskPruner => {
                done.push("ask pruner".to_string());
                OpenEvent::Pruned(pruned)
            }
            OpenAction::OpenFile => {
                done.push("open".to_string());
                OpenEvent::Opened {
                    physical: Schema {
                        fields: vec![field("a", other("Utf8View"))],
                    },
                    row_count: 100,
                }
            }
            OpenAction::RewriteFilter {
                logical,
                partition_values,
            } => {
                let pairs: Vec<String> = partition_values
                    .iter()
                    .map(|(f, v)| format!("{} = {v:?}", f.name))
                    .collect();
                done.push(format!(
                    "rewrite as {} with {}",
                    shown_type(&logical.fields[0].data_type),
                    pairs.join(", ")
                ));
                OpenEvent::FilterRewritten
            }
            OpenAction::MapSchema { .. } => {
                done.push("map".to_string());
                OpenEvent::SchemaMapped(vec![1, 0])
            }
            OpenAction::LookUpReader => {
                done.push("look up".to_string());
                OpenEvent::ReaderLookedUp(reader)
            }
            OpenAction::CreateReader => {
                done.push("create".to_string());
                OpenEvent::ReaderCreated
            }
            OpenAction::SplitFilter { against_file } => {
                done.push(format!("split {against_file}"));
                OpenEvent::FilterSplit(pushable.to_vec())
            }
            OpenAction::MakePredicate(conjuncts) => {
                done.push(format!("predicate of {conjuncts:?}"));
                OpenEvent::PredicateMade(!conjuncts.is_empty())
            }
            OpenAction::Scan(plan) => {
                assert!(matches!(phase, Opening::Ended));
                return (done, Some(plan));
            }
            OpenAction::Nothing => {
                assert!(matches!(phase, Opening::Ended));
                return (done, None);
            }
            OpenAction::Fail(e) => {
                assert!(matches!(phase, Opening::Ended));
                done.push(format!("fail with {e:?}"));
                return (done, None);
            }
        };
        (phase, action) = opener.open(file, phase, event);
    }
}

#[test]
fn a_file_that_is_pruned_is_not_opened() {
    let file = FileToOpen {
        partition_values: vec![],
        has_statistics: true,
        statistics: true,
        range: None,
        size: 1000,
    };
    let opener = opener_of(Some(false), true);
    let (done, plan) = opened(&opener, &file, true, ReaderEntry::Vacant, &[]);
    assert_eq!(done, ["make pruner", "ask pruner"]);
    assert!(plan.is_none());
    // Without statistics a static predicate prunes nothing.
    let unknown = FileToOpen {
        has_statistics: false,
        ..file
    };
    let (done, plan) = opened(&opener, &unknown, true, ReaderEntry::Vacant, &[]);
    assert_eq!(done[0], "open");
    assert!(!plan.unwrap().stops_on_filter_update);
}

#[test]
fn a_file_is_opened_step_by_step() {
    let file = FileToOpen {
        partition_values: vec![ScalarValue::Int32(Some(1)), ScalarValue::Int32(Some(2))],
        has_statistics: false,
        statistics: true,
        range: Some(0..500),
        size: 1000,
    };
    let opener = opener_of(Some(true), true);
    let (done, plan) = opened(&opener, &file, false, ReaderEntry::Dropped, &[true, false, true]);
    assert_eq!(
        done,
        [
            "make pruner",
            "ask pruner",
            "open",
            "rewrite as Utf8 with part = Int32(Some(1))",
            "map",
            "look up",
            "create",
            "split true",
            "predicate of [0, 2]",
        ]
    );
    let plan = plan.unwrap();
    assert_eq!(plan.rows, Some(0..50));
    assert_eq!(plan.fields, ["b", "a"]);
    assert!(plan.filtered && plan.ordered && plan.stops_on_filter_update);
    assert_eq!(plan.limit, None);
    // Nothing of the filter can be pushed down.
    let (_, plan) = opened(&opener, &file, false, ReaderEntry::Alive, &[false]);
    assert_eq!(plan.unwrap().limit, Some(10));
    // There is no filter.
    let opener = opener_of(None, false);
    let (done, plan) = opened(&opener, &file, false, ReaderEntry::Alive, &[]);
    assert_eq!(done, ["open", "map", "look up"]);
    let plan = plan.unwrap();
    assert_eq!((plan.filtered, plan.limit), (false, Some(10)));
    assert_eq!(pushed_down(&vec![false, true, true]), vec![1, 2]);
}

#[test]
fn a_bad_projection_fails_before_anything_is_done() {
    let file = FileToOpen {
        partition_values: vec![],
        has_statistics: true,
        statistics: true,
        range: None,
        size: 1000,
    };
    let opener = VortexOpener {
        projection: Some(vec![0, 2]),
        ..opener_of(Some(true), true)
    };
    let (done, plan) = opened(&opener, &file, false, ReaderEntry::Vacant, &[]);
    assert_eq!(done, ["fail with BadProjection"]);
    assert!(plan.is_none());
    assert!(matches!(
        opener.open(&file, Opening::Start, OpenEvent::Begin).1,
        OpenAction::Fail(OpenError::BadProjection)
    ));
    // The columns of a good one are what the schema of the file is mapped to.
    let opener = VortexOpener {
        projection: Some(vec![1]),
        ..opener_of(None, false)
    };
    let event = OpenEvent::Opened {
        physical: Schema { fields: vec![] },
        row_count: 1,
    };
    match opener.open(&file, Opening::OpeningFile, event).1 {
        OpenAction::MapSchema { projected } => {
            let names: Vec<&String> = projected.fields.iter().map(|f| &f.name).collect();
            assert_eq!(names, ["b"]);
        }
        action => panic!("not mapped: {action:?}"),
    }
}

/// What a filter `part = value` comes to once partition values are put in: a truth value, or
/// nothing if the column stays.
fn with_partition_values(value: i32, pairs: &[(Field, ScalarValue)]) -> Option<bool> {
    let (_, found) = pairs.iter().find(|(f, _)| f.name == "part")?;
    Some(found.equals(&ScalarValue::Int32(Some(value))))
}

/// Opens and reads the file `part=1/file.vortex` with the rows `a = [1, 2, 3]` under the filter
/// `part = value`, and returns the number of batches and of rows.
fn read_partitioned(adapts_expressions: bool, value: i32) -> (usize, usize) {
    let opener = VortexOpener {
        projection: Some(vec![0]),
        has_filter: true,
        file_pruning_predicate: None,
        adapts_expressions,
        partition_fields: vec![field("part", other("Int32"))],
        logical_schema: Schema {
            fields: vec![field("a", other("Int32"))],
        },
        limit: None,
        has_output_ordering: false,
    };
    let file = FileToOpen {
        partition_values: vec![ScalarValue::Int32(Some(1))],
        has_statistics: false,
        statistics: false,
        range: None,
        size: 1000,
    };
    let mut filter = None;
    let (mut phase, mut action) = opener.open(&file, Opening::Start, OpenEvent::Begin);
    loop {
        let event = match action {
            OpenAction::OpenFile => OpenEvent::Opened {
                physical: Schema {
                    fields: vec![field("a", other("Int32"))],
                },
                row_count: 3,
            },
            OpenAction::RewriteFilter { partition_values, .. } => {
                filter = with_partition_values(value, &partition_values);
                OpenEvent::FilterRewritten
            }
            OpenAction::MapSchema { .. } => OpenEvent::SchemaMapped(vec![0]),
            OpenAction::LookUpReader => OpenEvent::ReaderLookedUp(ReaderEntry::Vacant),
            OpenAction::CreateReader => OpenEvent::ReaderCreated,
            // A filter on a column that the file does not have cannot be pushed down.
            OpenAction::SplitFilter { .. } => OpenEvent::FilterSplit(vec![filter.is_some()]),
            OpenAction::MakePredicate(conjuncts) => {
                OpenEvent::PredicateMade(!conjuncts.is_empty())
            }
            OpenAction::Scan(plan) => {
                assert_eq!(plan.fields, ["a"]);
                let keeps_rows = !plan.filtered || filter == Some(true);
                let rows = if keeps_rows { 3 } else { 0 };
                let slices = batch_slices(rows, 100);
                return (slices.len(), slices.iter().map(|s| s.1).sum());
            }
            other => panic!("not expected: {other:?}"),
        };
        (phase, action) = opener.open(&file, phase, event);
    }
}

#[test]
fn test_adapter_optimization_partition_column() {
    // The filter matches the partition value, and then it does not.
    assert_eq!(read_partitioned(true, 1), (1, 3));
    assert_eq!(read_partitioned(true, 2), (0, 0));
    // Without rewriting, filters on partition values are dropped.
    assert_eq!(read_partitioned(false, 1), (1, 3));
    assert_eq!(read_partitioned(false, 2), (1, 3));
}

#[test]
fn batches_are_cut_in_pairs() {
    assert_eq!(batch_slices(0, 3), vec![]);
    assert_eq!(batch_slices(5, 3), vec![(0, 5)]);
    assert_eq!(batch_slices(6, 3), vec![(0, 3), (3, 3)]);
    assert_eq!(batch_slices(10, 3), vec![(0, 3), (3, 3), (6, 4)]);
}

fn field(name: &str, data_type: DataType) -> Field {
    Field {
        name: name.to_string(),
        data_type,
        nullable: true,
        metadata: vec![("origin".to_string(), name.to_string())],
    }
}

fn other(name: &str) -> DataType {
    DataType::Other(name.to_string())
}

fn shown_type(t: &DataType) -> String {
    match t {
        DataType::Struct(fields) => {
            let parts: Vec<String> = fields
                .iter()
                .map(|f| format!("{}: {}", f.name, shown_type(&f.data_type)))
                .collect();
            format!("{{{}}}", parts.join(", "))
        }
        DataType::List(f) => format!("List<{}>", shown_type(&f.data_type)),
        DataType::LargeList(f) => format!("LargeList<{}>", shown_type(&f.data_type)),
        DataType::Other(name) => name.clone(),
    }
}

#[test]
fn a_file_is_seen_with_the_types_of_its_table() {
    let physical = Schema {
        fields: vec![
            field("s", DataType::Struct(vec![field("x", other("Utf8View")), field("y", other("Int32"))])),
            field("l", DataType::List(Box::new(field("item", other("Utf8View"))))),
            field("unknown", other("Int8")),
        ],
    };
    let table = Schema {
        fields: vec![
            field("l", DataType::List(Box::new(field("element", other("Dictionary"))))),
            field("s", DataType::Struct(vec![field("z", other("Int64")), field("x", other("Utf8"))])),
        ],
    };
    let logical = compute_logical_file_schema(&physical, &table);
    let types: Vec<String> = logical.fields.iter().map(|f| shown_type(&f.data_type)).collect();
    assert_eq!(types, ["{x: Utf8, y: Int32}", "List<Dictionary>", "Int8"]);
    assert!(logical.fields.iter().all(|f| f.nullable && f.metadata.len() == 1));
    match &logical.fields[0].data_type {
        // A member that was merged has lost its metadata, one that was not has kept it.
        DataType::Struct(members) => {
            assert_eq!(members[0].metadata.len(), 0);
            assert_eq!(members[1].metadata.len(), 1);
        }
        other => panic!("no struct: {other:?}"),
    }
    let members = merge_fields(&physical.fields, &table.fields);
    assert_eq!(shown_type(&members[1].data_type), "List<Dictionary>");
    assert_eq!((members[1].metadata.len(), members[2].metadata.len()), (0, 1));
    let mismatch = merge_field_types(&field("a", other("Int32")), &table.fields[0]);
    assert_eq!(shown_type(&mismatch), "List<Dictionary>");
}

#[test]
fn a_schema_is_projected() {
    let schema = Schema {
        fields: vec![field("a", other("Int8")), field("b", other("Int16")), field("c", other("Int32"))],
    };
    let names = |s: Option<Schema>| {
        s.map(|s| s.fields.iter().map(|f| f.name.clone()).collect::<Vec<_>>())
    };
    assert_eq!(names(project_schema(&schema, &None)).unwrap(), ["a", "b", "c"]);
    assert_eq!(names(project_schema(&schema, &Some(vec![2, 0]))).unwrap(), ["c", "a"]);
    assert!(project_schema(&schema, &Some(vec![3])).is_none());
    assert_eq!(projected_names(&schema, &vec![2, 2]), ["c", "c"]);
}

#[test]
fn test_numbered_path() {
    let path = object_store::path::Path::from("table/c1=alpha/abc123.vortex");
    assert_eq!(
        numbered_path(path.as_ref(), 0, "vortex"),
        "table/c1=alpha/abc123_00000.vortex"
    );
    assert_eq!(
        numbered_path(path.as_ref(), 5, "vortex"),
        "table/c1=alpha/abc123_00005.vortex"
    );
}

#[test]
fn test_numbered_path_no_extension() {
    let path = object_store::path::Path::from("table/output");
    assert_eq!(
        numbered_path(path.as_ref(), 0, "vortex"),
        "table/output_00000.vortex"
    );
}

#[test]
fn a_numbered_path_is_encoded() {
    assert_eq!(numbered_path("a//b c", 123456, "x"), "a/b c_123456.x");
    assert_eq!(numbered_path("a/b#c", 1, "x"), "a/b%23c_00001.x");
}

const MB: u64 = 1024 * 1024;

#[test]
fn a_stream_is_split_once_a_file_is_full() {
    // 62 batches of one megabyte that do not compress, in files of 16 megabytes.
    let mut splitter = FileSplitter::new(Some(16 * MB));
    let mut files = vec![];
    for _ in 0..62 {
        splitter.add_batch(MB);
        let estimate = splitter.buffered_bytes;
        if let Some(path) = splitter.file_to_split_off(estimate, "t/f.vortex", "vortex") {
            files.push((path, splitter.file_written().unwrap()));
        }
    }
    let last = splitter.last_file("t/f.vortex", "vortex").unwrap();
    files.push((last, splitter.buffered_bytes));
    assert_eq!(
        files,
        vec![
            ("t/f_00000.vortex".to_string(), 16 * MB),
            ("t/f_00001.vortex".to_string(), 16 * MB),
            ("t/f_00002.vortex".to_string(), 16 * MB),
            ("t/f_00003.vortex".to_string(), 14 * MB),
        ]
    );
}

#[test]
fn a_stream_that_is_not_split_keeps_its_path() {
    let plan = |target: Option<u64>, estimates: Vec<u64>| {
        let sizes = vec![10; estimates.len()];
        plan_files("t/f.vortex", "vortex", target, &sizes, &estimates)
            .into_iter()
            .map(|f| (f.path, f.first_batch, f.end_batch))
            .collect::<Vec<_>>()
    };
    assert_eq!(plan(None, vec![10, 20]), vec![("t/f.vortex".to_string(), 0, 2)]);
    assert_eq!(plan(Some(100), vec![10, 20]), vec![("t/f.vortex".to_string(), 0, 2)]);
    assert_eq!(plan(Some(20), vec![]), vec![]);
    assert_eq!(
        plan(Some(20), vec![10, 20, 10]),
        vec![("t/f_00000.vortex".to_string(), 0, 2), ("t/f_00001.vortex".to_string(), 2, 3)]
    );
    // Nothing is left for a last file.
    assert_eq!(
        plan(Some(20), vec![10, 20]),
        vec![("t/f_00000.vortex".to_string(), 0, 2)]
    );
    // A target of nothing splits after every batch that has bytes.
    assert_eq!(plan(Some(0), vec![1, 1]).len(), 2);
}

#[test]
fn the_rows_of_all_files_are_counted() {
    assert_eq!(total_row_count(&vec![]), 0);
    assert_eq!(total_row_count(&vec![3, 4, 5]), 12);
}

#[test]
fn the_demuxer_leaves_file_sizes_to_the_sink() {
    let settings = context_for_single_file_demux(DemuxSettings {
        minimum_parallel_output_files: 4,
        soft_max_rows_per_output_file: 50_000_000,
    });
    assert_eq!(settings.minimum_parallel_output_files, 1);
    assert_eq!(settings.soft_max_rows_per_output_file, usize::MAX);
}
