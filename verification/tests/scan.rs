//! Scans: their splits, how many are held at once, and whether they make progress.

use std::collections::HashMap;
use std::ops::Range;

use vortex_core::dtype::{DType, Nullability, PType};
use vortex_core::parallelism::{
    get_available_parallelism, set_available_parallelism, ParallelismCell, SetParallelismError,
};
use vortex_core::scan::probe::{
    assert_bounded_scan, BoundedScanError, ProbeLayoutReader, ProjectionError, SplitProbe,
};
use vortex_core::scan::repeated_scan::{intersect_ranges, RepeatedScan, Selection, Splits};
use vortex_core::scan::scanpark::{
    sample_aggregate, sample_per_scan, AggregateCounters, AggregateReport, PerScanPrev,
    ScanCounters, ScanRegistry, StallMode,
};

fn i32_dtype() -> DType {
    DType::Primitive(PType::I32, Nullability::NonNullable)
}

fn scan_of(row_range: Option<Range<u64>>, selection: Selection, splits: Splits) -> RepeatedScan {
    RepeatedScan::new(row_range, selection, splits, None, true, i32_dtype())
}

#[test]
fn the_splits_of_a_scan() {
    let natural = || Splits::Natural(vec![0, 10, 20, 30]);
    let all = scan_of(None, Selection::All, natural());
    assert_eq!(all.split_ranges(None), vec![0..10, 10..20, 20..30]);
    assert_eq!(all.split_ranges(Some(5..25)), vec![5..10, 10..20, 20..25]);
    assert_eq!(all.split_ranges(Some(7..7)), vec![]);
    assert!(all.dtype().equals(&i32_dtype()));
    let part = scan_of(Some(12..30), Selection::IncludeByIndex(vec![3, 15, 22]), natural());
    assert_eq!(part.split_ranges(None), vec![12..20, 20..23]);
    assert_eq!(part.split_ranges(Some(0..16)), vec![12..16]);
    // Excluded rows say nothing of the range.
    let excluded = scan_of(None, Selection::ExcludeByIndex(vec![0]), natural());
    assert_eq!(excluded.split_ranges(None).len(), 3);
    let ranges = scan_of(None, Selection::All, Splits::Ranges(vec![0..4, 8..12, 20..24]));
    assert_eq!(ranges.split_ranges(Some(2..10)), vec![2..4, 8..10]);
}

#[test]
fn ranges_are_intersected() {
    assert_eq!(intersect_ranges(None, None), None);
    assert_eq!(intersect_ranges(Some(&(1..5)), None), Some(1..5));
    assert_eq!(intersect_ranges(None, Some(2..9)), Some(2..9));
    assert_eq!(intersect_ranges(Some(&(1..5)), Some(2..9)), Some(2..5));
    assert_eq!(Selection::IncludeRoaring(vec![4, 9]).range(), Some(4..10));
    assert_eq!(Selection::IncludeByIndex(vec![]).range(), None);
    assert_eq!(Selection::ExcludeRoaring(vec![4]).range(), None);
}

#[test]
fn ranges_without_a_selected_row() {
    let included = Selection::IncludeByIndex(vec![3, 7]);
    assert!(included.selects_nothing(&(4..7)));
    assert!(!included.selects_nothing(&(4..8)));
    assert!(included.selects_nothing(&(7..7)));
    let excluded = Selection::ExcludeRoaring(vec![2, 3, 4, 9]);
    assert!(excluded.selects_nothing(&(2..5)));
    assert!(excluded.selects_nothing(&(3..4)));
    assert!(!excluded.selects_nothing(&(1..5)));
    assert!(!excluded.selects_nothing(&(4..10)));
    assert!(Selection::ExcludeByIndex(vec![0, 0, 1]).selects_nothing(&(0..2)));
    assert!(!Selection::All.selects_nothing(&(0..1)));
    assert!(Selection::All.selects_nothing(&(1..1)));
}

#[test]
fn tasks_are_built_as_they_are_asked_for() {
    let scan = RepeatedScan::new(
        None,
        Selection::ExcludeByIndex(vec![1]),
        Splits::Natural(vec![0, 1, 2, 3, 4]),
        Some(2),
        true,
        i32_dtype(),
    );
    let mut tasks = scan.split_tasks(None);
    assert_eq!(tasks.limit, Some(2));
    assert_eq!(tasks.next_range(), Some(0..1));
    tasks.task_built(false, Some(1));
    assert_eq!(tasks.next_range(), Some(2..3));
    // The limit is used up.
    tasks.task_built(false, Some(0));
    assert_eq!(tasks.next_range(), None);
    let mut tasks = scan.split_tasks(None);
    assert_eq!(tasks.next_range(), Some(0..1));
    tasks.task_built(true, Some(2));
    assert_eq!(tasks.next_range(), None);
}

/// Scans rows of which each is a split, with at most `concurrency` splits held at once. The first
/// split that is held is read first, or the last one if the order does not matter.
fn bounded_scan(
    row_count: usize,
    concurrency: usize,
    ordered: bool,
) -> Result<(), BoundedScanError> {
    let mut reader = ProbeLayoutReader::new(row_count, SplitProbe::default());
    let mut splits = vec![0];
    reader.register_splits(&(0..row_count as u64), 0, &mut splits);
    let scan = RepeatedScan::new(
        None,
        Selection::All,
        Splits::Natural(splits),
        None,
        ordered,
        i32_dtype(),
    );
    let mut tasks = scan.split_tasks(None);
    let mut held = std::collections::VecDeque::new();
    let mut values = vec![];
    loop {
        while held.len() < concurrency {
            match tasks.next_range() {
                Some(range) => {
                    held.push_back(reader.projection_evaluation(&range).unwrap());
                    tasks.task_built(false, None);
                }
                None => break,
            }
        }
        let read = if scan.ordered {
            held.pop_front()
        } else {
            held.pop_back()
        };
        match read {
            Some(read) => {
                values.extend(read);
                reader.projection_read();
            }
            None => break,
        }
        let admitted = values.len() + concurrency;
        assert!(
            reader.probe().registered() <= admitted,
            "{} splits registered after {} yielded, expected at most {admitted}",
            reader.probe().registered(),
            values.len(),
        );
    }
    if !ordered {
        values.sort_unstable();
    }
    assert_bounded_scan(&values, row_count, reader.probe(), concurrency)
}

#[test]
fn absolute_concurrency_bounds_registered_splits() {
    const ROW_COUNT: usize = 8;
    assert_eq!(bounded_scan(ROW_COUNT, 1, true), Ok(()));
    assert_eq!(bounded_scan(ROW_COUNT, 1, false), Ok(()));
    assert_eq!(bounded_scan(ROW_COUNT, 3, true), Ok(()));
    assert_eq!(bounded_scan(ROW_COUNT, 3, false), Ok(()));
    // There may be fewer splits than may be held.
    assert_eq!(bounded_scan(3, 8, true), Ok(()));
    assert_eq!(bounded_scan(0, 8, true), Ok(()));
}

#[test]
fn a_scan_that_is_not_bounded_is_told() {
    let mut probe = SplitProbe::default();
    probe.register();
    probe.register();
    assert_eq!(
        assert_bounded_scan(&vec![0, 2], 2, &probe, 2),
        Err(BoundedScanError::Values)
    );
    assert_eq!(
        assert_bounded_scan(&vec![0, 1, 2], 3, &probe, 2),
        Err(BoundedScanError::Registered { registered: 2 })
    );
    assert_eq!(
        assert_bounded_scan(&vec![0, 1], 2, &probe, 1),
        Err(BoundedScanError::MaxOutstanding {
            expected: 1,
            found: 2
        })
    );
    probe.complete();
    assert_eq!((probe.registered(), probe.max_outstanding()), (2, 2));
}

#[test]
fn the_probe_reads_the_numbers_of_rows() {
    let mut reader = ProbeLayoutReader::new(5, SplitProbe::default());
    assert_eq!(reader.row_count(), 5);
    assert_eq!(reader.name(), "probe");
    assert!(reader.dtype().equals(&i32_dtype()));
    let mut splits = vec![3];
    reader.register_splits(&(1..4), 10, &mut splits);
    assert_eq!(splits, vec![3, 12, 13, 14]);
    assert_eq!(reader.projection_evaluation(&(2..4)), Ok(vec![2, 3]));
    let beyond = i32::MAX as u64 + 1;
    assert_eq!(
        reader.projection_evaluation(&(beyond..beyond + 1)),
        Err(ProjectionError::Value)
    );
    assert_eq!(reader.probe().registered(), 1);
}

fn counters(id: u64, spawned: u64, completed: u64, yielded: u64) -> ScanCounters {
    ScanCounters {
        id,
        spawned,
        completed,
        yielded,
    }
}

#[test]
fn a_stuck_scan_is_told_from_its_healthy_neighbours() {
    let mut prev = HashMap::new();
    assert!(sample_per_scan(&mut prev, &vec![counters(1, 4, 2, 2), counters(2, 3, 3, 1)]).is_empty());
    // The first scan goes on, the second stands still.
    let reports = sample_per_scan(&mut prev, &vec![counters(1, 5, 3, 3), counters(2, 3, 3, 1)]);
    assert_eq!(reports.len(), 1);
    assert_eq!(reports[0].counters.id, 2);
    assert_eq!(reports[0].mode, StallMode::DrainLostWake);
    assert_eq!((reports[0].stalled_ticks, reports[0].in_flight, reports[0].backlog), (1, 0, 2));
    let reports = sample_per_scan(&mut prev, &vec![counters(1, 5, 3, 3), counters(2, 3, 3, 1)]);
    assert_eq!(reports.len(), 2);
    assert_eq!(reports[0].mode, StallMode::StuckTaskBodies);
    assert_eq!(reports[1].stalled_ticks, 2);
    // A scan that is gone is forgotten.
    assert!(sample_per_scan(&mut prev, &vec![]).is_empty());
    assert!(prev.is_empty());
    // A scan with nothing outstanding is not stuck.
    sample_per_scan(&mut prev, &vec![counters(3, 2, 2, 2)]);
    assert!(sample_per_scan(&mut prev, &vec![counters(3, 2, 2, 2)]).is_empty());
}

#[test]
fn the_phases_say_where_tasks_are_stuck() {
    let c = AggregateCounters {
        spawned: 9,
        completed: 4,
        yielded: 3,
        task_started: 8,
        task_filter_done: 6,
        task_project_done: 5,
    };
    let mut prev = PerScanPrev {
        last: (0, 0, 0),
        stalled_ticks: 0,
    };
    assert_eq!(
        sample_aggregate(&mut prev, c),
        AggregateReport::Progressing {
            in_flight: 5,
            backlog: 1
        }
    );
    assert_eq!(
        sample_aggregate(&mut prev, c),
        AggregateReport::Stalled {
            stalled_ticks: 1,
            in_flight: 5,
            backlog: 1,
            stuck_before_filter: 2,
            stuck_before_project: 1
        }
    );
    let done = AggregateCounters {
        completed: 9,
        yielded: 9,
        ..c
    };
    assert_eq!(sample_aggregate(&mut prev, done), AggregateReport::Idle);
    assert_eq!(prev.stalled_ticks, 0);
}

#[test]
fn each_scan_has_a_number_of_its_own() {
    let mut registry = ScanRegistry::new();
    let ids: Vec<u64> = (0..3).map(|_| registry.register_scan().id).collect();
    assert_eq!(ids, vec![0, 1, 2]);
    registry.retain_live(&vec![true, false, true]);
    assert_eq!(registry.live, vec![0, 2]);
    let scan = registry.register_scan();
    assert_eq!(scan, counters(3, 0, 0, 0));
    // A scan that was dropped does not come back, and its number is not given again.
    registry.retain_live(&vec![true, true, false]);
    assert_eq!(registry.register_scan().id, 4);
    assert_eq!(registry.live, vec![0, 2, 4]);
    assert_eq!((scan.in_flight(), scan.backlog()), (0, 0));
}

fn unsettled() -> ParallelismCell {
    ParallelismCell { resolved: None }
}

#[test]
fn detects_parallelism_when_nothing_is_declared() {
    let mut cell = unsettled();
    let detected = get_available_parallelism(&mut cell, || Some(6)).unwrap();
    assert!(detected >= 1, "parallelism must be positive, got {detected}");
    assert_eq!(detected, 6);
    assert!(!cell.resolved.unwrap().declared);

    // Repeated calls read the resolved value.
    assert_eq!(get_available_parallelism(&mut cell, || None), Some(detected));
}

#[test]
fn a_declared_parallelism_is_reported_and_cannot_be_revised() {
    let mut cell = unsettled();
    let unused = || -> Option<usize> { panic!("detection is not asked") };
    // Deliberately not a plausible machine value, so nothing here can pass by coincidence.
    assert_eq!(set_available_parallelism(&mut cell, 7919), Ok(()));
    assert_eq!(get_available_parallelism(&mut cell, unused), Some(7919));

    // Declaring the same value again succeeds, another one is refused.
    assert_eq!(set_available_parallelism(&mut cell, 7919), Ok(()));
    let error = set_available_parallelism(&mut cell, 4).unwrap_err();
    assert_eq!(
        error,
        SetParallelismError {
            requested: 4,
            installed: Some(7919),
            installed_was_declared: true
        }
    );
    assert_eq!(
        error.to_string(),
        "cannot set the available parallelism to 4: 7919 was already declared"
    );
    assert_eq!(get_available_parallelism(&mut cell, unused), Some(7919));
}

#[test]
fn a_declaration_after_the_first_read_is_refused() {
    let mut cell = unsettled();
    let detected = get_available_parallelism(&mut cell, || Some(8)).unwrap();
    let error = set_available_parallelism(&mut cell, detected + 1).unwrap_err();
    assert_eq!(error.requested, detected + 1);
    assert_eq!(error.installed, Some(detected));
    assert!(!error.installed_was_declared);
    assert_eq!(
        error.to_string(),
        "cannot set the available parallelism to 9: it was already resolved to the detected 8, \
         so this call came after something read it"
    );
    // The detected value is still what readers see.
    assert_eq!(get_available_parallelism(&mut cell, || Some(1)), Some(detected));
    // What was detected may be declared.
    assert_eq!(set_available_parallelism(&mut cell, 8), Ok(()));

    let mut cell = unsettled();
    assert_eq!(get_available_parallelism(&mut cell, || None), None);
    assert_eq!(
        set_available_parallelism(&mut cell, 2).unwrap_err().to_string(),
        "cannot set the available parallelism to 2: detection already ran and failed, so this \
         call came after something read it"
    );
}
