//! The splits that a scan of a row range reads.

use crate::dtype::DType;
use std::ops::Range;
use vstd::prelude::*;

verus! {

/// Which rows of the row range are selected. Indices are in ascending order.
#[derive(Debug)]
pub enum Selection {
    All,
    IncludeByIndex(Vec<u64>),
    ExcludeByIndex(Vec<u64>),
    /// A set of included rows, in ascending order.
    IncludeRoaring(Vec<u64>),
    /// A set of excluded rows, in ascending order.
    ExcludeRoaring(Vec<u64>),
}

/// Where a file can be split.
#[derive(Debug)]
pub enum Splits {
    /// At these rows, in ascending order.
    Natural(Vec<u64>),
    /// Into these ranges.
    Ranges(Vec<Range<u64>>),
}

/// The rows of a range.
pub open spec fn range_contains(range: Range<u64>, row: int) -> bool {
    range.start <= row < range.end
}

/// The rows of both ranges, where no range stands for all rows.
pub open spec fn intersection(left: Option<Range<u64>>, right: Option<Range<u64>>) -> Option<
    Range<u64>,
> {
    match (left, right) {
        (None, None) => None,
        (None, Some(r)) => Some(r),
        (Some(l), None) => Some(l),
        (Some(l), Some(r)) => Some(
            Range {
                start: if l.start >= r.start {
                    l.start
                } else {
                    r.start
                },
                end: if l.end <= r.end {
                    l.end
                } else {
                    r.end
                },
            },
        ),
    }
}

/// Returns the rows of both ranges, where no range stands for all rows.
pub fn intersect_ranges(left: Option<&Range<u64>>, right: Option<Range<u64>>) -> (r: Option<
    Range<u64>,
>)
    ensures
        r == intersection(
            match left {
                Some(l) => Some(*l),
                None => None,
            },
            right,
        ),
{
    match (left, right) {
        (None, None) => None,
        (None, Some(r)) => Some(r),
        (Some(l), None) => Some(l.start..l.end),
        (Some(l), Some(r)) => {
            let start: u64 = if l.start >= r.start {
                l.start
            } else {
                r.start
            };
            let end: u64 = if l.end <= r.end {
                l.end
            } else {
                r.end
            };
            Some(start..end)
        },
    }
}

impl Selection {
    /// Whether the indices are in ascending order.
    pub open spec fn wf(self) -> bool {
        match self {
            Selection::All => true,
            Selection::IncludeByIndex(rows) => ascending_points(rows@),
            Selection::ExcludeByIndex(rows) => ascending_points(rows@),
            Selection::IncludeRoaring(rows) => ascending_points(rows@),
            Selection::ExcludeRoaring(rows) => ascending_points(rows@),
        }
    }

    /// Whether a row is selected.
    pub open spec fn selects(self, row: u64) -> bool {
        match self {
            Selection::All => true,
            Selection::IncludeByIndex(rows) => rows@.contains(row),
            Selection::ExcludeByIndex(rows) => !rows@.contains(row),
            Selection::IncludeRoaring(rows) => rows@.contains(row),
            Selection::ExcludeRoaring(rows) => !rows@.contains(row),
        }
    }

    /// Whether no row of a range is selected.
    pub open spec fn selects_nothing_of(self, range: Range<u64>) -> bool {
        forall|row: u64| range_contains(range, row as int) ==> !#[trigger] self.selects(row)
    }

    /// Returns whether no row of a range is selected.
    pub fn selects_nothing(&self, range: &Range<u64>) -> (r: bool)
        requires
            self.wf(),
        ensures
            r == self.selects_nothing_of(*range),
    {
        match self {
            Selection::All => {
                if range.start < range.end {
                    assert(self.selects(range.start));
                }
                range.start >= range.end
            },
            Selection::IncludeByIndex(rows) => {
                assert(forall|row: u64| #[trigger] rows@.contains(row) == self.selects(row));
                !holds_row_of(rows, range)
            },
            Selection::IncludeRoaring(rows) => {
                assert(forall|row: u64| #[trigger] rows@.contains(row) == self.selects(row));
                !holds_row_of(rows, range)
            },
            Selection::ExcludeByIndex(rows) => {
                assert(forall|row: u64| #[trigger] rows@.contains(row) == !self.selects(row));
                holds_rows_of(rows, range)
            },
            Selection::ExcludeRoaring(rows) => {
                assert(forall|row: u64| #[trigger] rows@.contains(row) == !self.selects(row));
                holds_rows_of(rows, range)
            },
        }
    }

    /// The indices of a selection that includes rows.
    pub open spec fn included(self) -> Seq<u64> {
        match self {
            Selection::IncludeByIndex(rows) => rows@,
            Selection::IncludeRoaring(rows) => rows@,
            _ => Seq::empty(),
        }
    }

    /// The rows from the first included one to the last, or nothing if that says nothing.
    pub open spec fn range_spec(self) -> Option<Range<u64>> {
        if self.included().len() == 0 {
            None
        } else {
            Some(
                Range {
                    start: self.included()[0],
                    end: (self.included().last() + 1) as u64,
                },
            )
        }
    }

    /// Returns the rows from the first included one to the last, or nothing for a selection that
    /// includes no rows by index.
    pub fn range(&self) -> (r: Option<Range<u64>>)
        requires
            self.included().len() > 0 ==> self.included().last() < u64::MAX,
        ensures
            r == self.range_spec(),
    {
        match self {
            Selection::IncludeByIndex(rows) => if rows.len() > 0 {
                Some(rows[0]..rows[rows.len() - 1] + 1)
            } else {
                None
            },
            Selection::IncludeRoaring(rows) => if rows.len() > 0 {
                Some(rows[0]..rows[rows.len() - 1] + 1)
            } else {
                None
            },
            _ => None,
        }
    }
}

/// Returns whether some of the rows lies in a range.
fn holds_row_of(rows: &Vec<u64>, range: &Range<u64>) -> (r: bool)
    ensures
        r == exists|row: u64|
            range_contains(*range, row as int) && #[trigger] rows@.contains(row),
{
    let mut i: usize = 0;
    while i < rows.len()
        invariant
            0 <= i <= rows.len(),
            forall|j: int| 0 <= j < i ==> !range_contains(*range, #[trigger] rows@[j] as int),
        decreases rows.len() - i,
    {
        if range.start <= rows[i] && rows[i] < range.end {
            assert(rows@.contains(rows@[i as int]));
            return true;
        }
        i += 1;
    }
    false
}

/// Returns whether each row of a range is one of the rows, which are in ascending order.
fn holds_rows_of(rows: &Vec<u64>, range: &Range<u64>) -> (r: bool)
    requires
        ascending_points(rows@),
    ensures
        r == forall|row: u64|
            range_contains(*range, row as int) ==> #[trigger] rows@.contains(row),
{
    // All rows of the range before this one are there.
    let mut next: u64 = range.start;
    let mut i: usize = 0;
    while i < rows.len() && next < range.end
        invariant
            0 <= i <= rows.len(),
            range.start <= next,
            next <= range.end || next == range.start,
            ascending_points(rows@),
            forall|row: u64| range.start <= row < next ==> #[trigger] rows@.contains(row),
            forall|j: int| 0 <= j < i ==> #[trigger] rows@[j] < next,
        decreases rows.len() - i,
    {
        if rows[i] > next {
            assert(!rows@.contains(next)) by {
                if rows@.contains(next) {
                    let j = choose|j: int| 0 <= j < rows@.len() && rows@[j] == next;
                    assert(rows@[i as int] <= rows@[j]);
                }
            }
            return false;
        }
        if rows[i] == next {
            assert(rows@.contains(rows@[i as int]));
            next = next + 1;
        }
        i += 1;
    }
    if next < range.end {
        assert(!rows@.contains(next));
    }
    next >= range.end
}

/// The ranges between neighbouring points.
pub open spec fn windows(points: Seq<u64>) -> Seq<Range<u64>> {
    if points.len() < 2 {
        Seq::empty()
    } else {
        Seq::new(
            (points.len() - 1) as nat,
            |i: int| Range { start: points[i], end: points[i + 1] },
        )
    }
}

/// The points from `start` to before `end`.
pub open spec fn points_inside(points: Seq<u64>, start: u64, end: u64) -> Seq<u64>
    decreases points.len(),
{
    if points.len() == 0 {
        Seq::empty()
    } else {
        let before = points_inside(points.drop_last(), start, end);
        if start <= points.last() < end {
            before.push(points.last())
        } else {
            before
        }
    }
}

/// The parts of the ranges that lie in `range`, without those of which nothing does.
pub open spec fn clipped(ranges: Seq<Range<u64>>, range: Range<u64>) -> Seq<Range<u64>>
    decreases ranges.len(),
{
    if ranges.len() == 0 {
        Seq::empty()
    } else {
        let before = clipped(ranges.drop_last(), range);
        let both = intersection(Some(ranges.last()), Some(range)).unwrap();
        if both.start < both.end {
            before.push(both)
        } else {
            before
        }
    }
}

/// The ranges that a file is split into, of the rows in `range`.
pub open spec fn split_ranges_spec(splits: Splits, range: Option<Range<u64>>) -> Seq<Range<u64>> {
    match (splits, range) {
        (Splits::Natural(points), None) => windows(points@),
        (Splits::Natural(points), Some(r)) => if r.start >= r.end {
            Seq::empty()
        } else {
            windows(seq![r.start] + points_inside(points@, r.start, r.end) + seq![r.end])
        },
        (Splits::Ranges(ranges), None) => ranges@,
        (Splits::Ranges(ranges), Some(r)) => if r.start >= r.end {
            Seq::empty()
        } else {
            clipped(ranges@, r)
        },
    }
}

/// Whether the points never decrease.
pub open spec fn ascending_points(points: Seq<u64>) -> bool {
    forall|i: int, j: int| 0 <= i <= j < points.len() ==> points[i] <= points[j]
}

fn windows_of(points: &Vec<u64>) -> (r: Vec<Range<u64>>)
    ensures
        r@ == windows(points@),
{
    let mut out: Vec<Range<u64>> = Vec::new();
    if points.len() >= 2 {
        let mut i: usize = 0;
        while i < points.len() - 1
            invariant
                0 <= i <= points.len() - 1,
                points.len() >= 2,
                out@ =~= windows(points@).take(i as int),
            decreases points.len() - i,
        {
            out.push(points[i]..points[i + 1]);
            i += 1;
        }
    }
    assert(out@ =~= windows(points@));
    out
}

/// A projected subset, by indices and range, of the rows of a data source, which can be scanned
/// for several row ranges.
#[derive(Debug)]
pub struct RepeatedScan {
    /// Optionally read a subset of the rows in the file.
    pub row_range: Option<Range<u64>>,
    /// The selection to apply to the selected row range.
    pub selection: Selection,
    /// The natural splits of the file.
    pub splits: Splits,
    /// Maximal number of rows to read, after filtering.
    pub limit: Option<u64>,
    /// Whether the results come in file order.
    pub ordered: bool,
    /// The type of the projected arrays.
    pub dtype: DType,
}

impl RepeatedScan {
    /// Whether natural splits are in order, and the selection can be turned into a range.
    pub open spec fn wf(self) -> bool {
        &&& self.splits matches Splits::Natural(points) ==> ascending_points(points@)
        &&& self.selection.wf()
        &&& self.selection.included().len() > 0 ==> self.selection.included().last() < u64::MAX
    }

    /// The rows that a scan of `row_range` can read.
    pub open spec fn effective_range(self, row_range: Option<Range<u64>>) -> Option<Range<u64>> {
        intersection(intersection(self.row_range, row_range), self.selection.range_spec())
    }

    /// Makes a scan.
    pub fn new(
        row_range: Option<Range<u64>>,
        selection: Selection,
        splits: Splits,
        limit: Option<u64>,
        ordered: bool,
        dtype: DType,
    ) -> (r: Self)
        ensures
            r == (RepeatedScan { row_range, selection, splits, limit, ordered, dtype }),
    {
        RepeatedScan { row_range, selection, splits, limit, ordered, dtype }
    }

    /// Returns the type of the projected arrays.
    pub fn dtype(&self) -> (r: &DType)
        ensures
            *r == self.dtype,
    {
        &self.dtype
    }

    /// Returns the row range of each split that this scan will read, in file order.
    pub fn split_ranges(&self, row_range: Option<Range<u64>>) -> (r: Vec<Range<u64>>)
        requires
            self.wf(),
        ensures
            r@ == split_ranges_spec(self.splits, self.effective_range(row_range)),
    {
        let selection_range = self.selection.range();
        let row_range = intersect_ranges(self.row_range.as_ref(), row_range);
        let row_range = intersect_ranges(row_range.as_ref(), selection_range);
        match &self.splits {
            Splits::Natural(points) => match row_range {
                None => windows_of(points),
                Some(range) => {
                    if range.start >= range.end {
                        return Vec::new();
                    }
                    let mut cuts: Vec<u64> = Vec::new();
                    cuts.push(range.start);
                    let mut i: usize = 0;
                    assert(points@.take(0) =~= Seq::empty());
                    assert(cuts@ =~= seq![range.start] + points_inside(
                        points@.take(0),
                        range.start,
                        range.end,
                    ));
                    while i < points.len()
                        invariant
                            0 <= i <= points.len(),
                            cuts@ == seq![range.start] + points_inside(
                                points@.take(i as int),
                                range.start,
                                range.end,
                            ),
                        decreases points.len() - i,
                    {
                        proof {
                            assert(points@.take(i as int + 1).drop_last() =~= points@.take(
                                i as int,
                            ));
                        }
                        let x: u64 = points[i];
                        if range.start <= x && x < range.end {
                            cuts.push(x);
                        }
                        i += 1;
                        assert(cuts@ =~= seq![range.start] + points_inside(
                            points@.take(i as int),
                            range.start,
                            range.end,
                        ));
                    }
                    assert(points@.take(i as int) =~= points@);
                    cuts.push(range.end);
                    assert(cuts@ =~= seq![range.start] + points_inside(
                        points@,
                        range.start,
                        range.end,
                    ) + seq![range.end]);
                    windows_of(&cuts)
                },
            },
            Splits::Ranges(ranges) => {
                let mut out: Vec<Range<u64>> = Vec::new();
                let mut i: usize = 0;
                match row_range {
                    None => {
                        while i < ranges.len()
                            invariant
                                0 <= i <= ranges.len(),
                                out@ =~= ranges@.take(i as int),
                            decreases ranges.len() - i,
                        {
                            out.push(ranges[i].start..ranges[i].end);
                            i += 1;
                        }
                        assert(ranges@.take(i as int) =~= ranges@);
                    },
                    Some(range) => {
                        if range.start >= range.end {
                            return out;
                        }
                        assert(ranges@.take(0) =~= Seq::empty());
                        while i < ranges.len()
                            invariant
                                0 <= i <= ranges.len(),
                                out@ == clipped(ranges@.take(i as int), range),
                            decreases ranges.len() - i,
                        {
                            proof {
                                assert(ranges@.take(i as int + 1).drop_last() =~= ranges@.take(
                                    i as int,
                                ));
                            }
                            let start: u64 = if ranges[i].start >= range.start {
                                ranges[i].start
                            } else {
                                range.start
                            };
                            let end: u64 = if ranges[i].end <= range.end {
                                ranges[i].end
                            } else {
                                range.end
                            };
                            if start < end {
                                out.push(start..end);
                            }
                            i += 1;
                        }
                        assert(ranges@.take(i as int) =~= ranges@);
                    },
                }
                out
            },
        }
    }

    /// Starts to build the tasks of a scan, one for each split of `row_range` of which some row is
    /// selected.
    pub fn split_tasks(&self, row_range: Option<Range<u64>>) -> (r: SplitTasks)
        requires
            self.wf(),
        ensures
            r.wf(),
            r.ranges@ == split_ranges_spec(self.splits, self.effective_range(row_range)),
            forall|i: int|
                0 <= i < r.ranges.len() ==> #[trigger] r.nothing_selected@[i]
                    == self.selection.selects_nothing_of(r.ranges@[i]),
            r.position == 0,
            r.finished == false,
            r.limit == self.limit,
    {
        let ranges = self.split_ranges(row_range);
        let mut nothing_selected: Vec<bool> = Vec::new();
        let mut i: usize = 0;
        while i < ranges.len()
            invariant
                0 <= i <= ranges.len(),
                self.wf(),
                nothing_selected.len() == i,
                forall|j: int|
                    0 <= j < i ==> #[trigger] nothing_selected@[j]
                        == self.selection.selects_nothing_of(ranges@[j]),
            decreases ranges.len() - i,
        {
            nothing_selected.push(self.selection.selects_nothing(&ranges[i]));
            i += 1;
        }
        SplitTasks { ranges, nothing_selected, position: 0, finished: false, limit: self.limit }
    }
}

/// The tasks of a scan, built one at a time and in file order.
///
/// Constructing a task registers its reads, so a task is built when it is asked for.
#[derive(Debug)]
pub struct SplitTasks {
    pub ranges: Vec<Range<u64>>,
    /// For each range, whether no row of it is selected.
    pub nothing_selected: Vec<bool>,
    pub position: usize,
    pub finished: bool,
    pub limit: Option<u64>,
}

/// The first split from `position` on of which some row is selected, or the end.
pub open spec fn next_selected(nothing_selected: Seq<bool>, position: int) -> int
    decreases nothing_selected.len() - position,
{
    if position >= nothing_selected.len() || position < 0 {
        position
    } else if !nothing_selected[position] {
        position
    } else {
        next_selected(nothing_selected, position + 1)
    }
}

/// The split that a task is built for next, if there is one, and the position after it.
pub open spec fn next_task(nothing_selected: Seq<bool>, position: int, finished: bool) -> (
    Option<int>,
    int,
) {
    let next = next_selected(nothing_selected, position);
    if finished {
        (None, position)
    } else if next < nothing_selected.len() {
        (Some(next), next + 1)
    } else {
        (None, nothing_selected.len() as int)
    }
}

/// The splits that tasks are built for from a position on, until there is none left.
pub open spec fn tasks_from(nothing_selected: Seq<bool>, position: int) -> Seq<int>
    decreases nothing_selected.len() - position,
{
    match next_task(nothing_selected, position, false) {
        (Some(i), after) => if position <= i < after {
            seq![i] + tasks_from(nothing_selected, after)
        } else {
            Seq::empty()
        },
        _ => Seq::empty(),
    }
}

impl SplitTasks {
    /// Whether the position is in the ranges.
    pub open spec fn wf(self) -> bool {
        self.position <= self.ranges.len() && self.nothing_selected.len() == self.ranges.len()
    }

    /// Returns the next range to build a task for, and moves past it. A range of which no row is
    /// selected is skipped.
    pub fn next_range(&mut self) -> (r: Option<Range<u64>>)
        requires
            old(self).wf(),
        ensures
            final(self).wf(),
            final(self).ranges@ == old(self).ranges@,
            final(self).nothing_selected@ == old(self).nothing_selected@,
            final(self).finished == old(self).finished,
            final(self).limit == old(self).limit,
            ({
                let (task, after) = next_task(
                    old(self).nothing_selected@,
                    old(self).position as int,
                    old(self).finished,
                );
                &&& r == (match task {
                    Some(i) => Some(old(self).ranges@[i]),
                    None => None,
                })
                &&& final(self).position == after
            }),
            ({
                let next = next_selected(old(self).nothing_selected@, old(self).position as int);
                &&& old(self).finished ==> r is None && final(self).position == old(self).position
                &&& !old(self).finished && next < old(self).ranges.len() ==> r == Some(
                    old(self).ranges@[next],
                ) && final(self).position == next + 1
                &&& !old(self).finished && next >= old(self).ranges.len() ==> r is None
                    && final(self).position == old(self).ranges.len()
            }),
    {
        if self.finished {
            return None;
        }
        while self.position < self.ranges.len()
            invariant
                self.wf(),
                self.ranges@ == old(self).ranges@,
                self.ranges.len() == old(self).ranges.len(),
                self.finished == old(self).finished,
                self.limit == old(self).limit,
                !old(self).finished,
                self.nothing_selected@ == old(self).nothing_selected@,
                next_selected(self.nothing_selected@, old(self).position as int) == next_selected(
                    self.nothing_selected@,
                    self.position as int,
                ),
            decreases self.ranges.len() - self.position,
        {
            let i: usize = self.position;
            self.position = i + 1;
            if !self.nothing_selected[i] {
                return Some(self.ranges[i].start..self.ranges[i].end);
            }
        }
        None
    }

    /// Whether the tasks end with one that was built: it failed, or nothing is left of the limit.
    pub open spec fn ends_with_task(failed: bool, limit: Option<u64>) -> bool {
        failed || (limit matches Some(left) && left == 0)
    }

    /// Takes note of the task that was built for the last range: whether that failed, and what
    /// is left of the limit. A failure or an exhausted limit ends the tasks.
    pub fn task_built(&mut self, failed: bool, limit: Option<u64>)
        requires
            old(self).wf(),
        ensures
            final(self).wf(),
            final(self).ranges@ == old(self).ranges@,
            final(self).nothing_selected@ == old(self).nothing_selected@,
            final(self).position == old(self).position,
            final(self).limit == limit,
            final(self).finished == (old(self).finished || failed || limit == Some(0u64)),
            final(self).finished == (old(self).finished || SplitTasks::ends_with_task(failed, limit)),
    {
        self.limit = limit;
        if failed {
            self.finished = true;
        }
        match limit {
            Some(left) => if left == 0 {
                self.finished = true;
            },
            None => {},
        }
    }
}

/// A row lies in the intersection of two ranges exactly when it lies in both.
pub proof fn law_intersection_is_both(left: Range<u64>, right: Range<u64>, row: int)
    ensures
        range_contains(intersection(Some(left), Some(right)).unwrap(), row) <==> range_contains(
            left,
            row,
        ) && range_contains(right, row),
{
}

proof fn lemma_points_inside(points: Seq<u64>, start: u64, end: u64)
    requires
        ascending_points(points),
    ensures
        ascending_points(points_inside(points, start, end)),
        forall|i: int|
            0 <= i < points_inside(points, start, end).len() ==> start <= #[trigger] points_inside(
                points,
                start,
                end,
            )[i] < end,
        points_inside(points, start, end).len() > 0 ==> points.len() > 0 && points_inside(
            points,
            start,
            end,
        ).last() <= points.last(),
    decreases points.len(),
{
    if points.len() > 0 {
        lemma_points_inside(points.drop_last(), start, end);
        let before = points_inside(points.drop_last(), start, end);
        if before.len() > 0 {
            assert(points.drop_last().last() <= points.last());
        }
    }
}

/// The natural splits of a non-empty row range follow one another from its first row to its
/// last, and none runs backwards.
pub proof fn law_natural_splits_cover_the_range(points: Vec<u64>, range: Range<u64>)
    requires
        ascending_points(points@),
        range.start < range.end,
    ensures
        ({
            let splits = split_ranges_spec(Splits::Natural(points), Some(range));
            &&& splits.len() > 0
            &&& splits[0].start == range.start
            &&& splits.last().end == range.end
            &&& forall|i: int| 0 <= i < splits.len() ==> (#[trigger] splits[i]).start <= splits[i].end
            &&& forall|i: int|
                0 < i < splits.len() ==> (#[trigger] splits[i]).start == splits[i - 1].end
        }),
{
    lemma_points_inside(points@, range.start, range.end);
    let inside = points_inside(points@, range.start, range.end);
    let all = seq![range.start] + inside + seq![range.end];
    let splits = windows(all);
    assert forall|i: int| 0 <= i < splits.len() implies (#[trigger] splits[i]).start
        <= splits[i].end by {
        if i > 0 {
            assert(all[i] == inside[i - 1]);
        }
        if i + 1 < all.len() - 1 {
            assert(all[i + 1] == inside[i]);
        }
    }
}

/// Without a row range the natural splits follow one another from the first point to the last.
pub proof fn law_natural_splits_cover_the_file(points: Vec<u64>)
    requires
        ascending_points(points@),
        points.len() >= 2,
    ensures
        ({
            let splits = split_ranges_spec(Splits::Natural(points), None);
            &&& splits.len() == points.len() - 1
            &&& splits[0].start == points@[0]
            &&& splits.last().end == points@.last()
            &&& forall|i: int| 0 <= i < splits.len() ==> (#[trigger] splits[i]).start <= splits[i].end
            &&& forall|i: int|
                0 < i < splits.len() ==> (#[trigger] splits[i]).start == splits[i - 1].end
        }),
{
}

proof fn lemma_chain_covers(splits: Seq<Range<u64>>, row: int, n: int)
    requires
        0 < n <= splits.len(),
        splits[0].start <= row < splits[n - 1].end,
        forall|i: int| 0 < i < splits.len() ==> (#[trigger] splits[i]).start == splits[i - 1].end,
    ensures
        some_range_contains(splits, row),
    decreases n,
{
    if splits[n - 1].start <= row {
        assert(range_contains(splits[n - 1], row));
    } else {
        assert(splits[n - 1].start == splits[n - 2].end);
        lemma_chain_covers(splits, row, n - 1);
    }
}

/// No selected row is missed: a row that is selected, in the row range of a scan with natural
/// splits, or between the first and the last split where there is no row range, lies in a split of
/// which a task is built.
pub proof fn law_no_selected_row_is_missed(
    scan: RepeatedScan,
    row_range: Option<Range<u64>>,
    row: u64,
)
    requires
        scan.wf(),
        scan.splits is Natural,
        scan.selection.selects(row),
        match intersection(scan.row_range, row_range) {
            Some(range) => range_contains(range, row as int),
            None => scan.splits->Natural_0.len() >= 2 && scan.splits->Natural_0@[0] <= row
                < scan.splits->Natural_0@.last(),
        },
    ensures
        ({
            let splits = split_ranges_spec(scan.splits, scan.effective_range(row_range));
            exists|i: int|
                0 <= i < splits.len() && range_contains(#[trigger] splits[i], row as int)
                    && !scan.selection.selects_nothing_of(splits[i])
        }),
{
    let points = scan.splits->Natural_0;
    let included = scan.selection.included();
    if included.len() > 0 {
        let k = choose|k: int| 0 <= k < included.len() && included[k] == row;
        assert(included[0] <= included[k] <= included[included.len() - 1]);
    }
    let effective = scan.effective_range(row_range);
    let splits = split_ranges_spec(scan.splits, effective);
    match effective {
        Some(range) => {
            assert(range_contains(range, row as int));
            law_natural_splits_cover_the_range(points, range);
        },
        None => {
            law_natural_splits_cover_the_file(points);
        },
    }
    lemma_chain_covers(splits, row as int, splits.len() as int);
    let i = choose|i: int| 0 <= i < splits.len() && range_contains(#[trigger] splits[i], row as int);
    assert(scan.selection.selects(row));
}

/// Whether some range holds the row.
pub open spec fn some_range_contains(ranges: Seq<Range<u64>>, row: int) -> bool {
    exists|i: int| 0 <= i < ranges.len() && range_contains(#[trigger] ranges[i], row)
}

/// Clipping ranges keeps the rows of the row range, and no others.
pub proof fn law_clipped_ranges_keep_the_rows(
    ranges: Seq<Range<u64>>,
    range: Range<u64>,
    row: int,
)
    ensures
        some_range_contains(clipped(ranges, range), row) <==> some_range_contains(ranges, row)
            && range_contains(range, row),
    decreases ranges.len(),
{
    if ranges.len() > 0 {
        let rest = ranges.drop_last();
        law_clipped_ranges_keep_the_rows(rest, range, row);
        let before = clipped(rest, range);
        let all = clipped(ranges, range);
        let both = intersection(Some(ranges.last()), Some(range)).unwrap();
        if some_range_contains(all, row) {
            let i = choose|i: int| 0 <= i < all.len() && range_contains(#[trigger] all[i], row);
            if i < before.len() {
                assert(range_contains(before[i], row));
                let j = choose|j: int| 0 <= j < rest.len() && range_contains(#[trigger] rest[j], row);
                assert(range_contains(ranges[j], row));
            } else {
                assert(range_contains(ranges[ranges.len() - 1], row));
            }
        }
        if some_range_contains(ranges, row) && range_contains(range, row) {
            let i = choose|i: int|
                0 <= i < ranges.len() && range_contains(#[trigger] ranges[i], row);
            if i < rest.len() {
                assert(range_contains(rest[i], row));
                let j = choose|j: int|
                    0 <= j < before.len() && range_contains(#[trigger] before[j], row);
                assert(range_contains(all[j], row));
            } else {
                assert(range_contains(all[all.len() - 1], row));
            }
        }
    }
}

/// A split never reaches outside what is asked for: each row of each split lies in the row range of
/// the scan, in the row range that it is asked for, and between the first and the last row that the
/// selection includes, as far as there are such.
pub proof fn law_no_split_reaches_outside(
    scan: RepeatedScan,
    row_range: Option<Range<u64>>,
    i: int,
    row: u64,
)
    requires
        scan.wf(),
        0 <= i < split_ranges_spec(scan.splits, scan.effective_range(row_range)).len(),
        split_ranges_spec(scan.splits, scan.effective_range(row_range))[i].start <= row,
        row < split_ranges_spec(scan.splits, scan.effective_range(row_range))[i].end,
    ensures
        scan.row_range matches Some(range) ==> range.start <= row < range.end,
        row_range matches Some(range) ==> range.start <= row < range.end,
        scan.selection matches Selection::IncludeByIndex(rows) ==> rows.len() > 0 ==> rows@[0] <= row
            <= rows@[rows.len() - 1],
        scan.selection matches Selection::IncludeRoaring(rows) ==> rows.len() > 0 ==> rows@[0] <= row
            <= rows@[rows.len() - 1],
{
    let effective = scan.effective_range(row_range);
    let splits = split_ranges_spec(scan.splits, effective);
    if let Some(range) = effective {
        assert(range_contains(range, row as int)) by {
            match scan.splits {
                Splits::Natural(points) => {
                    lemma_points_inside(points@, range.start, range.end);
                    let inside = points_inside(points@, range.start, range.end);
                    let all = seq![range.start] + inside + seq![range.end];
                    if i > 0 {
                        assert(all[i] == inside[i - 1]);
                    }
                    if i + 1 < all.len() - 1 {
                        assert(all[i + 1] == inside[i]);
                    }
                },
                Splits::Ranges(ranges) => {
                    assert(range_contains(splits[i], row as int));
                    law_clipped_ranges_keep_the_rows(ranges@, range, row as int);
                },
            }
        }
    }
}

proof fn lemma_points_kept(points: Seq<u64>, start: u64, end: u64, k: int)
    requires
        0 <= k < points.len(),
        start <= points[k] < end,
    ensures
        points_inside(points, start, end).contains(points[k]),
    decreases points.len(),
{
    let before = points_inside(points.drop_last(), start, end);
    let all = points_inside(points, start, end);
    if k < points.len() - 1 {
        lemma_points_kept(points.drop_last(), start, end, k);
        let j = choose|j: int| 0 <= j < before.len() && before[j] == points[k];
        assert(all[j] == points[k]);
    } else {
        assert(all[all.len() - 1] == points[k]);
    }
}

proof fn lemma_points_are_points(points: Seq<u64>, start: u64, end: u64, k: int)
    requires
        0 <= k < points_inside(points, start, end).len(),
    ensures
        points.contains(points_inside(points, start, end)[k]),
    decreases points.len(),
{
    let before = points_inside(points.drop_last(), start, end);
    let all = points_inside(points, start, end);
    if k < before.len() {
        lemma_points_are_points(points.drop_last(), start, end, k);
        let j = choose|j: int|
            0 <= j < points.len() - 1 && points.drop_last()[j] == before[k];
        assert(points[j] == all[k]);
    } else {
        assert(points[points.len() - 1] == all[k]);
    }
}

/// A file is cut at its natural splits and nowhere else: no split has one of them inside, and where
/// a split follows another they meet at one of them.
pub proof fn law_cuts_are_at_the_natural_splits(
    points: Vec<u64>,
    range: Option<Range<u64>>,
    i: int,
    k: int,
)
    requires
        ascending_points(points@),
        0 <= i < split_ranges_spec(Splits::Natural(points), range).len(),
        0 <= k < points.len(),
    ensures
        ({
            let splits = split_ranges_spec(Splits::Natural(points), range);
            &&& !(splits[i].start < points@[k] < splits[i].end)
            &&& i > 0 ==> points@.contains(splits[i].start)
        }),
{
    let splits = split_ranges_spec(Splits::Natural(points), range);
    match range {
        None => {
            assert(points@.contains(points@[i]));
        },
        Some(r) => {
            lemma_points_inside(points@, r.start, r.end);
            let inside = points_inside(points@, r.start, r.end);
            let all = seq![r.start] + inside + seq![r.end];
            if i > 0 {
                assert(all[i] == inside[i - 1]);
                lemma_points_are_points(points@, r.start, r.end, i - 1);
            }
            if i + 1 < all.len() - 1 {
                assert(all[i + 1] == inside[i]);
            }
            if splits[i].start < points@[k] < splits[i].end {
                lemma_points_kept(points@, r.start, r.end, k);
                let j = choose|j: int| 0 <= j < inside.len() && inside[j] == points@[k];
                if j < i {
                    assert(inside[j] <= inside[i - 1]);
                } else if i < inside.len() {
                    assert(inside[i] <= inside[j]);
                }
            }
        },
    }
}

/// A row that is asked for is not lost where a file is split into given ranges: a row of one of them
/// that is selected and lies in both row ranges lies in a split of which a task is built.
pub proof fn law_no_selected_row_of_the_ranges_is_missed(
    scan: RepeatedScan,
    row_range: Option<Range<u64>>,
    k: int,
    row: u64,
)
    requires
        scan.wf(),
        scan.splits is Ranges,
        0 <= k < scan.splits->Ranges_0.len(),
        scan.splits->Ranges_0@[k].start <= row < scan.splits->Ranges_0@[k].end,
        scan.row_range matches Some(range) ==> range.start <= row < range.end,
        row_range matches Some(range) ==> range.start <= row < range.end,
        scan.selection.selects(row),
    ensures
        ({
            let splits = split_ranges_spec(scan.splits, scan.effective_range(row_range));
            exists|i: int|
                0 <= i < splits.len() && range_contains(#[trigger] splits[i], row as int)
                    && !scan.selection.selects_nothing_of(splits[i])
        }),
{
    let ranges = scan.splits->Ranges_0@;
    let included = scan.selection.included();
    if included.len() > 0 {
        let j = choose|j: int| 0 <= j < included.len() && included[j] == row;
        assert(included[0] <= included[j] <= included[included.len() - 1]);
    }
    let effective = scan.effective_range(row_range);
    let splits = split_ranges_spec(scan.splits, effective);
    assert(range_contains(ranges[k], row as int));
    assert(some_range_contains(ranges, row as int));
    if let Some(range) = effective {
        law_clipped_ranges_keep_the_rows(ranges, range, row as int);
    }
    assert(some_range_contains(splits, row as int));
    let i = choose|i: int| 0 <= i < splits.len() && range_contains(#[trigger] splits[i], row as int);
    assert(scan.selection.selects(row));
}

/// Whether each range begins where or after the one before it ends.
pub open spec fn one_after_another(ranges: Seq<Range<u64>>) -> bool {
    &&& forall|i: int| 0 <= i < ranges.len() ==> (#[trigger] ranges[i]).start <= ranges[i].end
    &&& forall|i: int, j: int|
        #![trigger ranges[i], ranges[j]]
        0 <= i < j < ranges.len() ==> ranges[i].end <= ranges[j].start
}

proof fn lemma_clipped_in_order(ranges: Seq<Range<u64>>, range: Range<u64>)
    requires
        one_after_another(ranges),
    ensures
        one_after_another(clipped(ranges, range)),
        ranges.len() > 0 && clipped(ranges, range).len() > 0 ==> clipped(ranges, range).last().end
            <= ranges.last().end,
    decreases ranges.len(),
{
    if ranges.len() > 0 {
        let rest = ranges.drop_last();
        assert(one_after_another(rest)) by {
            assert(forall|i: int| 0 <= i < rest.len() ==> #[trigger] rest[i] == ranges[i]);
        }
        lemma_clipped_in_order(rest, range);
        let before = clipped(rest, range);
        let all = clipped(ranges, range);
        if before.len() > 0 {
            assert(rest.last() == ranges[rest.len() - 1]);
            assert(ranges[rest.len() - 1].end <= ranges[rest.len() as int].start);
            assert(forall|i: int| 0 <= i < before.len() ==> (#[trigger] before[i]).end
                <= before.last().end);
        }
        assert forall|i: int, j: int|
            #![trigger all[i], all[j]]
            0 <= i < j < all.len() implies all[i].end <= all[j].start by {
            if j < before.len() {
                assert(before[i].end <= before[j].start);
            } else {
                assert(before[i].end <= before.last().end);
            }
        }
    }
}

/// The splits of a scan come in file order and share no row, whatever rows are asked for, where the
/// file is split at points in order or into ranges in order.
pub proof fn law_splits_come_one_after_another(scan: RepeatedScan, row_range: Option<Range<u64>>)
    requires
        scan.wf(),
        scan.splits matches Splits::Ranges(ranges) ==> one_after_another(ranges@),
    ensures
        one_after_another(split_ranges_spec(scan.splits, scan.effective_range(row_range))),
{
    let effective = scan.effective_range(row_range);
    let splits = split_ranges_spec(scan.splits, effective);
    match scan.splits {
        Splits::Natural(points) => {
            let all = match effective {
                None => points@,
                Some(range) => seq![range.start] + points_inside(points@, range.start, range.end)
                    + seq![range.end],
            };
            if let Some(range) = effective {
                if range.start < range.end {
                    let inside = points_inside(points@, range.start, range.end);
                    lemma_points_inside(points@, range.start, range.end);
                    assert forall|i: int, j: int| 0 <= i <= j < all.len() implies all[i]
                        <= all[j] by {
                        if 0 < i < all.len() - 1 {
                            assert(all[i] == inside[i - 1]);
                        }
                        if 0 < j < all.len() - 1 {
                            assert(all[j] == inside[j - 1]);
                        }
                    }
                    assert(splits == windows(all));
                }
            }
            assert forall|i: int| 0 <= i < splits.len() implies (#[trigger] splits[i]).start
                <= splits[i].end by {
                assert(all[i] <= all[i + 1]);
            }
            assert forall|i: int, j: int|
                #![trigger splits[i], splits[j]]
                0 <= i < j < splits.len() implies splits[i].end <= splits[j].start by {
                assert(all[i + 1] <= all[j]);
            }
        },
        Splits::Ranges(ranges) => {
            if let Some(range) = effective {
                lemma_clipped_in_order(ranges@, range);
            }
        },
    }
}

/// A selection by index selects the rows that it includes, or all but those that it excludes, in
/// whichever way it holds them: what one includes the other excludes.
pub proof fn law_include_and_exclude_are_opposites(rows: Vec<u64>, row: u64)
    ensures
        Selection::All.selects(row),
        Selection::IncludeByIndex(rows).selects(row) <==> exists|i: int|
            0 <= i < rows.len() && rows@[i] == row,
        Selection::ExcludeByIndex(rows).selects(row) <==> !Selection::IncludeByIndex(rows).selects(
            row,
        ),
        Selection::IncludeRoaring(rows).selects(row) <==> Selection::IncludeByIndex(rows).selects(
            row,
        ),
        Selection::ExcludeRoaring(rows).selects(row) <==> Selection::ExcludeByIndex(rows).selects(
            row,
        ),
{
}

/// A range of which some row is selected is never passed over, and one of which none is always is.
pub proof fn law_a_range_is_read_exactly_if_it_has_a_selected_row(
    selection: Selection,
    range: Range<u64>,
)
    ensures
        selection.selects_nothing_of(range) <==> !exists|row: u64|
            range.start <= row < range.end && #[trigger] selection.selects(row),
{
    if selection.selects_nothing_of(range) {
        assert forall|row: u64| range.start <= row < range.end implies !#[trigger] selection.selects(
            row,
        ) by {
            assert(range_contains(range, row as int));
        }
    } else {
        let row = choose|row: u64|
            range_contains(range, row as int) && #[trigger] selection.selects(row);
        assert(range.start <= row < range.end && selection.selects(row));
    }
}

/// The next task is for the first split at or after the position of which some row is selected: all
/// that are passed over have none.
pub proof fn law_the_next_task_is_for_the_first_selected_split(
    nothing_selected: Seq<bool>,
    position: int,
    i: int,
)
    requires
        0 <= position <= nothing_selected.len(),
    ensures
        position <= next_selected(nothing_selected, position) <= nothing_selected.len(),
        position <= i < next_selected(nothing_selected, position) ==> nothing_selected[i],
        next_selected(nothing_selected, position) < nothing_selected.len()
            ==> !nothing_selected[next_selected(nothing_selected, position)],
    decreases nothing_selected.len() - position,
{
    if position < nothing_selected.len() && nothing_selected[position] {
        law_the_next_task_is_for_the_first_selected_split(nothing_selected, position + 1, i);
    }
}

/// Tasks are built for each split at or after the position of which some row is selected, once and
/// in order, and for no other split. Once the tasks have ended, none is built.
pub proof fn law_tasks_are_built_for_the_selected_splits(
    nothing_selected: Seq<bool>,
    position: int,
    i: int,
)
    requires
        0 <= position <= nothing_selected.len(),
    ensures
        tasks_from(nothing_selected, position).contains(i) <==> position <= i
            < nothing_selected.len() && !nothing_selected[i],
        forall|k: int, m: int|
            0 <= k < m < tasks_from(nothing_selected, position).len() ==> tasks_from(
                nothing_selected,
                position,
            )[k] < tasks_from(nothing_selected, position)[m],
        next_task(nothing_selected, position, true) == (None::<int>, position),
    decreases nothing_selected.len() - position,
{
    let all = tasks_from(nothing_selected, position);
    law_the_next_task_is_for_the_first_selected_split(nothing_selected, position, i);
    let next = next_selected(nothing_selected, position);
    if next < nothing_selected.len() {
        let rest = tasks_from(nothing_selected, next + 1);
        law_tasks_are_built_for_the_selected_splits(nothing_selected, next + 1, i);
        assert(all =~= seq![next] + rest);
        assert(all[0] == next);
        if rest.contains(i) {
            let k = choose|k: int| 0 <= k < rest.len() && rest[k] == i;
            assert(all[k + 1] == i);
        }
        if all.contains(i) && i != next {
            let k = choose|k: int| 0 <= k < all.len() && all[k] == i;
            assert(rest[k - 1] == i);
        }
        assert forall|k: int, m: int| 0 <= k < m < all.len() implies all[k] < all[m] by {
            assert(all[m] == rest[m - 1]);
            if k > 0 {
                assert(all[k] == rest[k - 1]);
            } else {
                law_tasks_are_built_for_the_selected_splits(
                    nothing_selected,
                    next + 1,
                    rest[m - 1],
                );
                assert(rest.contains(rest[m - 1]));
            }
        }
    }
}

/// Tasks are built as long as none failed and something is left of the limit; without a limit there
/// is always something left.
pub proof fn law_when_the_tasks_end(failed: bool, left: u64)
    ensures
        SplitTasks::ends_with_task(true, Some(left)),
        SplitTasks::ends_with_task(failed, None) == failed,
        SplitTasks::ends_with_task(false, Some(left)) <==> left == 0,
{
}

/// The range of a selection by index holds each included row, and begins and ends with one.
pub proof fn law_the_range_of_a_selection_is_the_narrowest(selection: Selection, row: u64)
    requires
        selection.wf(),
        selection.included().len() > 0,
        selection.included().last() < u64::MAX,
    ensures
        selection.range_spec() matches Some(range) && {
            &&& selection.included().contains(range.start)
            &&& selection.included().contains((range.end - 1) as u64)
            &&& selection.included().contains(row) ==> range.start <= row < range.end
        },
{
    let rows = selection.included();
    assert(rows[0] == rows[0]);
    assert(rows[rows.len() - 1] == rows.last());
    if rows.contains(row) {
        let i = choose|i: int| 0 <= i < rows.len() && rows[i] == row;
        assert(rows[0] <= rows[i] <= rows[rows.len() - 1]);
    }
}

/// A selection that includes no row by index has no range of its own.
pub proof fn law_a_selection_of_no_rows_has_no_range(selection: Selection)
    ensures
        selection.range_spec() is None <==> selection.included().len() == 0,
        selection is All || selection is ExcludeByIndex || selection is ExcludeRoaring
            ==> selection.range_spec() is None,
{
}

} // verus!
