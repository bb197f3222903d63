//! A reader that counts the splits that a scan has asked it for.

use crate::dtype::{DType, DTypeView, Nullability, PType};
use std::ops::Range;
use vstd::prelude::*;

verus! {

/// Counts the splits of which a scan has registered the reads, and how many of those have not been
/// read yet.
///
/// A split registers its reads when its task is built. So the most that were registered and not yet
/// read at one time is how many splits the scan has held at once.
#[derive(Clone, Copy, Debug, PartialEq, Eq, Structural)]
pub struct SplitProbe {
    registered: usize,
    outstanding: usize,
    max_outstanding: usize,
}

impl Default for SplitProbe {
    fn default() -> (r: Self)
        ensures
            r.wf(),
            r.registered_spec() == 0,
            r.outstanding_spec() == 0,
            r.max_outstanding_spec() == 0,
    {
        SplitProbe { registered: 0, outstanding: 0, max_outstanding: 0 }
    }
}

impl SplitProbe {
    /// The number of splits that were registered.
    pub closed spec fn registered_spec(self) -> usize {
        self.registered
    }

    /// The number of splits that were registered and not yet read.
    pub closed spec fn outstanding_spec(self) -> usize {
        self.outstanding
    }

    /// The most splits that were registered and not yet read at one time.
    pub closed spec fn max_outstanding_spec(self) -> usize {
        self.max_outstanding
    }

    /// Whether the counts fit each other.
    pub open spec fn wf(self) -> bool {
        self.outstanding_spec() <= self.max_outstanding_spec() <= self.registered_spec()
    }

    /// Returns the number of splits that were registered.
    pub fn registered(&self) -> (r: usize)
        ensures
            r == self.registered_spec(),
    {
        self.registered
    }

    /// Returns the most splits that were registered and not yet read at one time.
    pub fn max_outstanding(&self) -> (r: usize)
        ensures
            r == self.max_outstanding_spec(),
    {
        self.max_outstanding
    }

    /// Counts a split that is registered.
    pub fn register(&mut self)
        requires
            old(self).wf(),
            old(self).registered_spec() < usize::MAX,
        ensures
            final(self).wf(),
            final(self).registered_spec() == old(self).registered_spec() + 1,
            final(self).outstanding_spec() == old(self).outstanding_spec() + 1,
            final(self).max_outstanding_spec() == (if old(self).outstanding_spec() + 1 > old(
                self,
            ).max_outstanding_spec() {
                (old(self).outstanding_spec() + 1) as usize
            } else {
                old(self).max_outstanding_spec()
            }),
    {
        self.registered += 1;
        self.outstanding += 1;
        if self.outstanding > self.max_outstanding {
            self.max_outstanding = self.outstanding;
        }
    }

    /// Counts a registered split that has been read.
    pub fn complete(&mut self)
        requires
            old(self).wf(),
            old(self).outstanding_spec() > 0,
        ensures
            final(self).wf(),
            final(self).registered_spec() == old(self).registered_spec(),
            final(self).outstanding_spec() == old(self).outstanding_spec() - 1,
            final(self).max_outstanding_spec() == old(self).max_outstanding_spec(),
    {
        self.outstanding -= 1;
    }
}

/// Why a split has no values.
#[derive(Clone, Copy, Debug, PartialEq, Eq, Structural)]
pub enum ProjectionError {
    /// The first row does not fit in `usize`.
    Start,
    /// The end does not fit in `usize`.
    End,
    /// A row does not fit in 32 bits.
    Value,
}

/// A reader of which each row is a split of its own, and each value the number of its row.
#[derive(Debug)]
pub struct ProbeLayoutReader {
    name: &'static str,
    dtype: DType,
    row_count: u64,
    probe: SplitProbe,
}

impl ProbeLayoutReader {
    /// The number of rows.
    pub closed spec fn row_count_spec(self) -> u64 {
        self.row_count
    }

    /// The counts.
    pub closed spec fn probe_spec(self) -> SplitProbe {
        self.probe
    }

    /// Whether the values are integers of 32 bits without a null, and the counts fit each other.
    pub closed spec fn wf(self) -> bool {
        &&& self.dtype@ == DTypeView::Primitive(PType::I32, Nullability::NonNullable)
        &&& self.name@ == "probe"@
        &&& self.probe.wf()
    }

    /// Makes a reader of so many rows.
    pub fn new(row_count: usize, probe: SplitProbe) -> (r: Self)
        requires
            probe.wf(),
        ensures
            r.wf(),
            r.row_count_spec() == row_count,
            r.probe_spec() == probe,
    {
        ProbeLayoutReader {
            name: "probe",
            dtype: DType::Primitive(PType::I32, Nullability::NonNullable),
            row_count: row_count as u64,
            probe,
        }
    }

    /// Returns the name of the reader.
    pub fn name(&self) -> (r: &'static str)
        requires
            self.wf(),
        ensures
            r@ == "probe"@,
    {
        self.name
    }

    /// Returns the type of the values.
    pub fn dtype(&self) -> (r: &DType)
        requires
            self.wf(),
        ensures
            r@ == DTypeView::Primitive(PType::I32, Nullability::NonNullable),
    {
        &self.dtype
    }

    /// Returns the number of rows.
    pub fn row_count(&self) -> (r: u64)
        ensures
            r == self.row_count_spec(),
    {
        self.row_count
    }

    /// Returns the counts.
    pub fn probe(&self) -> (r: &SplitProbe)
        ensures
            *r == self.probe_spec(),
    {
        &self.probe
    }

    /// Appends the splits of a range of rows that begins at `row_offset`: one after each row.
    pub fn register_splits(&self, row_range: &Range<u64>, row_offset: u64, splits: &mut Vec<u64>)
        requires
            row_range.start <= row_range.end,
            row_offset + row_range.end <= u64::MAX,
        ensures
            final(splits)@ == old(splits)@ + Seq::new(
                (row_range.end - row_range.start) as nat,
                |i: int| (row_offset + row_range.start + 1 + i) as u64,
            ),
            final(splits)@ == old(splits)@ + splits_after_rows(*row_range, row_offset),
    {
        let ghost before = splits@;
        let mut split: u64 = row_range.start;
        assert(splits@ =~= before + Seq::new(0, |i: int| 0u64));
        while split < row_range.end
            invariant
                row_range.start <= split <= row_range.end,
                row_offset + row_range.end <= u64::MAX,
                splits@ =~= before + Seq::new(
                    (split - row_range.start) as nat,
                    |i: int| (row_offset + row_range.start + 1 + i) as u64,
                ),
            decreases row_range.end - split,
        {
            split += 1;
            splits.push(row_offset + split);
        }
    }

    /// Registers the reads of a range of rows, and returns their values.
    pub fn projection_evaluation(&mut self, row_range: &Range<u64>) -> (r: Result<
        Vec<i32>,
        ProjectionError,
    >)
        requires
            old(self).wf(),
            old(self).probe_spec().registered_spec() < usize::MAX,
        ensures
            final(self).wf(),
            final(self).row_count_spec() == old(self).row_count_spec(),
            match r {
                Ok(values) => values@ == Seq::new(
                    if row_range.start <= row_range.end {
                        (row_range.end - row_range.start) as nat
                    } else {
                        0
                    },
                    |i: int| (row_range.start + i) as i32,
                ),
                Err(ProjectionError::Start) => row_range.start > usize::MAX,
                Err(ProjectionError::End) => row_range.start <= usize::MAX && row_range.end
                    > usize::MAX,
                Err(ProjectionError::Value) => row_range.end <= usize::MAX && row_range.start
                    < row_range.end && row_range.end > i32::MAX as u64 + 1,
            },
            r is Ok ==> row_range.start <= usize::MAX && row_range.end <= usize::MAX && (
            row_range.start < row_range.end ==> row_range.end <= i32::MAX as u64 + 1),
            r is Ok ==> final(self).probe_spec().registered_spec() == old(
                self,
            ).probe_spec().registered_spec() + 1 && final(self).probe_spec().outstanding_spec()
                == old(self).probe_spec().outstanding_spec() + 1,
            r is Ok ==> final(self).probe_spec().max_outstanding_spec() == (if old(
                self,
            ).probe_spec().outstanding_spec() + 1 > old(self).probe_spec().max_outstanding_spec() {
                (old(self).probe_spec().outstanding_spec() + 1) as usize
            } else {
                old(self).probe_spec().max_outstanding_spec()
            }),
            r is Err ==> final(self).probe_spec() == old(self).probe_spec(),
    {
        if row_range.start > usize::MAX as u64 {
            return Err(ProjectionError::Start);
        }
        if row_range.end > usize::MAX as u64 {
            return Err(ProjectionError::End);
        }
        let mut values: Vec<i32> = Vec::new();
        let mut v: u64 = row_range.start;
        while v < row_range.end
            invariant
                row_range.start <= v,
                v <= row_range.end || (v == row_range.start && row_range.start > row_range.end),
                row_range.end <= usize::MAX,
                v <= row_range.end ==> v == row_range.start || v <= i32::MAX as u64 + 1,
                values@ =~= Seq::new(
                    (v - row_range.start) as nat,
                    |i: int| (row_range.start + i) as i32,
                ),
                *self == *old(self),
                old(self).wf(),
            decreases row_range.end - v,
        {
            if v > i32::MAX as u64 {
                return Err(ProjectionError::Value);
            }
            values.push(v as i32);
            v += 1;
        }
        self.probe.register();
        Ok(values)
    }

    /// Counts a range of rows that has been read.
    pub fn projection_read(&mut self)
        requires
            old(self).wf(),
            old(self).probe_spec().outstanding_spec() > 0,
        ensures
            final(self).wf(),
            final(self).row_count_spec() == old(self).row_count_spec(),
            final(self).probe_spec().outstanding_spec() == old(self).probe_spec().outstanding_spec()
                - 1,
            final(self).probe_spec().registered_spec() == old(self).probe_spec().registered_spec(),
            final(self).probe_spec().max_outstanding_spec() == old(
                self,
            ).probe_spec().max_outstanding_spec(),
    {
        self.probe.complete();
    }
}

/// How a scan differs from one that gives each row once and in order and holds as many splits as it
/// may.
#[derive(Clone, Copy, Debug, PartialEq, Eq, Structural)]
pub enum BoundedScanError {
    /// The values are not the numbers of the rows.
    Values,
    /// Not each row was registered once.
    Registered { registered: usize },
    /// Another number of splits was held at once.
    MaxOutstanding { expected: usize, found: usize },
}

/// The numbers of so many rows.
pub open spec fn row_numbers(row_count: nat) -> Seq<i32> {
    Seq::new(row_count, |i: int| i as i32)
}

/// The most splits that a scan of so many rows holds at once.
pub open spec fn most_held(concurrency: usize, row_count: usize) -> usize {
    if concurrency <= row_count {
        concurrency
    } else {
        row_count
    }
}

/// Checks that a scan gave the number of each row in order, and held as many splits at once as it
/// may, and no more.
pub fn assert_bounded_scan(
    values: &Vec<i32>,
    row_count: usize,
    probe: &SplitProbe,
    concurrency: usize,
) -> (r: Result<(), BoundedScanError>)
    requires
        row_count <= i32::MAX,
    ensures
        r is Ok <==> values@ == row_numbers(row_count as nat) && probe.registered_spec() == row_count
            && probe.max_outstanding_spec() == most_held(concurrency, row_count),
        r is Err && r->Err_0 is Values <==> values@ != row_numbers(row_count as nat),
        r matches Err(BoundedScanError::Registered { registered }) ==> registered
            == probe.registered_spec() && registered != row_count,
        r matches Err(BoundedScanError::MaxOutstanding { expected, found }) ==> expected
            == most_held(concurrency, row_count) && found == probe.max_outstanding_spec() && found
            != expected && probe.registered_spec() == row_count,
{
    if values.len() != row_count {
        return Err(BoundedScanError::Values);
    }
    let mut i: usize = 0;
    while i < row_count
        invariant
            0 <= i <= row_count,
            row_count == values@.len(),
            row_count <= i32::MAX,
            forall|j: int| 0 <= j < i ==> #[trigger] values@[j] == j,
        decreases row_count - i,
    {
        if values[i] != i as i32 {
            assert(values@[i as int] != row_numbers(row_count as nat)[i as int]);
            return Err(BoundedScanError::Values);
        }
        i += 1;
    }
    assert(values@ =~= row_numbers(row_count as nat));
    if probe.registered() != row_count {
        return Err(BoundedScanError::Registered { registered: probe.registered() });
    }
    let expected: usize = if concurrency <= row_count {
        concurrency
    } else {
        row_count
    };
    if probe.max_outstanding() != expected {
        return Err(
            BoundedScanError::MaxOutstanding { expected, found: probe.max_outstanding() },
        );
    }
    Ok(())
}

/// A scan holds as many splits as it may at once, but no more than it has.
pub proof fn law_no_more_is_held_than_there_is(concurrency: usize, row_count: usize)
    ensures
        most_held(concurrency, row_count) <= concurrency,
        most_held(concurrency, row_count) <= row_count,
        most_held(concurrency, row_count) == concurrency || most_held(concurrency, row_count)
            == row_count,
{
}

/// The splits of a range of rows that begins at `row_offset`: one after each row.
pub open spec fn splits_after_rows(row_range: Range<u64>, row_offset: u64) -> Seq<u64> {
    Seq::new(
        (row_range.end - row_range.start) as nat,
        |i: int| (row_offset + row_range.start + 1 + i) as u64,
    )
}

/// There is a split after each row of the range, counted from where the range begins, and nowhere
/// else; they come in order.
pub proof fn law_there_is_a_split_after_each_row(row_range: Range<u64>, row_offset: u64, split: u64)
    requires
        row_range.start <= row_range.end,
        row_offset + row_range.end <= u64::MAX,
    ensures
        splits_after_rows(row_range, row_offset).contains(split) <==> row_offset + row_range.start
            < split <= row_offset + row_range.end,
        forall|i: int, j: int|
            0 <= i < j < splits_after_rows(row_range, row_offset).len() ==> splits_after_rows(
                row_range,
                row_offset,
            )[i] < splits_after_rows(row_range, row_offset)[j],
{
    let splits = splits_after_rows(row_range, row_offset);
    if row_offset + row_range.start < split <= row_offset + row_range.end {
        let i = split - row_offset - row_range.start - 1;
        assert(splits[i] == split);
    }
    if splits.contains(split) {
        let i = choose|i: int| 0 <= i < splits.len() && splits[i] == split;
        assert(splits[i] == row_offset + row_range.start + 1 + i);
    }
}

} // verus!
