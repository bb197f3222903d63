//! What is decided when a file of a table is opened for a scan.

use crate::persistent::physical_expr::{values_view, ScalarValue, ScalarView};
use crate::persistent::schema::{duplicate_fields, fields_view, Field, FieldView, Schema};
use std::ops::Range;
use vstd::prelude::*;

verus! {

/// Returns whether a pruner is made for a file. `predicate` says of the pruning predicate, where
/// there is one, whether it is dynamic: a static predicate needs file statistics to work with.
pub fn wants_file_pruner(predicate: Option<bool>, has_statistics: bool) -> (r: bool)
    ensures
        r == (predicate matches Some(is_dynamic) && (is_dynamic || has_statistics)),
{
    match predicate {
        Some(is_dynamic) => is_dynamic || has_statistics,
        None => false,
    }
}

/// Returns whether the file's stream stops early once a dynamic predicate excludes the file,
/// which takes the file's statistics.
pub fn stops_on_filter_update(predicate: Option<bool>, statistics_known: bool) -> (r: bool)
    ensures
        r == (predicate == Some(true) && statistics_known),
{
    match predicate {
        Some(is_dynamic) => is_dynamic && statistics_known,
        None => false,
    }
}

/// Returns the number of rows that the scan may stop at. With a filter no limit is handed to the
/// scan, for the rows that it reads are not the rows that it returns.
pub fn scan_limit(limit: Option<usize>, has_filter: bool) -> (r: Option<usize>)
    ensures
        r == if has_filter {
            None
        } else {
            limit
        },
{
    if has_filter {
        None
    } else {
        limit
    }
}

/// What the table of shared layout readers holds for a file.
#[derive(Clone, Copy, Debug, PartialEq, Eq, Structural)]
pub enum ReaderEntry {
    Vacant,
    /// The reader was dropped by all who used it.
    Dropped,
    Alive,
}

/// Where the layout reader of a file comes from.
#[derive(Clone, Copy, Debug, PartialEq, Eq, Structural)]
pub enum ReaderSource {
    Reuse,
    /// A new reader, which the table then holds.
    CreateAndShare,
}

/// Returns where the layout reader of a file comes from: one that another partition still uses
/// is shared, so that each layout of a file is read once.
pub fn layout_reader_source(entry: ReaderEntry) -> (r: ReaderSource)
    ensures
        r == ReaderSource::Reuse <==> entry == ReaderEntry::Alive,
{
    match entry {
        ReaderEntry::Alive => ReaderSource::Reuse,
        ReaderEntry::Vacant => ReaderSource::CreateAndShare,
        ReaderEntry::Dropped => ReaderSource::CreateAndShare,
    }
}

/// The fields that a projection leaves, in its order, or nothing if it names a field that is not
/// there. Without a projection all fields are left.
pub open spec fn projected_fields(fields: Seq<FieldView>, projection: Option<Seq<usize>>) -> Option<
    Seq<FieldView>,
> {
    match projection {
        None => Some(fields),
        Some(indices) => if forall|i: int|
            0 <= i < indices.len() ==> (#[trigger] indices[i]) < fields.len() {
            Some(indices.map_values(|k: usize| fields[k as int]))
        } else {
            None
        },
    }
}

/// What an optional projection is.
pub open spec fn projection_view(projection: Option<Vec<usize>>) -> Option<Seq<usize>> {
    match projection {
        Some(indices) => Some(indices@),
        None => None,
    }
}

/// Returns the schema that a projection leaves, or nothing if it names a field that is not there.
pub fn project_schema(schema: &Schema, projection: &Option<Vec<usize>>) -> (r: Option<Schema>)
    ensures
        match projected_fields(fields_view(schema.fields@), projection_view(*projection)) {
            None => r is None,
            Some(fields) => r matches Some(p) && fields_view(p.fields@) == fields,
        },
{
    match projection {
        None => Some(Schema { fields: duplicate_fields(&schema.fields) }),
        Some(indices) => {
            let mut fields: Vec<Field> = Vec::new();
            let mut i: usize = 0;
            while i < indices.len()
                invariant
                    0 <= i <= indices.len(),
                    *projection == Some(*indices),
                    fields.len() == i,
                    forall|j: int| 0 <= j < i ==> (#[trigger] indices@[j]) < schema.fields.len(),
                    forall|j: int|
                        0 <= j < i ==> (#[trigger] fields@[j])@
                            == schema.fields@[indices@[j] as int]@,
                decreases indices.len() - i,
            {
                if indices[i] >= schema.fields.len() {
                    assert(indices@[i as int] >= fields_view(schema.fields@).len());
                    return None;
                }
                fields.push(schema.fields[indices[i]].duplicate());
                i += 1;
            }
            assert(fields_view(fields@) =~= indices@.map_values(
                |k: usize| fields_view(schema.fields@)[k as int],
            ));
            Some(Schema { fields })
        },
    }
}

/// Each field with the value that stands beside it. What has no partner is left out.
pub open spec fn paired(fields: Seq<FieldView>, values: Seq<ScalarView>) -> Seq<
    (FieldView, ScalarView),
> {
    Seq::new(
        if fields.len() <= values.len() {
            fields.len()
        } else {
            values.len()
        },
        |i: int| (fields[i], values[i]),
    )
}

/// What a list of fields with their values is.
pub open spec fn pairs_view(pairs: Seq<(Field, ScalarValue)>) -> Seq<(FieldView, ScalarView)> {
    Seq::new(pairs.len(), |i: int| (pairs[i].0@, pairs[i].1@))
}

/// Returns the partition columns, each with the value that it has in a file.
pub fn pair_partition_values(fields: &Vec<Field>, values: &Vec<ScalarValue>) -> (r: Vec<
    (Field, ScalarValue),
>)
    ensures
        pairs_view(r@) == paired(fields_view(fields@), values_view(values@)),
{
    let mut pairs: Vec<(Field, ScalarValue)> = Vec::new();
    let mut i: usize = 0;
    while i < fields.len() && i < values.len()
        invariant
            0 <= i <= fields.len(),
            i <= values.len(),
            pairs.len() == i,
            forall|j: int|
                0 <= j < i ==> (#[trigger] pairs@[j]).0@ == fields@[j]@ && pairs@[j].1@
                    == values@[j]@,
        decreases fields.len() - i,
    {
        pairs.push((fields[i].duplicate(), values[i].duplicate()));
        i += 1;
    }
    assert(pairs_view(pairs@) =~= paired(fields_view(fields@), values_view(values@)));
    pairs
}

/// Returns the names of the fields that the scan reads.
pub fn projected_names(schema: &Schema, indices: &Vec<usize>) -> (r: Vec<String>)
    requires
        forall|i: int| 0 <= i < indices.len() ==> (#[trigger] indices@[i]) < schema.fields.len(),
    ensures
        r.len() == indices.len(),
        forall|i: int|
            0 <= i < r.len() ==> (#[trigger] r@[i])@ == schema.fields@[indices@[i] as int].name@,
{
    let mut names: Vec<String> = Vec::new();
    let mut i: usize = 0;
    while i < indices.len()
        invariant
            0 <= i <= indices.len(),
            names.len() == i,
            forall|j: int|
                0 <= j < indices.len() ==> (#[trigger] indices@[j]) < schema.fields.len(),
            forall|j: int|
                0 <= j < i ==> (#[trigger] names@[j])@
                    == schema.fields@[indices@[j] as int].name@,
        decreases indices.len() - i,
    {
        assert(indices@[i as int] < schema.fields.len());
        names.push(schema.fields[indices[i]].name.clone());
        i += 1;
    }
    names
}

/// The slices, each an offset and a length, that the rows from `offset` on are handed out in:
/// pairs of full batches, and what is left together as one batch once it is less than two.
pub open spec fn slices_from(num_rows: int, offset: int, batch_size: int) -> Seq<(int, int)>
    decreases num_rows - offset,
    when batch_size > 0
{
    if offset >= num_rows {
        Seq::empty()
    } else if num_rows - offset < 2 * batch_size {
        seq![(offset, num_rows - offset)]
    } else {
        seq![(offset, batch_size), (offset + batch_size, batch_size)] + slices_from(
            num_rows,
            offset + 2 * batch_size,
            batch_size,
        )
    }
}

/// The slices as mathematical integers.
pub open spec fn slices_view(slices: Seq<(usize, usize)>) -> Seq<(int, int)> {
    Seq::new(slices.len(), |i: int| (slices[i].0 as int, slices[i].1 as int))
}

/// Cuts a batch of `num_rows` rows into slices that respect the configured batch size. If less
/// than two batches worth of rows are left, they are kept together as a single batch.
pub fn batch_slices(num_rows: usize, batch_size: usize) -> (r: Vec<(usize, usize)>)
    requires
        batch_size > 0,
        2 * batch_size <= usize::MAX,
    ensures
        slices_view(r@) == slices_from(num_rows as int, 0, batch_size as int),
{
    let mut slices: Vec<(usize, usize)> = Vec::new();
    let mut offset: usize = 0;
    assert(slices_view(slices@) + slices_from(num_rows as int, 0, batch_size as int)
        =~= slices_from(num_rows as int, 0, batch_size as int));
    while offset < num_rows
        invariant
            offset <= num_rows,
            batch_size > 0,
            2 * batch_size <= usize::MAX,
            slices_view(slices@) + slices_from(num_rows as int, offset as int, batch_size as int)
                == slices_from(num_rows as int, 0, batch_size as int),
        decreases num_rows - offset,
    {
        let ghost before = slices@;
        let left: usize = num_rows - offset;
        if left < 2 * batch_size {
            slices.push((offset, left));
            proof {
                assert(slices_view(slices@) =~= slices_view(before).push(
                    (offset as int, left as int),
                ));
                assert(slices_from(num_rows as int, num_rows as int, batch_size as int)
                    =~= Seq::empty());
                assert(slices_view(slices@) + slices_from(
                    num_rows as int,
                    num_rows as int,
                    batch_size as int,
                ) =~= slices_view(before) + slices_from(
                    num_rows as int,
                    offset as int,
                    batch_size as int,
                ));
            }
            offset = num_rows;
        } else {
            slices.push((offset, batch_size));
            slices.push((offset + batch_size, batch_size));
            proof {
                assert(slices_view(slices@) =~= slices_view(before) + seq![
                    (offset as int, batch_size as int),
                    (offset + batch_size, batch_size as int),
                ]);
                assert(slices_view(slices@) + slices_from(
                    num_rows as int,
                    offset + 2 * batch_size,
                    batch_size as int,
                ) =~= slices_view(before) + slices_from(
                    num_rows as int,
                    offset as int,
                    batch_size as int,
                ));
            }
            offset = offset + 2 * batch_size;
        }
    }
    assert(slices_view(slices@) + Seq::empty() =~= slices_view(slices@));
    slices
}

/// The slices of a batch follow one another without a gap from the first row to the last, none
/// is empty, and none holds two full batches.
pub proof fn law_slices_cover_the_batch(num_rows: int, offset: int, batch_size: int)
    requires
        batch_size > 0,
        0 <= offset <= num_rows,
    ensures
        ({
            let slices = slices_from(num_rows, offset, batch_size);
            &&& offset < num_rows ==> slices.len() > 0 && slices[0].0 == offset
                && slices.last().0 + slices.last().1 == num_rows
            &&& offset == num_rows ==> slices.len() == 0
            &&& forall|i: int|
                0 <= i < slices.len() ==> 0 < (#[trigger] slices[i]).1 < 2 * batch_size
            &&& forall|i: int|
                0 < i < slices.len() ==> (#[trigger] slices[i]).0 == slices[i - 1].0
                    + slices[i - 1].1
        }),
    decreases num_rows - offset,
{
    if offset < num_rows && num_rows - offset >= 2 * batch_size {
        law_slices_cover_the_batch(num_rows, offset + 2 * batch_size, batch_size);
        let head = seq![(offset, batch_size), (offset + batch_size, batch_size)];
        let rest = slices_from(num_rows, offset + 2 * batch_size, batch_size);
        let slices = slices_from(num_rows, offset, batch_size);
        assert(slices =~= head + rest);
        assert forall|i: int| 0 <= i < slices.len() implies 0 < (#[trigger] slices[i]).1 < 2
            * batch_size by {
            if i >= 2 {
                assert(slices[i] == rest[i - 2]);
            }
        }
        assert forall|i: int| 0 < i < slices.len() implies (#[trigger] slices[i]).0 == slices[i
            - 1].0 + slices[i - 1].1 by {
            if i == 2 {
                assert(slices[i] == rest[0]);
            } else if i > 2 {
                assert(slices[i] == rest[i - 2]);
                assert(slices[i - 1] == rest[i - 3]);
            }
        }
    }
}

/// The row that a byte of a file falls on, where each row has the average size.
pub open spec fn row_of_byte(byte: int, row_count: int, total_size: int) -> int {
    byte / (total_size / row_count)
}

/// The rows, from the first to before the second number, that a range of bytes translates to.
pub open spec fn rows_of_bytes(start: int, end: int, row_count: int, total_size: int) -> (int, int) {
    let end_row = row_of_byte(end, row_count, total_size);
    (
        row_of_byte(start, row_count, total_size),
        if end_row <= row_count {
            end_row
        } else {
            row_count
        },
    )
}

/// Translates a range of a file's bytes into a range of its rows.
pub fn byte_range_to_row_range(byte_range: Range<u64>, row_count: u64, total_size: u64) -> (r:
    Range<u64>)
    requires
        row_count > 0,
        total_size / row_count > 0,
    ensures
        (r.start as int, r.end as int) == rows_of_bytes(
            byte_range.start as int,
            byte_range.end as int,
            row_count as int,
            total_size as int,
        ),
{
    let average_row: u64 = total_size / row_count;
    let start_row: u64 = byte_range.start / average_row;
    let end_row: u64 = byte_range.end / average_row;
    // `end_row` might overshoot
    if end_row <= row_count {
        start_row..end_row
    } else {
        start_row..row_count
    }
}

/// Returns the rows to scan of a file, given the range of its bytes that the scan was handed.
pub fn apply_byte_range(file_range: Range<i64>, total_size: u64, row_count: u64) -> (r: Range<u64>)
    requires
        row_count > 0,
        total_size / row_count > 0,
    ensures
        (r.start as int, r.end as int) == rows_of_bytes(
            file_range.start as u64 as int,
            file_range.end as u64 as int,
            row_count as int,
            total_size as int,
        ),
{
    byte_range_to_row_range(
        file_range.start as u64..file_range.end as u64,
        row_count,
        total_size,
    )
}

/// The bytes of the whole file translate to all of its rows.
pub proof fn law_whole_file_is_all_rows(row_count: int, total_size: int)
    requires
        row_count > 0,
        total_size / row_count > 0,
    ensures
        rows_of_bytes(0, total_size, row_count, total_size) == (0int, row_count),
{
    let average = total_size / row_count;
    assert(0int / average == 0) by (nonlinear_arith)
        requires
            average > 0,
    ;
    assert(average * row_count <= total_size) by (nonlinear_arith)
        requires
            average == total_size / row_count,
            row_count > 0,
    ;
    assert(total_size / average >= row_count) by (nonlinear_arith)
        requires
            average * row_count <= total_size,
            average > 0,
            row_count > 0,
    ;
}

/// Byte ranges that follow one another translate to row ranges that follow one another: the
/// second starts with the row that the first stops before, or past the last row.
pub proof fn law_consecutive_byte_ranges_are_consecutive_rows(
    start: int,
    middle: int,
    end: int,
    row_count: int,
    total_size: int,
)
    requires
        0 <= start <= middle <= end,
        row_count > 0,
        total_size / row_count > 0,
    ensures
        ({
            let first = rows_of_bytes(start, middle, row_count, total_size);
            let second = rows_of_bytes(middle, end, row_count, total_size);
            &&& first.1 == second.0 || (first.1 == row_count && second.0 > row_count)
            &&& first.0 <= row_count ==> first.0 <= first.1
        }),
{
    let average = total_size / row_count;
    assert(start / average <= middle / average) by (nonlinear_arith)
        requires
            0 <= start <= middle,
            average > 0,
    ;
}

proof fn lemma_slices_by_number(num_rows: int, offset: int, batch_size: int)
    requires
        batch_size > 0,
        0 <= offset <= num_rows,
    ensures
        ({
            let slices = slices_from(num_rows, offset, batch_size);
            let left = num_rows - offset;
            let full = 2 * (left / (2 * batch_size));
            &&& slices.len() == full + (if left % (2 * batch_size) > 0 {
                1int
            } else {
                0
            })
            &&& forall|i: int|
                0 <= i < slices.len() ==> (#[trigger] slices[i]).0 == offset + i * batch_size
            &&& forall|i: int| 0 <= i < full ==> (#[trigger] slices[i]).1 == batch_size
            &&& full < slices.len() ==> slices[full].1 == left % (2 * batch_size)
        }),
    decreases num_rows - offset,
{
    let slices = slices_from(num_rows, offset, batch_size);
    let left = num_rows - offset;
    let two = 2 * batch_size;
    assert(0 * batch_size == 0 && 1 * batch_size == batch_size) by (nonlinear_arith);
    if left < two {
        vstd::arithmetic::div_mod::lemma_small_mod(left as nat, two as nat);
        vstd::arithmetic::div_mod::lemma_basic_div(left, two);
    } else {
        let rest = slices_from(num_rows, offset + two, batch_size);
        lemma_slices_by_number(num_rows, offset + two, batch_size);
        vstd::arithmetic::div_mod::lemma_div_minus_one(left, two);
        vstd::arithmetic::div_mod::lemma_mod_sub_multiples_vanish(left, two);
        assert(slices[0] == (offset, batch_size));
        assert(slices[1] == (offset + batch_size, batch_size));
        assert forall|i: int| 0 <= i < slices.len() implies (#[trigger] slices[i]).0 == offset + i
            * batch_size by {
            if i >= 2 {
                assert(slices[i] == rest[i - 2]);
                assert((i - 2) * batch_size + 2 * batch_size == i * batch_size)
                    by (nonlinear_arith);
            }
        }
        let full = 2 * (left / two);
        assert forall|i: int| 0 <= i < full implies (#[trigger] slices[i]).1 == batch_size by {
            if i >= 2 {
                assert(slices[i] == rest[i - 2]);
            }
        }
        if full < slices.len() {
            assert(slices[full] == rest[full - 2]);
        }
    }
}

/// A batch is cut into pairs of full batches for as long as there are two, and what is left is one
/// slice: so slice `i` begins `i` batches in, and all but the last are full.
pub proof fn law_a_batch_is_cut_into_full_batches(num_rows: int, batch_size: int, i: int)
    requires
        batch_size > 0,
        0 <= i < slices_from(num_rows, 0, batch_size).len(),
        0 <= num_rows,
    ensures
        ({
            let slices = slices_from(num_rows, 0, batch_size);
            let left = num_rows % (2 * batch_size);
            &&& slices.len() == 2 * (num_rows / (2 * batch_size)) + (if left > 0 {
                1int
            } else {
                0
            })
            &&& slices[i].0 == i * batch_size
            &&& slices[i].1 == (if left > 0 && i == slices.len() - 1 {
                left
            } else {
                batch_size
            })
        }),
{
    lemma_slices_by_number(num_rows, 0, batch_size);
}

/// A row is scanned for the range of bytes that holds the byte after it, where each row has the
/// average size: so of ranges that follow one another exactly one scans it.
pub proof fn law_a_row_belongs_to_the_range_that_holds_its_end(
    start: int,
    end: int,
    row_count: int,
    total_size: int,
    row: int,
)
    requires
        0 <= start <= end,
        row_count > 0,
        total_size / row_count > 0,
        0 <= row < row_count,
    ensures
        ({
            let rows = rows_of_bytes(start, end, row_count, total_size);
            let width = total_size / row_count;
            rows.0 <= row < rows.1 <==> start < (row + 1) * width <= end
        }),
{
    let width = total_size / row_count;
    assert(start / width <= row <==> start < (row + 1) * width) by (nonlinear_arith)
        requires
            width > 0,
            start >= 0,
    ;
    assert(row < end / width <==> (row + 1) * width <= end) by (nonlinear_arith)
        requires
            width > 0,
            end >= 0,
    ;
}

/// A projection leaves the fields at its places, in its order and as often as it names them, and
/// fails exactly if a place is not there. Without one all fields are left.
pub proof fn law_a_projection_picks_by_place(
    fields: Seq<FieldView>,
    projection: Option<Seq<usize>>,
    i: int,
)
    ensures
        projected_fields(fields, projection) is None <==> projection is Some && exists|k: int|
            0 <= k < projection->Some_0.len() && projection->Some_0[k] >= fields.len(),
        projected_fields(fields, projection) matches Some(left) ==> {
            &&& projection is None ==> left == fields
            &&& projection matches Some(places) ==> left.len() == places.len() && (0 <= i
                < places.len() ==> left[i] == fields[places[i] as int])
        },
{
    if projection is Some {
        let places = projection->Some_0;
        if exists|k: int| 0 <= k < places.len() && places[k] >= fields.len() {
            let k = choose|k: int| 0 <= k < places.len() && places[k] >= fields.len();
            assert(!(places[k] < fields.len()));
        }
    }
}

/// A filter keeps every limit from the scan, and without one the limit is the scan's as it is.
pub proof fn law_a_limit_is_for_a_scan_without_a_filter(
    limit: Option<usize>,
    without: Option<usize>,
    with: Option<usize>,
)
    requires
        call_ensures(scan_limit, (limit, false), without),
        call_ensures(scan_limit, (limit, true), with),
    ensures
        without == limit,
        with is None,
{
}

/// Only a predicate needs a pruner: a dynamic one always, a static one where there are statistics.
/// A stream that stops early always has a pruner, and a dynamic predicate.
pub proof fn law_what_a_pruner_is_for(
    predicate: Option<bool>,
    statistics: bool,
    wants: bool,
    stops: bool,
)
    requires
        call_ensures(wants_file_pruner, (predicate, statistics), wants),
        call_ensures(stops_on_filter_update, (predicate, statistics), stops),
    ensures
        predicate is None ==> !wants,
        predicate == Some(true) ==> wants && stops == statistics,
        predicate == Some(false) ==> wants == statistics && !stops,
        stops ==> wants,
{
}

/// A reader is shared as long as one lives, and only then.
pub proof fn law_a_living_reader_is_shared(entry: ReaderEntry, source: ReaderSource)
    requires
        call_ensures(layout_reader_source, (entry,), source),
    ensures
        entry == ReaderEntry::Alive ==> source == ReaderSource::Reuse,
        entry == ReaderEntry::Vacant || entry == ReaderEntry::Dropped ==> source
            == ReaderSource::CreateAndShare,
{
}

} // verus!
