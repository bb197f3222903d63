//! How a file of a table is opened for a scan: what is asked of the engine, and in which order.

use crate::layout::tree::ids_view;
use crate::persistent::open::{
    apply_byte_range, layout_reader_source, pair_partition_values, paired, pairs_view,
    project_schema, projected_fields, projected_names, projection_view, rows_of_bytes, scan_limit,
    stops_on_filter_update, wants_file_pruner, ReaderEntry, ReaderSource,
};
use crate::persistent::physical_expr::{
    duplicate_values, values_view, ScalarValue, ScalarView,
};
use crate::persistent::schema::{
    compute_logical_file_schema, duplicate_fields, fields_view, logical_field, Field, FieldView,
    Schema,
};
use std::ops::Range;
use vstd::prelude::*;

verus! {

/// What is the same for all files of a scan.
#[derive(Debug)]
pub struct VortexOpener {
    /// The columns of the table to read, by their places, where it is not all of them.
    pub projection: Option<Vec<usize>>,
    /// Whether there is a filter that may be pushed down into the scan.
    pub has_filter: bool,
    /// Whether the predicate that eliminates files is dynamic, where there is one.
    pub file_pruning_predicate: Option<bool>,
    /// Whether filters are rewritten to the schema of each file.
    pub adapts_expressions: bool,
    /// The partition columns of the table.
    pub partition_fields: Vec<Field>,
    /// The schema of the table without its partition columns.
    pub logical_schema: Schema,
    pub limit: Option<usize>,
    /// Whether the query has an output ordering.
    pub has_output_ordering: bool,
}

/// A file that is to be opened.
#[derive(Debug)]
pub struct FileToOpen {
    /// The value that each partition column has in the file.
    pub partition_values: Vec<ScalarValue>,
    /// Whether some statistic of the file is known.
    pub has_statistics: bool,
    /// Whether the statistics of the file came with it.
    pub statistics: bool,
    /// The bytes that are to be scanned, where it is not the whole file.
    pub range: Option<Range<i64>>,
    pub size: u64,
}

/// How far the opening of a file has come.
#[derive(Debug)]
pub enum Opening {
    Start,
    MakingPruner,
    AskingPruner,
    OpeningFile,
    RewritingFilter { rows: Option<Range<u64>> },
    MappingSchema { rows: Option<Range<u64>> },
    FindingReader { rows: Option<Range<u64>>, fields: Vec<String> },
    CreatingReader { rows: Option<Range<u64>>, fields: Vec<String> },
    SplittingFilter { rows: Option<Range<u64>>, fields: Vec<String> },
    MakingPredicate { rows: Option<Range<u64>>, fields: Vec<String> },
    Ended,
}

/// What an `Opening` is.
pub enum OpeningView {
    Start,
    MakingPruner,
    AskingPruner,
    OpeningFile,
    RewritingFilter { rows: Option<Range<u64>> },
    MappingSchema { rows: Option<Range<u64>> },
    FindingReader { rows: Option<Range<u64>>, fields: Seq<Seq<char>> },
    CreatingReader { rows: Option<Range<u64>>, fields: Seq<Seq<char>> },
    SplittingFilter { rows: Option<Range<u64>>, fields: Seq<Seq<char>> },
    MakingPredicate { rows: Option<Range<u64>>, fields: Seq<Seq<char>> },
    Ended,
}

impl Opening {
    /// The phase itself.
    pub open spec fn view(&self) -> OpeningView {
        match *self {
            Opening::Start => OpeningView::Start,
            Opening::MakingPruner => OpeningView::MakingPruner,
            Opening::AskingPruner => OpeningView::AskingPruner,
            Opening::OpeningFile => OpeningView::OpeningFile,
            Opening::RewritingFilter { rows } => OpeningView::RewritingFilter { rows },
            Opening::MappingSchema { rows } => OpeningView::MappingSchema { rows },
            Opening::FindingReader { rows, fields } => OpeningView::FindingReader {
                rows,
                fields: ids_view(fields@),
            },
            Opening::CreatingReader { rows, fields } => OpeningView::CreatingReader {
                rows,
                fields: ids_view(fields@),
            },
            Opening::SplittingFilter { rows, fields } => OpeningView::SplittingFilter {
                rows,
                fields: ids_view(fields@),
            },
            Opening::MakingPredicate { rows, fields } => OpeningView::MakingPredicate {
                rows,
                fields: ids_view(fields@),
            },
            Opening::Ended => OpeningView::Ended,
        }
    }
}

/// What has been done.
#[derive(Debug)]
pub enum OpenEvent {
    Begin,
    PrunerMade,
    /// The pruner was asked whether the file holds no row of the result.
    Pruned(bool),
    /// The file is open, with the schema that it has.
    Opened { physical: Schema, row_count: u64 },
    FilterRewritten,
    /// The fields of the table that the scan has to read.
    SchemaMapped(Vec<usize>),
    ReaderLookedUp(ReaderEntry),
    ReaderCreated,
    /// Which conjuncts of the filter can be pushed down.
    FilterSplit(Vec<bool>),
    /// Whether the conjuncts make a predicate.
    PredicateMade(bool),
}

/// How a file is scanned.
#[derive(Debug)]
pub struct ScanPlan {
    /// The rows to scan, where it is not the whole file.
    pub rows: Option<Range<u64>>,
    pub fields: Vec<String>,
    /// Whether the scan filters.
    pub filtered: bool,
    pub limit: Option<usize>,
    pub ordered: bool,
    /// Whether the stream ends once the dynamic predicate excludes the file.
    pub stops_on_filter_update: bool,
}

/// Why a file is not opened.
#[derive(Clone, Copy, Debug, PartialEq, Eq, Structural)]
pub enum OpenError {
    /// The projection names a column that the table does not have.
    BadProjection,
}

/// What is to be done next.
#[derive(Debug)]
pub enum OpenAction {
    /// Make a pruner that knows the partition columns and their values in the file.
    MakePruner { partition_fields: Vec<Field>, partition_values: Vec<ScalarValue> },
    AskPruner,
    OpenFile,
    /// Rewrite the filter from the file's schema with the types of the table to the file's own, and
    /// put in the value that each partition column has in the file.
    RewriteFilter { logical: Schema, partition_values: Vec<(Field, ScalarValue)> },
    /// Map the schema of the file to the columns that are read.
    MapSchema { projected: Schema },
    LookUpReader,
    CreateReader,
    /// Split the filter into conjuncts, and see which can be pushed down for the schema of the
    /// file or that of the table.
    SplitFilter { against_file: bool },
    /// Make a predicate of these conjuncts.
    MakePredicate(Vec<usize>),
    Scan(ScanPlan),
    /// Answer with no rows.
    Nothing,
    /// Answer with an error.
    Fail(OpenError),
}

/// What an `OpenAction` is.
pub enum OpenActionView {
    MakePruner { partition_fields: Seq<FieldView>, partition_values: Seq<ScalarView> },
    AskPruner,
    OpenFile,
    RewriteFilter { logical: Seq<FieldView>, partition_values: Seq<(FieldView, ScalarView)> },
    MapSchema { projected: Seq<FieldView> },
    LookUpReader,
    CreateReader,
    SplitFilter { against_file: bool },
    MakePredicate(Seq<usize>),
    Scan {
        rows: Option<Range<u64>>,
        fields: Seq<Seq<char>>,
        filtered: bool,
        limit: Option<usize>,
        ordered: bool,
        stops_on_filter_update: bool,
    },
    Nothing,
    Fail(OpenError),
}

impl OpenAction {
    /// The action itself.
    pub open spec fn view(&self) -> OpenActionView {
        match *self {
            OpenAction::MakePruner { partition_fields, partition_values } => {
                OpenActionView::MakePruner {
                    partition_fields: fields_view(partition_fields@),
                    partition_values: values_view(partition_values@),
                }
            },
            OpenAction::AskPruner => OpenActionView::AskPruner,
            OpenAction::OpenFile => OpenActionView::OpenFile,
            OpenAction::RewriteFilter { logical, partition_values } => {
                OpenActionView::RewriteFilter {
                    logical: fields_view(logical.fields@),
                    partition_values: pairs_view(partition_values@),
                }
            },
            OpenAction::MapSchema { projected } => OpenActionView::MapSchema {
                projected: fields_view(projected.fields@),
            },
            OpenAction::LookUpReader => OpenActionView::LookUpReader,
            OpenAction::CreateReader => OpenActionView::CreateReader,
            OpenAction::SplitFilter { against_file } => OpenActionView::SplitFilter {
                against_file,
            },
            OpenAction::MakePredicate(conjuncts) => OpenActionView::MakePredicate(conjuncts@),
            OpenAction::Scan(plan) => OpenActionView::Scan {
                rows: plan.rows,
                fields: ids_view(plan.fields@),
                filtered: plan.filtered,
                limit: plan.limit,
                ordered: plan.ordered,
                stops_on_filter_update: plan.stops_on_filter_update,
            },
            OpenAction::Nothing => OpenActionView::Nothing,
            OpenAction::Fail(e) => OpenActionView::Fail(e),
        }
    }
}

/// The places at which there is `true`, in order.
pub open spec fn places(flags: Seq<bool>) -> Seq<usize>
    decreases flags.len(),
{
    if flags.len() == 0 {
        Seq::empty()
    } else if flags.last() {
        places(flags.drop_last()).push((flags.len() - 1) as usize)
    } else {
        places(flags.drop_last())
    }
}

/// Returns which conjuncts of a filter are pushed down: those that can be.
pub fn pushed_down(pushable: &Vec<bool>) -> (r: Vec<usize>)
    ensures
        r@ == places(pushable@),
{
    let mut conjuncts: Vec<usize> = Vec::new();
    let mut i: usize = 0;
    while i < pushable.len()
        invariant
            0 <= i <= pushable.len(),
            conjuncts@ == places(pushable@.take(i as int)),
        decreases pushable.len() - i,
    {
        assert(pushable@.take(i + 1).drop_last() =~= pushable@.take(i as int));
        if pushable[i] {
            conjuncts.push(i);
        }
        i += 1;
    }
    assert(pushable@.take(i as int) =~= pushable@);
    conjuncts
}

/// The rows to scan of a file with so many rows.
pub open spec fn rows_to_scan(file: FileToOpen, row_count: u64) -> Option<Range<u64>> {
    match file.range {
        Some(range) => {
            let rows = rows_of_bytes(
                range.start as u64 as int,
                range.end as u64 as int,
                row_count as int,
                file.size as int,
            );
            Some(Range { start: rows.0 as u64, end: rows.1 as u64 })
        },
        None => None,
    }
}

/// Whether what has been done is what was to be done. A file of which a range is scanned has rows
/// of at least a byte each, and a mapping names fields of the table.
pub open spec fn expects(
    opener: VortexOpener,
    file: FileToOpen,
    phase: OpeningView,
    event: OpenEvent,
) -> bool {
    match (phase, event) {
        (OpeningView::Start, OpenEvent::Begin) => true,
        (OpeningView::MakingPruner, OpenEvent::PrunerMade) => true,
        (OpeningView::AskingPruner, OpenEvent::Pruned(_)) => true,
        (OpeningView::OpeningFile, OpenEvent::Opened { physical, row_count }) => file.range is Some
            ==> row_count > 0 && file.size / row_count > 0,
        (OpeningView::RewritingFilter { .. }, OpenEvent::FilterRewritten) => true,
        (OpeningView::MappingSchema { .. }, OpenEvent::SchemaMapped(indices)) => forall|i: int|
            0 <= i < indices.len() ==> (#[trigger] indices@[i])
                < opener.logical_schema.fields.len(),
        (OpeningView::FindingReader { .. }, OpenEvent::ReaderLookedUp(_)) => true,
        (OpeningView::CreatingReader { .. }, OpenEvent::ReaderCreated) => true,
        (OpeningView::SplittingFilter { .. }, OpenEvent::FilterSplit(_)) => true,
        (OpeningView::MakingPredicate { .. }, OpenEvent::PredicateMade(_)) => true,
        _ => false,
    }
}

/// How the file is scanned in the end.
pub open spec fn scan_of(
    opener: VortexOpener,
    file: FileToOpen,
    rows: Option<Range<u64>>,
    fields: Seq<Seq<char>>,
    filtered: bool,
) -> OpenActionView {
    OpenActionView::Scan {
        rows,
        fields,
        filtered,
        limit: if filtered {
            None
        } else {
            opener.limit
        },
        ordered: opener.has_output_ordering,
        stops_on_filter_update: opener.file_pruning_predicate == Some(true) && file.statistics,
    }
}

/// What follows once there is a reader.
pub open spec fn with_reader(
    opener: VortexOpener,
    file: FileToOpen,
    rows: Option<Range<u64>>,
    fields: Seq<Seq<char>>,
) -> (OpeningView, OpenActionView) {
    if opener.has_filter {
        (
            OpeningView::SplittingFilter { rows, fields },
            OpenActionView::SplitFilter { against_file: opener.adapts_expressions },
        )
    } else {
        (OpeningView::Ended, scan_of(opener, file, rows, fields, false))
    }
}

/// The columns that are read, or nothing if the projection names one that is not there.
pub open spec fn read_columns(opener: VortexOpener) -> Option<Seq<FieldView>> {
    projected_fields(fields_view(opener.logical_schema.fields@), projection_view(opener.projection))
}

/// What follows once the filter, if there is one, fits the file.
pub open spec fn with_filter(opener: VortexOpener, rows: Option<Range<u64>>) -> (
    OpeningView,
    OpenActionView,
) {
    match read_columns(opener) {
        Some(projected) => (
            OpeningView::MappingSchema { rows },
            OpenActionView::MapSchema { projected },
        ),
        None => (OpeningView::Ended, OpenActionView::Fail(OpenError::BadProjection)),
    }
}

/// How far the opening has come after an event, and what is to be done next.
pub open spec fn next_phase(
    opener: VortexOpener,
    file: FileToOpen,
    phase: OpeningView,
    event: OpenEvent,
) -> (OpeningView, OpenActionView) {
    match (phase, event) {
        (OpeningView::Start, OpenEvent::Begin) => if read_columns(opener) is None {
            (OpeningView::Ended, OpenActionView::Fail(OpenError::BadProjection))
        } else if opener.file_pruning_predicate matches Some(is_dynamic) && (is_dynamic
            || file.has_statistics) {
            (
                OpeningView::MakingPruner,
                OpenActionView::MakePruner {
                    partition_fields: fields_view(opener.partition_fields@),
                    partition_values: values_view(file.partition_values@),
                },
            )
        } else {
            (OpeningView::OpeningFile, OpenActionView::OpenFile)
        },
        (OpeningView::MakingPruner, OpenEvent::PrunerMade) => (
            OpeningView::AskingPruner,
            OpenActionView::AskPruner,
        ),
        (OpeningView::AskingPruner, OpenEvent::Pruned(pruned)) => if pruned {
            (OpeningView::Ended, OpenActionView::Nothing)
        } else {
            (OpeningView::OpeningFile, OpenActionView::OpenFile)
        },
        (OpeningView::OpeningFile, OpenEvent::Opened { physical, row_count }) => {
            let rows = rows_to_scan(file, row_count);
            if opener.adapts_expressions && opener.has_filter {
                (
                    OpeningView::RewritingFilter { rows },
                    OpenActionView::RewriteFilter {
                        logical: fields_view(physical.fields@).map_values(
                            |f: FieldView|
                                logical_field(f, fields_view(opener.logical_schema.fields@)),
                        ),
                        partition_values: paired(
                            fields_view(opener.partition_fields@),
                            values_view(file.partition_values@),
                        ),
                    },
                )
            } else {
                with_filter(opener, rows)
            }
        },
        (OpeningView::RewritingFilter { rows }, OpenEvent::FilterRewritten) => with_filter(
            opener,
            rows,
        ),
        (OpeningView::MappingSchema { rows }, OpenEvent::SchemaMapped(indices)) => (
            OpeningView::FindingReader {
                rows,
                fields: indices@.map_values(
                    |i: usize| opener.logical_schema.fields@[i as int].name@,
                ),
            },
            OpenActionView::LookUpReader,
        ),
        (OpeningView::FindingReader { rows, fields }, OpenEvent::ReaderLookedUp(entry)) => if entry
            == ReaderEntry::Alive {
            with_reader(opener, file, rows, fields)
        } else {
            (OpeningView::CreatingReader { rows, fields }, OpenActionView::CreateReader)
        },
        (OpeningView::CreatingReader { rows, fields }, OpenEvent::ReaderCreated) => with_reader(
            opener,
            file,
            rows,
            fields,
        ),
        (OpeningView::SplittingFilter { rows, fields }, OpenEvent::FilterSplit(pushable)) => (
            OpeningView::MakingPredicate { rows, fields },
            OpenActionView::MakePredicate(places(pushable@)),
        ),
        (OpeningView::MakingPredicate { rows, fields }, OpenEvent::PredicateMade(filtered)) => (
            OpeningView::Ended,
            scan_of(opener, file, rows, fields, filtered),
        ),
        (phase, _) => (phase, OpenActionView::Nothing),
    }
}

impl VortexOpener {
    fn scan(
        &self,
        file: &FileToOpen,
        rows: Option<Range<u64>>,
        fields: Vec<String>,
        filtered: bool,
    ) -> (r: OpenAction)
        ensures
            r@ == scan_of(*self, *file, rows, ids_view(fields@), filtered),
    {
        OpenAction::Scan(
            ScanPlan {
                rows,
                fields,
                filtered,
                limit: scan_limit(self.limit, filtered),
                ordered: self.has_output_ordering,
                stops_on_filter_update: stops_on_filter_update(
                    self.file_pruning_predicate,
                    file.statistics,
                ),
            },
        )
    }

    fn use_reader(
        &self,
        file: &FileToOpen,
        rows: Option<Range<u64>>,
        fields: Vec<String>,
    ) -> (r: (Opening, OpenAction))
        ensures
            (r.0@, r.1@) == with_reader(*self, *file, rows, ids_view(fields@)),
    {
        if self.has_filter {
            (
                Opening::SplittingFilter { rows, fields },
                OpenAction::SplitFilter { against_file: self.adapts_expressions },
            )
        } else {
            (Opening::Ended, self.scan(file, rows, fields, false))
        }
    }

    fn map_schema(&self, rows: Option<Range<u64>>) -> (r: (Opening, OpenAction))
        ensures
            (r.0@, r.1@) == with_filter(*self, rows),
    {
        match project_schema(&self.logical_schema, &self.projection) {
            Some(projected) => (
                Opening::MappingSchema { rows },
                OpenAction::MapSchema { projected },
            ),
            None => (Opening::Ended, OpenAction::Fail(OpenError::BadProjection)),
        }
    }

    /// Takes what has been done to open a file, and returns how far that has come and what is to
    /// be done next. A projection that names a column which is not there fails before anything is
    /// done, and a file that the pruner excludes is not opened.
    pub fn open(&self, file: &FileToOpen, phase: Opening, event: OpenEvent) -> (r: (
        Opening,
        OpenAction,
    ))
        requires
            expects(*self, *file, phase@, event),
        ensures
            (r.0@, r.1@) == next_phase(*self, *file, phase@, event),
    {
        match (phase, event) {
            (Opening::Start, OpenEvent::Begin) => {
                if project_schema(&self.logical_schema, &self.projection).is_none() {
                    (Opening::Ended, OpenAction::Fail(OpenError::BadProjection))
                } else if wants_file_pruner(self.file_pruning_predicate, file.has_statistics) {
                    (
                        Opening::MakingPruner,
                        OpenAction::MakePruner {
                            partition_fields: duplicate_fields(&self.partition_fields),
                            partition_values: duplicate_values(&file.partition_values),
                        },
                    )
                } else {
                    (Opening::OpeningFile, OpenAction::OpenFile)
                }
            },
            (Opening::MakingPruner, OpenEvent::PrunerMade) => (
                Opening::AskingPruner,
                OpenAction::AskPruner,
            ),
            (Opening::AskingPruner, OpenEvent::Pruned(pruned)) => if pruned {
                (Opening::Ended, OpenAction::Nothing)
            } else {
                (Opening::OpeningFile, OpenAction::OpenFile)
            },
            (Opening::OpeningFile, OpenEvent::Opened { physical, row_count }) => {
                let rows = match &file.range {
                    Some(range) => Some(
                        apply_byte_range(range.start..range.end, file.size, row_count),
                    ),
                    None => None,
                };
                if self.adapts_expressions && self.has_filter {
                    let logical = compute_logical_file_schema(&physical, &self.logical_schema);
                    assert(fields_view(logical.fields@) =~= fields_view(
                        physical.fields@,
                    ).map_values(
                        |f: FieldView| logical_field(f, fields_view(self.logical_schema.fields@)),
                    ));
                    let partition_values = pair_partition_values(
                        &self.partition_fields,
                        &file.partition_values,
                    );
                    (
                        Opening::RewritingFilter { rows },
                        OpenAction::RewriteFilter { logical, partition_values },
                    )
                } else {
                    self.map_schema(rows)
                }
            },
            (Opening::RewritingFilter { rows }, OpenEvent::FilterRewritten) => {
                self.map_schema(rows)
            },
            (Opening::MappingSchema { rows }, OpenEvent::SchemaMapped(indices)) => {
                let fields = projected_names(&self.logical_schema, &indices);
                assert(ids_view(fields@) =~= indices@.map_values(
                    |i: usize| self.logical_schema.fields@[i as int].name@,
                ));
                (Opening::FindingReader { rows, fields }, OpenAction::LookUpReader)
            },
            (Opening::FindingReader { rows, fields }, OpenEvent::ReaderLookedUp(entry)) => {
                match layout_reader_source(entry) {
                    ReaderSource::Reuse => self.use_reader(file, rows, fields),
                    ReaderSource::CreateAndShare => (
                        Opening::CreatingReader { rows, fields },
                        OpenAction::CreateReader,
                    ),
                }
            },
            (Opening::CreatingReader { rows, fields }, OpenEvent::ReaderCreated) => {
                self.use_reader(file, rows, fields)
            },
            (Opening::SplittingFilter { rows, fields }, OpenEvent::FilterSplit(pushable)) => (
                Opening::MakingPredicate { rows, fields },
                OpenAction::MakePredicate(pushed_down(&pushable)),
            ),
            (Opening::MakingPredicate { rows, fields }, OpenEvent::PredicateMade(filtered)) => (
                Opening::Ended,
                self.scan(file, rows, fields, filtered),
            ),
            (phase, _) => (phase, OpenAction::Nothing),
        }
    }
}

/// A file that the pruner excludes is answered with no rows and is never opened: nothing follows.
pub proof fn law_a_pruned_file_is_not_opened(
    opener: VortexOpener,
    file: FileToOpen,
    phase: OpeningView,
    event: OpenEvent,
    later: OpenEvent,
)
    requires
        expects(opener, file, phase, event),
        event == OpenEvent::Pruned(true),
    ensures
        next_phase(opener, file, phase, event) == (OpeningView::Ended, OpenActionView::Nothing),
        !expects(opener, file, next_phase(opener, file, phase, event).0, later),
{
}

/// How many steps a phase has behind it at most.
pub open spec fn rank(phase: OpeningView) -> nat {
    match phase {
        OpeningView::Start => 0,
        OpeningView::MakingPruner => 1,
        OpeningView::AskingPruner => 2,
        OpeningView::OpeningFile => 3,
        OpeningView::RewritingFilter { .. } => 4,
        OpeningView::MappingSchema { .. } => 5,
        OpeningView::FindingReader { .. } => 6,
        OpeningView::CreatingReader { .. } => 7,
        OpeningView::SplittingFilter { .. } => 8,
        OpeningView::MakingPredicate { .. } => 9,
        OpeningView::Ended => 10,
    }
}

/// The opening of a file comes to an end: each event brings it further, and with the last one there
/// is a scan, an answer without rows, or an error.
pub proof fn law_the_opening_ends(
    opener: VortexOpener,
    file: FileToOpen,
    phase: OpeningView,
    event: OpenEvent,
)
    requires
        expects(opener, file, phase, event),
    ensures
        ({
            let next = next_phase(opener, file, phase, event);
            &&& rank(phase) < rank(next.0)
            &&& next.0 is Ended <==> (next.1 is Scan || next.1 is Nothing || next.1 is Fail)
        }),
{
}

/// A projection that names a column which the table does not have fails at once, and no other
/// opening fails.
pub proof fn law_only_a_bad_projection_fails(
    opener: VortexOpener,
    file: FileToOpen,
    phase: OpeningView,
    event: OpenEvent,
)
    requires
        expects(opener, file, phase, event),
    ensures
        next_phase(opener, file, phase, event).1 is Fail ==> read_columns(opener) is None,
        phase is Start && read_columns(opener) is None ==> next_phase(opener, file, phase, event)
            == (OpeningView::Ended, OpenActionView::Fail(OpenError::BadProjection)),
{
}

/// A filter is rewritten with the value that each partition column has in the file: where the table
/// has that column and the file that value, the two are handed on together, and nothing else is.
pub proof fn law_a_filter_is_rewritten_with_the_partition_values(
    opener: VortexOpener,
    file: FileToOpen,
    phase: OpeningView,
    event: OpenEvent,
    i: int,
)
    requires
        expects(opener, file, phase, event),
        next_phase(opener, file, phase, event).1 is RewriteFilter,
    ensures
        ({
            let pairs = next_phase(opener, file, phase, event).1->RewriteFilter_partition_values;
            &&& 0 <= i < pairs.len() <==> 0 <= i < opener.partition_fields.len() && i
                < file.partition_values.len()
            &&& 0 <= i < pairs.len() ==> pairs[i] == (
                opener.partition_fields@[i]@,
                file.partition_values@[i]@,
            )
        }),
{
}

/// With a filter and rewriting, no file is scanned unless the filter was rewritten for it.
pub proof fn law_no_schema_is_mapped_before_the_filter_is_rewritten(
    opener: VortexOpener,
    file: FileToOpen,
    phase: OpeningView,
    event: OpenEvent,
)
    requires
        expects(opener, file, phase, event),
        opener.has_filter,
        opener.adapts_expressions,
    ensures
        next_phase(opener, file, phase, event).1 is MapSchema ==> phase is RewritingFilter,
        phase is OpeningFile ==> next_phase(opener, file, phase, event).1 is RewriteFilter,
{
}

/// A scan that filters has no limit, for the rows that it reads are not the rows that it returns.
pub proof fn law_a_filtered_scan_has_no_limit(
    opener: VortexOpener,
    file: FileToOpen,
    phase: OpeningView,
    event: OpenEvent,
)
    requires
        expects(opener, file, phase, event),
    ensures
        next_phase(opener, file, phase, event).1 matches OpenActionView::Scan {
            filtered,
            limit,
            ..
        } ==> limit == (if filtered {
            None
        } else {
            opener.limit
        }),
{
}

/// How far the opening of a file has come after some events, and what is to be done then.
pub open spec fn run(opener: VortexOpener, file: FileToOpen, events: Seq<OpenEvent>) -> (
    OpeningView,
    OpenActionView,
)
    decreases events.len(),
{
    if events.len() == 0 {
        (OpeningView::Start, OpenActionView::Nothing)
    } else {
        next_phase(opener, file, run(opener, file, events.drop_last()).0, events.last())
    }
}

/// Whether each event is the one that was waited for.
pub open spec fn can_happen(opener: VortexOpener, file: FileToOpen, events: Seq<OpenEvent>) -> bool
    decreases events.len(),
{
    events.len() > 0 ==> can_happen(opener, file, events.drop_last()) && expects(
        opener,
        file,
        run(opener, file, events.drop_last()).0,
        events.last(),
    )
}

/// The number of rows that the file had when it was opened.
pub open spec fn rows_reported(events: Seq<OpenEvent>) -> Option<u64>
    decreases events.len(),
{
    if events.len() == 0 {
        None
    } else {
        match events.last() {
            OpenEvent::Opened { physical, row_count } => Some(row_count),
            _ => rows_reported(events.drop_last()),
        }
    }
}

/// The fields of the table that were found to be read.
pub open spec fn fields_mapped(events: Seq<OpenEvent>) -> Option<Seq<usize>>
    decreases events.len(),
{
    if events.len() == 0 {
        None
    } else {
        match events.last() {
            OpenEvent::SchemaMapped(indices) => Some(indices@),
            _ => fields_mapped(events.drop_last()),
        }
    }
}

/// What the pruner answered.
pub open spec fn pruner_answer(events: Seq<OpenEvent>) -> Option<bool>
    decreases events.len(),
{
    if events.len() == 0 {
        None
    } else {
        match events.last() {
            OpenEvent::Pruned(pruned) => Some(pruned),
            _ => pruner_answer(events.drop_last()),
        }
    }
}

/// Whether the filter was rewritten.
pub open spec fn filter_rewritten(events: Seq<OpenEvent>) -> bool
    decreases events.len(),
{
    events.len() > 0 && (events.last() is FilterRewritten || filter_rewritten(events.drop_last()))
}

/// What was found where a reader is shared.
pub open spec fn reader_found(events: Seq<OpenEvent>) -> Option<ReaderEntry>
    decreases events.len(),
{
    if events.len() == 0 {
        None
    } else {
        match events.last() {
            OpenEvent::ReaderLookedUp(entry) => Some(entry),
            _ => reader_found(events.drop_last()),
        }
    }
}

/// Whether a reader was created.
pub open spec fn reader_created(events: Seq<OpenEvent>) -> bool
    decreases events.len(),
{
    events.len() > 0 && (events.last() is ReaderCreated || reader_created(events.drop_last()))
}

/// Which conjuncts of the filter were found to be pushable.
pub open spec fn filter_split(events: Seq<OpenEvent>) -> Option<Seq<bool>>
    decreases events.len(),
{
    if events.len() == 0 {
        None
    } else {
        match events.last() {
            OpenEvent::FilterSplit(pushable) => Some(pushable@),
            _ => filter_split(events.drop_last()),
        }
    }
}

/// Whether the conjuncts made a predicate.
pub open spec fn predicate_made(events: Seq<OpenEvent>) -> Option<bool>
    decreases events.len(),
{
    if events.len() == 0 {
        None
    } else {
        match events.last() {
            OpenEvent::PredicateMade(made) => Some(made),
            _ => predicate_made(events.drop_last()),
        }
    }
}

/// Whether these are the rows of the bytes of the file that are to be scanned, where it has so many
/// rows and each of them takes as many bytes as another.
pub open spec fn rows_fit(file: FileToOpen, rows: Option<Range<u64>>, row_count: u64) -> bool {
    match (file.range, rows) {
        (None, None) => true,
        (Some(range), Some(rows)) => {
            let width = file.size / row_count;
            &&& rows.start == (range.start as u64) / width
            &&& rows.end <= row_count
            &&& rows.end == (range.end as u64) / width || rows.end == row_count
            &&& rows.end <= (range.end as u64) / width
        },
        _ => false,
    }
}

/// Whether these are the names of the fields at these places of the table.
pub open spec fn names_fit(opener: VortexOpener, names: Seq<Seq<char>>, indices: Seq<usize>) -> bool {
    &&& names.len() == indices.len()
    &&& forall|i: int|
        0 <= i < names.len() ==> #[trigger] names[i]
            == opener.logical_schema.fields@[indices[i] as int].name@
}

/// Whether a pruner is asked before the file is opened.
pub open spec fn pruner_asked(opener: VortexOpener, file: FileToOpen) -> bool {
    opener.file_pruning_predicate is Some && (opener.file_pruning_predicate->Some_0
        || file.has_statistics)
}

/// Whether nothing was done of what follows the opening of the file.
spec fn nothing_opened(events: Seq<OpenEvent>) -> bool {
    &&& rows_reported(events) is None
    &&& fields_mapped(events) is None
    &&& !filter_rewritten(events)
    &&& nothing_read(events)
}

spec fn nothing_read(events: Seq<OpenEvent>) -> bool {
    &&& reader_found(events) is None
    &&& !reader_created(events)
    &&& nothing_filtered(events)
}

spec fn nothing_filtered(events: Seq<OpenEvent>) -> bool {
    filter_split(events) is None && predicate_made(events) is None
}

/// Whether the file was opened, and has these rows to scan.
spec fn opened_with(
    opener: VortexOpener,
    file: FileToOpen,
    rows: Option<Range<u64>>,
    events: Seq<OpenEvent>,
) -> bool {
    &&& rows_reported(events) is Some
    &&& rows_fit(file, rows, rows_reported(events)->Some_0)
    &&& pruner_answer(events) == (if pruner_asked(opener, file) {
        Some(false)
    } else {
        None
    })
}

/// Whether the filter was rewritten if it has to be, and these are the fields to read.
spec fn mapped_to(
    opener: VortexOpener,
    file: FileToOpen,
    rows: Option<Range<u64>>,
    fields: Seq<Seq<char>>,
    events: Seq<OpenEvent>,
) -> bool {
    &&& opened_with(opener, file, rows, events)
    &&& filter_rewritten(events) == (opener.has_filter && opener.adapts_expressions)
    &&& fields_mapped(events) is Some
    &&& names_fit(opener, fields, fields_mapped(events)->Some_0)
}

/// Whether there is a reader, made or found.
spec fn read_by(events: Seq<OpenEvent>) -> bool {
    reader_found(events) is Some && reader_created(events) == (reader_found(events) != Some(
        ReaderEntry::Alive,
    ))
}

/// Whether what was done is what leads to a phase.
spec fn leads_to(
    opener: VortexOpener,
    file: FileToOpen,
    phase: OpeningView,
    events: Seq<OpenEvent>,
) -> bool {
    match phase {
        OpeningView::Start => nothing_opened(events) && pruner_answer(events) is None,
        OpeningView::MakingPruner => nothing_opened(events) && pruner_answer(events) is None
            && pruner_asked(opener, file),
        OpeningView::AskingPruner => nothing_opened(events) && pruner_answer(events) is None
            && pruner_asked(opener, file),
        OpeningView::OpeningFile => nothing_opened(events) && pruner_answer(events) == (
        if pruner_asked(opener, file) {
            Some(false)
        } else {
            None
        }),
        OpeningView::RewritingFilter { rows } => opened_with(opener, file, rows, events)
            && nothing_read(events) && fields_mapped(events) is None && !filter_rewritten(events)
            && opener.has_filter && opener.adapts_expressions,
        OpeningView::MappingSchema { rows } => opened_with(opener, file, rows, events)
            && nothing_read(events) && fields_mapped(events) is None && filter_rewritten(events)
            == (opener.has_filter && opener.adapts_expressions),
        OpeningView::FindingReader { rows, fields } => mapped_to(
            opener,
            file,
            rows,
            fields,
            events,
        ) && nothing_read(events),
        OpeningView::CreatingReader { rows, fields } => mapped_to(
            opener,
            file,
            rows,
            fields,
            events,
        ) && reader_found(events) is Some && reader_found(events) != Some(ReaderEntry::Alive)
            && !reader_created(events) && nothing_filtered(events),
        OpeningView::SplittingFilter { rows, fields } => mapped_to(
            opener,
            file,
            rows,
            fields,
            events,
        ) && read_by(events) && nothing_filtered(events) && opener.has_filter,
        OpeningView::MakingPredicate { rows, fields } => mapped_to(
            opener,
            file,
            rows,
            fields,
            events,
        ) && read_by(events) && filter_split(events) is Some && predicate_made(events) is None
            && opener.has_filter,
        OpeningView::Ended => true,
    }
}

proof fn lemma_rows_fit(file: FileToOpen, row_count: u64)
    requires
        file.range is Some ==> row_count > 0 && file.size / row_count > 0,
    ensures
        rows_fit(file, rows_to_scan(file, row_count), row_count),
{
    if let Some(range) = file.range {
        let width = file.size / row_count;
        let (start, end) = (range.start as u64, range.end as u64);
        assert(0 <= start / width <= start && 0 <= end / width <= end) by (nonlinear_arith)
            requires
                width > 0,
        ;
        assert((start as int) / (width as int) == start / width);
        assert((end as int) / (width as int) == end / width);
    }
}

proof fn lemma_what_was_done(opener: VortexOpener, file: FileToOpen, events: Seq<OpenEvent>)
    requires
        can_happen(opener, file, events),
    ensures
        leads_to(opener, file, run(opener, file, events).0, events),
    decreases events.len(),
{
    if events.len() > 0 {
        let before = events.drop_last();
        lemma_what_was_done(opener, file, before);
        if let OpenEvent::Opened { physical, row_count } = events.last() {
            lemma_rows_fit(file, row_count);
        }
    }
}

/// A file is scanned for the rows of its byte range and no others, whatever was done on the way:
/// all of it exactly if no range of it was asked for, else from the row that holds the first byte of
/// the range to the one that holds the byte after it, by the number of rows that the file had when
/// it was opened, and never beyond that number.
pub proof fn law_a_scan_reads_the_rows_of_the_byte_range(
    opener: VortexOpener,
    file: FileToOpen,
    events: Seq<OpenEvent>,
)
    requires
        can_happen(opener, file, events),
        run(opener, file, events).1 is Scan,
    ensures
        ({
            let rows = run(opener, file, events).1->Scan_rows;
            &&& rows is None <==> file.range is None
            &&& rows_reported(events) is Some
            &&& file.range matches Some(range) ==> {
                let count = rows_reported(events)->Some_0;
                let width = file.size / count;
                &&& rows->Some_0.start == (range.start as u64) / width
                &&& rows->Some_0.end == (if (range.end as u64) / width <= count {
                    (range.end as u64) / width
                } else {
                    count
                })
            }
        }),
{
    lemma_what_was_done(opener, file, events.drop_last());
    lemma_what_was_done(opener, file, events);
}

/// A scan reads the fields that the mapping named, each once for each time that it was named and in
/// that order.
pub proof fn law_a_scan_reads_the_mapped_fields(
    opener: VortexOpener,
    file: FileToOpen,
    events: Seq<OpenEvent>,
)
    requires
        can_happen(opener, file, events),
        run(opener, file, events).1 is Scan,
    ensures
        ({
            let fields = run(opener, file, events).1->Scan_fields;
            &&& fields_mapped(events) matches Some(indices) && fields.len() == indices.len()
            &&& forall|i: int|
                0 <= i < fields.len() ==> #[trigger] fields[i]
                    == opener.logical_schema.fields@[fields_mapped(events)->Some_0[i] as int].name@
        }),
{
    lemma_what_was_done(opener, file, events.drop_last());
    lemma_what_was_done(opener, file, events);
}

/// Before a file is scanned, all that has to be done was done, and nothing else: a pruner, where
/// there is one that can tell, has said that the file may hold rows of the result; a filter that is
/// adapted was rewritten; a reader was made unless there was a live one; and a filter was split.
/// The scan filters exactly if there is a filter of which something made a predicate.
pub proof fn law_a_scan_follows_what_it_needs(
    opener: VortexOpener,
    file: FileToOpen,
    events: Seq<OpenEvent>,
)
    requires
        can_happen(opener, file, events),
        run(opener, file, events).1 is Scan,
    ensures
        match opener.file_pruning_predicate {
            Some(is_dynamic) if is_dynamic || file.has_statistics => pruner_answer(events) == Some(
                false,
            ),
            _ => pruner_answer(events) is None,
        },
        filter_rewritten(events) <==> opener.has_filter && opener.adapts_expressions,
        reader_found(events) is Some,
        reader_created(events) <==> reader_found(events) != Some(ReaderEntry::Alive),
        filter_split(events) is Some <==> opener.has_filter,
        predicate_made(events) is Some <==> opener.has_filter,
        run(opener, file, events).1->filtered <==> predicate_made(events) == Some(true),
        run(opener, file, events).1->ordered == opener.has_output_ordering,
        run(opener, file, events).1->stops_on_filter_update <==> file.statistics
            && opener.file_pruning_predicate == Some(true),
{
    lemma_what_was_done(opener, file, events.drop_last());
    lemma_what_was_done(opener, file, events);
}

proof fn lemma_places(flags: Seq<bool>)
    requires
        flags.len() <= usize::MAX,
    ensures
        forall|k: int|
            0 <= k < places(flags).len() ==> (#[trigger] places(flags)[k]) < flags.len()
                && flags[places(flags)[k] as int],
        forall|k: int, m: int|
            0 <= k < m < places(flags).len() ==> places(flags)[k] < places(flags)[m],
        forall|i: int|
            0 <= i < flags.len() && #[trigger] flags[i] ==> places(flags).contains(i as usize),
    decreases flags.len(),
{
    if flags.len() > 0 {
        let before = flags.drop_last();
        lemma_places(before);
        let all = places(flags);
        assert forall|i: int| 0 <= i < flags.len() && #[trigger] flags[i] implies all.contains(
            i as usize,
        ) by {
            if i < before.len() {
                assert(before[i]);
                let k = choose|k: int| 0 <= k < places(before).len() && places(before)[k] == i as usize;
                assert(all[k] == i as usize);
            } else {
                assert(all[all.len() - 1] == i as usize);
            }
        }
    }
}

/// A predicate is made of the conjuncts that can be pushed down: of each of them once, in their
/// order, and of no other.
pub proof fn law_what_is_pushed_down(
    opener: VortexOpener,
    file: FileToOpen,
    events: Seq<OpenEvent>,
    i: int,
)
    requires
        can_happen(opener, file, events),
        run(opener, file, events).1 is MakePredicate,
        0 <= i < filter_split(events)->Some_0.len() <= usize::MAX,
    ensures
        ({
            let conjuncts = run(opener, file, events).1->MakePredicate_0;
            &&& conjuncts.contains(i as usize) <==> filter_split(events)->Some_0[i]
            &&& forall|k: int, m: int|
                0 <= k < m < conjuncts.len() ==> conjuncts[k] < conjuncts[m]
            &&& forall|k: int|
                0 <= k < conjuncts.len() ==> (#[trigger] conjuncts[k])
                    < filter_split(events)->Some_0.len()
        }),
{
    let pushable = filter_split(events)->Some_0;
    lemma_places(pushable);
    let conjuncts = places(pushable);
    if conjuncts.contains(i as usize) {
        let k = choose|k: int| 0 <= k < conjuncts.len() && conjuncts[k] == i as usize;
        assert(pushable[conjuncts[k] as int]);
    }
}

/// A filter is split against the schema of the file exactly if it was rewritten for the file.
pub proof fn law_a_rewritten_filter_is_split_against_the_file(
    opener: VortexOpener,
    file: FileToOpen,
    events: Seq<OpenEvent>,
)
    requires
        can_happen(opener, file, events),
        run(opener, file, events).1 is SplitFilter,
    ensures
        run(opener, file, events).1->against_file <==> filter_rewritten(events),
{
    lemma_what_was_done(opener, file, events.drop_last());
    lemma_what_was_done(opener, file, events);
}

/// The schema of the file is mapped to the columns that are asked for: those at the places of the
/// projection, in its order, or all of them without one.
pub proof fn law_the_schema_is_mapped_to_the_projection(
    opener: VortexOpener,
    file: FileToOpen,
    events: Seq<OpenEvent>,
    i: int,
)
    requires
        can_happen(opener, file, events),
        run(opener, file, events).1 is MapSchema,
        0 <= i < run(opener, file, events).1->projected.len(),
    ensures
        ({
            let projected = run(opener, file, events).1->projected;
            let columns = opener.logical_schema.fields@;
            match opener.projection {
                Some(projection) => projected.len() == projection.len() && projection@[i]
                    < columns.len() && projected[i] == columns[projection@[i] as int]@,
                None => projected.len() == columns.len() && projected[i] == columns[i]@,
            }
        }),
{
}

} // verus!
