//! Writing a stream of batches to files of a target size.

use crate::text::{
    decimal, ends_with, law_a_number_reads_as_itself, number_of, padded, padded_string,
    strip_suffix, zeros,
};
use vstd::prelude::*;

verus! {

/// The settings of the demuxer that splits a write into files.
#[derive(Clone, Copy, Debug, PartialEq, Eq, Structural)]
pub struct DemuxSettings {
    pub minimum_parallel_output_files: usize,
    pub soft_max_rows_per_output_file: usize,
}

/// Returns the demuxer settings that avoid unnecessary file splitting, so that the sink can
/// control output file sizes itself. All other settings stay as they are.
pub fn context_for_single_file_demux(settings: DemuxSettings) -> (r: DemuxSettings)
    ensures
        r.minimum_parallel_output_files == 1,
        r.soft_max_rows_per_output_file == usize::MAX,
{
    DemuxSettings {
        minimum_parallel_output_files: 1,
        soft_max_rows_per_output_file: usize::MAX,
        ..settings
    }
}

/// What the path of an object store makes of a text: its segments with empty ones left out and
/// troublesome characters percent-encoded.
pub uninterp spec fn encoded_path(text: Seq<char>) -> Seq<char>;

/// Makes a path from a text, with `object_store::path::Path::from`, and returns the path's own
/// text. The result is a function of the text; nothing more is claimed of it.
#[verifier::external_body]
fn encode_path(text: String) -> (r: String)
    ensures
        r@ == encoded_path(text@),
{
    String::from(object_store::path::Path::from(text))
}

/// The text that the path with a number is made from: the number stands before the extension,
/// and a path that lacks the extension gets it.
pub open spec fn numbered_name(original: Seq<char>, index: nat, extension: Seq<char>) -> Seq<char> {
    let suffix = seq!['.'] + extension;
    let number = seq!['_'] + padded(index, 5);
    if ends_with(original, suffix) {
        original.take(original.len() - suffix.len()) + number + suffix
    } else {
        original + number + suffix
    }
}

/// Returns the text that the path with a number is made from.
pub fn name_with_number(original: &str, index: usize, extension: &str) -> (r: String)
    ensures
        r@ == numbered_name(original@, index as nat, extension@),
{
    proof {
        reveal_strlit(".");
        reveal_strlit("_");
        assert("."@ =~= seq!['.']);
        assert("_"@ =~= seq!['_']);
    }
    let mut suffix = ".".to_owned();
    suffix.append(extension);
    let mut name = match strip_suffix(original, suffix.as_str()) {
        Some(stem) => {
            assert(stem@ =~= original@.take(original@.len() - suffix@.len()));
            stem
        },
        None => original.to_owned(),
    };
    let ghost stem = name@;
    name.append("_");
    name.append(padded_string(index as u64, 5).as_str());
    name.append(suffix.as_str());
    assert(name@ =~= stem + (seq!['_'] + padded(index as nat, 5)) + suffix@);
    name
}

/// Generates a numbered file path from an existing path for size-based splitting.
///
/// Given `base/file.vortex`, produces `base/file_00000.vortex`. If the path lacks the extension,
/// appends `_00000.{extension}`.
pub fn numbered_path(original: &str, index: usize, extension: &str) -> (r: String)
    ensures
        r@ == encoded_path(numbered_name(original@, index as nat, extension@)),
{
    encode_path(name_with_number(original, index, extension))
}

proof fn lemma_number_of_decimal(n: nat)
    ensures
        number_of(decimal(n)) == n,
{
    law_a_number_reads_as_itself(n);
}

proof fn lemma_number_of_zeros_before(k: nat, digits: Seq<char>)
    ensures
        number_of(zeros(k) + digits) == number_of(digits),
    decreases k + digits.len(),
{
    let s = zeros(k) + digits;
    if digits.len() > 0 {
        assert(s.drop_last() =~= zeros(k) + digits.drop_last());
        lemma_number_of_zeros_before(k, digits.drop_last());
    } else if k > 0 {
        assert(s.drop_last() =~= zeros((k - 1) as nat) + digits);
        assert(s.last() == '0');
        lemma_number_of_zeros_before((k - 1) as nat, digits);
    }
}

/// Two files of one split that have different numbers have different names.
pub proof fn law_numbered_names_differ(original: Seq<char>, i: nat, j: nat, extension: Seq<char>)
    requires
        i != j,
    ensures
        numbered_name(original, i, extension) != numbered_name(original, j, extension),
{
    let suffix = seq!['.'] + extension;
    let stem = if ends_with(original, suffix) {
        original.take(original.len() - suffix.len())
    } else {
        original
    };
    let a = numbered_name(original, i, extension);
    let b = numbered_name(original, j, extension);
    assert(a =~= stem + seq!['_'] + padded(i, 5) + suffix);
    assert(b =~= stem + seq!['_'] + padded(j, 5) + suffix);
    if a == b {
        assert(padded(i, 5).len() == padded(j, 5).len());
        let from = (stem.len() + 1) as int;
        let to = from + padded(i, 5).len();
        assert(a.subrange(from, to) =~= padded(i, 5));
        assert(b.subrange(from, to) =~= padded(j, 5));
        lemma_number_of_decimal(i);
        lemma_number_of_decimal(j);
        lemma_number_of_zeros_before((5 - decimal(i).len()) as nat, decimal(i));
        lemma_number_of_zeros_before((5 - decimal(j).len()) as nat, decimal(j));
        assert(number_of(padded(i, 5)) == i);
        assert(number_of(padded(j, 5)) == j);
    }
}

/// The state of a write that splits a stream of batches into files.
///
/// A file is written once the batches that are buffered are estimated to reach the target size
/// when compressed. The estimate is the caller's: it scales the buffered bytes by the ratio that
/// the file before turned out to have.
#[derive(Debug)]
pub struct FileSplitter {
    pub target: Option<u64>,
    pub buffered_batches: usize,
    pub buffered_bytes: u64,
    pub file_index: usize,
}

/// The target size that counts: zero bytes count as one byte.
pub open spec fn effective_target(target_file_size: Option<u64>) -> Option<u64> {
    match target_file_size {
        Some(t) => Some(if t >= 1 {
            t
        } else {
            1u64
        }),
        None => None,
    }
}

impl FileSplitter {
    /// Starts a write with nothing buffered. A target of zero bytes counts as one byte; without
    /// a target all batches go to a single file.
    pub fn new(target_file_size: Option<u64>) -> (r: Self)
        ensures
            r.target == effective_target(target_file_size),
            r.target == match target_file_size {
                Some(t) => if t == 0 {
                    Some(1u64)
                } else {
                    Some(t)
                },
                None => None,
            },
            r.buffered_batches == 0,
            r.buffered_bytes == 0,
            r.file_index == 0,
    {
        let target = match target_file_size {
            Some(t) => if t == 0 {
                Some(1u64)
            } else {
                Some(t)
            },
            None => None,
        };
        FileSplitter { target, buffered_batches: 0, buffered_bytes: 0, file_index: 0 }
    }

    /// Buffers a batch that takes `memory_size` bytes.
    pub fn add_batch(&mut self, memory_size: u64)
        requires
            old(self).buffered_batches < usize::MAX,
        ensures
            final(self).target == old(self).target,
            final(self).file_index == old(self).file_index,
            final(self).buffered_batches == old(self).buffered_batches + 1,
            final(self).buffered_bytes == if old(self).buffered_bytes + memory_size <= u64::MAX {
                (old(self).buffered_bytes + memory_size) as u64
            } else {
                u64::MAX
            },
    {
        self.buffered_batches = self.buffered_batches + 1;
        self.buffered_bytes = self.buffered_bytes.saturating_add(memory_size);
    }

    /// Whether the buffered batches fill a file.
    pub open spec fn fills_file(self, estimated_compressed: u64) -> bool {
        self.target matches Some(target) && estimated_compressed >= target
    }

    /// Returns the path of the file that the buffered batches are to be written to now, if they
    /// are estimated to fill one.
    pub fn file_to_split_off(
        &self,
        estimated_compressed: u64,
        path: &str,
        extension: &str,
    ) -> (r: Option<String>)
        ensures
            r is Some == self.fills_file(estimated_compressed),
            r matches Some(p) ==> p@ == encoded_path(
                numbered_name(path@, self.file_index as nat, extension@),
            ),
    {
        match self.target {
            Some(target) => if estimated_compressed >= target {
                Some(numbered_path(path, self.file_index, extension))
            } else {
                None
            },
            None => None,
        }
    }

    /// Takes note that the buffered batches were written to a file that was split off. Returns
    /// the buffered bytes that the new ratio is to be computed from; a file of no bytes keeps
    /// the ratio as it is.
    pub fn file_written(&mut self) -> (r: Option<u64>)
        requires
            old(self).file_index < usize::MAX,
        ensures
            final(self).target == old(self).target,
            final(self).buffered_batches == 0,
            final(self).buffered_bytes == 0,
            final(self).file_index == old(self).file_index + 1,
            r == if old(self).buffered_bytes > 0 {
                Some(old(self).buffered_bytes)
            } else {
                None
            },
    {
        let bytes: u64 = self.buffered_bytes;
        self.buffered_batches = 0;
        self.buffered_bytes = 0;
        self.file_index = self.file_index + 1;
        if bytes > 0 {
            Some(bytes)
        } else {
            None
        }
    }

    /// Returns the path of the file that what is still buffered at the end of the stream goes
    /// to. If nothing was split off, this is the original path, to keep file names clean.
    pub fn last_file(&self, path: &str, extension: &str) -> (r: Option<String>)
        ensures
            r is Some == (self.buffered_batches > 0),
            r matches Some(p) ==> p@ == if self.file_index == 0 {
                path@
            } else {
                encoded_path(numbered_name(path@, self.file_index as nat, extension@))
            },
    {
        if self.buffered_batches == 0 {
            None
        } else if self.file_index == 0 {
            Some(path.to_owned())
        } else {
            Some(numbered_path(path, self.file_index, extension))
        }
    }
}

/// The sum of the row counts.
pub open spec fn sum(counts: Seq<u64>) -> int
    decreases counts.len(),
{
    if counts.len() == 0 {
        0
    } else {
        sum(counts.drop_last()) + counts.last()
    }
}

proof fn lemma_sum_of_prefix(counts: Seq<u64>, k: int)
    requires
        0 <= k <= counts.len(),
    ensures
        0 <= sum(counts.take(k)) <= sum(counts),
    decreases counts.len(),
{
    if k < counts.len() {
        lemma_sum_of_prefix(counts.drop_last(), k);
        assert(counts.drop_last().take(k) =~= counts.take(k));
    } else {
        assert(counts.take(k) =~= counts);
        if counts.len() > 0 {
            lemma_sum_of_prefix(counts.drop_last(), k - 1);
        }
    }
}

/// Returns the number of rows that were written, given those of each file.
pub fn total_row_count(counts: &Vec<u64>) -> (r: u64)
    requires
        sum(counts@) <= u64::MAX,
    ensures
        r == sum(counts@),
{
    let mut total: u64 = 0;
    let mut i: usize = 0;
    while i < counts.len()
        invariant
            0 <= i <= counts.len(),
            sum(counts@) <= u64::MAX,
            total == sum(counts@.take(i as int)),
        decreases counts.len() - i,
    {
        proof {
            lemma_sum_of_prefix(counts@, i as int + 1);
            assert(counts@.take(i as int + 1).drop_last() =~= counts@.take(i as int));
        }
        total = total + counts[i];
        i += 1;
    }
    assert(counts@.take(i as int) =~= counts@);
    total
}

/// The first batch that is still buffered after the batches of `filled`, which says of each batch
/// whether a file was full once it was buffered.
pub open spec fn buffered_from(filled: Seq<bool>) -> int
    decreases filled.len(),
{
    if filled.len() == 0 {
        0
    } else if filled.last() {
        filled.len() as int
    } else {
        buffered_from(filled.drop_last())
    }
}

/// The batches, from the first to before the second number, of each file that was split off.
pub open spec fn split_off(filled: Seq<bool>) -> Seq<(int, int)>
    decreases filled.len(),
{
    if filled.len() == 0 {
        Seq::empty()
    } else if filled.last() {
        split_off(filled.drop_last()).push(
            (buffered_from(filled.drop_last()), filled.len() as int),
        )
    } else {
        split_off(filled.drop_last())
    }
}

/// The batches of each file of a stream: those that were split off, and what was left.
pub open spec fn files_of_stream(filled: Seq<bool>) -> Seq<(int, int)> {
    if buffered_from(filled) < filled.len() {
        split_off(filled).push((buffered_from(filled), filled.len() as int))
    } else {
        split_off(filled)
    }
}

/// Which estimates reach the target.
pub open spec fn filled_files(target: Option<u64>, estimates: Seq<u64>) -> Seq<bool> {
    Seq::new(estimates.len(), |i: int| target matches Some(t) && estimates[i] >= t)
}

/// A file of a stream, by its path and its batches.
#[derive(Debug)]
pub struct PlannedFile {
    pub path: String,
    pub first_batch: usize,
    pub end_batch: usize,
}

/// The path of file `k` of a stream: numbered if anything was split off, the original otherwise.
pub open spec fn file_path(
    path: Seq<char>,
    extension: Seq<char>,
    filled: Seq<bool>,
    k: int,
) -> Seq<char> {
    if split_off(filled).len() == 0 {
        path
    } else {
        encoded_path(numbered_name(path, k as nat, extension))
    }
}

/// Whether the files are those that a stream with these estimates is split into.
pub open spec fn is_plan_of(
    files: Seq<PlannedFile>,
    path: Seq<char>,
    extension: Seq<char>,
    target_file_size: Option<u64>,
    estimates: Seq<u64>,
) -> bool {
    let filled = filled_files(effective_target(target_file_size), estimates);
    &&& files.len() == files_of_stream(filled).len()
    &&& forall|k: int|
        0 <= k < files.len() ==> (#[trigger] files[k]).path@ == file_path(path, extension, filled, k)
            && (files[k].first_batch as int, files[k].end_batch as int) == files_of_stream(filled)[k]
}

/// Plans the files of a whole stream, given what the buffered batches were estimated to compress
/// to after each batch, and the memory that each batch takes.
pub fn plan_files(
    path: &str,
    extension: &str,
    target_file_size: Option<u64>,
    sizes: &Vec<u64>,
    estimates: &Vec<u64>,
) -> (r: Vec<PlannedFile>)
    requires
        sizes.len() == estimates.len(),
        sizes.len() < usize::MAX,
    ensures
        is_plan_of(r@, path@, extension@, target_file_size, estimates@),
        ({
            let target = match target_file_size {
                Some(t) => Some(if t == 0 {
                    1u64
                } else {
                    t
                }),
                None => None,
            };
            let filled = filled_files(target, estimates@);
            &&& r.len() == files_of_stream(filled).len()
            &&& forall|k: int|
                0 <= k < r.len() ==> {
                    &&& (#[trigger] r@[k]).path@ == file_path(path@, extension@, filled, k)
                    &&& (r@[k].first_batch as int, r@[k].end_batch as int) == files_of_stream(
                        filled,
                    )[k]
                }
        }),
{
    let mut state = FileSplitter::new(target_file_size);
    let mut files: Vec<PlannedFile> = Vec::new();
    let mut first: usize = 0;
    let mut i: usize = 0;
    let ghost target = state.target;
    let ghost filled = filled_files(target, estimates@);
    while i < sizes.len()
        invariant
            0 <= i <= sizes.len() < usize::MAX,
            sizes.len() == estimates.len(),
            state.target == target,
            filled == filled_files(target, estimates@),
            first <= i,
            first == buffered_from(filled.take(i as int)),
            state.buffered_batches == i - first,
            state.file_index == files.len(),
            files.len() == split_off(filled.take(i as int)).len(),
            files.len() <= i,
            forall|k: int|
                0 <= k < files.len() ==> {
                    &&& (#[trigger] files@[k]).path@ == encoded_path(
                        numbered_name(path@, k as nat, extension@),
                    )
                    &&& (files@[k].first_batch as int, files@[k].end_batch as int) == split_off(
                        filled.take(i as int),
                    )[k]
                },
        decreases sizes.len() - i,
    {
        proof {
            assert(filled.take(i as int + 1).drop_last() =~= filled.take(i as int));
            assert(filled.take(i as int + 1).last() == filled[i as int]);
        }
        state.add_batch(sizes[i]);
        let full = state.file_to_split_off(estimates[i], path, extension);
        i += 1;
        match full {
            Some(file) => {
                files.push(PlannedFile { path: file, first_batch: first, end_batch: i });
                state.file_written();
                first = i;
            },
            None => {},
        }
    }
    assert(filled.take(i as int) =~= filled);
    match state.last_file(path, extension) {
        Some(file) => {
            files.push(PlannedFile { path: file, first_batch: first, end_batch: i });
        },
        None => {},
    }
    files
}

proof fn lemma_split_off_shape(filled: Seq<bool>)
    ensures
        ({
            let files = split_off(filled);
            let from = buffered_from(filled);
            &&& 0 <= from <= filled.len()
            &&& files.len() == 0 ==> from == 0
            &&& files.len() > 0 ==> files[0].0 == 0 && files.last().1 == from
            &&& forall|k: int| 0 <= k < files.len() ==> (#[trigger] files[k]).0 < files[k].1
            &&& forall|k: int|
                0 < k < files.len() ==> (#[trigger] files[k]).0 == files[k - 1].1
        }),
    decreases filled.len(),
{
    if filled.len() > 0 {
        lemma_split_off_shape(filled.drop_last());
    }
}

/// The files of a stream hold every batch once and in order: each file goes on where the one
/// before it stopped, none is empty, and the last one stops with the last batch.
pub proof fn law_files_partition_the_stream(filled: Seq<bool>)
    ensures
        ({
            let files = files_of_stream(filled);
            &&& filled.len() == 0 <==> files.len() == 0
            &&& files.len() > 0 ==> files[0].0 == 0 && files.last().1 == filled.len()
            &&& forall|k: int| 0 <= k < files.len() ==> (#[trigger] files[k]).0 < files[k].1
            &&& forall|k: int|
                0 < k < files.len() ==> (#[trigger] files[k]).0 == files[k - 1].1
        }),
{
    lemma_split_off_shape(filled);
}

/// Without a target size there is one file, at the original path, with all batches.
pub proof fn law_without_target_there_is_one_file(estimates: Seq<u64>)
    requires
        estimates.len() > 0,
    ensures
        files_of_stream(filled_files(None, estimates)) == seq![(0int, estimates.len() as int)],
        split_off(filled_files(None, estimates)).len() == 0,
{
    lemma_nothing_split_off(filled_files(None, estimates));
    assert(files_of_stream(filled_files(None, estimates)) =~= seq![
        (0int, estimates.len() as int),
    ]);
}

proof fn lemma_nothing_split_off(filled: Seq<bool>)
    requires
        forall|i: int| 0 <= i < filled.len() ==> !#[trigger] filled[i],
    ensures
        split_off(filled).len() == 0,
        buffered_from(filled) == 0,
    decreases filled.len(),
{
    if filled.len() > 0 {
        assert(!filled[filled.len() - 1]);
        lemma_nothing_split_off(filled.drop_last());
    }
}

/// The buffered batches fill a file from the target size on: at each estimate that reaches it, at
/// none below it, and at none at all without a target.
pub proof fn law_a_file_is_full_from_the_target_on(splitter: FileSplitter, estimate: u64, more: u64)
    requires
        estimate <= more,
    ensures
        splitter.target matches Some(target) ==> splitter.fills_file(target) && (estimate < target
            ==> !splitter.fills_file(estimate)),
        splitter.fills_file(estimate) ==> splitter.fills_file(more),
        splitter.target is None ==> !splitter.fills_file(estimate),
{
}

proof fn lemma_where_files_end(filled: Seq<bool>, i: int)
    requires
        0 <= i < filled.len(),
    ensures
        filled[i] <==> some_file_ends_with(split_off(filled), i),
    decreases filled.len(),
{
    let before = filled.drop_last();
    let files = split_off(before);
    let all = split_off(filled);
    lemma_split_off_ends(before);
    if i < before.len() {
        lemma_where_files_end(before, i);
        if some_file_ends_with(files, i) {
            let k = choose|k: int| 0 <= k < files.len() && (#[trigger] files[k]).1 == i + 1;
            assert(all[k].1 == i + 1);
        }
        if some_file_ends_with(all, i) {
            let k = choose|k: int| 0 <= k < all.len() && (#[trigger] all[k]).1 == i + 1;
            assert(files[k].1 == i + 1);
        }
    } else {
        if filled[i] {
            assert(all[all.len() - 1].1 == i + 1);
        }
        if some_file_ends_with(all, i) && !filled[i] {
            let k = choose|k: int| 0 <= k < all.len() && (#[trigger] all[k]).1 == i + 1;
            assert(files[k].1 <= before.len());
        }
    }
}

proof fn lemma_split_off_ends(filled: Seq<bool>)
    ensures
        forall|k: int|
            0 <= k < split_off(filled).len() ==> (#[trigger] split_off(filled)[k]).1
                <= filled.len(),
    decreases filled.len(),
{
    if filled.len() > 0 {
        let files = split_off(filled.drop_last());
        lemma_split_off_ends(filled.drop_last());
        assert forall|k: int| 0 <= k < split_off(filled).len() implies (#[trigger] split_off(
            filled,
        )[k]).1 <= filled.len() by {
            if k < files.len() {
                assert(split_off(filled)[k] == files[k]);
            }
        }
    }
}

/// Whether one of the files ends with batch `i`.
pub open spec fn some_file_ends_with(files: Seq<(int, int)>, i: int) -> bool {
    exists|k: int| 0 <= k < files.len() && (#[trigger] files[k]).1 == i + 1
}

/// A file is split off after a batch exactly if the buffered batches are then estimated to reach the
/// target.
pub proof fn law_a_file_is_split_off_where_the_target_is_reached(
    target: u64,
    estimates: Seq<u64>,
    i: int,
)
    requires
        0 <= i < estimates.len(),
    ensures
        estimates[i] >= target <==> some_file_ends_with(
            split_off(filled_files(Some(target), estimates)),
            i,
        ),
        filled_files(Some(target), estimates).len() == estimates.len(),
{
    lemma_where_files_end(filled_files(Some(target), estimates), i);
}

/// The batches are written as a splitter asks for it: what fills a file at an estimate is what the
/// plan of a stream takes to fill one.
pub proof fn law_the_plan_is_what_a_splitter_does(
    splitter: FileSplitter,
    estimates: Seq<u64>,
    i: int,
)
    requires
        0 <= i < estimates.len(),
    ensures
        splitter.fills_file(estimates[i]) <==> some_file_ends_with(
            split_off(filled_files(splitter.target, estimates)),
            i,
        ),
{
    lemma_where_files_end(filled_files(splitter.target, estimates), i);
}

/// A numbered name is the name up to its extension, the number with at least five digits after a
/// `_`, and the extension, which is not there twice.
pub proof fn law_a_numbered_name_keeps_the_name(stem: Seq<char>, index: nat, extension: Seq<char>)
    requires
        !ends_with(stem, seq!['.'] + extension),
    ensures
        ({
            let name = numbered_name(stem, index, extension);
            let digits = name.subrange(
                stem.len() as int + 1,
                name.len() - extension.len() - 1,
            );
            &&& name == numbered_name(stem + seq!['.'] + extension, index, extension)
            &&& name.len() >= stem.len() + 1 + 5 + 1 + extension.len()
            &&& name.take(stem.len() as int) == stem
            &&& name[stem.len() as int] == '_'
            &&& number_of(digits) == index
            &&& name.skip(name.len() - extension.len() - 1) == seq!['.'] + extension
        }),
{
    let suffix = seq!['.'] + extension;
    let whole = stem + seq!['.'] + extension;
    let digits = padded(index, 5);
    let name = numbered_name(stem, index, extension);
    assert(whole =~= stem + suffix);
    assert(whole.skip(whole.len() - suffix.len()) =~= suffix);
    assert(ends_with(whole, suffix));
    assert(whole.take(whole.len() - suffix.len()) =~= stem);
    assert(name =~= stem + (seq!['_'] + digits) + suffix);
    assert(name.take(stem.len() as int) =~= stem);
    assert(name.skip(name.len() - extension.len() - 1) =~= suffix);
    assert(name.subrange(stem.len() as int + 1, name.len() - extension.len() - 1) =~= digits);
    law_a_number_reads_as_itself(index);
    lemma_number_of_zeros_before((5 - decimal(index).len()) as nat, decimal(index));
}

/// The files of a stream that was split are numbered from zero on; a stream that was not split goes
/// to its own path.
pub proof fn law_only_files_of_a_split_stream_are_numbered(
    path: Seq<char>,
    extension: Seq<char>,
    filled: Seq<bool>,
    k: int,
)
    requires
        0 <= k < files_of_stream(filled).len(),
    ensures
        file_path(path, extension, filled, k) == (if exists|i: int|
            0 <= i < filled.len() && filled[i] {
            encoded_path(numbered_name(path, k as nat, extension))
        } else {
            path
        }),
{
    if exists|i: int| 0 <= i < filled.len() && filled[i] {
        let i = choose|i: int| 0 <= i < filled.len() && filled[i];
        lemma_where_files_end(filled, i);
    } else {
        lemma_nothing_split_off(filled);
    }
}

/// The rows that were written are those of all files: files that are counted together count as much
/// as when they are counted apart.
pub proof fn law_rows_add_up(counts: Seq<u64>, more: Seq<u64>, one: u64)
    ensures
        sum(seq![one]) == one,
        sum(counts + more) == sum(counts) + sum(more),
    decreases more.len(),
{
    assert(seq![one].drop_last() =~= Seq::<u64>::empty());
    assert(sum(Seq::<u64>::empty()) == 0);
    if more.len() > 0 {
        law_rows_add_up(counts, more.drop_last(), one);
        assert((counts + more).drop_last() =~= counts + more.drop_last());
    } else {
        assert(counts + more =~= counts);
    }
}

/// A target size is what was asked for, but never less than one byte; without one there is none.
pub proof fn law_a_target_is_at_least_one_byte(target_file_size: Option<u64>)
    ensures
        effective_target(target_file_size) is None <==> target_file_size is None,
        effective_target(target_file_size) matches Some(t) ==> t >= 1 && (t
            == target_file_size->Some_0 || target_file_size->Some_0 == 0),
{
}

/// The files of a stream hold each batch once and in order, and one of them ends with a batch exactly
/// if the estimate after it reached the target, or it is the last batch.
pub proof fn law_planned_files_end_where_the_target_is_reached(
    files: Seq<PlannedFile>,
    path: Seq<char>,
    extension: Seq<char>,
    target_file_size: Option<u64>,
    estimates: Seq<u64>,
    i: int,
)
    requires
        is_plan_of(files, path, extension, target_file_size, estimates),
        0 <= i < estimates.len(),
    ensures
        files.len() > 0,
        files[0].first_batch == 0,
        files.last().end_batch == estimates.len(),
        forall|k: int| 0 <= k < files.len() ==> (#[trigger] files[k]).first_batch < files[k].end_batch,
        forall|k: int|
            0 < k < files.len() ==> (#[trigger] files[k]).first_batch == files[k - 1].end_batch,
        (exists|k: int| 0 <= k < files.len() && (#[trigger] files[k]).end_batch == i + 1) <==> i
            == estimates.len() - 1 || (target_file_size matches Some(t) && estimates[i] >= t
            && estimates[i] >= 1),
{
    let target = effective_target(target_file_size);
    let filled = filled_files(target, estimates);
    let all = files_of_stream(filled);
    let off = split_off(filled);
    law_files_partition_the_stream(filled);
    lemma_split_off_shape(filled);
    lemma_where_files_end(filled, i);
    assert forall|k: int| 0 < k < files.len() implies (#[trigger] files[k]).first_batch == files[k
        - 1].end_batch by {
        assert(all[k].0 == all[k - 1].1);
        assert(files[k - 1].end_batch == all[k - 1].1);
    }
    assert(files.last() == files[files.len() - 1]);
    assert(all.last() == all[all.len() - 1]);
    if exists|k: int| 0 <= k < files.len() && (#[trigger] files[k]).end_batch == i + 1 {
        let k = choose|k: int| 0 <= k < files.len() && (#[trigger] files[k]).end_batch == i + 1;
        if k < off.len() {
            assert(off[k] == all[k]);
            assert(some_file_ends_with(off, i));
        }
    }
    if i == estimates.len() - 1 {
        assert(files[files.len() - 1].end_batch == i + 1);
    }
    if some_file_ends_with(off, i) {
        let k = choose|k: int| 0 <= k < off.len() && (#[trigger] off[k]).1 == i + 1;
        assert(all[k] == off[k]);
        assert(files[k].end_batch == i + 1);
    }
}

} // verus!
