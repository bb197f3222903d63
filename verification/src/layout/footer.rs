//! The footer of a file: what is in it and where.

use crate::dtype::DType;
use crate::layout::tree::{
    first_invalid, has_encoding, ids_view, law_a_tree_is_refused_for_an_encoding_without_an_id,
    layout_from_flatbuffer_with_options, loaded, tree_size, Layout, LayoutError, LayoutView,
    ResolvedLayout, StoredLayout, StoredLayoutView,
};
use std::sync::Arc;
use vstd::prelude::*;

verus! {

/// What an allocation for bytes takes beyond the bytes, to align them.
pub const BUFFER_ALLOC_SLACK: usize = 256;

/// What the footer keeps of a segment.
pub const SEGMENT_SPEC_BYTES: usize = 24;

/// What the footer keeps of the id of an encoding: its place among all ids.
pub const ENCODING_ID_BYTES: usize = 4;

/// Where a segment lies in the file.
#[derive(Clone, Copy, Debug, PartialEq, Eq, Structural)]
pub struct SegmentSpec {
    pub offset: u64,
    pub length: u32,
    /// The number of bytes that the segment is aligned to.
    pub alignment: usize,
}

/// The statistics of a file, by what they take in memory.
#[derive(Clone, Copy, Debug, PartialEq, Eq, Structural)]
pub struct FileStatistics {
    pub heap_size: usize,
}

/// A footer as it is stored.
#[derive(Debug)]
pub struct StoredFooter {
    pub layout_specs: Vec<String>,
    pub array_specs: Vec<String>,
    pub segment_specs: Option<Vec<SegmentSpec>>,
    /// The sizes of the stored parts. A file without a type of its own has none of that part.
    pub footer_len: usize,
    pub layout_len: usize,
    pub dtype_len: usize,
}

/// Why a stored footer is none.
#[derive(Debug)]
pub enum FooterError<E> {
    Layout(LayoutError),
    /// The encoding of the root does not build a layout from what is stored.
    Build(E),
    MissingSegmentSpecs,
    UnorderedSegments,
}

/// Whether each segment begins at or after the one before it. Two begin at one place where the
/// first has no bytes.
pub open spec fn ordered(segments: Seq<SegmentSpec>) -> bool {
    forall|i: int, j: int|
        #![trigger segments[i], segments[j]]
        0 <= i <= j < segments.len() ==> segments[i].offset <= segments[j].offset
}

/// What the copies of the stored parts take.
pub open spec fn serialized_size(footer: nat, layout: nat, dtype: nat) -> nat {
    footer + layout + dtype + (if dtype > 0 {
        3nat
    } else {
        2
    }) * BUFFER_ALLOC_SLACK as nat
}

/// What a footer keeps in memory once its tree of layouts is there.
pub open spec fn retained_size(
    serialized: nat,
    tree: nat,
    dtype: nat,
    statistics: Option<FileStatistics>,
    segments: nat,
    ids: nat,
) -> nat {
    serialized + tree + dtype + (match statistics {
        Some(statistics) => statistics.heap_size as nat,
        None => 0,
    }) + segments * SEGMENT_SPEC_BYTES as nat + ids * ENCODING_ID_BYTES as nat
}

/// What is in a file and where.
#[derive(Debug)]
pub struct Footer {
    root_layout: Arc<Layout>,
    segments: Arc<Vec<SegmentSpec>>,
    statistics: Option<FileStatistics>,
    array_read_ctx: Vec<String>,
    approx_byte_size: Option<usize>,
}

/// What a `Footer` is.
pub struct FooterView {
    pub root_layout: LayoutView,
    pub segments: Seq<SegmentSpec>,
    pub statistics: Option<FileStatistics>,
    pub array_ids: Seq<Seq<char>>,
    pub approx_byte_size: Option<usize>,
}

impl Footer {
    /// What the footer is.
    pub closed spec fn view(&self) -> FooterView {
        FooterView {
            root_layout: self.root_layout@,
            segments: self.segments@,
            statistics: self.statistics,
            array_ids: ids_view(self.array_read_ctx@),
            approx_byte_size: self.approx_byte_size,
        }
    }

    /// Makes a footer whose size is not known.
    pub fn new(
        root_layout: Arc<Layout>,
        segments: Arc<Vec<SegmentSpec>>,
        statistics: Option<FileStatistics>,
        array_read_ctx: Vec<String>,
    ) -> (r: Footer)
        ensures
            r@ == (FooterView {
                root_layout: root_layout@,
                segments: segments@,
                statistics,
                array_ids: ids_view(array_read_ctx@),
                approx_byte_size: None,
            }),
    {
        Footer { root_layout, segments, statistics, array_read_ctx, approx_byte_size: None }
    }

    /// Returns the footer with its size.
    pub fn with_approx_byte_size(self, approx_byte_size: usize) -> (r: Footer)
        ensures
            r@ == (FooterView { approx_byte_size: Some(approx_byte_size), ..self@ }),
    {
        Footer { approx_byte_size: Some(approx_byte_size), ..self }
    }

    /// What the footer keeps in memory, where the stored parts, the tree and the type take so much.
    pub open spec fn retained(self, serialized: nat, tree: nat, dtype: nat) -> nat {
        retained_size(
            serialized,
            tree,
            dtype,
            self@.statistics,
            self@.segments.len(),
            self@.array_ids.len(),
        )
    }

    /// Returns what the footer keeps in memory once its tree of layouts is there. The tree is built
    /// as it is needed, but counted from the start, so that the size of a footer never changes.
    fn approx_retained_size(&self, serialized: usize, tree: usize, dtype: usize) -> (r: usize)
        requires
            self.retained(serialized as nat, tree as nat, dtype as nat) <= usize::MAX,
        ensures
            r == self.retained(serialized as nat, tree as nat, dtype as nat),
    {
        let statistics: usize = match &self.statistics {
            Some(statistics) => statistics.heap_size,
            None => 0,
        };
        serialized + tree + dtype + statistics + self.segments.len() * SEGMENT_SPEC_BYTES
            + self.array_read_ctx.len() * ENCODING_ID_BYTES
    }

    /// Returns the footer with its size, by what the stored parts, the tree and the type take.
    pub fn with_approx_retained_size(self, serialized: usize, tree: usize, dtype: usize) -> (r:
        Footer)
        requires
            self.retained(serialized as nat, tree as nat, dtype as nat) <= usize::MAX,
        ensures
            r@ == (FooterView {
                approx_byte_size: Some(
                    self.retained(serialized as nat, tree as nat, dtype as nat) as usize,
                ),
                ..self@
            }),
    {
        let size: usize = self.approx_retained_size(serialized, tree, dtype);
        self.with_approx_byte_size(size)
    }

    /// Returns the footer that is stored, where its type takes so much in memory. A layout whose
    /// encoding is known is built by `build`.
    pub fn from_flatbuffer<E, F: FnOnce(&String, &StoredLayout) -> Result<Layout, E>>(
        stored: StoredFooter,
        layout: &StoredLayout,
        dtype: &Arc<DType>,
        dtype_heap_size: usize,
        statistics: Option<FileStatistics>,
        registry: &Vec<String>,
        allow_unknown: bool,
        build: F,
    ) -> (r: Result<Footer, FooterError<E>>)
        requires
            stored_retained(stored, layout@, dtype_heap_size as nat, statistics) <= usize::MAX,
            forall|id: &String| #[trigger] build.requires((id, layout)),
        ensures
            refused_encoding(
                layout@,
                ids_view(stored.layout_specs@),
                ids_view(registry@),
                allow_unknown,
            ) is Some <==> (r is Err && r->Err_0 is Layout),
            r matches Err(FooterError::Layout(e)) ==> (e matches LayoutError::InvalidEncodingId(x)
                && refused_encoding(
                layout@,
                ids_view(stored.layout_specs@),
                ids_view(registry@),
                allow_unknown,
            ) == Some(x)),
            r matches Err(FooterError::Build(e)) ==> root_is_known(stored, layout@, registry@)
                && build_gives(build, layout, root_id(stored, layout@), Err(e)),
            r is Err && (r->Err_0 is MissingSegmentSpecs || r->Err_0 is UnorderedSegments)
                && root_is_known(stored, layout@, registry@) ==> exists|built: Layout| #[trigger]
                build_gives(build, layout, root_id(stored, layout@), Ok(built)),
            r is Err && r->Err_0 is MissingSegmentSpecs ==> stored.segment_specs is None,
            r is Err && r->Err_0 is UnorderedSegments ==> stored.segment_specs is Some && !ordered(
                stored.segment_specs->Some_0@,
            ),
            r matches Ok(footer) ==> stored.segment_specs is Some && ordered(
                stored.segment_specs->Some_0@,
            ) && footer@.segments == stored.segment_specs->Some_0@,
            r matches Ok(footer) ==> footer@.statistics == statistics && footer@.array_ids
                == ids_view(stored.array_specs@) && footer@.approx_byte_size == Some(
                stored_retained(stored, layout@, dtype_heap_size as nat, statistics) as usize,
            ),
            r matches Ok(footer) ==> root_is_known(stored, layout@, registry@) ==> exists|
                built: Layout,
            | #[trigger]
                build_gives(build, layout, root_id(stored, layout@), Ok(built))
                    && footer@.root_layout == built@,
            r matches Ok(footer) ==> !root_is_known(stored, layout@, registry@)
                ==> footer@.root_layout == loaded(layout@, *dtype, ids_view(stored.layout_specs@)),
    {
        let serialized: usize = stored.footer_len + stored.layout_len + stored.dtype_len + (
        if stored.dtype_len > 0 {
            3
        } else {
            2
        }) * BUFFER_ALLOC_SLACK;
        let (resolved, tree): (ResolvedLayout, usize) = match layout_from_flatbuffer_with_options(
            layout,
            dtype,
            &stored.layout_specs,
            registry,
            allow_unknown,
        ) {
            Ok(resolved) => resolved,
            Err(e) => {
                return Err(FooterError::Layout(e));
            },
        };
        let root_layout: Layout = match resolved {
            ResolvedLayout::Foreign(root_layout) => root_layout,
            ResolvedLayout::Encoded(id) => {
                let built = build(&id, layout);
                assert(build_gives(build, layout, root_id(stored, layout@), built));
                match built {
                    Ok(root_layout) => root_layout,
                    Err(e) => {
                        return Err(FooterError::Build(e));
                    },
                }
            },
        };
        let segments: Vec<SegmentSpec> = match stored.segment_specs {
            Some(segments) => segments,
            None => {
                return Err(FooterError::MissingSegmentSpecs);
            },
        };
        if !is_ordered(&segments) {
            return Err(FooterError::UnorderedSegments);
        }
        let footer = Footer::new(
            Arc::new(root_layout),
            Arc::new(segments),
            statistics,
            stored.array_specs,
        );
        Ok(footer.with_approx_retained_size(serialized, tree, dtype_heap_size))
    }

    /// Returns the layout of the whole file.
    pub fn layout(&self) -> (r: &Arc<Layout>)
        ensures
            r@ == self@.root_layout,
    {
        &self.root_layout
    }

    /// Returns where the segments of the file lie.
    pub fn segment_map(&self) -> (r: &Arc<Vec<SegmentSpec>>)
        ensures
            r@ == self@.segments,
    {
        &self.segments
    }

    /// Returns the statistics of the file.
    pub fn statistics(&self) -> (r: Option<&FileStatistics>)
        ensures
            match r {
                Some(statistics) => self@.statistics == Some(*statistics),
                None => self@.statistics is None,
            },
    {
        match &self.statistics {
            Some(statistics) => Some(statistics),
            None => None,
        }
    }

    /// Returns the type of the file.
    pub fn dtype(&self) -> (r: &Arc<DType>)
        ensures
            *r == self@.root_layout.dtype,
    {
        &self.root_layout.dtype
    }

    /// Returns what the footer keeps in memory, if it is known. It is the same at any time.
    pub fn approx_byte_size(&self) -> (r: Option<usize>)
        ensures
            r == self@.approx_byte_size,
    {
        self.approx_byte_size
    }

    /// Returns the number of rows in the file.
    pub fn row_count(&self) -> (r: u64)
        ensures
            r == self@.root_layout.row_count,
    {
        self.root_layout.row_count
    }
}

/// What a stored footer keeps in memory once it is read.
pub open spec fn stored_retained(
    stored: StoredFooter,
    layout: StoredLayoutView,
    dtype: nat,
    statistics: Option<FileStatistics>,
) -> nat {
    retained_size(
        serialized_size(
            stored.footer_len as nat,
            stored.layout_len as nat,
            stored.dtype_len as nat,
        ),
        tree_size(layout),
        dtype,
        statistics,
        match stored.segment_specs {
            Some(segments) => segments@.len(),
            None => 0,
        },
        stored.array_specs@.len(),
    )
}

/// Whether building a layout with the id of its encoding gives a result.
pub open spec fn build_gives<E, F: FnOnce(&String, &StoredLayout) -> Result<Layout, E>>(
    build: F,
    layout: &StoredLayout,
    id: Seq<char>,
    result: Result<Layout, E>,
) -> bool {
    exists|s: &String| #[trigger] build.ensures((s, layout), result) && s@ == id
}

/// The id of the encoding of the root of a stored tree.
pub open spec fn root_id(stored: StoredFooter, layout: StoredLayoutView) -> Seq<char> {
    stored.layout_specs@[layout.encoding as int]@
}

/// Whether the encoding of the root of a stored tree is known.
pub open spec fn root_is_known(
    stored: StoredFooter,
    layout: StoredLayoutView,
    registry: Seq<String>,
) -> bool {
    layout.encoding < stored.layout_specs@.len() && ids_view(registry).contains(
        root_id(stored, layout),
    )
}

/// The number of the encoding for which a stored tree is refused, if it is.
pub open spec fn refused_encoding(
    layout: StoredLayoutView,
    ids: Seq<Seq<char>>,
    known: Seq<Seq<char>>,
    allow_unknown: bool,
) -> Option<u16> {
    if layout.encoding >= ids.len() {
        Some(layout.encoding)
    } else if known.contains(ids[layout.encoding as int]) {
        None
    } else if !allow_unknown {
        Some(layout.encoding)
    } else {
        first_invalid(layout, ids)
    }
}

/// Returns whether each segment begins at or after the one before it.
pub fn is_ordered(segments: &Vec<SegmentSpec>) -> (r: bool)
    ensures
        r == ordered(segments@),
{
    let mut i: usize = 1;
    while i < segments.len()
        invariant
            1 <= i,
            forall|a: int, b: int|
                #![trigger segments@[a], segments@[b]]
                0 <= a <= b < i && b < segments@.len() ==> segments@[a].offset
                    <= segments@[b].offset,
        decreases segments.len() - i,
    {
        if segments[i - 1].offset > segments[i].offset {
            assert(segments@[i - 1].offset > segments@[i as int].offset);
            return false;
        }
        i += 1;
    }
    true
}

/// What a footer keeps is the sum of its parts: what is stored, the tree, the type and the
/// statistics, 24 bytes for each segment and four for each id.
pub proof fn law_a_footer_keeps_what_its_parts_keep(
    serialized: nat,
    tree: nat,
    dtype: nat,
    statistics: FileStatistics,
    segments: nat,
    ids: nat,
)
    ensures
        retained_size(serialized, tree, dtype, None, 0, 0) == serialized + tree + dtype,
        retained_size(serialized, tree, dtype, Some(statistics), segments, ids) == retained_size(
            serialized,
            tree,
            dtype,
            None,
            segments,
            ids,
        ) + statistics.heap_size,
        retained_size(serialized, tree, dtype, None, segments + 1, ids) == retained_size(
            serialized,
            tree,
            dtype,
            None,
            segments,
            ids,
        ) + 24,
        retained_size(serialized, tree, dtype, None, segments, ids + 1) == retained_size(
            serialized,
            tree,
            dtype,
            None,
            segments,
            ids,
        ) + 4,
{
}

/// Each stored part that a file has is kept in an allocation of its own, which takes 256 bytes on
/// top; a file may have no type of its own.
pub proof fn law_each_stored_part_has_its_allocation(footer: nat, layout: nat, dtype: nat)
    ensures
        dtype == 0 ==> serialized_size(footer, layout, dtype) == (footer + 256) + (layout + 256),
        dtype > 0 ==> serialized_size(footer, layout, dtype) == (footer + 256) + (layout + 256) + (
        dtype + 256),
{
}

/// A tree whose root has an encoding that is known is never refused; one whose root has an id that
/// is not known is refused unless that is allowed, and then only for an encoding without an id.
pub proof fn law_which_trees_are_refused(
    layout: StoredLayoutView,
    ids: Seq<Seq<char>>,
    known: Seq<Seq<char>>,
    allow_unknown: bool,
)
    ensures
        match refused_encoding(layout, ids, known, allow_unknown) {
            Some(e) => has_encoding(layout, e) && (e >= ids.len() || !allow_unknown && e
                == layout.encoding && !known.contains(ids[e as int])),
            None => layout.encoding < ids.len() && (known.contains(ids[layout.encoding as int]) || (
            allow_unknown && forall|e: u16| #[trigger] has_encoding(layout, e) ==> e < ids.len())),
        },
        layout.encoding >= ids.len() ==> refused_encoding(layout, ids, known, allow_unknown) == Some(
            layout.encoding,
        ),
{
    law_a_tree_is_refused_for_an_encoding_without_an_id(layout, ids);
}

/// Segments are in order exactly if each begins at or after its neighbour.
pub proof fn law_segments_in_order_by_neighbours(segments: Seq<SegmentSpec>)
    ensures
        ordered(segments) <==> forall|i: int|
            0 < i < segments.len() ==> segments[i - 1].offset <= (#[trigger] segments[i]).offset,
{
    if forall|i: int|
        0 < i < segments.len() ==> segments[i - 1].offset <= (#[trigger] segments[i]).offset {
        assert forall|i: int, j: int|
            #![trigger segments[i], segments[j]]
            0 <= i <= j < segments.len() implies segments[i].offset <= segments[j].offset by {
            lemma_in_order_from(segments, i, j);
        }
    }
}

proof fn lemma_in_order_from(segments: Seq<SegmentSpec>, i: int, j: int)
    requires
        0 <= i <= j < segments.len(),
        forall|k: int|
            0 < k < segments.len() ==> segments[k - 1].offset <= (#[trigger] segments[k]).offset,
    ensures
        segments[i].offset <= segments[j].offset,
    decreases j - i,
{
    if i < j {
        lemma_in_order_from(segments, i, j - 1);
        assert(segments[j - 1].offset <= segments[j].offset);
    }
}

/// A footer in which segments are not listed keeps as much as one whose list of segments is empty.
pub proof fn law_unlisted_segments_are_none(
    stored: StoredFooter,
    other: StoredFooter,
    layout: StoredLayoutView,
    dtype: nat,
    statistics: Option<FileStatistics>,
)
    requires
        stored.segment_specs is None,
        other.segment_specs matches Some(segments) && segments@.len() == 0,
        stored.footer_len == other.footer_len,
        stored.layout_len == other.layout_len,
        stored.dtype_len == other.dtype_len,
        stored.array_specs@.len() == other.array_specs@.len(),
    ensures
        stored_retained(stored, layout, dtype, statistics) == stored_retained(
            other,
            layout,
            dtype,
            statistics,
        ),
{
}

/// What a footer keeps is counted from what it holds: all of its statistics, its segments and the
/// ids of its encodings, next to the stored parts, the tree and the type.
pub proof fn law_a_footer_counts_what_it_holds(footer: Footer, serialized: nat, tree: nat, dtype: nat)
    ensures
        footer.retained(serialized, tree, dtype) == serialized + tree + dtype + (
        match footer@.statistics {
            Some(statistics) => statistics.heap_size as int,
            None => 0,
        }) + 24 * footer@.segments.len() + 4 * footer@.array_ids.len(),
{
}

/// The encoding of a root is known exactly if its number is that of a listed encoding and the
/// registry has an entry of the same id.
pub proof fn law_a_known_root_is_listed_and_registered(
    stored: StoredFooter,
    layout: StoredLayoutView,
    registry: Seq<String>,
)
    ensures
        layout.encoding >= stored.layout_specs@.len() ==> !root_is_known(stored, layout, registry),
        layout.encoding < stored.layout_specs@.len() ==> (root_is_known(stored, layout, registry)
            <==> exists|i: int|
            0 <= i < registry.len() && (#[trigger] registry[i])@
                == stored.layout_specs@[layout.encoding as int]@),
{
    let ids = ids_view(registry);
    if root_is_known(stored, layout, registry) {
        let i = choose|i: int| 0 <= i < ids.len() && ids[i] == root_id(stored, layout);
        assert(registry[i]@ == root_id(stored, layout));
    }
    if layout.encoding < stored.layout_specs@.len() {
        assert forall|i: int|
            0 <= i < registry.len() && (#[trigger] registry[i])@
                == stored.layout_specs@[layout.encoding as int]@ implies root_is_known(
            stored,
            layout,
            registry,
        ) by {
            assert(ids[i] == root_id(stored, layout));
        }
    }
}

} // verus!
