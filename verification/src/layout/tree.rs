//! The tree of layouts of a file, as it is stored and in memory.

use crate::dtype::{bytes_copy, DType};
use crate::text::{
    decimal, law_a_written_number_is_parsed_back, parse_usize, parsed_usize,
};
use std::sync::Arc;
use vstd::prelude::*;

verus! {

/// What a node of the tree takes in memory, but for the parts of it that vary in size.
pub const APPROX_LAYOUT_NODE_BYTES: usize = 480;

/// The size of the id of a segment.
pub const SEGMENT_ID_BYTES: usize = 4;

/// The most nodes that a stored tree may have where nothing else is said.
pub const DEFAULT_MAX_TABLES: usize = 1000000;

/// How deep a stored tree may be where nothing else is said.
pub const DEFAULT_MAX_DEPTH: usize = 64;

/// What a stored tree may be at most.
#[derive(Clone, Copy, Debug, PartialEq, Eq, Structural)]
pub struct TreeLimits {
    pub max_tables: usize,
    pub max_depth: usize,
}

/// The number that a setting gives, or another one if there is no setting or it is no number.
pub open spec fn setting_or(setting: Option<Seq<char>>, otherwise: usize) -> usize {
    match setting {
        Some(text) => match parsed_usize(text) {
            Some(n) => n,
            None => otherwise,
        },
        None => otherwise,
    }
}

fn limit(setting: &Option<String>, otherwise: usize) -> (r: usize)
    ensures
        r == setting_or(
            match *setting {
                Some(text) => Some(text@),
                None => None,
            },
            otherwise,
        ),
{
    match setting {
        Some(text) => match parse_usize(text.as_str()) {
            Some(n) => n,
            None => otherwise,
        },
        None => otherwise,
    }
}

impl TreeLimits {
    /// Returns the limits that the settings give.
    pub fn from_settings(max_tables: &Option<String>, max_depth: &Option<String>) -> (r: TreeLimits)
        ensures
            r.max_tables == setting_or(
                match *max_tables {
                    Some(text) => Some(text@),
                    None => None,
                },
                DEFAULT_MAX_TABLES,
            ),
            r.max_depth == setting_or(
                match *max_depth {
                    Some(text) => Some(text@),
                    None => None,
                },
                DEFAULT_MAX_DEPTH,
            ),
    {
        TreeLimits {
            max_tables: limit(max_tables, DEFAULT_MAX_TABLES),
            max_depth: limit(max_depth, DEFAULT_MAX_DEPTH),
        }
    }
}

/// A node of the tree as it is stored.
#[derive(Debug)]
pub struct StoredLayout {
    /// The place of the id of the encoding in the list of ids that is stored with the tree.
    pub encoding: u16,
    pub row_count: u64,
    pub metadata: Vec<u8>,
    pub segments: Vec<u32>,
    pub children: Vec<StoredLayout>,
}

/// What a `StoredLayout` is.
pub struct StoredLayoutView {
    pub encoding: u16,
    pub row_count: u64,
    pub metadata: Seq<u8>,
    pub segments: Seq<u32>,
    pub children: Seq<StoredLayoutView>,
}

impl StoredLayout {
    /// The node with all below it.
    pub open spec fn view(&self) -> StoredLayoutView
        decreases self,
    {
        StoredLayoutView {
            encoding: self.encoding,
            row_count: self.row_count,
            metadata: self.metadata@,
            segments: self.segments@,
            children: Seq::new(
                self.children@.len(),
                |i: int|
                    if 0 <= i < self.children@.len() {
                        self.children@[i].view()
                    } else {
                        arbitrary()
                    },
            ),
        }
    }
}

/// A node of the tree in memory.
#[derive(Debug)]
pub struct Layout {
    pub encoding_id: String,
    pub dtype: Arc<DType>,
    pub row_count: u64,
    pub metadata: Vec<u8>,
    pub segment_ids: Vec<u32>,
    pub children: Vec<Layout>,
}

/// What a `Layout` is.
pub struct LayoutView {
    pub encoding_id: Seq<char>,
    pub dtype: Arc<DType>,
    pub row_count: u64,
    pub metadata: Seq<u8>,
    pub segment_ids: Seq<u32>,
    pub children: Seq<LayoutView>,
}

impl Layout {
    /// The node with all below it.
    pub open spec fn view(&self) -> LayoutView
        decreases self,
    {
        LayoutView {
            encoding_id: self.encoding_id@,
            dtype: self.dtype,
            row_count: self.row_count,
            metadata: self.metadata@,
            segment_ids: self.segment_ids@,
            children: Seq::new(
                self.children@.len(),
                |i: int|
                    if 0 <= i < self.children@.len() {
                        self.children@[i].view()
                    } else {
                        arbitrary()
                    },
            ),
        }
    }
}

/// What a stored tree takes once it is in memory: the fixed part per node, and its metadata and its
/// list of segments.
pub open spec fn tree_size(t: StoredLayoutView) -> nat
    decreases t,
{
    APPROX_LAYOUT_NODE_BYTES as nat + t.metadata.len() + t.segments.len() * SEGMENT_ID_BYTES as nat
        + sizes(t.children)
}

/// What stored trees take together.
pub open spec fn sizes(ts: Seq<StoredLayoutView>) -> nat
    decreases ts,
{
    if ts.len() == 0 {
        0
    } else {
        sizes(ts.drop_last()) + tree_size(ts[ts.len() - 1])
    }
}

proof fn lemma_sizes_grow(ts: Seq<StoredLayoutView>, n: int)
    requires
        0 <= n <= ts.len(),
    ensures
        sizes(ts.take(n)) <= sizes(ts),
    decreases ts.len() - n,
{
    if n < ts.len() {
        lemma_sizes_grow(ts, n + 1);
        assert(ts.take(n + 1).drop_last() =~= ts.take(n));
    } else {
        assert(ts.take(n) =~= ts);
    }
}

/// Returns what a stored tree takes once it is in memory, without building it.
pub fn approx_serialized_tree_size(t: &StoredLayout) -> (r: usize)
    requires
        tree_size(t@) <= usize::MAX,
    ensures
        r == tree_size(t@),
    decreases t,
{
    let mut size: usize = 0;
    let mut i: usize = 0;
    assert(t@.children.take(0) =~= Seq::empty());
    while i < t.children.len()
        invariant
            0 <= i <= t.children.len(),
            tree_size(t@) <= usize::MAX,
            size == sizes(t@.children.take(i as int)),
        decreases t.children.len() - i,
    {
        proof {
            assert(decreases_to!(*t => t.children));
            assert(decreases_to!(t.children@ => t.children@[i as int]));
            let next = t@.children.take(i + 1);
            assert(next.drop_last() =~= t@.children.take(i as int));
            assert(next[i as int] == t.children@[i as int]@);
            lemma_sizes_grow(t@.children, i + 1);
        }
        size = size + approx_serialized_tree_size(&t.children[i]);
        i += 1;
    }
    assert(t@.children.take(i as int) =~= t@.children);
    APPROX_LAYOUT_NODE_BYTES + t.metadata.len() + t.segments.len() * SEGMENT_ID_BYTES + size
}

/// The number of nodes of a tree.
pub open spec fn node_count(t: LayoutView) -> nat
    decreases t,
{
    1 + node_counts(t.children)
}

/// The number of nodes of trees together.
pub open spec fn node_counts(ts: Seq<LayoutView>) -> nat
    decreases ts,
{
    if ts.len() == 0 {
        0
    } else {
        node_counts(ts.drop_last()) + node_count(ts[ts.len() - 1])
    }
}

proof fn lemma_node_counts_grow(ts: Seq<LayoutView>, n: int)
    requires
        0 <= n <= ts.len(),
    ensures
        node_counts(ts.take(n)) <= node_counts(ts),
    decreases ts.len() - n,
{
    if n < ts.len() {
        lemma_node_counts_grow(ts, n + 1);
        assert(ts.take(n + 1).drop_last() =~= ts.take(n));
    } else {
        assert(ts.take(n) =~= ts);
    }
}

fn count_nodes(t: &Layout) -> (r: usize)
    requires
        node_count(t@) <= usize::MAX,
    ensures
        r == node_count(t@),
    decreases t,
{
    let mut count: usize = 0;
    let mut i: usize = 0;
    assert(t@.children.take(0) =~= Seq::empty());
    while i < t.children.len()
        invariant
            0 <= i <= t.children.len(),
            node_count(t@) <= usize::MAX,
            count == node_counts(t@.children.take(i as int)),
        decreases t.children.len() - i,
    {
        proof {
            assert(decreases_to!(*t => t.children));
            assert(decreases_to!(t.children@ => t.children@[i as int]));
            let next = t@.children.take(i + 1);
            assert(next.drop_last() =~= t@.children.take(i as int));
            assert(next[i as int] == t.children@[i as int]@);
            lemma_node_counts_grow(t@.children, i + 1);
        }
        count = count + count_nodes(&t.children[i]);
        i += 1;
    }
    assert(t@.children.take(i as int) =~= t@.children);
    1 + count
}

/// Returns what a tree takes that is in memory already: the fixed part per node. Metadata and
/// segments are left out, so it is less than what the stored tree is taken to need.
pub fn approx_materialised_tree_size(t: &Layout) -> (r: usize)
    requires
        node_count(t@) * APPROX_LAYOUT_NODE_BYTES <= usize::MAX,
    ensures
        r == node_count(t@) * APPROX_LAYOUT_NODE_BYTES,
{
    assert(node_count(t@) <= usize::MAX);
    count_nodes(t) * APPROX_LAYOUT_NODE_BYTES
}

/// Why a stored tree is no tree of layouts, or a tree is not stored.
#[derive(Debug)]
pub enum LayoutError {
    /// There is no encoding under the number, or none that is known.
    InvalidEncodingId(u16),
    /// There is no number left for the id of an encoding.
    NotInterned(String),
}

/// What ids are.
pub open spec fn ids_view(ids: Seq<String>) -> Seq<Seq<char>> {
    Seq::new(ids.len(), |i: int| ids[i]@)
}

/// The first number of an encoding, from the root down and from left to right, for which there is
/// no id.
pub open spec fn first_invalid(t: StoredLayoutView, ids: Seq<Seq<char>>) -> Option<u16>
    decreases t,
{
    if t.encoding >= ids.len() {
        Some(t.encoding)
    } else {
        first_invalid_of(t.children, ids)
    }
}

/// The first such number in trees.
pub open spec fn first_invalid_of(ts: Seq<StoredLayoutView>, ids: Seq<Seq<char>>) -> Option<u16>
    decreases ts,
{
    if ts.len() == 0 {
        None
    } else {
        match first_invalid_of(ts.drop_last(), ids) {
            Some(e) => Some(e),
            None => first_invalid(ts[ts.len() - 1], ids),
        }
    }
}

/// A stored tree in memory, of one type throughout.
pub open spec fn loaded(t: StoredLayoutView, dtype: Arc<DType>, ids: Seq<Seq<char>>) -> LayoutView
    decreases t,
{
    LayoutView {
        encoding_id: ids[t.encoding as int],
        dtype,
        row_count: t.row_count,
        metadata: t.metadata,
        segment_ids: t.segments,
        children: loaded_all(t.children, dtype, ids),
    }
}

/// Stored trees in memory.
pub open spec fn loaded_all(
    ts: Seq<StoredLayoutView>,
    dtype: Arc<DType>,
    ids: Seq<Seq<char>>,
) -> Seq<LayoutView>
    decreases ts,
{
    Seq::new(
        ts.len(),
        |i: int|
            if 0 <= i < ts.len() {
                loaded(ts[i], dtype, ids)
            } else {
                arbitrary()
            },
    )
}

pub fn copy_numbers(numbers: &Vec<u32>) -> (r: Vec<u32>)
    ensures
        r@ == numbers@,
{
    let mut copy: Vec<u32> = Vec::new();
    let mut i: usize = 0;
    while i < numbers.len()
        invariant
            0 <= i <= numbers.len(),
            copy@ =~= numbers@.take(i as int),
        decreases numbers.len() - i,
    {
        copy.push(numbers[i]);
        i += 1;
    }
    assert(copy@ =~= numbers@);
    copy
}

proof fn lemma_first_invalid_stays(ts: Seq<StoredLayoutView>, ids: Seq<Seq<char>>, n: int)
    requires
        0 <= n <= ts.len(),
        first_invalid_of(ts.take(n), ids) is Some,
    ensures
        first_invalid_of(ts, ids) == first_invalid_of(ts.take(n), ids),
    decreases ts.len() - n,
{
    if n < ts.len() {
        assert(ts.take(n + 1).drop_last() =~= ts.take(n));
        lemma_first_invalid_stays(ts, ids, n + 1);
    } else {
        assert(ts.take(n) =~= ts);
    }
}

/// Returns a stored tree in memory whose encodings need not be known. Each node has the type of the
/// root.
pub fn foreign_layout_from_fb(
    t: &StoredLayout,
    dtype: &Arc<DType>,
    layout_ctx: &Vec<String>,
) -> (r: Result<Layout, LayoutError>)
    ensures
        match first_invalid(t@, ids_view(layout_ctx@)) {
            Some(e) => r matches Err(LayoutError::InvalidEncodingId(x)) && x == e,
            None => r matches Ok(l) && l@ == loaded(t@, *dtype, ids_view(layout_ctx@)),
        },
    decreases t,
{
    let ghost ids = ids_view(layout_ctx@);
    if t.encoding as usize >= layout_ctx.len() {
        return Err(LayoutError::InvalidEncodingId(t.encoding));
    }
    let mut children: Vec<Layout> = Vec::new();
    let mut i: usize = 0;
    assert(t@.children.take(0) =~= Seq::empty());
    while i < t.children.len()
        invariant
            0 <= i <= t.children.len(),
            ids == ids_view(layout_ctx@),
            t.encoding < ids.len(),
            first_invalid_of(t@.children.take(i as int), ids) is None,
            children@.len() == i,
            forall|j: int|
                0 <= j < i ==> (#[trigger] children@[j])@ == loaded(t@.children[j], *dtype, ids),
        decreases t.children.len() - i,
    {
        proof {
            assert(decreases_to!(*t => t.children));
            assert(decreases_to!(t.children@ => t.children@[i as int]));
            let next = t@.children.take(i + 1);
            assert(next.drop_last() =~= t@.children.take(i as int));
            assert(next[i as int] == t.children@[i as int]@);
        }
        match foreign_layout_from_fb(&t.children[i], dtype, layout_ctx) {
            Ok(child) => {
                children.push(child);
            },
            Err(e) => {
                proof {
                    lemma_first_invalid_stays(t@.children, ids, i + 1);
                }
                return Err(e);
            },
        }
        i += 1;
    }
    assert(t@.children.take(i as int) =~= t@.children);
    let r = Layout {
        encoding_id: layout_ctx[t.encoding as usize].clone(),
        dtype: Arc::clone(dtype),
        row_count: t.row_count,
        metadata: bytes_copy(&t.metadata),
        segment_ids: copy_numbers(&t.segments),
        children,
    };
    assert(r@.children =~= loaded_all(t@.children, *dtype, ids));
    Ok(r)
}

/// What a stored tree turns out to be.
#[derive(Debug)]
pub enum ResolvedLayout {
    /// The encoding of the root is known: it builds the layout, from what is stored.
    Encoded(String),
    /// The encoding of the root is not known, and the tree is kept as it is.
    Foreign(Layout),
}

/// Returns whether one of the texts is this one.
fn has_text(texts: &Vec<String>, text: &str) -> (r: bool)
    ensures
        r == ids_view(texts@).contains(text@),
{
    let ghost view = ids_view(texts@);
    let wanted: String = text.to_owned();
    let mut i: usize = 0;
    while i < texts.len()
        invariant
            0 <= i <= texts.len(),
            view == ids_view(texts@),
            wanted@ == text@,
            forall|j: int| 0 <= j < i ==> #[trigger] view[j] != text@,
        decreases texts.len() - i,
    {
        if texts[i] == wanted {
            assert(view[i as int] == text@);
            return true;
        }
        i += 1;
    }
    false
}

/// Returns what a stored tree is, of which the encoding of the root has to be known.
pub fn layout_from_flatbuffer(
    t: &StoredLayout,
    dtype: &Arc<DType>,
    layout_ctx: &Vec<String>,
    registry: &Vec<String>,
) -> (r: Result<ResolvedLayout, LayoutError>)
    requires
        tree_size(t@) <= usize::MAX,
    ensures
        r is Ok <==> t.encoding < layout_ctx@.len() && ids_view(registry@).contains(
            layout_ctx@[t.encoding as int]@,
        ),
        r matches Ok(l) ==> l is Encoded && l->Encoded_0@ == layout_ctx@[t.encoding as int]@,
        r matches Err(e) ==> (e matches LayoutError::InvalidEncodingId(x) && x == t.encoding),
{
    match layout_from_flatbuffer_with_options(t, dtype, layout_ctx, registry, false) {
        Ok((layout, _)) => Ok(layout),
        Err(e) => Err(e),
    }
}

/// Returns what a stored tree is, with what it takes once it is in memory. Where `allow_unknown` is
/// set, a tree is kept as it is if the encoding of its root is not known.
pub fn layout_from_flatbuffer_with_options(
    t: &StoredLayout,
    dtype: &Arc<DType>,
    layout_ctx: &Vec<String>,
    registry: &Vec<String>,
    allow_unknown: bool,
) -> (r: Result<(ResolvedLayout, usize), LayoutError>)
    requires
        tree_size(t@) <= usize::MAX,
    ensures
        ({
            let ids = ids_view(layout_ctx@);
            if t.encoding >= ids.len() {
                r matches Err(LayoutError::InvalidEncodingId(x)) && x == t.encoding
            } else if ids_view(registry@).contains(ids[t.encoding as int]) {
                r matches Ok((ResolvedLayout::Encoded(id), size)) && id@ == ids[t.encoding as int]
                    && size == tree_size(t@)
            } else if !allow_unknown {
                r matches Err(LayoutError::InvalidEncodingId(x)) && x == t.encoding
            } else {
                match first_invalid(t@, ids) {
                    Some(e) => r matches Err(LayoutError::InvalidEncodingId(x)) && x == e,
                    None => r matches Ok((ResolvedLayout::Foreign(l), size)) && l@ == loaded(
                        t@,
                        *dtype,
                        ids,
                    ) && size == tree_size(t@),
                }
            }
        }),
{
    let size: usize = approx_serialized_tree_size(t);
    if t.encoding as usize >= layout_ctx.len() {
        return Err(LayoutError::InvalidEncodingId(t.encoding));
    }
    let id = &layout_ctx[t.encoding as usize];
    if has_text(registry, id.as_str()) {
        return Ok((ResolvedLayout::Encoded(id.clone()), size));
    }
    if !allow_unknown {
        return Err(LayoutError::InvalidEncodingId(t.encoding));
    }
    match foreign_layout_from_fb(t, dtype, layout_ctx) {
        Ok(layout) => Ok((ResolvedLayout::Foreign(layout), size)),
        Err(e) => Err(e),
    }
}

/// What a stored tree is taken to need covers what the tree in memory is taken to need: the same
/// for each node, and the metadata and the segments on top.
pub proof fn law_the_stored_size_covers_the_tree(
    t: StoredLayoutView,
    dtype: Arc<DType>,
    ids: Seq<Seq<char>>,
)
    ensures
        tree_size(t) >= node_count(loaded(t, dtype, ids)) * APPROX_LAYOUT_NODE_BYTES,
    decreases t,
{
    lemma_stored_sizes_cover(t.children, dtype, ids);
    let n = node_counts(loaded_all(t.children, dtype, ids));
    assert((1 + n) * APPROX_LAYOUT_NODE_BYTES == APPROX_LAYOUT_NODE_BYTES + n
        * APPROX_LAYOUT_NODE_BYTES) by (nonlinear_arith);
}

proof fn lemma_stored_sizes_cover(
    ts: Seq<StoredLayoutView>,
    dtype: Arc<DType>,
    ids: Seq<Seq<char>>,
)
    ensures
        sizes(ts) >= node_counts(loaded_all(ts, dtype, ids)) * APPROX_LAYOUT_NODE_BYTES,
    decreases ts,
{
    let all = loaded_all(ts, dtype, ids);
    if ts.len() > 0 {
        lemma_stored_sizes_cover(ts.drop_last(), dtype, ids);
        law_the_stored_size_covers_the_tree(ts[ts.len() - 1], dtype, ids);
        let before = loaded_all(ts.drop_last(), dtype, ids);
        assert(all.drop_last() =~= before);
        let (a, b) = (node_counts(before), node_count(all[all.len() - 1]));
        assert((a + b) * APPROX_LAYOUT_NODE_BYTES == a * APPROX_LAYOUT_NODE_BYTES + b
            * APPROX_LAYOUT_NODE_BYTES) by (nonlinear_arith);
    } else {
        assert(all =~= Seq::empty());
    }
}

/// A setting that is a number is taken, and any other leaves the number that stands for none.
pub proof fn law_a_setting_is_taken_if_it_is_a_number(
    setting: Option<Seq<char>>,
    n: usize,
    otherwise: usize,
)
    ensures
        setting_or(Some(decimal(n as nat)), otherwise) == n,
        setting is None || parsed_usize(setting->Some_0) is None ==> setting_or(setting, otherwise)
            == otherwise,
{
    law_a_written_number_is_parsed_back(n);
}

/// Each node of a stored tree takes its fixed part, its metadata, and four bytes for each segment; a
/// tree takes what its root takes without the trees below it, and what these take.
pub proof fn law_a_tree_takes_what_its_nodes_take(t: StoredLayoutView, child: StoredLayoutView)
    ensures
        t.children.len() == 0 ==> tree_size(t) == 480 + t.metadata.len() + 4 * t.segments.len(),
        tree_size(StoredLayoutView { children: t.children.push(child), ..t }) == tree_size(t)
            + tree_size(child),
{
    let more = t.children.push(child);
    assert(more.drop_last() =~= t.children);
    assert(more[more.len() - 1] == child);
}

/// A tree has one node more than the trees below its root have together.
pub proof fn law_nodes_are_counted_once(t: LayoutView, child: LayoutView)
    ensures
        t.children.len() == 0 ==> node_count(t) == 1,
        node_count(LayoutView { children: t.children.push(child), ..t }) == node_count(t)
            + node_count(child),
{
    let more = t.children.push(child);
    assert(more.drop_last() =~= t.children);
    assert(more[more.len() - 1] == child);
}

/// Whether some node of a stored tree has the encoding of this number.
pub open spec fn has_encoding(t: StoredLayoutView, encoding: u16) -> bool
    decreases t,
{
    ||| t.encoding == encoding
    ||| exists|i: int| 0 <= i < t.children.len() && has_encoding(#[trigger] t.children[i], encoding)
}

proof fn lemma_first_invalid_of(ts: Seq<StoredLayoutView>, ids: Seq<Seq<char>>)
    ensures
        match first_invalid_of(ts, ids) {
            Some(e) => exists|i: int|
                0 <= i < ts.len() && first_invalid(#[trigger] ts[i], ids) == Some(e) && (forall|
                    j: int,
                |
                    0 <= j < i ==> first_invalid(#[trigger] ts[j], ids) is None),
            None => forall|i: int| 0 <= i < ts.len() ==> first_invalid(#[trigger] ts[i], ids) is None,
        },
    decreases ts.len(),
{
    if ts.len() > 0 {
        let before = ts.drop_last();
        lemma_first_invalid_of(before, ids);
        match first_invalid_of(before, ids) {
            Some(e) => {
                let i = choose|i: int|
                    0 <= i < before.len() && first_invalid(#[trigger] before[i], ids) == Some(e) && (
                    forall|j: int|
                        0 <= j < i ==> first_invalid(#[trigger] before[j], ids) is None);
                assert(ts[i] == before[i]);
                assert forall|j: int| 0 <= j < i implies first_invalid(
                    #[trigger] ts[j],
                    ids,
                ) is None by {
                    assert(ts[j] == before[j]);
                }
            },
            None => {
                assert forall|j: int| 0 <= j < before.len() implies first_invalid(
                    #[trigger] ts[j],
                    ids,
                ) is None by {
                    assert(ts[j] == before[j]);
                }
                assert(ts[ts.len() - 1] == ts.last());
            },
        }
    }
}

/// A stored tree is refused exactly if some node of it has an encoding without an id, and what it is
/// refused for is such an encoding: that of the root, or what the first tree below it is refused for
/// that is refused.
pub proof fn law_a_tree_is_refused_for_an_encoding_without_an_id(
    t: StoredLayoutView,
    ids: Seq<Seq<char>>,
)
    ensures
        match first_invalid(t, ids) {
            Some(e) => has_encoding(t, e) && e >= ids.len(),
            None => forall|e: u16| #[trigger] has_encoding(t, e) ==> e < ids.len(),
        },
        t.encoding >= ids.len() ==> first_invalid(t, ids) == Some(t.encoding),
        t.encoding < ids.len() && first_invalid(t, ids) is Some ==> exists|i: int|
            0 <= i < t.children.len() && first_invalid(#[trigger] t.children[i], ids)
                == first_invalid(t, ids) && (forall|j: int|
                0 <= j < i ==> first_invalid(#[trigger] t.children[j], ids) is None),
    decreases t,
{
    if t.encoding < ids.len() {
        lemma_first_invalid_of(t.children, ids);
        match first_invalid(t, ids) {
            Some(e) => {
                let i = choose|i: int|
                    0 <= i < t.children.len() && first_invalid(#[trigger] t.children[i], ids)
                        == Some(e) && (forall|j: int|
                        0 <= j < i ==> first_invalid(#[trigger] t.children[j], ids) is None);
                law_a_tree_is_refused_for_an_encoding_without_an_id(t.children[i], ids);
            },
            None => {
                assert forall|e: u16| #[trigger] has_encoding(t, e) implies e < ids.len() by {
                    if t.encoding != e {
                        let i = choose|i: int|
                            0 <= i < t.children.len() && has_encoding(#[trigger] t.children[i], e);
                        assert(first_invalid(t.children[i], ids) is None);
                        law_a_tree_is_refused_for_an_encoding_without_an_id(t.children[i], ids);
                    }
                }
            },
        }
    }
}

/// A tree in memory has the nodes of the stored tree, in their places: each with the id of its
/// encoding, and with its rows, its metadata and its segments.
pub proof fn law_a_tree_is_loaded_node_by_node(
    t: StoredLayoutView,
    dtype: Arc<DType>,
    ids: Seq<Seq<char>>,
    i: int,
)
    requires
        0 <= i < t.children.len(),
    ensures
        ({
            let l = loaded(t, dtype, ids);
            &&& l.encoding_id == ids[t.encoding as int]
            &&& l.row_count == t.row_count && l.metadata == t.metadata && l.segment_ids == t.segments
            &&& l.dtype == dtype
            &&& l.children.len() == t.children.len()
            &&& l.children[i] == loaded(t.children[i], dtype, ids)
        }),
{
}

} // verus!
