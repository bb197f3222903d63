//! The tree of layouts, the footer and the cache of segments.

use std::sync::Arc;

use vortex_core::dtype::{DType, Nullability, PType};
use vortex_core::layout::footer::{
    is_ordered, FileStatistics, Footer, FooterError, SegmentSpec, StoredFooter, BUFFER_ALLOC_SLACK,
    ENCODING_ID_BYTES, SEGMENT_SPEC_BYTES,
};
use vortex_core::layout::reader_context::LayoutReaderContext;
use vortex_core::layout::segment_cache::{
    after_lookup, charged_bytes, compact, to_store, weigh, Admission, AfterLookup, BufferHandle,
    ByteBuffer, CacheCounters, NoOpSegmentCache, ENTRY_OVERHEAD,
};
use vortex_core::layout::tree::{
    approx_materialised_tree_size, approx_serialized_tree_size, foreign_layout_from_fb,
    layout_from_flatbuffer, layout_from_flatbuffer_with_options, Layout, LayoutError,
    ResolvedLayout, StoredLayout, TreeLimits, APPROX_LAYOUT_NODE_BYTES, SEGMENT_ID_BYTES,
};
use vortex_core::layout::tree_writer::{write_flatbuffer, LayoutContext, MAX_IDS};

const PARENT: &str = "vortex.test.foreign_layout";
const CHILD: &str = "vortex.test.foreign_child_layout";

fn stored_tree() -> StoredLayout {
    StoredLayout {
        encoding: 0,
        row_count: 10,
        metadata: vec![1, 2, 3],
        segments: vec![7],
        children: vec![StoredLayout {
            encoding: 1,
            row_count: 3,
            metadata: vec![9],
            segments: vec![],
            children: vec![],
        }],
    }
}

fn strings(texts: &[&str]) -> Vec<String> {
    texts.iter().map(|t| t.to_string()).collect()
}

fn any_dtype() -> Arc<DType> {
    Arc::new(DType::Primitive(PType::I32, Nullability::Nullable))
}

#[test]
fn unknown_layout_encoding_allow_unknown() {
    let (resolved, approx_tree_size) = layout_from_flatbuffer_with_options(
        &stored_tree(),
        &any_dtype(),
        &strings(&[PARENT, CHILD]),
        &vec![],
        true,
    )
    .unwrap();

    // Two nodes at the flat per-node cost, plus each node's metadata (3 bytes at the root,
    // 1 at the child) and the root's single segment id.
    assert_eq!(
        approx_tree_size,
        2 * APPROX_LAYOUT_NODE_BYTES + 3 + 1 + SEGMENT_ID_BYTES,
    );
    let layout = match resolved {
        ResolvedLayout::Foreign(layout) => layout,
        other => panic!("a known encoding: {other:?}"),
    };
    assert_eq!(layout.encoding_id, "vortex.test.foreign_layout");
    assert_eq!(layout.row_count, 10);
    assert_eq!(layout.metadata, vec![1, 2, 3]);
    assert_eq!(layout.segment_ids.len(), 1);
    assert_eq!(layout.segment_ids[0], 7);
    assert_eq!(layout.children.len(), 1);

    let child = &layout.children[0];
    assert_eq!(child.encoding_id, "vortex.test.foreign_child_layout");
    assert_eq!(child.metadata, vec![9]);
    // What the tree takes is covered by what was counted.
    assert!(approx_materialised_tree_size(&layout) <= approx_tree_size);
    assert_eq!(approx_serialized_tree_size(&stored_tree()), approx_tree_size);
}

#[test]
fn an_unknown_encoding_is_refused_or_resolved() {
    let ids = strings(&[PARENT, CHILD]);
    let dtype = any_dtype();
    let tree = stored_tree();
    assert!(matches!(
        layout_from_flatbuffer_with_options(&tree, &dtype, &ids, &vec![], false),
        Err(LayoutError::InvalidEncodingId(0))
    ));
    assert!(matches!(
        layout_from_flatbuffer(&tree, &dtype, &ids, &vec![]),
        Err(LayoutError::InvalidEncodingId(0))
    ));
    // The encoding of the root decides, and it builds what is below.
    match layout_from_flatbuffer(&tree, &dtype, &ids, &strings(&[PARENT])) {
        Ok(ResolvedLayout::Encoded(id)) => assert_eq!(id, PARENT),
        other => panic!("not resolved: {other:?}"),
    }
    // There is no id for the child.
    assert!(matches!(
        foreign_layout_from_fb(&tree, &dtype, &strings(&[PARENT])),
        Err(LayoutError::InvalidEncodingId(1))
    ));
    assert!(matches!(
        layout_from_flatbuffer(&tree, &dtype, &vec![], &strings(&[PARENT])),
        Err(LayoutError::InvalidEncodingId(0))
    ));
}

fn leaf(id: &str, rows: u64) -> Layout {
    Layout {
        encoding_id: id.to_string(),
        dtype: any_dtype(),
        row_count: rows,
        metadata: vec![rows as u8],
        segment_ids: vec![rows as u32],
        children: vec![],
    }
}

#[test]
fn a_tree_is_read_back_as_it_was_written() {
    let mut root = leaf("b", 5);
    root.children = vec![leaf("a", 2), leaf("b", 3)];
    let mut ctx = LayoutContext::new();
    let stored = write_flatbuffer(&root, &mut ctx).unwrap();
    let ids = ctx.into_ids();
    assert_eq!(ids.len(), 2);
    let back = foreign_layout_from_fb(&stored, &any_dtype(), &ids).unwrap();
    assert_eq!(back.encoding_id, "b");
    assert_eq!(back.row_count, 5);
    let children: Vec<(&str, u64, Vec<u8>)> = back
        .children
        .iter()
        .map(|c| (c.encoding_id.as_str(), c.row_count, c.metadata.clone()))
        .collect();
    assert_eq!(children, vec![("a", 2, vec![2]), ("b", 3, vec![3])]);
    assert_eq!(back.children[1].segment_ids, vec![3]);
}

#[test]
fn an_id_keeps_its_number() {
    let mut ctx = LayoutContext::new();
    assert_eq!(ctx.intern("first"), Some(0));
    assert_eq!(ctx.intern("second"), Some(1));
    assert_eq!(ctx.intern("first"), Some(0));
}

#[test]
fn an_id_that_has_no_number_left_is_refused() {
    let mut ctx = LayoutContext::new();
    for i in 0..MAX_IDS {
        assert_eq!(ctx.intern(&i.to_string()), Some(i as u16));
    }
    assert_eq!(ctx.intern("one more"), None);
    assert_eq!(ctx.intern("7"), Some(7));
    let mut root = leaf("8", 5);
    root.children = vec![leaf("6", 2), leaf("one more", 3)];
    match write_flatbuffer(&root, &mut ctx) {
        Err(LayoutError::NotInterned(id)) => assert_eq!(id, "one more"),
        other => panic!("written: {other:?}"),
    }
    assert_eq!(ctx.into_ids().len(), MAX_IDS);
}

#[test]
fn settings_bound_a_stored_tree() {
    let limits = TreeLimits::from_settings(&None, &None);
    assert_eq!((limits.max_tables, limits.max_depth), (1_000_000, 64));
    let limits = TreeLimits::from_settings(&Some("12".into()), &Some("+7".into()));
    assert_eq!((limits.max_tables, limits.max_depth), (12, 7));
    let limits = TreeLimits::from_settings(&Some("many".into()), &Some("-1".into()));
    assert_eq!((limits.max_tables, limits.max_depth), (1_000_000, 64));
    let limits = TreeLimits::from_settings(&Some("".into()), &Some("99999999999999999999".into()));
    assert_eq!((limits.max_tables, limits.max_depth), (1_000_000, 64));
}

fn segment(offset: u64, length: u32) -> SegmentSpec {
    SegmentSpec {
        offset,
        length,
        alignment: 64,
    }
}

fn stored_footer(segments: Option<Vec<SegmentSpec>>, dtype_len: usize) -> StoredFooter {
    StoredFooter {
        layout_specs: strings(&[PARENT, CHILD]),
        array_specs: strings(&["vortex.primitive", "vortex.bool", "vortex.dict"]),
        segment_specs: segments,
        footer_len: 100,
        layout_len: 40,
        dtype_len,
    }
}

fn build_root(id: &String, stored: &StoredLayout) -> Result<Layout, String> {
    if stored.row_count == 0 {
        Err(format!("{id} without rows"))
    } else {
        Ok(leaf(id, stored.row_count))
    }
}

#[test]
fn the_size_of_a_footer_counts_all_that_it_keeps() {
    let footer = Footer::from_flatbuffer(
        stored_footer(Some(vec![segment(0, 4), segment(4, 0), segment(4, 8)]), 30),
        &stored_tree(),
        &any_dtype(),
        77,
        Some(FileStatistics { heap_size: 1000 }),
        &vec![],
        true,
        build_root,
    )
    .unwrap();
    let tree = 2 * APPROX_LAYOUT_NODE_BYTES + 3 + 1 + SEGMENT_ID_BYTES;
    assert_eq!(
        footer.approx_byte_size(),
        Some(
            100 + 40
                + 30
                + 3 * BUFFER_ALLOC_SLACK
                + tree
                + 77
                + 1000
                + 3 * SEGMENT_SPEC_BYTES
                + 3 * ENCODING_ID_BYTES
        )
    );
    assert_eq!(footer.row_count(), 10);
    assert_eq!(footer.layout().encoding_id, PARENT);
    assert_eq!(footer.segment_map().len(), 3);
    assert_eq!(footer.statistics().unwrap().heap_size, 1000);
    assert!(footer.dtype().equals(&any_dtype()));
}

#[test]
fn a_segment_takes_what_is_counted_for_it() {
    assert_eq!(std::mem::size_of::<SegmentSpec>(), SEGMENT_SPEC_BYTES);
}

#[test]
fn a_footer_without_a_type_has_one_part_less() {
    let read = |dtype_len: usize| {
        Footer::from_flatbuffer(
            stored_footer(Some(vec![]), dtype_len),
            &stored_tree(),
            &any_dtype(),
            0,
            None,
            &strings(&[PARENT]),
            false,
            build_root,
        )
        .unwrap()
        .approx_byte_size()
        .unwrap()
    };
    assert_eq!(read(1), read(0) + 1 + BUFFER_ALLOC_SLACK);
    let footer = Footer::new(Arc::new(leaf("x", 4)), Arc::new(vec![]), None, vec![]);
    assert_eq!(footer.approx_byte_size(), None);
    let footer = footer.with_approx_byte_size(9);
    assert_eq!(footer.approx_byte_size(), Some(9));
    let footer = footer.with_approx_retained_size(1, 2, 3);
    assert_eq!(footer.approx_byte_size(), Some(6));
}

#[test]
fn a_footer_that_is_none_is_refused() {
    let read = |segments: Option<Vec<SegmentSpec>>, registry: &[&str], rows: u64| {
        let mut tree = stored_tree();
        tree.row_count = rows;
        Footer::from_flatbuffer(
            stored_footer(segments, 0),
            &tree,
            &any_dtype(),
            0,
            None,
            &strings(registry),
            false,
            build_root,
        )
    };
    assert!(matches!(
        read(Some(vec![]), &[], 10),
        Err(FooterError::Layout(LayoutError::InvalidEncodingId(0)))
    ));
    match read(Some(vec![]), &[PARENT], 0) {
        Err(FooterError::Build(e)) => assert_eq!(e, format!("{PARENT} without rows")),
        other => panic!("built: {other:?}"),
    }
    assert!(matches!(
        read(None, &[PARENT], 10),
        Err(FooterError::MissingSegmentSpecs)
    ));
    assert!(matches!(
        read(Some(vec![segment(4, 4), segment(0, 4)]), &[PARENT], 10),
        Err(FooterError::UnorderedSegments)
    ));
    assert!(read(Some(vec![segment(4, 0), segment(4, 4)]), &[PARENT], 10).is_ok());
    assert!(is_ordered(&vec![]));
}

#[test]
fn the_nearest_published_value_is_found() {
    let root: LayoutReaderContext<u64, &str> = LayoutReaderContext::new();
    let above = root.with("zone", Arc::new(1)).with("dict", Arc::new(2));
    let below = above.with("zone", Arc::new(3));
    let even = |v: Arc<u64>| if *v % 2 == 0 { Some(*v) } else { None };
    let any = |v: Arc<u64>| Some(*v);
    assert_eq!(below.get("zone", any), Some(3));
    assert_eq!(below.get("dict", any), Some(2));
    assert_eq!(above.get("zone", any), Some(1));
    assert_eq!(root.get("zone", any), None);
    // A value of another type is not found.
    assert_eq!(below.get("zone", even), None);
    assert_eq!(below.get("dict", even), Some(2));
    assert!(below.decoded_segment_cache().is_none());
    let cached = below.with_decoded_segment_cache(Arc::new("cache"));
    assert_eq!(*cached.decoded_segment_cache().unwrap(), "cache");
    assert_eq!(*cached.with("x", Arc::new(0)).decoded_segment_cache().unwrap(), "cache");
    assert_eq!(cached.get("zone", any), Some(3));
}

fn bytes_of(buffer: &ByteBuffer) -> Vec<u8> {
    (0..buffer.len()).map(|i| buffer.at(i)).collect()
}

#[test]
fn a_cache_keeps_what_it_charges_for() {
    let window = ByteBuffer::new((0..100).collect(), 64);
    let slice = window.slice(10, 14);
    assert_eq!(bytes_of(&slice), vec![10, 11, 12, 13]);
    assert_eq!(slice.retained(), 100);
    assert_eq!(charged_bytes(&slice), 4 + 64 + ENTRY_OVERHEAD);
    assert_eq!(weigh(&slice), (4 + 64 + ENTRY_OVERHEAD) as u32);
    let kept = Admission::new().take_in(slice.share());
    assert_eq!(bytes_of(&kept), vec![10, 11, 12, 13]);
    assert_eq!(kept.retained(), 4 + 64);
    assert_eq!(kept.alignment(), 64);
    assert_eq!(kept.retained() + ENTRY_OVERHEAD, charged_bytes(&kept));
    let shared = Admission::new_sharing_windows().take_in(slice.share());
    assert_eq!(bytes_of(&shared), vec![10, 11, 12, 13]);
    assert_eq!(shared.retained(), 100);
    assert_eq!(compact(&window).len(), 100);
    let empty = compact(&ByteBuffer::new(vec![], 1));
    assert_eq!((empty.len(), empty.retained()), (0, 1));
}

#[test]
fn answers_of_a_cache_are_counted() {
    let mut counters = CacheCounters::new();
    let hit: Result<Option<ByteBuffer>, &str> = Ok(Some(ByteBuffer::new(vec![1], 1)));
    let miss: Result<Option<ByteBuffer>, &str> = Ok(None);
    let failure: Result<Option<ByteBuffer>, &str> = Err("broken");
    counters.looked_up(&hit);
    counters.looked_up(&miss);
    counters.looked_up(&miss);
    counters.looked_up(&failure);
    counters.stored::<&str>(&Ok(()));
    counters.stored(&Err("broken"));
    assert_eq!((counters.hits, counters.misses, counters.stores), (1, 2, 1));
    match after_lookup(hit) {
        AfterLookup::Return(BufferHandle::Host(buffer)) => assert_eq!(bytes_of(&buffer), vec![1]),
        other => panic!("read again: {other:?}"),
    }
    assert!(matches!(after_lookup(miss), AfterLookup::Read));
    assert!(matches!(after_lookup(failure), AfterLookup::Read));
    let stored = to_store(&BufferHandle::Host(ByteBuffer::new(vec![4, 5], 2))).unwrap();
    assert_eq!(bytes_of(&stored), vec![4, 5]);
    assert!(to_store(&BufferHandle::Device(3)).is_none());
}

#[test]
fn a_cache_that_keeps_nothing_finds_nothing() {
    let cache = NoOpSegmentCache;
    cache.put(1, ByteBuffer::new(vec![1], 1));
    assert!(cache.get(1).is_none());
}
