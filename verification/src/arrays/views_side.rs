//! The bytes behind the views of an array of strings.

use vstd::prelude::*;
use vstd::slice::*;

verus! {

/// The longest string that a view holds itself.
pub const MAX_INLINED_SIZE: usize = 12;

/// One string of an array: the bytes themselves where there are few, else where they lie.
#[derive(Debug)]
pub enum BinaryView {
    Inlined(Vec<u8>),
    Reference { size: u32, buffer_index: u32, offset: u32 },
}

impl BinaryView {
    /// Whether the view fits the buffers.
    pub open spec fn wf(self, buffers: Seq<Vec<u8>>) -> bool {
        match self {
            BinaryView::Inlined(bytes) => bytes@.len() <= MAX_INLINED_SIZE,
            BinaryView::Reference { size, buffer_index, offset } => {
                &&& size > MAX_INLINED_SIZE
                &&& buffer_index < buffers.len()
                &&& offset + size <= buffers[buffer_index as int]@.len()
            },
        }
    }

    /// The bytes of the string.
    pub open spec fn bytes(self, buffers: Seq<Vec<u8>>) -> Seq<u8> {
        match self {
            BinaryView::Inlined(bytes) => bytes@,
            BinaryView::Reference { size, buffer_index, offset } => buffers[buffer_index
                as int]@.subrange(offset as int, offset + size),
        }
    }
}

/// The views of an array of strings, with the buffers that they point into.
#[derive(Debug)]
pub struct ViewsSide<'a> {
    views: &'a Vec<BinaryView>,
    buffers: &'a Vec<Vec<u8>>,
}

impl<'a> ViewsSide<'a> {
    pub closed spec fn views_spec(self) -> Seq<BinaryView> {
        self.views@
    }

    pub closed spec fn buffers_spec(self) -> Seq<Vec<u8>> {
        self.buffers@
    }

    pub fn new(views: &'a Vec<BinaryView>, buffers: &'a Vec<Vec<u8>>) -> (r: Self)
        ensures
            r.views_spec() == views@,
            r.buffers_spec() == buffers@,
    {
        ViewsSide { views, buffers }
    }

    /// Returns the number of strings.
    pub fn len(&self) -> (r: usize)
        ensures
            r == self.views_spec().len(),
    {
        self.views.len()
    }

    /// Returns the views themselves, for a caller that walks every row in order.
    pub fn views(&self) -> (r: &'a Vec<BinaryView>)
        ensures
            r@ == self.views_spec(),
    {
        self.views
    }

    /// Returns the view at `index`.
    pub fn view_unchecked(&self, index: usize) -> (r: &'a BinaryView)
        requires
            index < self.views_spec().len(),
        ensures
            *r == self.views_spec()[index as int],
    {
        &self.views[index]
    }

    /// Returns the bytes of a view of this side.
    pub fn view_bytes(&self, view: &'a BinaryView) -> (r: &'a [u8])
        requires
            view.wf(self.buffers_spec()),
        ensures
            r@ == view.bytes(self.buffers_spec()),
    {
        match view {
            BinaryView::Inlined(bytes) => bytes.as_slice(),
            BinaryView::Reference { size, buffer_index, offset } => {
                let buffers: &'a Vec<Vec<u8>> = self.buffers;
                let buffer = buffers[*buffer_index as usize].as_slice();
                let start: usize = *offset as usize;
                assert(*offset + *size <= buffer.len());
                let end: usize = start + *size as usize;
                slice_subrange(buffer, start, end)
            },
        }
    }
}

/// A view is of as many bytes as it says: those that it holds, or those of its buffer from its
/// offset on.
pub proof fn law_a_view_is_of_its_bytes(view: BinaryView, buffers: Seq<Vec<u8>>, i: int)
    requires
        view.wf(buffers),
        0 <= i < view.bytes(buffers).len(),
    ensures
        match view {
            BinaryView::Inlined(held) => view.bytes(buffers).len() == held.len() && held.len() <= 12
                && view.bytes(buffers)[i] == held@[i],
            BinaryView::Reference { size, buffer_index, offset } => view.bytes(buffers).len() == size
                && size > 12 && view.bytes(buffers)[i] == buffers[buffer_index as int]@[offset + i],
        },
{
}

} // verus!
