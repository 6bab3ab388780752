//! A layout applied to one memory region: the element count and the start
//! address of each field's array.

use crate::block_layout::LayoutModel;
use crate::builder::LayoutSlot;
use crate::field::prefix_size;
use vstd::prelude::*;

verus! {

/// What a block stands for.
pub ghost struct BlockModel {
    /// Offset of the first byte in use from the region's start.
    pub range_start: int,
    /// Offset just past the last byte in use.
    pub range_end: int,
    /// Number of elements in every array.
    pub len: int,
    /// Start address of each field's array, by slot.
    pub addresses: Seq<int>,
}

/// Bytes to skip from `base` to the next multiple of `a`.
pub open spec fn pad(base: int, a: int) -> int {
    (a - base % a) % a
}

/// The first address at or after `base` that is a multiple of `a`.
pub open spec fn aligned_start(base: int, a: int) -> int {
    base + pad(base, a)
}

/// The last address at or before `base + size` that is a multiple of `a`.
pub open spec fn aligned_end(base: int, size: int, a: int) -> int {
    (base + size) - (base + size) % a
}

/// Bytes between the aligned start and the aligned end, and none where the
/// region holds no multiple of `a`.
pub open spec fn usable_size(base: int, size: int, a: int) -> int {
    if aligned_start(base, a) <= aligned_end(base, size, a) {
        aligned_end(base, size, a) - aligned_start(base, a)
    } else {
        0
    }
}

/// How many elements of `m` fit in the region: none for a layout without
/// fields, `usize::MAX` for one whose fields all have size zero, else the
/// usable bytes divided by the element size.
pub open spec fn block_len(m: LayoutModel, base: int, size: int) -> int {
    if m.fields.len() == 0 {
        0
    } else if m.element.size == 0 {
        usize::MAX as int
    } else {
        usable_size(base, size, m.element.align as int) / (m.element.size as int)
    }
}

/// `b` is what applying `m` to the `size` bytes at `base` gives: the arrays
/// follow one another in packing order from the aligned start, each as long
/// as `block_len` elements of its field, and each slot gets its array.
pub open spec fn is_applied(m: LayoutModel, base: int, size: int, b: BlockModel) -> bool {
    let n = m.fields.len();
    let a = m.element.align as int;
    let len = block_len(m, base, size);
    &&& b.len == len
    &&& b.addresses.len() == n
    &&& if n == 0 {
        b.range_start == 0 && b.range_end == 0
    } else {
        b.range_start == pad(base, a) && b.range_end == pad(base, a) + usable_size(base, size, a)
    }
    &&& forall|p: int|
        0 <= p < n ==> b.addresses[#[trigger] m.order[p] as int] == aligned_start(base, a) + len
            * prefix_size(m.fields, p)
}

/// A memory region laid out by a block layout.
///
/// The block does not own the memory: it holds the element count and the
/// address where each field's array starts.
pub struct Block {
    pub(crate) range_start: usize,
    pub(crate) range_end: usize,
    pub(crate) len: usize,
    pub(crate) slices: Vec<usize>,
}

impl View for Block {
    type V = BlockModel;

    closed spec fn view(&self) -> BlockModel {
        BlockModel {
            range_start: self.range_start as int,
            range_end: self.range_end as int,
            len: self.len as int,
            addresses: self.slices@.map_values(|a: usize| a as int),
        }
    }
}

impl Block {
    /// Assembles a block from its parts.
    pub(crate) fn from_parts(range_start: usize, range_end: usize, len: usize, slices: Vec<usize>) -> (r: Block)
        ensures
            r@ == (BlockModel {
                range_start: range_start as int,
                range_end: range_end as int,
                len: len as int,
                addresses: slices@.map_values(|a: usize| a as int),
            }),
    {
        Block { range_start, range_end, len, slices }
    }

    /// Returns the offset range, from the region's start, of the memory that
    /// the block occupies.
    pub fn range(&self) -> (r: core::ops::Range<usize>)
        ensures
            r.start == self@.range_start,
            r.end == self@.range_end,
    {
        core::ops::Range { start: self.range_start, end: self.range_end }
    }

    /// Returns the number of elements in each array.
    pub fn len(&self) -> (r: usize)
        ensures
            r == self@.len,
    {
        self.len
    }

    /// Returns the address where the array of `slot` starts, or `None` for
    /// a slot that the layout does not have.
    pub fn address(&self, slot: LayoutSlot) -> (r: Option<usize>)
        ensures
            r is Some <==> slot < self@.addresses.len(),
            r matches Some(a) ==> a == self@.addresses[slot as int],
    {
        if slot < self.slices.len() {
            Some(self.slices[slot])
        } else {
            None
        }
    }
}

} // verus!
