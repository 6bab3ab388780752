//! The packed layout: fields in packing order, the element layout, and the
//! map from slot to packing position.

use crate::block::{
    aligned_end, aligned_start, block_len, is_applied, pad, usable_size, Block,
};
use crate::field::{
    fields_ok, fits_layout, lemma_prefix_monotone, lemma_prefix_step, max_align, prefix_size,
    total_size, MemLayout,
};
use crate::slot_map::{slot_entries, slot_map_get};
use indexmap::IndexMap;
use vstd::arithmetic::power2::is_pow2;
use vstd::prelude::*;

verus! {

/// What a packed layout stands for.
pub ghost struct LayoutModel {
    /// Size and alignment of one whole element.
    pub element: MemLayout,
    /// The fields in packing order.
    pub fields: Seq<MemLayout>,
    /// The slot of the field at each packing position.
    pub order: Seq<usize>,
}

/// Whether slot `s` stands somewhere in `order`.
pub open spec fn has_slot(order: Seq<usize>, s: int) -> bool {
    exists|p: int| 0 <= p < order.len() && order[p] == s
}

/// Field `a` comes before field `b` in packing order: it has the larger
/// alignment, or the same one and was registered first.
pub open spec fn precedes(fields: Seq<MemLayout>, a: int, b: int) -> bool {
    fields[a].align > fields[b].align || (fields[a].align == fields[b].align && a < b)
}

/// A packed layout that can be applied: its fields are ordered by
/// non-increasing alignment, the element is the sum of the fields aligned to
/// the largest alignment, and `order` is a permutation of the slots.
pub open spec fn layout_ok(m: LayoutModel) -> bool {
    let n = m.fields.len();
    &&& m.order.len() == n
    &&& fields_ok(m.fields)
    &&& forall|p: int, q: int| 0 <= p < q < n ==> m.fields[p].align >= m.fields[q].align
    &&& forall|p: int| 0 <= p < n ==> (#[trigger] m.fields[p]).align <= m.element.align
    &&& is_pow2(m.element.align as int)
    &&& fits_layout(m.element.size as int, m.element.align as int)
    &&& m.element.size == total_size(m.fields)
    &&& forall|p: int| 0 <= p < n ==> (#[trigger] m.order[p]) < n
    &&& forall|p: int, q: int| 0 <= p < q < n ==> m.order[p] != m.order[q]
    &&& forall|s: int| 0 <= s < n ==> #[trigger] has_slot(m.order, s)
}

/// `m` packs the fields registered in `fields`: the element is their summed
/// size with their largest alignment, and the fields stand in order of
/// descending alignment, ties kept in registration order.
pub open spec fn is_packing_of(fields: Seq<MemLayout>, m: LayoutModel) -> bool {
    let n = fields.len();
    &&& m.element.size == total_size(fields)
    &&& m.element.align == max_align(fields)
    &&& m.fields.len() == n
    &&& m.order.len() == n
    &&& forall|p: int| 0 <= p < n ==> (#[trigger] m.order[p]) < n && m.fields[p] == fields[m.order[p] as int]
    &&& forall|p: int, q: int| 0 <= p < q < n ==> precedes(fields, m.order[p] as int, m.order[q] as int)
    &&& forall|s: int| 0 <= s < n ==> #[trigger] has_slot(m.order, s)
}

/// A structure-of-arrays layout, ready to be applied to memory regions.
///
/// Fields are ordered by descending alignment, and by registration order
/// among equal alignments. Since every alignment is a power of two, every
/// array starts aligned and no padding stands between the arrays.
pub struct BlockLayout {
    pub(crate) slot_map: IndexMap<usize, usize>,
    pub(crate) layout: MemLayout,
    pub(crate) sub_layouts: Vec<MemLayout>,
}

impl View for BlockLayout {
    type V = LayoutModel;

    closed spec fn view(&self) -> LayoutModel {
        LayoutModel {
            element: self.layout,
            fields: self.sub_layouts@,
            order: slot_entries(self.slot_map).map_values(|e: (usize, usize)| e.0),
        }
    }
}

impl BlockLayout {
    /// The slot map agrees with the fields, and the layout can be applied.
    pub closed spec fn wf(&self) -> bool {
        &&& slot_entries(self.slot_map).len() == self.sub_layouts.len()
        &&& forall|p: int|
            0 <= p < self.sub_layouts.len() ==> (#[trigger] slot_entries(self.slot_map)[p]).1 == p
        &&& layout_ok(self@)
    }

    /// Assembles a layout from a slot map whose entries name, in packing
    /// order, the slot of each field in `sub_layouts`.
    pub(crate) fn from_parts(
        slot_map: IndexMap<usize, usize>,
        layout: MemLayout,
        sub_layouts: Vec<MemLayout>,
    ) -> (r: BlockLayout)
        requires
            slot_entries(slot_map).len() == sub_layouts.len(),
            forall|p: int|
                0 <= p < sub_layouts.len() ==> (#[trigger] slot_entries(slot_map)[p]).1 == p,
            layout_ok(
                LayoutModel {
                    element: layout,
                    fields: sub_layouts@,
                    order: slot_entries(slot_map).map_values(|e: (usize, usize)| e.0),
                },
            ),
        ensures
            r.wf(),
            r@ == (LayoutModel {
                element: layout,
                fields: sub_layouts@,
                order: slot_entries(slot_map).map_values(|e: (usize, usize)| e.0),
            }),
    {
        BlockLayout { slot_map, layout, sub_layouts }
    }

    /// Returns the layout of a single element.
    ///
    /// Repeating it gives the memory that a number of elements needs.
    pub fn layout(&self) -> (r: MemLayout)
        ensures
            r == self@.element,
    {
        self.layout
    }
}


/// Offsets stay within `len` whole elements: `len` times a prefix of the
/// sizes is at most `len` times the element size.
proof fn lemma_offset_bound(m: LayoutModel, len: int, p: int)
    requires
        layout_ok(m),
        0 <= p <= m.fields.len(),
        len >= 0,
    ensures
        0 <= len * prefix_size(m.fields, p) <= len * (m.element.size as int),
{
    lemma_prefix_monotone(m.fields, p, m.fields.len() as int);
    let x = prefix_size(m.fields, p);
    let t = m.element.size as int;
    assert(0 <= len * x <= len * t) by (nonlinear_arith)
        requires
            0 <= x <= t,
            len >= 0,
    ;
}

impl BlockLayout {
    /// Applies the layout to the `size` bytes that start at address `base`.
    ///
    /// The bytes used run from `base` rounded up to the element alignment to
    /// `base + size` rounded down to it. Each field gets an array of the same
    /// number of elements, one after the other in packing order; a layout
    /// without fields gives an empty block.
    pub fn apply(&self, base: usize, size: usize) -> (r: Block)
        requires
            self.wf(),
            base + size <= usize::MAX,
            aligned_start(base as int, self@.element.align as int) <= usize::MAX,
        ensures
            is_applied(self@, base as int, size as int, r@),
    {
        let ghost m = self@;
        let n = self.sub_layouts.len();
        if n == 0 {
            let r = Block::from_parts(0, 0, 0, Vec::new());
            proof {
                assert(r@.addresses =~= Seq::<int>::empty());
            }
            return r;
        }
        let a = self.layout.align;
        proof {
            crate::arith::lemma_pow2_positive(a as int);
        }
        let rem = base % a;
        let skip = if rem == 0 { 0 } else { a - rem };
        proof {
            if rem == 0 {
                vstd::arithmetic::div_mod::lemma_mod_self_0(a as int);
            } else {
                vstd::arithmetic::div_mod::lemma_small_mod((a - rem) as nat, a as nat);
            }
            assert(skip == pad(base as int, a as int));
        }
        let start = base + skip;
        let top = base + size;
        proof {
            assert(top as int % a as int <= top as int) by (nonlinear_arith)
                requires
                    a > 0,
                    top >= 0,
            ;
        }
        let end = top - top % a;
        let usable = if start <= end { end - start } else { 0 };
        let elem = self.layout.size;
        let len = if elem == 0 { usize::MAX } else { usable / elem };
        proof {
            assert(end == aligned_end(base as int, size as int, a as int));
            assert(usable == usable_size(base as int, size as int, a as int));
            assert(len == block_len(m, base as int, size as int));
            if elem > 0 {
                vstd::arithmetic::div_mod::lemma_fundamental_div_mod(usable as int, elem as int);
                vstd::arithmetic::div_mod::lemma_mod_pos_bound(usable as int, elem as int);
                assert(len * elem <= usable) by (nonlinear_arith)
                    requires
                        usable == elem * (usable / elem) + usable % elem,
                        usable % elem >= 0,
                        len == usable / elem,
                ;
            }
        }
        let mut offsets: Vec<usize> = Vec::with_capacity(n);
        let mut offset: usize = 0;
        let mut p: usize = 0;
        while p < n
            invariant
                m == self@,
                self.wf(),
                layout_ok(m),
                n == m.fields.len(),
                p <= n,
                elem == m.element.size,
                elem > 0 ==> len * elem <= usable,
                elem == 0 ==> len == usize::MAX,
                usable <= usize::MAX,
                offset == len * prefix_size(m.fields, p as int),
                offsets.len() == p,
                forall|q: int| 0 <= q < p ==> #[trigger] offsets@[q] == len * prefix_size(m.fields, q),
            decreases n - p,
        {
            offsets.push(offset);
            let f = self.sub_layouts[p];
            proof {
                lemma_prefix_step(m.fields, p as int);
                lemma_offset_bound(m, len as int, p as int + 1);
                lemma_prefix_monotone(m.fields, p as int + 1, n as int);
                lemma_prefix_monotone(m.fields, p as int, p as int + 1);
                let x = prefix_size(m.fields, p as int);
                let sz = f.size as int;
                assert(len * (x + sz) == len * x + sz * len) by (nonlinear_arith);
                assert(0 <= sz * len) by (nonlinear_arith)
                    requires
                        sz >= 0,
                        len >= 0,
                ;
                if elem == 0 {
                    assert(sz == 0);
                    assert(sz * len == 0);
                }
            }
            offset = offset + f.size * len;
            p = p + 1;
        }
        let mut slices: Vec<usize> = Vec::with_capacity(n);
        let mut s: usize = 0;
        while s < n
            invariant
                m == self@,
                self.wf(),
                layout_ok(m),
                n == m.fields.len(),
                s <= n,
                offsets.len() == n,
                forall|q: int| 0 <= q < n ==> #[trigger] offsets@[q] == len * prefix_size(m.fields, q),
                elem == m.element.size,
                elem > 0 ==> len * elem <= usable,
                elem == 0 ==> len == usize::MAX,
                start <= end ==> start + usable == end && end <= base + size,
                start > end ==> usable == 0,
                start <= usize::MAX,
                slices.len() == s,
                forall|q: int|
                    0 <= q < n && m.order[q] < s ==> slices@[#[trigger] m.order[q] as int] == start + offsets@[q],
            decreases n - s,
        {
            proof {
                assert(has_slot(m.order, s as int));
            }
            let found = slot_map_get(&self.slot_map, s);
            let ghost w = choose|w: int| 0 <= w < m.order.len() && m.order[w] == s;
            proof {
                assert(slot_entries(self.slot_map)[w].0 == s);
                assert(slot_entries(self.slot_map)[w].1 == w);
            }
            let q = found.unwrap();
            proof {
                assert(q == w);
                lemma_offset_bound(m, len as int, q as int);
                if elem == 0 {
                    lemma_prefix_monotone(m.fields, q as int, n as int);
                }
            }
            let address = start + offsets[q];
            slices.push(address);
            proof {
                assert forall|t: int| 0 <= t < n && m.order[t] < s + 1 implies slices@[#[trigger] m.order[t] as int] == start + offsets@[t] by {
                    if m.order[t] == s {
                        assert(t == q);
                    }
                }
            }
            s = s + 1;
        }
        let r = Block::from_parts(skip, skip + usable, len, slices);
        proof {
            assert(r@.addresses.len() == n);
        }
        r
    }
}

} // verus!
