//! Registration of fields, and packing them into a block layout.

use crate::block_layout::{has_slot, is_packing_of, layout_ok, precedes, BlockLayout, LayoutModel};
use crate::field::{
    field_ok, fields_ok, fits_layout, lemma_prefix_step, lemma_total_concat, max_align, prefix_size,
    total_size, MemLayout,
};
use crate::slot_map::{slot_entries, slot_map_insert, slot_map_new};
use vstd::arithmetic::power2::is_pow2;
use vstd::layout::{align_of, layout_for_type_is_valid, size_of};
use vstd::prelude::*;

verus! {

/// Unique handle for an array field in a layout definition.
pub type LayoutSlot = usize;

/// Why a set of fields cannot be packed into one element.
#[derive(Clone, Copy, Debug, PartialEq, Eq, Structural)]
pub enum LayoutError {
    /// The summed size, rounded up to the largest alignment, passes `isize::MAX`.
    SizeOverflow,
}

/// Collects the fields of a layout in registration order.
pub struct LayoutBuilder {
    layouts: Vec<MemLayout>,
    max_alignment: usize,
    element_size: usize,
}

impl View for LayoutBuilder {
    type V = Seq<MemLayout>;

    closed spec fn view(&self) -> Seq<MemLayout> {
        self.layouts@
    }
}

/// The largest alignment of a list is at least each of its alignments, and
/// a power of two where they all are.
proof fn lemma_max_align_push(fields: Seq<MemLayout>, f: MemLayout)
    ensures
        max_align(fields.push(f)) == if f.align > max_align(fields) {
            f.align as int
        } else {
            max_align(fields)
        },
        total_size(fields.push(f)) == total_size(fields) + f.size,
{
    assert(fields.push(f).drop_last() =~= fields);
}

impl LayoutBuilder {
    /// The running maximum and sum agree with the registered fields; the sum
    /// saturates at `usize::MAX`.
    pub closed spec fn wf(&self) -> bool {
        &&& forall|i: int| 0 <= i < self.layouts.len() ==> field_ok(#[trigger] self.layouts@[i])
        &&& forall|i: int|
            0 <= i < self.layouts.len() ==> (#[trigger] self.layouts@[i]).align <= self.max_alignment
        &&& self.max_alignment == max_align(self.layouts@)
        &&& is_pow2(self.max_alignment as int)
        &&& self.element_size == if total_size(self.layouts@) <= usize::MAX {
            total_size(self.layouts@)
        } else {
            usize::MAX as int
        }
    }

    /// Registers one field with the given size and alignment.
    ///
    /// Returns its slot, the number of fields registered before it.
    pub fn add_layout(&mut self, layout: MemLayout) -> (r: LayoutSlot)
        requires
            old(self).wf(),
            field_ok(layout),
        ensures
            final(self).wf(),
            r == old(self)@.len(),
            final(self)@ == old(self)@.push(layout),
    {
        proof {
            lemma_max_align_push(self.layouts@, layout);
        }
        if layout.align > self.max_alignment {
            self.max_alignment = layout.align;
        }
        if self.element_size > usize::MAX - layout.size {
            self.element_size = usize::MAX;
        } else {
            self.element_size = self.element_size + layout.size;
        }
        let slot = self.layouts.len();
        self.layouts.push(layout);
        slot
    }

    /// Adds a new typed component to the layout.
    ///
    /// Returns a unique handle for it, which names its array once the layout
    /// is applied to a memory range. The same type may be added several
    /// times; each addition gets its own slot and its own array.
    pub fn add<T>(&mut self) -> (r: LayoutSlot)
        requires
            old(self).wf(),
        ensures
            final(self).wf(),
            r == old(self)@.len(),
            final(self)@ == old(self)@.push(
                MemLayout { size: size_of::<T>() as usize, align: align_of::<T>() as usize },
            ),
    {
        layout_for_type_is_valid::<T>();
        let layout = MemLayout { size: core::mem::size_of::<T>(), align: core::mem::align_of::<T>() };
        self.add_layout(layout)
    }
}

impl BlockLayout {
    /// Starts a new, empty layout.
    pub fn build() -> (r: LayoutBuilder)
        ensures
            r.wf(),
            r@ == Seq::<MemLayout>::empty(),
    {
        let r = LayoutBuilder { layouts: Vec::new(), max_alignment: 1, element_size: 0 };
        proof {
            reveal(is_pow2);
        }
        r
    }
}


impl LayoutBuilder {
    /// Bakes the registered fields into a packed block layout.
    ///
    /// The fields are ordered by descending alignment, and by registration
    /// order among equal alignments. The element is the sum of the sizes
    /// with the largest alignment; where std would refuse that pair, the
    /// result is `SizeOverflow`.
    pub fn finish(self) -> (r: Result<BlockLayout, LayoutError>)
        requires
            self.wf(),
        ensures
            r is Ok <==> fits_layout(total_size(self@), max_align(self@)),
            r matches Ok(l) ==> l.wf() && is_packing_of(self@, l@) && layout_ok(l@),
    {
        let ghost fields = self@;
        let limit: usize = isize::MAX as usize;
        proof {
            crate::arith::lemma_pow2_positive(self.max_alignment as int);
            let a = self.max_alignment as int;
            assert(limit as int % a <= limit as int) by (nonlinear_arith)
                requires
                    a > 0,
                    limit >= 0,
            ;
        }
        if self.element_size > limit - limit % self.max_alignment {
            return Err(LayoutError::SizeOverflow);
        }
        let n = self.layouts.len();
        let mut order: Vec<usize> = Vec::new();
        let mut packed: Vec<MemLayout> = Vec::new();
        let mut s: usize = 0;
        while s < n
            invariant
                fields == self.layouts@,
                n == fields.len(),
                s <= n,
                order.len() == s,
                packed.len() == s,
                forall|p: int| 0 <= p < s ==> (#[trigger] order@[p]) < s && packed@[p] == fields[order@[p] as int],
                forall|p: int, q: int| 0 <= p < q < s ==> precedes(fields, order@[p] as int, order@[q] as int),
                forall|t: int| 0 <= t < s ==> #[trigger] has_slot(order@, t),
                total_size(packed@) == prefix_size(fields, s as int),
            decreases n - s,
        {
            let f = self.layouts[s];
            let mut k: usize = 0;
            while k < packed.len() && packed[k].align >= f.align
                invariant
                    k <= packed.len(),
                    forall|j: int| 0 <= j < k ==> (#[trigger] packed@[j]).align >= f.align,
                decreases packed.len() - k,
            {
                k = k + 1;
            }
            let ghost old_order = order@;
            let ghost old_packed = packed@;
            proof {
                assert forall|j: int| k <= j < s implies (#[trigger] old_packed[j]).align < f.align by {
                    if k < j {
                        assert(precedes(fields, old_order[k as int] as int, old_order[j] as int));
                    }
                }
            }
            order.insert(k, s);
            packed.insert(k, f);
            proof {
                assert forall|p: int| 0 <= p <= s implies (#[trigger] order@[p]) < s + 1 && packed@[p] == fields[order@[p] as int] by {
                    if p < k {
                        assert(order@[p] == old_order[p]);
                    } else if p > k {
                        assert(order@[p] == old_order[p - 1]);
                    }
                }
                assert forall|p: int, q: int| 0 <= p < q <= s implies precedes(fields, order@[p] as int, order@[q] as int) by {
                    if q < k {
                        assert(order@[p] == old_order[p] && order@[q] == old_order[q]);
                    } else if q == k {
                        assert(order@[p] == old_order[p]);
                        assert(old_packed[p].align >= f.align);
                    } else if p < k {
                        assert(order@[p] == old_order[p] && order@[q] == old_order[q - 1]);
                    } else if p == k {
                        assert(order@[q] == old_order[q - 1]);
                        assert(old_packed[q - 1].align < f.align);
                    } else {
                        assert(order@[p] == old_order[p - 1] && order@[q] == old_order[q - 1]);
                    }
                }
                assert forall|t: int| 0 <= t <= s implies #[trigger] has_slot(order@, t) by {
                    if t == s {
                        assert(order@[k as int] == s);
                    } else {
                        assert(has_slot(old_order, t));
                        let p = choose|p: int| 0 <= p < old_order.len() && old_order[p] == t;
                        if p < k {
                            assert(order@[p] == t);
                        } else {
                            assert(order@[p + 1] == t);
                        }
                    }
                }
                let a = old_packed.take(k as int);
                let b = old_packed.skip(k as int);
                assert(old_packed =~= a + b);
                assert(packed@ =~= (a + seq![f]) + b);
                lemma_total_concat(a, b);
                lemma_total_concat(a + seq![f], b);
                lemma_total_concat(a, seq![f]);
                assert(seq![f].drop_last() =~= Seq::<MemLayout>::empty());
                reveal_with_fuel(total_size, 2);
                assert(total_size(seq![f]) == f.size);
                lemma_prefix_step(fields, s as int);
                assert(total_size(packed@) == total_size(old_packed) + f.size);
            }
            s = s + 1;
        }
        proof {
            assert(fields.take(n as int) =~= fields);
        }
        let mut slot_map = slot_map_new();
        let mut p: usize = 0;
        while p < n
            invariant
                p <= n,
                order.len() == n,
                slot_entries(slot_map).len() == p,
                forall|q: int| 0 <= q < p ==> #[trigger] slot_entries(slot_map)[q] == (order@[q], q as usize),
                forall|a: int, b: int| 0 <= a < b < n ==> precedes(fields, order@[a] as int, order@[b] as int),
            decreases n - p,
        {
            proof {
                assert forall|i: int| 0 <= i < slot_entries(slot_map).len() implies slot_entries(slot_map)[i].0 != order@[p as int] by {
                    assert(slot_entries(slot_map)[i] == (order@[i], i as usize));
                    assert(precedes(fields, order@[i] as int, order@[p as int] as int));
                }
            }
            let _ = slot_map_insert(&mut slot_map, order[p], p);
            p = p + 1;
        }
        let element = MemLayout { size: self.element_size, align: self.max_alignment };
        let ghost m = LayoutModel {
            element,
            fields: packed@,
            order: slot_entries(slot_map).map_values(|e: (usize, usize)| e.0),
        };
        proof {
            assert(m.order =~= order@);
            assert(packed@.len() == n);
            assert forall|i: int| 0 <= i < n implies crate::field::field_ok(#[trigger] packed@[i]) by {
                assert(field_ok(fields[order@[i] as int]));
            }
            assert forall|i: int| 0 <= i < n implies (#[trigger] packed@[i]).align <= element.align by {
                assert(fields[order@[i] as int].align <= self.max_alignment);
            }
        }
        proof {
            assert(fields_ok(m.fields));
            assert forall|p: int, q: int| 0 <= p < q < n implies m.fields[p].align >= m.fields[q].align by {
                assert(precedes(fields, order@[p] as int, order@[q] as int));
                assert(m.fields[p] == fields[order@[p] as int]);
                assert(m.fields[q] == fields[order@[q] as int]);
            }
            assert(is_pow2(m.element.align as int));
            assert(fits_layout(m.element.size as int, m.element.align as int));
            assert(m.element.size == total_size(m.fields));
            assert(forall|p: int| 0 <= p < n ==> (#[trigger] m.order[p]) < n);
            assert forall|p: int, q: int| 0 <= p < q < n implies m.order[p] != m.order[q] by {
                assert(precedes(fields, order@[p] as int, order@[q] as int));
            }
            assert(forall|s: int| 0 <= s < n ==> #[trigger] has_slot(m.order, s));
        }
        let r = BlockLayout::from_parts(slot_map, element, packed);
        Ok(r)
    }
}

} // verus!
