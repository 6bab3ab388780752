//! Properties that hold of every packing and every application of a layout.

use crate::arith::{lemma_add_multiples, lemma_pow2_divides, lemma_pow2_positive, lemma_scale_multiple};
use crate::block::{aligned_start, is_applied, pad, usable_size, BlockModel};
use crate::block_layout::{has_slot, is_packing_of, layout_ok, precedes, LayoutModel};
use crate::field::{
    field_ok, lemma_prefix_aligned, lemma_prefix_monotone, lemma_prefix_step, prefix_size,
    total_size, MemLayout,
};
use vstd::arithmetic::div_mod::{lemma_fundamental_div_mod, lemma_mod_multiples_basic};
use vstd::prelude::*;

verus! {

proof fn lemma_orders_agree(fields: Seq<MemLayout>, m1: LayoutModel, m2: LayoutModel, p: int)
    requires
        is_packing_of(fields, m1),
        is_packing_of(fields, m2),
        0 <= p <= fields.len(),
    ensures
        forall|i: int| 0 <= i < p ==> m1.order[i] == m2.order[i],
    decreases p,
{
    if p > 0 {
        lemma_orders_agree(fields, m1, m2, p - 1);
        let n = fields.len() as int;
        let i = p - 1;
        let x = m1.order[i] as int;
        let y = m2.order[i] as int;
        if x != y {
            if precedes(fields, x, y) {
                assert(has_slot(m2.order, x));
                let q = choose|q: int| 0 <= q < m2.order.len() && m2.order[q] == x;
                if q < i {
                    assert(m1.order[q] == x);
                    assert(precedes(fields, m1.order[q] as int, m1.order[i] as int));
                } else {
                    assert(precedes(fields, m2.order[i] as int, m2.order[q] as int));
                }
            } else {
                assert(has_slot(m1.order, y));
                let q = choose|q: int| 0 <= q < m1.order.len() && m1.order[q] == y;
                if q < i {
                    assert(m2.order[q] == y);
                    assert(precedes(fields, m2.order[q] as int, m2.order[i] as int));
                } else {
                    assert(precedes(fields, m1.order[i] as int, m1.order[q] as int));
                }
            }
        }
    }
}

/// Packing is deterministic: the registered fields alone decide the packing
/// order, the fields in that order and the element layout.
pub proof fn lemma_packing_unique(fields: Seq<MemLayout>, m1: LayoutModel, m2: LayoutModel)
    requires
        is_packing_of(fields, m1),
        is_packing_of(fields, m2),
    ensures
        m1 == m2,
{
    lemma_orders_agree(fields, m1, m2, fields.len() as int);
    assert(m1.order =~= m2.order);
    assert forall|p: int| 0 <= p < fields.len() implies m1.fields[p] == m2.fields[p] by {
        assert(m1.fields[p] == fields[m1.order[p] as int]);
        assert(m2.fields[p] == fields[m2.order[p] as int]);
    }
    assert(m1.fields =~= m2.fields);
}

/// Applying a layout is deterministic: the layout and the region alone
/// decide the element count, the range in use and every array's address.
pub proof fn lemma_apply_unique(m: LayoutModel, base: int, size: int, b1: BlockModel, b2: BlockModel)
    requires
        layout_ok(m),
        is_applied(m, base, size, b1),
        is_applied(m, base, size, b2),
    ensures
        b1 == b2,
{
    assert forall|s: int| 0 <= s < b1.addresses.len() implies b1.addresses[s] == b2.addresses[s] by {
        assert(has_slot(m.order, s));
        let p = choose|p: int| 0 <= p < m.order.len() && m.order[p] == s;
        assert(b1.addresses[m.order[p] as int] == b2.addresses[m.order[p] as int]);
    }
    assert(b1.addresses =~= b2.addresses);
}

/// No padding stands between fields: the element size is the sum of the
/// sizes of all registered fields, and so is the sum in packing order.
pub proof fn lemma_padding_free(fields: Seq<MemLayout>, m: LayoutModel)
    requires
        is_packing_of(fields, m),
        layout_ok(m),
    ensures
        m.element.size == total_size(fields),
        total_size(m.fields) == total_size(fields),
{
}

/// Every array starts at an offset, from the block's start, that is a
/// multiple of its field's alignment, whatever the element count.
pub proof fn lemma_offsets_aligned(m: LayoutModel, len: int, p: int)
    requires
        layout_ok(m),
        0 <= p < m.fields.len(),
    ensures
        (len * prefix_size(m.fields, p)) % (m.fields[p].align as int) == 0,
{
    assert(field_ok(m.fields[p]));
    lemma_pow2_positive(m.fields[p].align as int);
    lemma_prefix_aligned(m.fields, p);
    lemma_scale_multiple(prefix_size(m.fields, p), len, m.fields[p].align as int);
}

/// The aligned start is a multiple of the alignment.
proof fn lemma_aligned_start(base: int, a: int)
    requires
        a > 0,
    ensures
        aligned_start(base, a) % a == 0,
        0 <= pad(base, a) < a,
{
    lemma_fundamental_div_mod(base, a);
    let r = base % a;
    let k = base / a;
    if r == 0 {
        vstd::arithmetic::div_mod::lemma_mod_self_0(a);
        assert(base == k * a) by (nonlinear_arith)
            requires
                base == a * k + r,
                r == 0,
        ;
        lemma_mod_multiples_basic(k, a);
    } else {
        vstd::arithmetic::div_mod::lemma_mod_bound(base, a);
        vstd::arithmetic::div_mod::lemma_small_mod((a - r) as nat, a as nat);
        assert(base + (a - r) == (k + 1) * a) by (nonlinear_arith)
            requires
                base == a * k + r,
        ;
        lemma_mod_multiples_basic(k + 1, a);
    }
}

/// Each slot handed out at registration gets, in every applied block, an
/// array that starts at a multiple of its field's alignment and that lies,
/// with all its elements, between the aligned start and the aligned end.
pub proof fn lemma_slot_address(
    fields: Seq<MemLayout>,
    m: LayoutModel,
    base: int,
    size: int,
    b: BlockModel,
    s: int,
)
    requires
        is_packing_of(fields, m),
        layout_ok(m),
        is_applied(m, base, size, b),
        0 <= s < fields.len(),
    ensures
        b.addresses[s] % (fields[s].align as int) == 0,
        aligned_start(base, m.element.align as int) <= b.addresses[s],
        b.addresses[s] + b.len * fields[s].size <= aligned_start(base, m.element.align as int)
            + usable_size(base, size, m.element.align as int),
{
    let a = m.element.align as int;
    let n = fields.len() as int;
    assert(has_slot(m.order, s));
    let p = choose|p: int| 0 <= p < m.order.len() && m.order[p] == s;
    let f = m.fields[p];
    assert(f == fields[s]);
    let fa = f.align as int;
    let start = aligned_start(base, a);
    let len = b.len;
    let off = len * prefix_size(m.fields, p);
    assert(b.addresses[s] == start + off);
    assert(field_ok(f));
    lemma_pow2_positive(a);
    lemma_pow2_positive(fa);
    lemma_aligned_start(base, a);
    lemma_pow2_divides(fa, a);
    lemma_fundamental_div_mod(start, a);
    lemma_fundamental_div_mod(a, fa);
    let k = (start / a) * (a / fa);
    assert(start == k * fa) by (nonlinear_arith)
        requires
            start == a * (start / a),
            a == fa * (a / fa),
            k == (start / a) * (a / fa),
    ;
    lemma_mod_multiples_basic(k, fa);
    lemma_offsets_aligned(m, len, p);
    lemma_add_multiples(start, off, fa);
    lemma_prefix_step(m.fields, p);
    lemma_prefix_monotone(m.fields, p, p + 1);
    lemma_prefix_monotone(m.fields, p + 1, n);
    let x = prefix_size(m.fields, p);
    let t = m.element.size as int;
    let sz = f.size as int;
    let u = usable_size(base, size, a);
    assert(len >= 0);
    assert(0 <= len * x) by (nonlinear_arith)
        requires
            len >= 0,
            x >= 0,
    ;
    if t == 0 {
        assert(x == 0 && sz == 0);
        assert(len * x == 0 && len * sz == 0);
        assert(u >= 0);
    } else {
        assert(len == u / t);
        lemma_fundamental_div_mod(u, t);
        vstd::arithmetic::div_mod::lemma_mod_pos_bound(u, t);
        assert(len * x + len * sz <= u) by (nonlinear_arith)
            requires
                u == t * (u / t) + u % t,
                u % t >= 0,
                len == u / t,
                len >= 0,
                x + sz <= t,
        ;
    }
}

/// With at least one field and a positive element size, the element count
/// is the usable bytes divided by the element size: that many elements fit,
/// and one more would not.
pub proof fn lemma_len_exact(m: LayoutModel, base: int, size: int, b: BlockModel)
    requires
        layout_ok(m),
        is_applied(m, base, size, b),
        m.fields.len() > 0,
        m.element.size > 0,
    ensures
        b.len == usable_size(base, size, m.element.align as int) / (m.element.size as int),
        b.len * m.element.size <= usable_size(base, size, m.element.align as int),
        usable_size(base, size, m.element.align as int) < (b.len + 1) * m.element.size,
{
    let u = usable_size(base, size, m.element.align as int);
    let t = m.element.size as int;
    lemma_fundamental_div_mod(u, t);
    vstd::arithmetic::div_mod::lemma_mod_pos_bound(u, t);
    let len = b.len;
    assert(len * t <= u && u < (len + 1) * t) by (nonlinear_arith)
        requires
            u == t * (u / t) + u % t,
            0 <= u % t < t,
            len == u / t,
    ;
}

/// A layout without fields has an empty element with alignment one, and
/// every block made from it is empty, whatever the region.
pub proof fn lemma_empty_layout(m: LayoutModel, base: int, size: int, b: BlockModel)
    requires
        is_packing_of(Seq::<MemLayout>::empty(), m),
        is_applied(m, base, size, b),
    ensures
        m.element.size == 0,
        m.element.align == 1,
        b.len == 0,
        b.addresses.len() == 0,
        b.range_start == 0,
        b.range_end == 0,
{
}

} // verus!
