//! The size and alignment of one field, and sums and maxima over lists of them.

use crate::arith::{lemma_add_multiples, lemma_pow2_divides, lemma_pow2_positive};
use vstd::arithmetic::power2::is_pow2;
use vstd::prelude::*;

verus! {

/// The size and alignment of one element of a field, in bytes.
#[derive(Clone, Copy, Debug, PartialEq, Eq, Structural)]
pub struct MemLayout {
    pub size: usize,
    pub align: usize,
}

impl MemLayout {
    /// The size in bytes.
    pub fn size(&self) -> (r: usize)
        ensures
            r == self.size,
    {
        self.size
    }

    /// The alignment in bytes.
    pub fn align(&self) -> (r: usize)
        ensures
            r == self.align,
    {
        self.align
    }
}

/// A field that a type can have: its alignment is a power of two and its
/// size a multiple of it.
pub open spec fn field_ok(f: MemLayout) -> bool {
    is_pow2(f.align as int) && f.size % f.align == 0
}

/// Every field of the list is one that a type can have.
pub open spec fn fields_ok(fields: Seq<MemLayout>) -> bool {
    forall|i: int| 0 <= i < fields.len() ==> field_ok(#[trigger] fields[i])
}

/// The sum of the sizes of the fields.
pub open spec fn total_size(fields: Seq<MemLayout>) -> int
    decreases fields.len(),
{
    if fields.len() == 0 {
        0
    } else {
        total_size(fields.drop_last()) + fields.last().size
    }
}

/// The largest alignment among the fields, and 1 where there are none.
pub open spec fn max_align(fields: Seq<MemLayout>) -> int
    decreases fields.len(),
{
    if fields.len() == 0 {
        1
    } else {
        let m = max_align(fields.drop_last());
        if fields.last().align > m {
            fields.last().align as int
        } else {
            m
        }
    }
}

/// The sum of the sizes of the fields before position `p`.
pub open spec fn prefix_size(fields: Seq<MemLayout>, p: int) -> int {
    total_size(fields.take(p))
}

/// Whether a size and an alignment make a layout that std accepts: the size,
/// rounded up to the alignment, does not pass `isize::MAX`.
pub open spec fn fits_layout(size: int, align: int) -> bool {
    size <= (isize::MAX as int) - (isize::MAX as int) % align
}

/// Summing over a concatenation adds the two sums.
pub proof fn lemma_total_concat(a: Seq<MemLayout>, b: Seq<MemLayout>)
    ensures
        total_size(a + b) == total_size(a) + total_size(b),
    decreases b.len(),
{
    if b.len() == 0 {
        assert(a + b =~= a);
    } else {
        lemma_total_concat(a, b.drop_last());
        assert((a + b).drop_last() =~= a + b.drop_last());
    }
}

/// Taking one more field adds its size.
pub proof fn lemma_prefix_step(fields: Seq<MemLayout>, p: int)
    requires
        0 <= p < fields.len(),
    ensures
        prefix_size(fields, p + 1) == prefix_size(fields, p) + fields[p].size,
{
    assert(fields.take(p + 1).drop_last() =~= fields.take(p));
}

/// A sum only grows with more fields.
proof fn lemma_prefix_grows(fields: Seq<MemLayout>, p: int, q: int)
    requires
        0 <= p <= q <= fields.len(),
    ensures
        prefix_size(fields, p) <= prefix_size(fields, q),
    decreases q - p,
{
    if p < q {
        lemma_prefix_step(fields, q - 1);
        lemma_prefix_grows(fields, p, q - 1);
    }
}

/// Sizes are never negative, so a sum only grows with more fields.
pub proof fn lemma_prefix_monotone(fields: Seq<MemLayout>, p: int, q: int)
    requires
        0 <= p <= q <= fields.len(),
    ensures
        0 <= prefix_size(fields, p) <= prefix_size(fields, q) <= total_size(fields),
{
    assert(fields.take(0) =~= Seq::<MemLayout>::empty());
    assert(fields.take(fields.len() as int) =~= fields);
    lemma_prefix_grows(fields, 0, p);
    lemma_prefix_grows(fields, p, q);
    lemma_prefix_grows(fields, q, fields.len() as int);
}

/// Where every field before `p` has a size that is a multiple of `m`, so has
/// their sum.
pub proof fn lemma_prefix_multiple(fields: Seq<MemLayout>, p: int, m: int)
    requires
        0 <= p <= fields.len(),
        m > 0,
        forall|q: int| 0 <= q < p ==> (#[trigger] fields[q]).size as int % m == 0,
    ensures
        prefix_size(fields, p) % m == 0,
    decreases p,
{
    if p == 0 {
        assert(fields.take(0) =~= Seq::<MemLayout>::empty());
        assert(prefix_size(fields, 0) == 0);
        vstd::arithmetic::div_mod::lemma_mod_multiples_basic(0, m);
    } else {
        lemma_prefix_multiple(fields, p - 1, m);
        lemma_prefix_step(fields, p - 1);
        lemma_add_multiples(prefix_size(fields, p - 1), fields[p - 1].size as int, m);
    }
}

/// In a list ordered by non-increasing alignment, the fields before `p` take
/// a multiple of the alignment of field `p`.
pub proof fn lemma_prefix_aligned(fields: Seq<MemLayout>, p: int)
    requires
        fields_ok(fields),
        0 <= p < fields.len(),
        forall|q: int| 0 <= q < p ==> (#[trigger] fields[q]).align >= fields[p].align,
    ensures
        prefix_size(fields, p) % (fields[p].align as int) == 0,
{
    let a = fields[p].align as int;
    assert(field_ok(fields[p]));
    lemma_pow2_positive(a);
    assert forall|q: int| 0 <= q < p implies (#[trigger] fields[q]).size as int % a == 0 by {
        let f = fields[q];
        assert(field_ok(f));
        let fa = f.align as int;
        let fs = f.size as int;
        lemma_pow2_divides(a, fa);
        lemma_pow2_positive(fa);
        let k = fa / a;
        let j = fs / fa;
        vstd::arithmetic::div_mod::lemma_fundamental_div_mod(fa, a);
        vstd::arithmetic::div_mod::lemma_fundamental_div_mod(fs, fa);
        assert(fs == (j * k) * a) by (nonlinear_arith)
            requires
                fs == fa * j,
                fa == a * k,
        ;
        vstd::arithmetic::div_mod::lemma_mod_multiples_basic(j * k, a);
    }
    lemma_prefix_multiple(fields, p, a);
}

} // verus!
