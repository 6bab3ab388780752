//! The slot map of a block layout: an `IndexMap` from slot to packing
//! position, kept behind a few trusted wrappers.

use indexmap::IndexMap;
use vstd::prelude::*;

verus! {

#[verifier::external_type_specification]
#[verifier::external_body]
#[verifier::reject_recursive_types(K)]
#[verifier::reject_recursive_types(V)]
#[verifier::reject_recursive_types(S)]
pub struct ExIndexMap<K, V, S>(IndexMap<K, V, S>);

/// The entries of a slot map, as (key, value) pairs in insertion order.
pub uninterp spec fn slot_entries(m: IndexMap<usize, usize>) -> Seq<(usize, usize)>;

/// Relies on `IndexMap::new`: the new map holds no entries.
#[verifier::external_body]
pub(crate) fn slot_map_new() -> (r: IndexMap<usize, usize>)
    ensures
        slot_entries(r) == Seq::<(usize, usize)>::empty(),
{
    IndexMap::new()
}

/// Relies on `IndexMap::insert`: a new key is appended last in order and
/// `None` comes back; an existing key keeps its place, its value is replaced
/// and the old value comes back.
#[verifier::external_body]
pub(crate) fn slot_map_insert(m: &mut IndexMap<usize, usize>, key: usize, value: usize) -> (r: Option<usize>)
    ensures
        (forall|i: int| 0 <= i < slot_entries(*old(m)).len() ==> slot_entries(*old(m))[i].0 != key)
            ==> r is None && slot_entries(*final(m)) == slot_entries(*old(m)).push((key, value)),
        forall|i: int| 0 <= i < slot_entries(*old(m)).len() && slot_entries(*old(m))[i].0 == key
            ==> r == Some(slot_entries(*old(m))[i].1)
                && slot_entries(*final(m)) == slot_entries(*old(m)).update(i, (key, value)),
{
    m.insert(key, value)
}

/// Relies on `IndexMap::get`: the value stored under `key`, if any.
#[verifier::external_body]
pub(crate) fn slot_map_get(m: &IndexMap<usize, usize>, key: usize) -> (r: Option<usize>)
    ensures
        forall|i: int| 0 <= i < slot_entries(*m).len() && slot_entries(*m)[i].0 == key
            ==> r == Some(slot_entries(*m)[i].1),
        (forall|i: int| 0 <= i < slot_entries(*m).len() ==> slot_entries(*m)[i].0 != key)
            ==> r is None,
{
    m.get(&key).copied()
}

} // verus!
