//! Structure-of-arrays layouts.
//!
//! A [`LayoutBuilder`] collects fields by size and alignment; finishing it
//! orders them by descending alignment into a [`BlockLayout`], which carves
//! a caller's raw memory region into one tightly packed, aligned array per
//! field, all of the same length. The layout never allocates: it computes
//! offsets, alignments and element counts, and a [`Block`] records them.

mod arith;
mod block;
mod block_layout;
mod builder;
mod field;
mod laws;
mod slot_map;

pub use block::{
    aligned_end, aligned_start, block_len, is_applied, pad, usable_size, Block, BlockModel,
};
pub use block_layout::{has_slot, is_packing_of, layout_ok, precedes, BlockLayout, LayoutModel};
pub use builder::{LayoutBuilder, LayoutError, LayoutSlot};
pub use field::{field_ok, fields_ok, fits_layout, max_align, prefix_size, total_size, MemLayout};
pub use laws::{
    lemma_apply_unique, lemma_empty_layout, lemma_len_exact, lemma_offsets_aligned,
    lemma_packing_unique, lemma_padding_free, lemma_slot_address,
};
pub use slot_map::slot_entries;
