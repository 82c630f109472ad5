//! A reusable, type-erased growable memory buffer for scratch storage.
//!
//! A [`ScratchBuffer`] owns a single untyped byte allocation together with a
//! count of the bytes logically in use.  A caller views the buffer as a
//! sequence of one element type at a time; switching to another element type
//! with [`ScratchBuffer::clear_and_use_as`] discards the logical contents but
//! keeps the allocation, so repeated units of work can reuse the same memory
//! for arrays of different element types.
//!
//! Capacity grows to the smallest power of two that holds the bytes in use,
//! and growth never alters the elements already stored.

use vstd::prelude::*;

mod buffer;
mod growth;
mod item;
mod laws;
mod order;
mod search;

verus! {

pub use crate::buffer::ScratchBuffer;
pub use crate::item::ScratchItem;
pub use crate::search::key_fn_total;
pub use crate::search::key_fn_models;
pub use crate::search::sorted_by_key;
pub use crate::search::sorted_insert_outcome;
pub use crate::laws::lemma_insert_preserves_sorted;
pub use crate::laws::lemma_sorted_insert_idempotent;
pub use crate::order::lemma_obeys_cmp_unpack;
pub use crate::order::lemma_cmp_flip;
pub use crate::order::lemma_cmp_refl;
pub use crate::order::lemma_cmp_less_trans;
pub use crate::order::lemma_cmp_less_eq_trans;
pub use crate::order::lemma_cmp_greater_trans;
pub use crate::growth::is_pow2;
pub use crate::growth::is_min_pow2_at_least;
pub use crate::growth::lemma_min_pow2_at_least_is_min;
pub use crate::growth::next_pow2;

} // verus!
