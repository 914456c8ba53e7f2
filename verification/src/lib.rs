//! A dense multi-dimensional array stored in a single flat buffer.
//!
//! The container keeps an extent per dimension, computes strided offsets
//! from multi-indices, and offers bounds-checked and precondition-checked
//! element access as well as cursor iterators that pair every element with
//! its coordinate.

mod array;
mod iterator;
mod laws;
mod layout;

pub use array::extents_fit;
pub use array::Allocator;
pub use array::Array;
pub use array::Global;
pub use iterator::Iter;
pub use iterator::IterMut;
pub use laws::lemma_new_equals_new_with;
pub use laws::lemma_offset_bijection;
pub use laws::lemma_round_trip;
pub use laws::lemma_round_trip_feasible;
pub use layout::coord_of;
pub use layout::is_valid_index;
pub use layout::offset_of;
pub use layout::stride_of;
pub use layout::total_len;
