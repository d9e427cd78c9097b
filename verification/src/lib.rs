//! Shared, mutably aliasable storage for Hogwild-style parallel optimization.
//!
//! The crate offers two handle types that deliberately bypass the usual
//! single-writer discipline: [`HogwildArray`], a reference-counted handle to a
//! dense multi-dimensional buffer whose clones all reach the same element
//! cells, and [`Hogwild`], the same sharing pattern for a single value.
//! Value-level consistency under concurrent writers is by design left to the
//! caller; the contracts here pin down shapes, bounds, and which storage cells
//! each handle and view governs.

mod shared;
mod layout;
mod tensor;
mod array;
mod cell;

pub use crate::array::lemma_clone_views_alias;
pub use crate::array::HogwildArray;
pub use crate::array::MutView;
pub use crate::array::ReadView;
pub use crate::cell::Hogwild;
pub use crate::layout::flat_offset;
pub use crate::layout::in_bounds;
pub use crate::layout::volume;
pub use crate::layout::checked_volume;
pub use crate::layout::offset_of;
pub use crate::layout::lemma_disjoint_writes_commute;
pub use crate::layout::lemma_overlapping_writes_last_wins;
pub use crate::tensor::Tensor;
