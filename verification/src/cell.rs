//! The generic shared cell: the array handle's sharing pattern applied to a
//! single value.
//!
//! A [`Hogwild`] handle and all of its clones reach the same storage cell,
//! with no synchronization: a value stored through any clone is what a later
//! read through any other returns, and nothing orders concurrent stores. The
//! type is meant for plain scalar-like values only: here that documentation
//! contract is narrowed to `Copy` types, which cannot carry cross-field
//! invariants into an inconsistent state.

use vstd::prelude::*;
use crate::shared::Shared;
use crate::shared::shared_alias;
use crate::shared::shared_default;
use crate::shared::shared_get;
use crate::shared::shared_new;
use crate::shared::shared_set;

verus! {

/// A reference-counted handle to one shared, unsynchronized value cell.
#[verifier::reject_recursive_types(T)]
pub struct Hogwild<T> {
    cell: Shared<T>,
}

impl<T> Hogwild<T> {
    /// The storage cell this handle governs. Two handles with equal cells
    /// read and write the very same storage.
    pub closed spec fn spec_cell(self) -> Shared<T> {
        self.cell
    }

    /// Wrap a value in freshly allocated shared storage.
    pub fn new(value: T) -> Self {
        Hogwild { cell: shared_new(value) }
    }
}

impl<T: Copy> Hogwild<T> {
    /// Read the cell's current value: whatever was stored last, through this
    /// handle or any of its clones. Under concurrent writers no particular
    /// value is promised, by design.
    pub fn get(&self) -> T {
        shared_get(&self.cell)
    }

    /// Store a value into the cell; it becomes readable through every clone.
    /// The handle itself (which cell it governs) is unchanged.
    pub fn set(&mut self, value: T)
        ensures
            *final(self) == *old(self),
    {
        shared_set(&self.cell, value);
    }
}

impl<T: Default> Default for Hogwild<T> {
    /// A handle to freshly allocated shared storage holding `T`'s default
    /// value.
    fn default() -> Self {
        Hogwild { cell: shared_default() }
    }
}

impl<T> Clone for Hogwild<T> {
    /// The clone governs the very same storage cell as this handle: writes
    /// through either are reads through the other.
    fn clone(&self) -> (r: Self)
        ensures
            r == *self,
    {
        Hogwild { cell: shared_alias(&self.cell) }
    }
}

} // verus!
