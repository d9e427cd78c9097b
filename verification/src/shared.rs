//! The one place where aliasing escapes the verifier.
//!
//! A [`Shared`] value is a reference-counted handle to one interior-mutable
//! storage cell. Every operation that touches the cell's contents lives here,
//! behind a trusted boundary that is kept as small as possible: creating a
//! cell, aliasing it, reading it and writing it. To the verifier a `Shared`
//! value stands for the *identity* of the underlying allocation, never for its
//! contents: contents may be changed at any time through any alias, so no
//! contract in this crate speaks about them.

use vstd::prelude::*;
use std::cell::Cell;
use std::sync::Arc;

verus! {

/// A reference-counted handle to one shared, interior-mutable storage cell.
///
/// Opaque to the verifier; its spec value stands for the identity of the
/// underlying allocation. Two handles are spec-equal exactly when they reach
/// the same cell.
#[verifier::external_body]
#[verifier::reject_recursive_types(T)]
pub struct Shared<T> {
    handle: Arc<Cell<T>>,
}

/// Relies on `Arc::new` and `Cell::new`: wraps the value in a freshly
/// allocated shared cell. Nothing is claimed of the new handle: the fresh
/// allocation's identity is unknown to the verifier.
#[verifier::external_body]
pub(crate) fn shared_new<T>(value: T) -> Shared<T> {
    Shared { handle: Arc::new(Cell::new(value)) }
}

/// Relies on `T::default`, `Arc::new` and `Cell::new`: a freshly allocated
/// shared cell holding the type's default value.
#[verifier::external_body]
pub(crate) fn shared_default<T: Default>() -> Shared<T> {
    Shared { handle: Arc::new(Cell::new(T::default())) }
}

/// Relies on `Arc::clone`: the returned handle points at the very same
/// allocation, so under this module's abstraction it equals the argument.
#[verifier::external_body]
pub(crate) fn shared_alias<T>(cell: &Shared<T>) -> (r: Shared<T>)
    ensures
        r == *cell,
{
    Shared { handle: Arc::clone(&cell.handle) }
}

/// Relies on `Cell::get`: copies out whatever the cell currently holds. Any
/// alias may store into the cell at any time, so nothing is claimed of the
/// returned value.
#[verifier::external_body]
pub(crate) fn shared_get<T: Copy>(cell: &Shared<T>) -> T {
    cell.handle.get()
}

/// Relies on `Cell::set`: stores the value into the cell through a shared
/// reference (interior mutability). The handle itself, that is the allocation
/// it reaches, is untouched.
#[verifier::external_body]
pub(crate) fn shared_set<T>(cell: &Shared<T>, value: T) {
    cell.handle.set(value)
}

} // verus!
