//! The shared multi-dimensional array handle and its views.
//!
//! A [`HogwildArray`] owns a shape and one shared storage cell per element.
//! Cloning the handle aliases every cell, so all clones read and write the
//! same buffer; views and sub-views alias the cells they cover. Contracts
//! here pin down shapes, bounds and exactly which cells each handle and view
//! governs; what a cell *holds* is deliberately never promised, because any
//! clone may store into it at any time.

use vstd::prelude::*;
use crate::layout::bounds_check;
use crate::layout::checked_volume;
use crate::layout::flat_offset;
use crate::layout::in_bounds;
use crate::layout::lemma_flat_offset_bound;
use crate::layout::lemma_sub_source;
use crate::layout::lemma_volume_concat;
use crate::layout::offset_of;
use crate::layout::sub_source;
use crate::layout::volume;
use crate::shared::Shared;
use crate::shared::shared_alias;
use crate::shared::shared_get;
use crate::shared::shared_new;
use crate::shared::shared_set;
use crate::tensor::Tensor;
use vstd::arithmetic::div_mod::lemma_fundamental_div_mod;

verus! {

/// A reference-counted handle to a shared dense multi-dimensional buffer.
/// Every clone reaches the same element cells.
#[verifier::reject_recursive_types(A)]
pub struct HogwildArray<A> {
    shape: Vec<usize>,
    cells: Vec<Shared<A>>,
}

/// A read-only view over (all or part of) a shared buffer: it aliases the
/// covered cells rather than copying them, so it observes concurrent writes.
#[verifier::reject_recursive_types(A)]
pub struct ReadView<A> {
    shape: Vec<usize>,
    cells: Vec<Shared<A>>,
}

/// A writable view over (all or part of) a shared buffer. Many such views,
/// obtained from different clones of a handle, may exist at once and may
/// write to the same cells; the contracts here only fix *which* cells.
#[verifier::reject_recursive_types(A)]
pub struct MutView<A> {
    shape: Vec<usize>,
    cells: Vec<Shared<A>>,
}

impl<A> HogwildArray<A> {
    /// One storage cell per addressable coordinate.
    #[verifier::type_invariant]
    spec fn wf(self) -> bool {
        self.cells@.len() == volume(self.shape@)
    }

    /// The extents of the buffer, one per axis. Fixed at construction: no
    /// operation of this crate ever changes a handle's shape.
    pub closed spec fn spec_shape(self) -> Seq<usize> {
        self.shape@
    }

    /// The element cells this handle governs, in row-major order. Handles
    /// with equal cell sequences read and write the very same buffer.
    pub closed spec fn spec_cells(self) -> Seq<Shared<A>> {
        self.cells@
    }
}

impl<A> ReadView<A> {
    #[verifier::type_invariant]
    spec fn wf(self) -> bool {
        self.cells@.len() == volume(self.shape@)
    }

    /// The extents of the viewed buffer.
    pub closed spec fn spec_shape(self) -> Seq<usize> {
        self.shape@
    }

    /// The cells the view aliases, in row-major order.
    pub closed spec fn spec_cells(self) -> Seq<Shared<A>> {
        self.cells@
    }
}

impl<A> MutView<A> {
    #[verifier::type_invariant]
    spec fn wf(self) -> bool {
        self.cells@.len() == volume(self.shape@)
    }

    /// The extents of the viewed buffer.
    pub closed spec fn spec_shape(self) -> Seq<usize> {
        self.shape@
    }

    /// The cells the view aliases, in row-major order.
    pub closed spec fn spec_cells(self) -> Seq<Shared<A>> {
        self.cells@
    }
}

/// Copy a shape vector.
fn copy_extents(shape: &Vec<usize>) -> (r: Vec<usize>)
    ensures
        r@ == shape@,
{
    let n: usize = shape.len();
    let mut out: Vec<usize> = Vec::new();
    let mut k: usize = 0;
    while k < n
        invariant
            n == shape@.len(),
            k <= n,
            out@.len() == k,
            forall|m: int| 0 <= m < k ==> #[trigger] out@[m] == shape@[m],
        decreases n - k,
    {
        out.push(shape[k]);
        k += 1;
    }
    proof {
        assert(out@ =~= shape@);
    }
    out
}

/// Alias every cell of a vector: the result governs the same cells, in the
/// same order.
fn alias_cells<A>(cells: &Vec<Shared<A>>) -> (r: Vec<Shared<A>>)
    ensures
        r@ == cells@,
{
    let n: usize = cells.len();
    let mut out: Vec<Shared<A>> = Vec::new();
    let mut k: usize = 0;
    while k < n
        invariant
            n == cells@.len(),
            k <= n,
            out@.len() == k,
            forall|m: int| 0 <= m < k ==> #[trigger] out@[m] == cells@[m],
        decreases n - k,
    {
        out.push(shared_alias(&cells[k]));
        k += 1;
    }
    proof {
        assert(out@ =~= cells@);
    }
    out
}

/// Select, for the sub-buffer that fixes `axis` at `index`, the aliased cells
/// in row-major order, together with the reduced shape. Succeeds exactly when
/// axis and index are within the shape.
fn select_sub_cells<A>(
    shape: &Vec<usize>,
    cells: &Vec<Shared<A>>,
    axis: usize,
    index: usize,
) -> (r: Option<(Vec<usize>, Vec<Shared<A>>)>)
    requires
        cells@.len() == volume(shape@),
    ensures
        r is Some <==> axis < shape@.len() && index < shape@[axis as int],
        r matches Some(pair) ==> ({
            &&& pair.0@ == shape@.remove(axis as int)
            &&& pair.1@.len() == volume(pair.0@)
            &&& forall|u: Seq<usize>|
                in_bounds(pair.0@, u) ==> pair.1@[flat_offset(pair.0@, u) as int] == cells@[flat_offset(
                    shape@,
                    u.insert(axis as int, index),
                ) as int]
        }),
{
    if axis >= shape.len() {
        return None;
    }
    let extent: usize = shape[axis];
    if index >= extent {
        return None;
    }
    let total: usize = cells.len();
    let n: usize = shape.len();

    let mut tail: Vec<usize> = Vec::new();
    let mut k2: usize = axis + 1;
    while k2 < n
        invariant
            n == shape@.len(),
            axis + 1 <= k2 <= n,
            tail@.len() == k2 - axis - 1,
            forall|m: int| 0 <= m < tail@.len() ==> #[trigger] tail@[m] == shape@[axis + 1 + m],
        decreases n - k2,
    {
        tail.push(shape[k2]);
        k2 += 1;
    }

    let mut subshape: Vec<usize> = Vec::new();
    let mut k: usize = 0;
    while k < axis
        invariant
            axis < shape@.len(),
            k <= axis,
            subshape@.len() == k,
            forall|m: int| 0 <= m < k ==> #[trigger] subshape@[m] == shape@[m],
        decreases axis - k,
    {
        subshape.push(shape[k]);
        k += 1;
    }
    let tail_len: usize = tail.len();
    let mut k3: usize = 0;
    while k3 < tail_len
        invariant
            tail_len == tail@.len(),
            k3 <= tail_len,
            subshape@.len() == axis + k3,
            forall|m: int| 0 <= m < axis ==> #[trigger] subshape@[m] == shape@[m],
            forall|m: int| 0 <= m < k3 ==> #[trigger] subshape@[axis + m] == tail@[m],
            axis < shape@.len(),
        decreases tail_len - k3,
    {
        subshape.push(tail[k3]);
        k3 += 1;
    }

    let ghost p = shape@.take(axis as int);
    let ghost s = shape@.skip(axis as int + 1);
    proof {
        assert(tail@ =~= s);
        assert forall|m: int| 0 <= m < subshape@.len() implies subshape@[m] == (p + s)[m] by {
            if m < axis {
            } else {
                assert(subshape@[axis + (m - axis)] == tail@[m - axis]);
            }
        }
        assert(subshape@ =~= p + s);
        assert(subshape@ =~= shape@.remove(axis as int));
        assert(shape@ =~= p.push(extent) + s);
        lemma_volume_concat(p.push(extent), s);
        assert(p.push(extent).drop_last() =~= p);
        assert(volume(p.push(extent)) == volume(p) * (extent as nat));
        lemma_volume_concat(p, s);
        assert(volume(shape@) == volume(subshape@) * (extent as nat)) by (nonlinear_arith)
            requires
                volume(shape@) == (volume(p) * (extent as nat)) * volume(s),
                volume(subshape@) == volume(p) * volume(s),
        {}
    }

    let sub_len: usize = match checked_volume(&subshape) {
        Some(v) => v,
        None => {
            proof {
                assert(volume(subshape@) <= volume(subshape@) * (extent as nat)) by (nonlinear_arith)
                    requires
                        extent >= 1,
                {}
                assert(false);
            }
            // never reached: the sub-buffer's volume was just shown to fit
            0
        },
    };

    let mut out: Vec<Shared<A>> = Vec::new();
    if sub_len == 0 {
        proof {
            assert forall|u: Seq<usize>| !in_bounds(subshape@, u) by {
                if in_bounds(subshape@, u) {
                    lemma_flat_offset_bound(subshape@, u);
                }
            }
        }
        return Some((subshape, out));
    }

    let inner: usize = match checked_volume(&tail) {
        Some(v) => v,
        None => {
            proof {
                assert(volume(p) >= 1 && volume(s) >= 1) by (nonlinear_arith)
                    requires
                        volume(p) * volume(s) >= 1,
                {}
                assert(volume(s) <= volume(subshape@)) by (nonlinear_arith)
                    requires
                        volume(subshape@) == volume(p) * volume(s),
                        volume(p) >= 1,
                {}
                assert(false);
            }
            // never reached: the suffix volume was just shown to fit
            0
        },
    };
    proof {
        assert(volume(p) >= 1 && inner >= 1) by (nonlinear_arith)
            requires
                volume(p) * (inner as nat) >= 1,
                volume(p) * (inner as nat) == sub_len as nat,
                inner as nat == volume(s),
        {}
        assert((extent as nat) * (inner as nat) <= volume(shape@)) by (nonlinear_arith)
            requires
                volume(shape@) == (volume(p) * (extent as nat)) * volume(s),
                volume(p) >= 1,
                inner as nat == volume(s),
        {}
    }
    let ei: usize = extent * inner;

    let ghost volp = volume(p);
    let mut j: usize = 0;
    while j < sub_len
        invariant
            out@.len() == j,
            j <= sub_len,
            forall|jj: int|
                0 <= jj < j ==> #[trigger] out@[jj] == cells@[sub_source(
                    shape@,
                    axis as int,
                    index,
                    jj,
                )],
            cells@.len() == volume(shape@),
            total as nat == volume(shape@),
            sub_len as nat == volume(subshape@),
            inner as nat == volume(s),
            ei == extent * inner,
            inner >= 1,
            volp >= 1,
            volp == volume(p),
            volume(subshape@) == volp * (inner as nat),
            volume(shape@) == (volp * (extent as nat)) * volume(s),
            index < extent,
            s == shape@.skip(axis as int + 1),
            p == shape@.take(axis as int),
            axis < shape@.len(),
            extent == shape@[axis as int],
        decreases sub_len - j,
    {
        let q: usize = j / inner;
        let l: usize = j % inner;
        proof {
            lemma_fundamental_div_mod(j as int, inner as int);
            assert(q < volp) by (nonlinear_arith)
                requires
                    (j as int) == (inner as int) * (q as int) + (l as int),
                    0 <= (l as int) < (inner as int),
                    (j as nat) < volp * (inner as nat),
            {}
            assert((q as int) * (ei as int) + (index as int) * (inner as int) + (l as int) < (total
                as int)) by (nonlinear_arith)
                requires
                    (q as int) <= (volp as int) - 1,
                    (index as int) <= (extent as int) - 1,
                    (l as int) <= (inner as int) - 1,
                    (ei as int) == (extent as int) * (inner as int),
                    (total as int) == ((volp as int) * (extent as int)) * (inner as int),
                    (q as int) >= 0,
                    (index as int) >= 0,
                    (l as int) >= 0,
                    (inner as int) >= 1,
                    (extent as int) >= 1,
                    (volp as int) >= 1,
            {}
        }
        let src: usize = q * ei + index * inner + l;
        out.push(shared_alias(&cells[src]));
        j += 1;
    }

    proof {
        assert forall|u: Seq<usize>|
            in_bounds(subshape@, u) implies out@[flat_offset(subshape@, u) as int] == cells@[flat_offset(
            shape@,
            u.insert(axis as int, index),
        ) as int] by {
            lemma_flat_offset_bound(subshape@, u);
            lemma_sub_source(shape@, axis as int, index, u);
        }
    }
    Some((subshape, out))
}

impl<A: Copy> HogwildArray<A> {
    /// Take ownership of a buffer and wrap each element in shared storage.
    /// Afterwards the elements are reachable only through this handle and its
    /// clones. Never fails: the buffer type already guarantees its own
    /// shape/element coherence.
    pub fn from_tensor(t: Tensor<A>) -> (r: Self)
        ensures
            r.spec_shape() == t.spec_shape(),
    {
        let (shape, data) = t.into_parts();
        let n: usize = data.len();
        let mut cells: Vec<Shared<A>> = Vec::new();
        let mut k: usize = 0;
        while k < n
            invariant
                n == data@.len(),
                k <= n,
                cells@.len() == k,
            decreases n - k,
        {
            cells.push(shared_new(data[k]));
            k += 1;
        }
        HogwildArray { shape, cells }
    }

    /// A read-only view of the whole buffer. It aliases every cell, so a
    /// concurrent writer through another clone remains observable: by
    /// design, such a read is a permitted outcome, not an error.
    pub fn view(&self) -> (r: ReadView<A>)
        ensures
            r.spec_shape() == self.spec_shape(),
            r.spec_cells() == self.spec_cells(),
    {
        proof {
            use_type_invariant(self);
        }
        ReadView { shape: copy_extents(&self.shape), cells: alias_cells(&self.cells) }
    }

    /// A writable view of the whole buffer. Views obtained from different
    /// clones alias the same cells and may write concurrently; nothing here
    /// detects or prevents that.
    pub fn view_mut(&mut self) -> (r: MutView<A>)
        ensures
            r.spec_shape() == old(self).spec_shape(),
            r.spec_cells() == old(self).spec_cells(),
            *final(self) == *old(self),
    {
        proof {
            use_type_invariant(&*self);
        }
        MutView { shape: copy_extents(&self.shape), cells: alias_cells(&self.cells) }
    }

    /// A read-only view of the sub-buffer that fixes `axis` at `index`.
    /// Succeeds exactly when axis and index are within the shape: the only
    /// checked failure mode of the handle. The view aliases exactly the cells
    /// the row-major rule assigns to the fixed coordinate.
    pub fn subview(&self, axis: usize, index: usize) -> (r: Option<ReadView<A>>)
        ensures
            r is Some <==> axis < self.spec_shape().len() && index < self.spec_shape()[axis as int],
            r matches Some(v) ==> ({
                &&& v.spec_shape() == self.spec_shape().remove(axis as int)
                &&& forall|u: Seq<usize>|
                    in_bounds(v.spec_shape(), u) ==> v.spec_cells()[flat_offset(
                        v.spec_shape(),
                        u,
                    ) as int] == self.spec_cells()[flat_offset(
                        self.spec_shape(),
                        u.insert(axis as int, index),
                    ) as int]
            }),
    {
        proof {
            use_type_invariant(self);
        }
        match select_sub_cells(&self.shape, &self.cells, axis, index) {
            Some((subshape, subcells)) => Some(ReadView { shape: subshape, cells: subcells }),
            None => None,
        }
    }

    /// A writable view of the sub-buffer that fixes `axis` at `index`; the
    /// same selection as [`Self::subview`], aliasing the same cells.
    pub fn subview_mut(&mut self, axis: usize, index: usize) -> (r: Option<MutView<A>>)
        ensures
            r is Some <==> axis < old(self).spec_shape().len() && index < old(self).spec_shape()[axis as int],
            r matches Some(v) ==> ({
                &&& v.spec_shape() == old(self).spec_shape().remove(axis as int)
                &&& forall|u: Seq<usize>|
                    in_bounds(v.spec_shape(), u) ==> v.spec_cells()[flat_offset(
                        v.spec_shape(),
                        u,
                    ) as int] == old(self).spec_cells()[flat_offset(
                        old(self).spec_shape(),
                        u.insert(axis as int, index),
                    ) as int]
            }),
            *final(self) == *old(self),
    {
        proof {
            use_type_invariant(&*self);
        }
        match select_sub_cells(&self.shape, &self.cells, axis, index) {
            Some((subshape, subcells)) => Some(MutView { shape: subshape, cells: subcells }),
            None => None,
        }
    }

    /// Copy out the elements as a flat row-major sequence. This handle's
    /// storage is always contiguous, so the copy is always available; each
    /// element is whatever its cell held at the moment it was read, with no
    /// consistency claim across elements under concurrent writers.
    pub fn as_slice(&self) -> (r: Option<Vec<A>>)
        ensures
            r is Some,
            r matches Some(v) ==> v@.len() == volume(self.spec_shape()),
    {
        proof {
            use_type_invariant(self);
        }
        let n: usize = self.cells.len();
        let mut out: Vec<A> = Vec::new();
        let mut k: usize = 0;
        while k < n
            invariant
                n == self.cells@.len(),
                k <= n,
                out@.len() == k,
            decreases n - k,
        {
            out.push(shared_get(&self.cells[k]));
            k += 1;
        }
        Some(out)
    }
}

/// Law (clone aliasing): a handle and its clone expose views over the very
/// same storage. Whenever two views carry the cells of two handles that
/// govern equal cell sequences, as a handle and its clone do, then for any
/// in-bounds coordinate, the cell a writable view of the one writes is
/// exactly the cell a view of the other reads.
pub proof fn lemma_clone_views_alias<A>(
    h1: HogwildArray<A>,
    h2: HogwildArray<A>,
    v1: ReadView<A>,
    v2: MutView<A>,
    idx: Seq<usize>,
)
    requires
        h2.spec_shape() == h1.spec_shape(),
        h2.spec_cells() == h1.spec_cells(),
        v1.spec_shape() == h1.spec_shape(),
        v1.spec_cells() == h1.spec_cells(),
        v2.spec_shape() == h2.spec_shape(),
        v2.spec_cells() == h2.spec_cells(),
        in_bounds(h1.spec_shape(), idx),
    ensures
        v2.spec_cells()[flat_offset(v2.spec_shape(), idx) as int] == v1.spec_cells()[flat_offset(
            v1.spec_shape(),
            idx,
        ) as int],
{
}

impl<A: Copy> Clone for HogwildArray<A> {
    /// The clone has the same shape and governs the very same element cells,
    /// in the same order: writes through either handle's views land in the
    /// one shared buffer, observable through the other.
    fn clone(&self) -> (r: Self)
        ensures
            r.spec_shape() == self.spec_shape(),
            r.spec_cells() == self.spec_cells(),
    {
        proof {
            use_type_invariant(self);
        }
        HogwildArray { shape: copy_extents(&self.shape), cells: alias_cells(&self.cells) }
    }
}

impl<A: Copy> ReadView<A> {
    /// Read the element at a coordinate tuple. Succeeds exactly on in-bounds
    /// tuples; the value read is whatever the addressed cell held, possibly
    /// stored by a concurrent writer through another view.
    pub fn get(&self, idx: &Vec<usize>) -> (r: Option<A>)
        ensures
            r is Some <==> in_bounds(self.spec_shape(), idx@),
    {
        proof {
            use_type_invariant(self);
        }
        let n: usize = self.cells.len();
        if bounds_check(&self.shape, idx) {
            let off: usize = offset_of(&self.shape, idx);
            Some(shared_get(&self.cells[off]))
        } else {
            None
        }
    }
}

impl<A: Copy> MutView<A> {
    /// Read the element at a coordinate tuple, as [`ReadView::get`] does.
    pub fn get(&self, idx: &Vec<usize>) -> (r: Option<A>)
        ensures
            r is Some <==> in_bounds(self.spec_shape(), idx@),
    {
        proof {
            use_type_invariant(self);
        }
        let n: usize = self.cells.len();
        if bounds_check(&self.shape, idx) {
            let off: usize = offset_of(&self.shape, idx);
            Some(shared_get(&self.cells[off]))
        } else {
            None
        }
    }

    /// Store a value at a coordinate tuple, into the cell every aliasing
    /// handle and view shares. Returns whether the tuple was in bounds: the
    /// only checked failure mode; which cells the view governs is unchanged.
    pub fn set(&mut self, idx: &Vec<usize>, value: A) -> (ok: bool)
        ensures
            ok == in_bounds(old(self).spec_shape(), idx@),
            *final(self) == *old(self),
    {
        proof {
            use_type_invariant(&*self);
        }
        let n: usize = self.cells.len();
        if bounds_check(&self.shape, idx) {
            let off: usize = offset_of(&self.shape, idx);
            shared_set(&self.cells[off], value);
            true
        } else {
            false
        }
    }
}

} // verus!
