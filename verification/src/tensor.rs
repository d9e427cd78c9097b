//! An owned dense multi-dimensional buffer.
//!
//! A [`Tensor`] pairs a shape with its row-major elements and maintains the
//! one invariant of the crate's data model: the buffer holds exactly one
//! element per addressable coordinate. It is the value a
//! [`crate::HogwildArray`] takes ownership of at construction.

use vstd::prelude::*;
use crate::layout::bounds_check;
use crate::layout::checked_volume;
use crate::layout::flat_offset;
use crate::layout::in_bounds;
use crate::layout::lemma_flat_offset_bound;
use crate::layout::offset_of;
use crate::layout::volume;

verus! {

/// An owned, dense, row-major multi-dimensional buffer.
pub struct Tensor<A> {
    shape: Vec<usize>,
    data: Vec<A>,
}

impl<A> Tensor<A> {
    /// One element per addressable coordinate.
    #[verifier::type_invariant]
    spec fn wf(self) -> bool {
        self.data@.len() == volume(self.shape@)
    }

    /// The extents of the buffer, one per axis.
    pub closed spec fn spec_shape(self) -> Seq<usize> {
        self.shape@
    }

    /// The elements of the buffer, in row-major order.
    pub closed spec fn spec_data(self) -> Seq<A> {
        self.data@
    }

    /// Build a buffer of the given shape from its row-major elements.
    /// Succeeds exactly when the element count matches the shape's volume.
    pub fn new(shape: Vec<usize>, data: Vec<A>) -> (r: Option<Tensor<A>>)
        ensures
            r is Some <==> data@.len() == volume(shape@),
            r matches Some(t) ==> t.spec_shape() == shape@ && t.spec_data() == data@,
    {
        let dn: usize = data.len();
        match checked_volume(&shape) {
            Some(n) => {
                if n == dn {
                    Some(Tensor { shape, data })
                } else {
                    None
                }
            },
            None => None,
        }
    }

    /// How many elements the buffer holds.
    pub fn len(&self) -> (r: usize)
        ensures
            r as nat == volume(self.spec_shape()),
            r as nat == self.spec_data().len(),
    {
        proof {
            use_type_invariant(self);
        }
        self.data.len()
    }

    /// Give up the buffer's parts: the shape and the row-major elements.
    pub fn into_parts(self) -> (r: (Vec<usize>, Vec<A>))
        ensures
            r.0@ == self.spec_shape(),
            r.1@ == self.spec_data(),
            r.1@.len() == volume(r.0@),
    {
        proof {
            use_type_invariant(&self);
        }
        let Tensor { shape, data } = self;
        (shape, data)
    }
}

impl<A: Copy> Tensor<A> {
    /// Read one element. Succeeds exactly on in-bounds coordinate tuples, and
    /// returns exactly the element the row-major rule places there.
    pub fn get(&self, idx: &Vec<usize>) -> (r: Option<A>)
        ensures
            r is Some <==> in_bounds(self.spec_shape(), idx@),
            r matches Some(v) ==> v == self.spec_data()[flat_offset(self.spec_shape(), idx@) as int],
    {
        proof {
            use_type_invariant(self);
        }
        let n: usize = self.data.len();
        if bounds_check(&self.shape, idx) {
            let off: usize = offset_of(&self.shape, idx);
            Some(self.data[off])
        } else {
            None
        }
    }
}

} // verus!
