//! Row-major layout of a dense multi-dimensional buffer.
//!
//! A shape is a sequence of extents; a coordinate tuple addresses one element.
//! This module fixes the mapping from coordinate tuples to flat positions and
//! proves the facts the handle types rely on: every in-bounds coordinate lands
//! inside the buffer, distinct coordinates land at distinct positions, and a
//! sub-buffer obtained by fixing one axis selects exactly the positions the
//! row-major rule prescribes.

use vstd::prelude::*;
use vstd::arithmetic::div_mod::lemma_fundamental_div_mod_converse_div;
use vstd::arithmetic::div_mod::lemma_fundamental_div_mod_converse_mod;

verus! {

/// Number of elements of a dense buffer of this shape: the product of the
/// extents. The empty shape describes a scalar buffer of one element.
pub open spec fn volume(shape: Seq<usize>) -> nat
    decreases shape.len(),
{
    if shape.len() == 0 {
        1
    } else {
        volume(shape.drop_last()) * (shape.last() as nat)
    }
}

/// A coordinate tuple addresses an element of a buffer of the given shape:
/// one coordinate per axis, each below its extent.
pub open spec fn in_bounds(shape: Seq<usize>, idx: Seq<usize>) -> bool {
    idx.len() == shape.len() && (forall|k: int| 0 <= k < idx.len() ==> #[trigger] idx[k] < shape[k])
}

/// Row-major flat position of a coordinate tuple: the last axis varies
/// fastest.
pub open spec fn flat_offset(shape: Seq<usize>, idx: Seq<usize>) -> nat
    decreases shape.len(),
{
    if shape.len() == 0 {
        0
    } else {
        flat_offset(shape.drop_last(), idx.drop_last()) * (shape.last() as nat) + (idx.last() as nat)
    }
}

/// Flat position, in a buffer of shape `shape`, of the cell that a sub-buffer
/// fixing axis `axis` at `index` reaches through its own flat position `j`.
pub open spec fn sub_source(shape: Seq<usize>, axis: int, index: usize, j: int) -> int {
    let inner = volume(shape.skip(axis + 1)) as int;
    let extent = shape[axis] as int;
    (j / inner) * (extent * inner) + (index as int) * inner + (j % inner)
}

/// An in-bounds coordinate tuple lands strictly inside the buffer.
pub proof fn lemma_flat_offset_bound(shape: Seq<usize>, idx: Seq<usize>)
    requires
        in_bounds(shape, idx),
    ensures
        flat_offset(shape, idx) < volume(shape),
    decreases shape.len(),
{
    if shape.len() == 0 {
    } else {
        let s = shape.drop_last();
        let i = idx.drop_last();
        assert forall|k: int| 0 <= k < i.len() implies #[trigger] i[k] < s[k] by {
            assert(idx[k] < shape[k]);
        }
        lemma_flat_offset_bound(s, i);
        assert(flat_offset(shape, idx) < volume(shape)) by (nonlinear_arith)
            requires
                flat_offset(s, i) < volume(s),
                (idx.last() as nat) < (shape.last() as nat),
                flat_offset(shape, idx) == flat_offset(s, i) * (shape.last() as nat) + (idx.last() as nat),
                volume(shape) == volume(s) * (shape.last() as nat),
        {}
    }
}

/// Distinct in-bounds coordinate tuples land at distinct flat positions.
pub proof fn lemma_flat_offset_injective(shape: Seq<usize>, i: Seq<usize>, j: Seq<usize>)
    requires
        in_bounds(shape, i),
        in_bounds(shape, j),
        i != j,
    ensures
        flat_offset(shape, i) != flat_offset(shape, j),
    decreases shape.len(),
{
    if shape.len() == 0 {
        assert(i =~= j);
    } else {
        let s = shape.drop_last();
        let i1 = i.drop_last();
        let j1 = j.drop_last();
        assert forall|k: int| 0 <= k < i1.len() implies #[trigger] i1[k] < s[k] by {
            assert(i[k] < shape[k]);
        }
        assert forall|k: int| 0 <= k < j1.len() implies #[trigger] j1[k] < s[k] by {
            assert(j[k] < shape[k]);
        }
        if i1 == j1 {
            if i.last() == j.last() {
                assert forall|k: int| 0 <= k < i.len() implies i[k] == j[k] by {
                    if k < i.len() - 1 {
                        assert(i[k] == i1[k]);
                        assert(j[k] == j1[k]);
                    } else {
                        assert(i[k] == i.last());
                        assert(j[k] == j.last());
                    }
                }
                assert(i =~= j);
            } else {
                assert(flat_offset(shape, i) != flat_offset(shape, j));
            }
        } else {
            lemma_flat_offset_injective(s, i1, j1);
            lemma_flat_offset_bound(s, i1);
            lemma_flat_offset_bound(s, j1);
            assert(flat_offset(shape, i) != flat_offset(shape, j)) by (nonlinear_arith)
                requires
                    flat_offset(s, i1) != flat_offset(s, j1),
                    (i.last() as nat) < (shape.last() as nat),
                    (j.last() as nat) < (shape.last() as nat),
                    flat_offset(shape, i) == flat_offset(s, i1) * (shape.last() as nat) + (i.last() as nat),
                    flat_offset(shape, j) == flat_offset(s, j1) * (shape.last() as nat) + (j.last() as nat),
            {}
        }
    }
}

/// A shape with a zero extent has no elements.
pub proof fn lemma_volume_with_zero(shape: Seq<usize>, k: int)
    requires
        0 <= k < shape.len(),
        shape[k] == 0,
    ensures
        volume(shape) == 0,
    decreases shape.len(),
{
    if k == shape.len() - 1 {
        assert(shape.last() == shape[k]);
        assert(volume(shape) == volume(shape.drop_last()) * (shape.last() as nat));
        assert(volume(shape.drop_last()) * 0 == 0) by (nonlinear_arith) {}
    } else {
        assert(shape.drop_last()[k] == shape[k]);
        lemma_volume_with_zero(shape.drop_last(), k);
        assert(volume(shape) == volume(shape.drop_last()) * (shape.last() as nat));
        assert(0 * (shape.last() as nat) == 0) by (nonlinear_arith) {}
    }
}

/// With no zero extent among the later axes, a longer prefix has at least the
/// volume of a shorter one.
pub proof fn lemma_volume_take_monotone(shape: Seq<usize>, a: int, b: int)
    requires
        0 <= a <= b <= shape.len(),
        forall|k: int| a <= k < b ==> #[trigger] shape[k] >= 1,
    ensures
        volume(shape.take(a)) <= volume(shape.take(b)),
    decreases b - a,
{
    if a == b {
    } else {
        lemma_volume_take_monotone(shape, a, b - 1);
        assert(shape.take(b).drop_last() =~= shape.take(b - 1));
        assert(shape.take(b).last() == shape[b - 1]);
        assert(volume(shape.take(b - 1)) <= volume(shape.take(b))) by (nonlinear_arith)
            requires
                volume(shape.take(b)) == volume(shape.take(b - 1)) * (shape[b - 1] as nat),
                shape[b - 1] >= 1,
        {}
    }
}

/// The volume of a concatenation is the product of the volumes.
pub proof fn lemma_volume_concat(a: Seq<usize>, b: Seq<usize>)
    ensures
        volume(a + b) == volume(a) * volume(b),
    decreases b.len(),
{
    if b.len() == 0 {
        assert(a + b =~= a);
        assert(volume(b) == 1);
        assert(volume(a + b) == volume(a));
    } else {
        assert((a + b).drop_last() =~= a + b.drop_last());
        assert((a + b).last() == b.last());
        assert((a + b).len() != 0);
        assert(volume(a + b) == volume((a + b).drop_last()) * ((a + b).last() as nat));
        lemma_volume_concat(a, b.drop_last());
        assert(volume(a + b) == volume(a) * volume(b)) by (nonlinear_arith)
            requires
                volume(a + b) == (volume(a) * volume(b.drop_last())) * (b.last() as nat),
                volume(b) == volume(b.drop_last()) * (b.last() as nat),
        {}
    }
}

/// Row-major offsets compose across a concatenation: the front coordinates
/// select a block of `volume(b)` elements, the back coordinates select within
/// it.
pub proof fn lemma_flat_offset_concat(a: Seq<usize>, b: Seq<usize>, i: Seq<usize>, j: Seq<usize>)
    requires
        i.len() == a.len(),
        j.len() == b.len(),
    ensures
        flat_offset(a + b, i + j) == flat_offset(a, i) * volume(b) + flat_offset(b, j),
    decreases b.len(),
{
    if b.len() == 0 {
        assert(a + b =~= a);
        assert(i + j =~= i);
        assert(volume(b) == 1);
        assert(flat_offset(b, j) == 0);
        assert(flat_offset(a + b, i + j) == flat_offset(a, i));
    } else {
        assert((a + b).len() != 0);
        assert((a + b).drop_last() =~= a + b.drop_last());
        assert((i + j).drop_last() =~= i + j.drop_last());
        assert((a + b).last() == b.last());
        assert((i + j).last() == j.last());
        lemma_flat_offset_concat(a, b.drop_last(), i, j.drop_last());
        assert(flat_offset(a + b, i + j) == flat_offset(a, i) * volume(b) + flat_offset(b, j))
            by (nonlinear_arith)
            requires
                flat_offset(a + b, i + j) == (flat_offset(a, i) * volume(b.drop_last()) + flat_offset(
                    b.drop_last(),
                    j.drop_last(),
                )) * (b.last() as nat) + (j.last() as nat),
                volume(b) == volume(b.drop_last()) * (b.last() as nat),
                flat_offset(b, j) == flat_offset(b.drop_last(), j.drop_last()) * (b.last() as nat) + (
                j.last() as nat),
        {}
    }
}

/// Fixing axis `axis` at `index`: the coordinate tuple obtained by inserting
/// `index` into a sub-buffer coordinate lands exactly at the position
/// `sub_source` computes from the sub-buffer's own flat offset.
pub proof fn lemma_sub_source(shape: Seq<usize>, axis: int, index: usize, u: Seq<usize>)
    requires
        0 <= axis < shape.len(),
        index < shape[axis],
        in_bounds(shape.remove(axis), u),
    ensures
        in_bounds(shape, u.insert(axis, index)),
        flat_offset(shape, u.insert(axis, index)) == sub_source(
            shape,
            axis,
            index,
            flat_offset(shape.remove(axis), u) as int,
        ),
{
    let p = shape.take(axis);
    let s = shape.skip(axis + 1);
    let u1 = u.take(axis);
    let u2 = u.skip(axis);
    let e: usize = shape[axis];
    let full = u.insert(axis, index);

    assert(shape.remove(axis) =~= p + s);
    assert(shape =~= p.push(e) + s);
    assert(u =~= u1 + u2);
    assert(full =~= u1.push(index) + u2);

    assert forall|k: int| 0 <= k < u1.len() implies #[trigger] u1[k] < p[k] by {
        assert(u[k] < shape.remove(axis)[k]);
    }
    assert forall|k: int| 0 <= k < u2.len() implies #[trigger] u2[k] < s[k] by {
        assert(u[axis + k] < shape.remove(axis)[axis + k]);
    }
    assert forall|k: int| 0 <= k < full.len() implies #[trigger] full[k] < shape[k] by {
        if k < axis {
            assert(full[k] == u1[k]);
            assert(shape[k] == p[k]);
        } else if k == axis {
        } else {
            assert(full[k] == u2[k - axis - 1]);
            assert(shape[k] == s[k - axis - 1]);
        }
    }

    lemma_flat_offset_concat(p.push(e), s, u1.push(index), u2);
    lemma_flat_offset_concat(p, s, u1, u2);
    lemma_flat_offset_bound(s, u2);

    let q: int = flat_offset(p, u1) as int;
    let l: int = flat_offset(s, u2) as int;
    let inner: int = volume(s) as int;
    let j: int = flat_offset(shape.remove(axis), u) as int;

    assert(p.push(e).drop_last() =~= p);
    assert(u1.push(index).drop_last() =~= u1);
    assert(flat_offset(p.push(e), u1.push(index)) == q * (e as int) + (index as int));
    assert(j == q * inner + l);
    lemma_fundamental_div_mod_converse_div(j, inner, q, l);
    lemma_fundamental_div_mod_converse_mod(j, inner, q, l);
    assert(flat_offset(shape, full) == (q * (e as int) + (index as int)) * inner + l);
    assert((q * (e as int) + (index as int)) * inner + l == q * ((e as int) * inner) + (index as int)
        * inner + l) by (nonlinear_arith)
    {}
}

/// Law: writes to two distinct coordinates land at distinct flat positions,
/// and the two element updates commute: the buffer contents after both writes
/// do not depend on the order in which they were applied.
pub proof fn lemma_disjoint_writes_commute<A>(
    data: Seq<A>,
    shape: Seq<usize>,
    i: Seq<usize>,
    j: Seq<usize>,
    u: A,
    v: A,
)
    requires
        in_bounds(shape, i),
        in_bounds(shape, j),
        i != j,
        data.len() == volume(shape),
    ensures
        flat_offset(shape, i) != flat_offset(shape, j),
        data.update(flat_offset(shape, i) as int, u).update(flat_offset(shape, j) as int, v)
            == data.update(flat_offset(shape, j) as int, v).update(flat_offset(shape, i) as int, u),
{
    lemma_flat_offset_injective(shape, i, j);
    lemma_flat_offset_bound(shape, i);
    lemma_flat_offset_bound(shape, j);
    let oi: int = flat_offset(shape, i) as int;
    let oj: int = flat_offset(shape, j) as int;
    assert(data.update(oi, u).update(oj, v) =~= data.update(oj, v).update(oi, u));
}

/// Law: of two writes to the same coordinate, the later one is what the
/// coordinate holds afterwards; the buffer never holds a value neither writer
/// wrote there.
pub proof fn lemma_overlapping_writes_last_wins<A>(
    data: Seq<A>,
    shape: Seq<usize>,
    i: Seq<usize>,
    u: A,
    v: A,
)
    requires
        in_bounds(shape, i),
        data.len() == volume(shape),
    ensures
        data.update(flat_offset(shape, i) as int, u).update(flat_offset(shape, i) as int, v)[flat_offset(
            shape,
            i,
        ) as int] == v,
{
    lemma_flat_offset_bound(shape, i);
}

/// Compute the volume of a shape, reporting overflow instead of wrapping.
pub fn checked_volume(shape: &Vec<usize>) -> (r: Option<usize>)
    ensures
        r matches Some(v) ==> v as nat == volume(shape@),
        r is None ==> volume(shape@) > usize::MAX,
{
    let n: usize = shape.len();
    let mut k: usize = 0;
    while k < n
        invariant
            n == shape@.len(),
            k <= n,
            forall|m: int| 0 <= m < k ==> #[trigger] shape@[m] >= 1,
        decreases n - k,
    {
        if shape[k] == 0 {
            proof {
                lemma_volume_with_zero(shape@, k as int);
            }
            return Some(0);
        }
        k += 1;
    }
    let mut acc: usize = 1;
    let mut m: usize = 0;
    while m < n
        invariant
            n == shape@.len(),
            m <= n,
            forall|q: int| 0 <= q < n ==> #[trigger] shape@[q] >= 1,
            acc as nat == volume(shape@.take(m as int)),
        decreases n - m,
    {
        let e: usize = shape[m];
        proof {
            assert(shape@.take(m + 1 as int).drop_last() =~= shape@.take(m as int));
            assert(shape@.take(m + 1 as int).last() == shape@[m as int]);
        }
        match acc.checked_mul(e) {
            Some(v) => {
                acc = v;
            },
            None => {
                proof {
                    lemma_volume_take_monotone(shape@, m + 1 as int, n as int);
                    assert(shape@.take(n as int) =~= shape@);
                }
                return None;
            },
        }
        m += 1;
    }
    proof {
        assert(shape@.take(n as int) =~= shape@);
    }
    Some(acc)
}

/// Whether a coordinate tuple addresses an element of a buffer of this shape.
pub fn bounds_check(shape: &Vec<usize>, idx: &Vec<usize>) -> (r: bool)
    ensures
        r == in_bounds(shape@, idx@),
{
    if idx.len() != shape.len() {
        return false;
    }
    let n: usize = shape.len();
    let mut k: usize = 0;
    while k < n
        invariant
            n == shape@.len(),
            idx@.len() == n,
            k <= n,
            forall|m: int| 0 <= m < k ==> #[trigger] idx@[m] < shape@[m],
        decreases n - k,
    {
        if idx[k] >= shape[k] {
            return false;
        }
        k += 1;
    }
    true
}

/// Row-major flat position of an in-bounds coordinate tuple.
pub fn offset_of(shape: &Vec<usize>, idx: &Vec<usize>) -> (r: usize)
    requires
        in_bounds(shape@, idx@),
        volume(shape@) <= usize::MAX,
    ensures
        r as nat == flat_offset(shape@, idx@),
        (r as nat) < volume(shape@),
{
    let n: usize = shape.len();
    let mut acc: usize = 0;
    let mut k: usize = 0;
    proof {
        assert(shape@.take(n as int) =~= shape@);
        assert(idx@.take(n as int) =~= idx@);
    }
    while k < n
        invariant
            n == shape@.len(),
            idx@.len() == n,
            k <= n,
            in_bounds(shape@, idx@),
            volume(shape@) <= usize::MAX,
            acc as nat == flat_offset(shape@.take(k as int), idx@.take(k as int)),
        decreases n - k,
    {
        let e: usize = shape[k];
        let x: usize = idx[k];
        proof {
            let sk = shape@.take(k + 1 as int);
            let ik = idx@.take(k + 1 as int);
            assert(sk.drop_last() =~= shape@.take(k as int));
            assert(ik.drop_last() =~= idx@.take(k as int));
            assert(sk.last() == shape@[k as int]);
            assert(ik.last() == idx@[k as int]);
            assert forall|m: int| 0 <= m < ik.len() implies #[trigger] ik[m] < sk[m] by {
                assert(idx@[m] < shape@[m]);
            }
            lemma_flat_offset_bound(sk, ik);
            assert forall|m: int| k + 1 <= m < n implies #[trigger] shape@[m] >= 1 by {
                assert(idx@[m] < shape@[m]);
            }
            lemma_volume_take_monotone(shape@, k + 1 as int, n as int);
            assert(shape@.take(n as int) =~= shape@);
        }
        acc = acc * e + x;
        k += 1;
    }
    proof {
        assert(shape@.take(n as int) =~= shape@);
        assert(idx@.take(n as int) =~= idx@);
        lemma_flat_offset_bound(shape@, idx@);
    }
    acc
}

} // verus!
