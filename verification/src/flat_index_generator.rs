//! Lazy generation of the flat offsets of a strided view, one element at a
//! time, in row-major order.
use crate::layout::{
    volume, element_count, in_bounds, index_at, lemma_volume_concat, lemma_volume_positive,
    lemma_volume_prefix_bound, lemma_first_element, lemma_index_len, lemma_index_split,
    lemma_offset_nonnegative, lemma_offset_split, lemma_volume_skip, offset_at,
};
use vstd::arithmetic::div_mod::*;
use vstd::arithmetic::mul::*;
use vstd::prelude::*;
use vstd::slice::slice_to_vec;

verus! {

/// Walks a view and yields the flat offset of each element in turn. It is the
/// fallback for views that do not reduce to a single uniform stride, and is
/// correct for every shape and stride, zero strides included.
pub struct FlatIndexGenerator {
    shape: Vec<usize>,
    stride: Vec<usize>,
    indices: Vec<usize>,
    flat_index: usize,
    position: usize,
    size: usize,
}

/// The odometer state while a carry is in progress: the axes from `axis` on
/// have been reset to zero, and the leading `axis` axes hold element `q` of
/// the view restricted to them.
spec fn carried(
    shape: Seq<usize>,
    stride: Seq<usize>,
    indices: Seq<usize>,
    flat: int,
    axis: int,
    q: int,
) -> bool {
    &&& 0 <= axis <= shape.len()
    &&& shape.len() == stride.len()
    &&& 0 <= q
    &&& indices.len() == shape.len()
    &&& forall|i: int| 0 <= i < axis ==> indices[i] as int == index_at(shape.take(axis), q)[i]
    &&& forall|i: int| axis <= i < shape.len() ==> indices[i] == 0
    &&& flat == offset_at(shape.take(axis), stride.take(axis), q)
}

/// A carry state whose trailing axes are all zero is the state of element
/// `q * volume(trailing axes)` of the whole view.
proof fn lemma_carried_finish(
    shape: Seq<usize>,
    stride: Seq<usize>,
    indices: Seq<usize>,
    flat: int,
    axis: int,
    q: int,
)
    requires
        carried(shape, stride, indices, flat, axis, q),
        volume(shape) > 0,
    ensures
        carried(
            shape,
            stride,
            indices,
            flat,
            shape.len() as int,
            q * volume(shape.skip(axis)),
        ),
{
    let outer = shape.take(axis);
    let inner = shape.skip(axis);
    let c = volume(inner) as int;
    let k = q * c;
    lemma_volume_prefix_bound(shape, axis);
    lemma_mul_nonnegative(q, c);
    assert(shape =~= outer + inner);
    assert(stride =~= stride.take(axis) + stride.skip(axis));
    lemma_fundamental_div_mod_converse(k, c, q, 0);
    lemma_offset_split(outer, stride.take(axis), inner, stride.skip(axis), k);
    lemma_index_split(outer, inner, k);
    lemma_first_element(inner, stride.skip(axis));
    lemma_index_len(outer, q);
    assert(shape.take(shape.len() as int) =~= shape);
    assert(stride.take(shape.len() as int) =~= stride);
    assert forall|i: int| 0 <= i < shape.len() implies indices[i] as int == index_at(shape, k)[i] by {
        if i >= axis {
            assert(index_at(shape, k)[i] == index_at(inner, 0)[i - axis]);
        }
    }
}

/// Stepping the last of the leading axes without overflow advances the
/// leading axes by one element.
proof fn lemma_carried_step(
    shape: Seq<usize>,
    stride: Seq<usize>,
    indices: Seq<usize>,
    flat: int,
    axis: int,
    q: int,
)
    requires
        carried(shape, stride, indices, flat, axis, q),
        axis > 0,
        volume(shape) > 0,
        indices[axis - 1] + 1 < shape[axis - 1],
    ensures
        carried(
            shape,
            stride,
            indices.update(axis - 1, (indices[axis - 1] + 1) as usize),
            flat + stride[axis - 1],
            axis,
            q + 1,
        ),
{
    let b = axis - 1;
    let n = shape[b] as int;
    let outer = shape.take(axis);
    assert(outer.drop_last() =~= shape.take(b));
    assert(stride.take(axis).drop_last() =~= stride.take(b));
    assert(outer.last() == shape[b]);
    assert(stride.take(axis).last() == stride[b]);
    lemma_index_len(shape.take(b), q / n);
    lemma_index_len(shape.take(b), (q + 1) / n);
    assert(index_at(outer, q)[b] == q % n);
    assert((q + 1) % n == q % n + 1 && (q + 1) / n == q / n) by {
        lemma_fundamental_div_mod(q, n);
        lemma_mul_is_commutative(n, q / n);
        lemma_fundamental_div_mod_converse(q + 1, n, q / n, q % n + 1);
    }
    assert((q % n + 1) * stride[b] == (q % n) * stride[b] + stride[b]) by (nonlinear_arith);
    let updated = indices.update(b, (indices[b] + 1) as usize);
    assert forall|i: int| 0 <= i < axis implies updated[i] as int == index_at(outer, q + 1)[i] by {
        if i < b {
            assert(index_at(outer, q)[i] == index_at(shape.take(b), q / n)[i]);
        }
    }
}

/// When the last of the leading axes is at its final index, resetting it
/// hands the carry to the axis before it.
proof fn lemma_carried_wrap(
    shape: Seq<usize>,
    stride: Seq<usize>,
    indices: Seq<usize>,
    flat: int,
    axis: int,
    q: int,
)
    requires
        carried(shape, stride, indices, flat, axis, q),
        axis > 0,
        volume(shape) > 0,
        indices[axis - 1] + 1 == shape[axis - 1],
    ensures
        0 <= indices[axis - 1] * stride[axis - 1] <= flat,
        carried(
            shape,
            stride,
            indices.update(axis - 1, 0),
            flat - indices[axis - 1] * stride[axis - 1],
            axis - 1,
            q / (shape[axis - 1] as int),
        ),
        q + 1 == (q / (shape[axis - 1] as int) + 1) * shape[axis - 1],
{
    let b = axis - 1;
    let n = shape[b] as int;
    let outer = shape.take(axis);
    assert(outer.drop_last() =~= shape.take(b));
    assert(stride.take(axis).drop_last() =~= stride.take(b));
    assert(outer.last() == shape[b]);
    assert(stride.take(axis).last() == stride[b]);
    lemma_index_len(shape.take(b), q / n);
    assert(index_at(outer, q)[b] == q % n);
    lemma_fundamental_div_mod(q, n);
    assert(q + 1 == (q / n + 1) * n) by (nonlinear_arith)
        requires
            q == n * (q / n) + q % n,
            q % n + 1 == n,
    ;
    lemma_div_pos_is_pos(q, n);
    lemma_volume_prefix_bound(shape, b);
    lemma_offset_nonnegative(shape.take(b), stride.take(b), q / n);
    lemma_mul_nonnegative(q % n, stride[b] as int);
    let updated = indices.update(b, 0);
    assert forall|i: int| 0 <= i < b implies updated[i] as int == index_at(shape.take(b), q / n)[i] by {
        assert(index_at(outer, q)[i] == index_at(shape.take(b), q / n)[i]);
    }
}

impl FlatIndexGenerator {
    /// The shape being walked.
    pub closed spec fn shape(&self) -> Seq<usize> {
        self.shape@
    }

    /// The stride of each axis.
    pub closed spec fn stride(&self) -> Seq<usize> {
        self.stride@
    }

    /// How many offsets have been yielded so far.
    pub closed spec fn position(&self) -> nat {
        self.position as nat
    }

    /// The generator's internal odometer agrees with its position.
    pub closed spec fn wf(&self) -> bool {
        &&& self.shape@.len() == self.stride@.len()
        &&& self.size == volume(self.shape@)
        &&& self.position <= self.size
        &&& in_bounds(self.shape@, self.stride@, usize::MAX + 1)
        &&& self.position < self.size ==> carried(
            self.shape@,
            self.stride@,
            self.indices@,
            self.flat_index as int,
            self.shape@.len() as int,
            self.position as int,
        )
    }

    /// Starts a walk over the view described by `shape` and `stride`.
    pub fn from(shape: &[usize], stride: &[usize]) -> (g: FlatIndexGenerator)
        requires
            shape@.len() == stride@.len(),
            volume(shape@) <= usize::MAX,
            in_bounds(shape@, stride@, usize::MAX + 1),
        ensures
            g.wf(),
            g.shape() == shape@,
            g.stride() == stride@,
            g.position() == 0,
    {
        let ndims = shape.len();
        let mut indices: Vec<usize> = Vec::new();
        let mut i: usize = 0;
        while i < ndims
            invariant
                i <= ndims,
                indices@.len() == i,
                forall|j: int| 0 <= j < i ==> indices@[j] == 0,
            decreases ndims - i,
        {
            indices.push(0);
            i += 1;
        }
        let size = match element_count(shape) {
            Some(n) => n,
            None => 0,
        };
        proof {
            if volume(shape@) > 0 {
                lemma_first_element(shape@, stride@);
                assert(shape@.take(shape@.len() as int) =~= shape@);
                assert(stride@.take(shape@.len() as int) =~= stride@);
            }
        }
        FlatIndexGenerator {
            shape: slice_to_vec(shape),
            stride: slice_to_vec(stride),
            indices,
            flat_index: 0,
            position: 0,
            size,
        }
    }

    /// The number of offsets still to come.
    pub fn remaining(&self) -> (n: usize)
        requires
            self.wf(),
        ensures
            n == volume(self.shape()) - self.position(),
    {
        self.size - self.position
    }

    /// Yields the offset of the next element, or `None` once every element
    /// of the view has been visited.
    pub fn next(&mut self) -> (out: Option<usize>)
        requires
            old(self).wf(),
        ensures
            final(self).wf(),
            final(self).shape() == old(self).shape(),
            final(self).stride() == old(self).stride(),
            old(self).position() < volume(old(self).shape()) ==> {
                &&& out == Some(
                    offset_at(old(self).shape(), old(self).stride(), old(self).position() as int) as usize,
                )
                &&& offset_at(old(self).shape(), old(self).stride(), old(self).position() as int)
                    <= usize::MAX
                &&& final(self).position() == old(self).position() + 1
            },
            old(self).position() >= volume(old(self).shape()) ==> {
                &&& out.is_none()
                &&& final(self).position() == old(self).position()
            },
    {
        if self.position == self.size {
            return None;
        }
        let out = self.flat_index;
        let ghost k = self.position as int;
        let ghost shape = self.shape@;
        let ghost stride = self.stride@;
        proof {
            assert(shape.take(shape.len() as int) =~= shape);
            assert(stride.take(shape.len() as int) =~= stride);
        }
        self.position = self.position + 1;
        if self.position < self.size {
            let mut axis = self.shape.len();
            let mut carrying = true;
            let ghost mut q = k;
            proof {
                assert(shape.skip(shape.len() as int) =~= Seq::<usize>::empty());
                assert(volume(shape.skip(shape.len() as int)) == 1);
                assert(k + 1 == (q + 1) * 1);
                assert(axis > 0) by {
                    if axis == 0 {
                        assert(shape =~= Seq::<usize>::empty());
                    }
                }
            }
            while carrying
                invariant
                    self.shape@ == shape,
                    self.stride@ == stride,
                    self.position == k + 1,
                    self.size == volume(shape),
                    k + 1 < volume(shape),
                    0 <= k,
                    shape.len() == stride.len(),
                    in_bounds(shape, stride, usize::MAX + 1),
                    carrying ==> {
                        &&& 0 < axis <= shape.len()
                        &&& k + 1 == (q + 1) * volume(shape.skip(axis as int))
                        &&& carried(shape, stride, self.indices@, self.flat_index as int, axis as int, q)
                    },
                    !carrying ==> carried(
                        shape,
                        stride,
                        self.indices@,
                        self.flat_index as int,
                        shape.len() as int,
                        k + 1,
                    ),
                decreases (if carrying { axis + 1 } else { 0 }),
            {
                let b = axis - 1;
                let extent = self.shape[b];
                let step = self.stride[b];
                let index = self.indices[b];
                proof {
                    lemma_volume_positive(shape);
                    assert(index_at(shape.take(axis as int), q)[b as int] == q % (extent as int)) by {
                        lemma_index_len(shape.take(b as int), q / (extent as int));
                        assert(shape.take(axis as int).drop_last() =~= shape.take(b as int));
                    }
                    lemma_mod_bound(q, extent as int);
                }
                if index + 1 < extent {
                    proof {
                        lemma_carried_step(shape, stride, self.indices@, self.flat_index as int, axis as int, q);
                        lemma_carried_finish(
                            shape,
                            stride,
                            self.indices@.update(b as int, (index + 1) as usize),
                            self.flat_index + step,
                            axis as int,
                            q + 1,
                        );
                        assert(self.flat_index + step == offset_at(shape, stride, k + 1)) by {
                            assert(shape.take(shape.len() as int) =~= shape);
                            assert(stride.take(shape.len() as int) =~= stride);
                        }
                    }
                    self.indices.set(b, index + 1);
                    self.flat_index = self.flat_index + step;
                    carrying = false;
                } else {
                    proof {
                        lemma_carried_wrap(shape, stride, self.indices@, self.flat_index as int, axis as int, q);
                        lemma_volume_skip(shape, b as int);
                        let c = volume(shape.skip(axis as int)) as int;
                        let q2 = q / (extent as int);
                        assert(k + 1 == (q2 + 1) * volume(shape.skip(b as int))) by (nonlinear_arith)
                            requires
                                k + 1 == (q + 1) * c,
                                q + 1 == (q2 + 1) * extent,
                                volume(shape.skip(b as int)) == extent * c,
                        ;
                        if b == 0 {
                            assert(shape.skip(0) =~= shape);
                            lemma_div_pos_is_pos(q, extent as int);
                            assert(false) by (nonlinear_arith)
                                requires
                                    k + 1 == (q2 + 1) * volume(shape),
                                    k + 1 < volume(shape),
                                    q2 >= 0,
                            ;
                        }
                        q = q2;
                    }
                    self.flat_index = self.flat_index - index * step;
                    self.indices.set(b, 0);
                    axis = b;
                }
            }
        }
        proof {
            assert(offset_at(shape, stride, k) == out);
        }
        Some(out)
    }
}

} // verus!
