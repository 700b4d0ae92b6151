//! The mathematics of shapes and strides: how many elements a shape holds and
//! where in the flat buffer the `k`-th element of a view lies.
use vstd::arithmetic::div_mod::*;
use vstd::arithmetic::mul::*;
use vstd::prelude::*;

verus! {

/// Number of elements of a shape: the product of its extents (1 for a scalar).
pub open spec fn volume(shape: Seq<usize>) -> nat
    decreases shape.len(),
{
    if shape.len() == 0 {
        1
    } else {
        volume(shape.drop_last()) * (shape.last() as nat)
    }
}

/// Flat buffer offset of the `k`-th element, in row-major order, of the view
/// described by `shape` and `stride`: the last axis varies fastest, and the
/// index along each axis is multiplied by that axis's stride.
pub open spec fn offset_at(shape: Seq<usize>, stride: Seq<usize>, k: int) -> int
    decreases shape.len(),
{
    if shape.len() == 0 || stride.len() == 0 {
        0
    } else {
        offset_at(shape.drop_last(), stride.drop_last(), k / (shape.last() as int)) + (k % (
        shape.last() as int)) * (stride.last() as int)
    }
}

/// The ordered sequence of offsets visited by iterating a view.
pub open spec fn offsets(shape: Seq<usize>, stride: Seq<usize>) -> Seq<int> {
    Seq::new(volume(shape), |k: int| offset_at(shape, stride, k))
}

/// Every element of the view lies inside a buffer of `len` elements.
pub open spec fn in_bounds(shape: Seq<usize>, stride: Seq<usize>, len: int) -> bool {
    forall|k: int| 0 <= k < volume(shape) ==> 0 <= #[trigger] offset_at(shape, stride, k) < len
}

/// Two views visit the same offsets in the same order.
pub open spec fn same_offsets(
    shape_a: Seq<usize>,
    stride_a: Seq<usize>,
    shape_b: Seq<usize>,
    stride_b: Seq<usize>,
) -> bool {
    &&& volume(shape_a) == volume(shape_b)
    &&& forall|k: int|
        0 <= k < volume(shape_a) ==> #[trigger] offset_at(shape_a, stride_a, k) == offset_at(
            shape_b,
            stride_b,
            k,
        )
}

/// A shape with a positive element count has no empty axis.
pub proof fn lemma_volume_positive(shape: Seq<usize>)
    requires
        volume(shape) > 0,
    ensures
        forall|i: int| 0 <= i < shape.len() ==> shape[i] > 0,
    decreases shape.len(),
{
    if shape.len() > 0 {
        let rest = shape.drop_last();
        assert(volume(rest) > 0 && shape.last() > 0) by (nonlinear_arith)
            requires
                volume(rest) * (shape.last() as nat) > 0,
        ;
        lemma_volume_positive(rest);
        assert forall|i: int| 0 <= i < shape.len() implies shape[i] > 0 by {
            if i < rest.len() {
                assert(rest[i] == shape[i]);
            }
        }
    }
}

/// The element count of a concatenation is the product of the counts.
pub proof fn lemma_volume_concat(a: Seq<usize>, b: Seq<usize>)
    ensures
        volume(a + b) == volume(a) * volume(b),
    decreases b.len(),
{
    if b.len() == 0 {
        assert(a + b =~= a);
        assert(volume(a) * 1 == volume(a)) by (nonlinear_arith);
    } else {
        assert((a + b).drop_last() =~= a + b.drop_last());
        assert((a + b).last() == b.last());
        lemma_volume_concat(a, b.drop_last());
        lemma_mul_is_associative(
            volume(a) as int,
            volume(b.drop_last()) as int,
            b.last() as int,
        );
    }
}

/// Offsets are never negative.
pub proof fn lemma_offset_nonnegative(shape: Seq<usize>, stride: Seq<usize>, k: int)
    requires
        0 <= k,
        volume(shape) > 0,
    ensures
        0 <= offset_at(shape, stride, k),
    decreases shape.len(),
{
    if shape.len() != 0 && stride.len() != 0 {
        lemma_volume_positive(shape);
        let n = shape.last() as int;
        assert(volume(shape.drop_last()) > 0) by (nonlinear_arith)
            requires
                volume(shape.drop_last()) * (shape.last() as nat) > 0,
        ;
        lemma_div_pos_is_pos(k, n);
        lemma_mod_bound(k, n);
        lemma_offset_nonnegative(shape.drop_last(), stride.drop_last(), k / n);
        lemma_mul_nonnegative(k % n, stride.last() as int);
    }
}

/// Splitting a view between two groups of axes: the offset of element `k` is
/// the offset of element `k / volume(inner)` in the outer axes plus the offset
/// of element `k % volume(inner)` in the inner axes.
pub proof fn lemma_offset_split(
    outer_shape: Seq<usize>,
    outer_stride: Seq<usize>,
    inner_shape: Seq<usize>,
    inner_stride: Seq<usize>,
    k: int,
)
    requires
        outer_shape.len() == outer_stride.len(),
        inner_shape.len() == inner_stride.len(),
        volume(inner_shape) > 0,
        0 <= k,
    ensures
        offset_at(outer_shape + inner_shape, outer_stride + inner_stride, k) == offset_at(
            outer_shape,
            outer_stride,
            k / (volume(inner_shape) as int),
        ) + offset_at(inner_shape, inner_stride, k % (volume(inner_shape) as int)),
    decreases inner_shape.len(),
{
    let shape = outer_shape + inner_shape;
    let stride = outer_stride + inner_stride;
    if inner_shape.len() == 0 {
        assert(shape =~= outer_shape);
        assert(stride =~= outer_stride);
    } else {
        let rest_shape = inner_shape.drop_last();
        let rest_stride = inner_stride.drop_last();
        let m = inner_shape.last() as int;
        let c = volume(rest_shape) as int;
        assert(c > 0 && m > 0) by (nonlinear_arith)
            requires
                c * m > 0,
                c >= 0,
                m >= 0,
        ;
        assert(shape.drop_last() =~= outer_shape + rest_shape);
        assert(stride.drop_last() =~= outer_stride + rest_stride);
        assert(shape.last() == inner_shape.last());
        assert(stride.last() == inner_stride.last());
        lemma_div_pos_is_pos(k, m);
        lemma_offset_split(outer_shape, outer_stride, rest_shape, rest_stride, k / m);
        lemma_mul_is_commutative(c, m);
        lemma_div_denominator(k, m, c);
        lemma_breakdown(k, m, c);
        let low = k % (m * c);
        lemma_mod_bound(k / m, c);
        lemma_mod_bound(k, m);
        lemma_mul_is_commutative(m, (k / m) % c);
        lemma_fundamental_div_mod_converse(low, m, (k / m) % c, k % m);
    }
}

/// Multi-index of the `k`-th element in row-major order: one index per axis,
/// the last axis varying fastest.
pub open spec fn index_at(shape: Seq<usize>, k: int) -> Seq<int>
    decreases shape.len(),
{
    if shape.len() == 0 {
        Seq::empty()
    } else {
        index_at(shape.drop_last(), k / (shape.last() as int)).push(k % (shape.last() as int))
    }
}

/// A multi-index has one entry per axis.
pub proof fn lemma_index_len(shape: Seq<usize>, k: int)
    ensures
        index_at(shape, k).len() == shape.len(),
    decreases shape.len(),
{
    if shape.len() != 0 {
        lemma_index_len(shape.drop_last(), k / (shape.last() as int));
    }
}

/// The first element of a non-empty view has the all-zero multi-index and
/// lies at offset 0.
pub proof fn lemma_first_element(shape: Seq<usize>, stride: Seq<usize>)
    requires
        volume(shape) > 0,
    ensures
        offset_at(shape, stride, 0) == 0,
        index_at(shape, 0).len() == shape.len(),
        forall|i: int| 0 <= i < shape.len() ==> index_at(shape, 0)[i] == 0,
    decreases shape.len(),
{
    lemma_index_len(shape, 0);
    if shape.len() != 0 {
        let n = shape.last() as int;
        lemma_volume_positive(shape);
        assert(volume(shape.drop_last()) > 0) by (nonlinear_arith)
            requires
                volume(shape.drop_last()) * (shape.last() as nat) > 0,
        ;
        lemma_first_element(shape.drop_last(), stride.drop_last());
        lemma_index_len(shape.drop_last(), 0);
        assert(0int / n == 0 && 0int % n == 0) by (nonlinear_arith)
            requires
                n > 0,
        ;
    }
}

/// The element count of a prefix grows by one factor per axis.
pub proof fn lemma_volume_take(shape: Seq<usize>, i: int)
    requires
        0 <= i < shape.len(),
    ensures
        volume(shape.take(i + 1)) == volume(shape.take(i)) * (shape[i] as nat),
{
    assert(shape.take(i + 1).drop_last() =~= shape.take(i));
}

/// A shape's element count factors at every axis boundary.
pub proof fn lemma_volume_cut(shape: Seq<usize>, i: int)
    requires
        0 <= i <= shape.len(),
    ensures
        volume(shape) == volume(shape.take(i)) * volume(shape.skip(i)),
{
    assert(shape =~= shape.take(i) + shape.skip(i));
    lemma_volume_concat(shape.take(i), shape.skip(i));
}

/// A shape with an empty axis holds no element.
pub proof fn lemma_volume_zero(shape: Seq<usize>, i: int)
    requires
        0 <= i < shape.len(),
        shape[i] == 0,
    ensures
        volume(shape) == 0,
{
    lemma_volume_cut(shape, i + 1);
    lemma_volume_take(shape, i);
    assert(volume(shape.take(i + 1)) == 0) by (nonlinear_arith)
        requires
            volume(shape.take(i + 1)) == volume(shape.take(i)) * (shape[i] as nat),
            shape[i] == 0,
    ;
    assert(volume(shape) == 0) by (nonlinear_arith)
        requires
            volume(shape) == volume(shape.take(i + 1)) * volume(shape.skip(i + 1)),
            volume(shape.take(i + 1)) == 0,
    ;
}

/// In a non-empty shape no group of leading axes holds more elements than
/// the whole.
pub proof fn lemma_volume_prefix_bound(shape: Seq<usize>, i: int)
    requires
        0 <= i <= shape.len(),
        volume(shape) > 0,
    ensures
        0 < volume(shape.take(i)) <= volume(shape),
        0 < volume(shape.skip(i)) <= volume(shape),
{
    lemma_volume_cut(shape, i);
    assert(0 < volume(shape.take(i)) <= volume(shape) && 0 < volume(shape.skip(i)) <= volume(shape))
        by (nonlinear_arith)
        requires
            volume(shape) == volume(shape.take(i)) * volume(shape.skip(i)),
            volume(shape) > 0,
    ;
}

/// Splitting a multi-index between two groups of axes.
pub proof fn lemma_index_split(outer_shape: Seq<usize>, inner_shape: Seq<usize>, k: int)
    requires
        volume(inner_shape) > 0,
        0 <= k,
    ensures
        index_at(outer_shape + inner_shape, k) == index_at(
            outer_shape,
            k / (volume(inner_shape) as int),
        ) + index_at(inner_shape, k % (volume(inner_shape) as int)),
    decreases inner_shape.len(),
{
    let shape = outer_shape + inner_shape;
    if inner_shape.len() == 0 {
        assert(shape =~= outer_shape);
        assert(index_at(outer_shape, k) + Seq::<int>::empty() =~= index_at(outer_shape, k));
    } else {
        let rest_shape = inner_shape.drop_last();
        let m = inner_shape.last() as int;
        let c = volume(rest_shape) as int;
        assert(c > 0 && m > 0) by (nonlinear_arith)
            requires
                c * m > 0,
                c >= 0,
                m >= 0,
        ;
        assert(shape.drop_last() =~= outer_shape + rest_shape);
        assert(shape.last() == inner_shape.last());
        lemma_div_pos_is_pos(k, m);
        lemma_index_split(outer_shape, rest_shape, k / m);
        lemma_mul_is_commutative(c, m);
        lemma_div_denominator(k, m, c);
        lemma_breakdown(k, m, c);
        let low = k % (m * c);
        lemma_mod_bound(k / m, c);
        lemma_mod_bound(k, m);
        lemma_mul_is_commutative(m, (k / m) % c);
        lemma_fundamental_div_mod_converse(low, m, (k / m) % c, k % m);
        assert(index_at(shape, k) =~= index_at(outer_shape, k / (c * m)) + index_at(
            inner_shape,
            k % (c * m),
        ));
    }
}

/// The element count of a shape, or `None` when it does not fit in `usize`.
pub fn element_count(shape: &[usize]) -> (n: Option<usize>)
    ensures
        n == (if volume(shape@) <= usize::MAX {
            Some(volume(shape@) as usize)
        } else {
            None
        }),
{
    let ndims = shape.len();
    let mut i: usize = 0;
    while i < ndims
        invariant
            i <= ndims,
            ndims == shape.len(),
            forall|j: int| 0 <= j < i ==> shape@[j] != 0,
        decreases ndims - i,
    {
        if shape[i] == 0 {
            proof {
                lemma_volume_zero(shape@, i as int);
            }
            return Some(0);
        }
        i += 1;
    }
    let mut total: usize = 1;
    let mut i: usize = 0;
    proof {
        lemma_volume_nonzero(shape@);
    }
    while i < ndims
        invariant
            i <= ndims,
            ndims == shape.len(),
            volume(shape@) > 0,
            total == volume(shape@.take(i as int)),
        decreases ndims - i,
    {
        proof {
            lemma_volume_take(shape@, i as int);
            lemma_volume_prefix_bound(shape@, i + 1);
        }
        match total.checked_mul(shape[i]) {
            Some(next) => {
                total = next;
            },
            None => {
                return None;
            },
        }
        i += 1;
    }
    proof {
        assert(shape@.take(ndims as int) =~= shape@);
    }
    Some(total)
}

/// A shape without an empty axis holds at least one element.
pub proof fn lemma_volume_nonzero(shape: Seq<usize>)
    requires
        forall|i: int| 0 <= i < shape.len() ==> shape[i] != 0,
    ensures
        volume(shape) > 0,
    decreases shape.len(),
{
    if shape.len() != 0 {
        let rest = shape.drop_last();
        assert forall|i: int| 0 <= i < rest.len() implies rest[i] != 0 by {
            assert(rest[i] == shape[i]);
        }
        lemma_volume_nonzero(rest);
        assert(volume(rest) * (shape.last() as nat) > 0) by (nonlinear_arith)
            requires
                volume(rest) > 0,
                shape.last() > 0,
        ;
    }
}

/// The elements of a view, in row-major order.
pub open spec fn gather<T>(buf: Seq<T>, shape: Seq<usize>, stride: Seq<usize>) -> Seq<T> {
    Seq::new(volume(shape), |k: int| buf[offset_at(shape, stride, k)])
}

/// The first `count` elements of a buffer read at a constant step.
pub open spec fn gather_uniform<T>(buf: Seq<T>, count: nat, stride: usize) -> Seq<T> {
    Seq::new(count, |k: int| buf[k * stride])
}

/// Reading `count` elements at a constant step stays inside a buffer of
/// `len` elements.
pub open spec fn strided_fits(count: nat, stride: usize, len: nat) -> bool {
    count == 0 || (count - 1) * stride < len
}

/// Every index of a strided read that fits lies inside the buffer.
pub proof fn lemma_strided_index(i: int, count: nat, stride: usize, len: usize)
    requires
        0 <= i < count,
        strided_fits(count, stride, len as nat),
    ensures
        0 <= i * stride < len,
{
    assert(0 <= i * stride <= (count - 1) * stride) by (nonlinear_arith)
        requires
            0 <= i <= count - 1,
            stride >= 0,
    ;
}

/// A shape with a single axis holds as many elements as the axis is long.
pub proof fn lemma_volume_single(n: usize)
    ensures
        volume(seq![n]) == n,
{
    let one = seq![n];
    assert(one.drop_last() =~= Seq::<usize>::empty());
    assert(volume(one.drop_last()) == 1);
    assert(one.last() == n);
    assert(volume(one) == 1 * (n as nat));
}

/// A view with a single axis is read at a constant step.
pub proof fn lemma_offset_single(n: usize, t: usize, k: int)
    requires
        0 <= k < n,
    ensures
        offset_at(seq![n], seq![t], k) == k * t,
{
    let one = seq![n];
    let step = seq![t];
    assert(one.drop_last() =~= Seq::<usize>::empty());
    assert(offset_at(one.drop_last(), step.drop_last(), k / (n as int)) == 0);
    assert(one.last() == n && step.last() == t);
    lemma_small_mod(k as nat, n as nat);
}

/// Views that visit the same offsets read the same elements from any buffer
/// and stay inside the same buffers.
pub proof fn lemma_same_offsets_gather<T>(
    buf: Seq<T>,
    shape_a: Seq<usize>,
    stride_a: Seq<usize>,
    shape_b: Seq<usize>,
    stride_b: Seq<usize>,
    len: int,
)
    requires
        same_offsets(shape_a, stride_a, shape_b, stride_b),
    ensures
        volume(shape_a) == volume(shape_b),
        gather(buf, shape_a, stride_a) == gather(buf, shape_b, stride_b),
        in_bounds(shape_a, stride_a, len) ==> in_bounds(shape_b, stride_b, len),
{
    if in_bounds(shape_a, stride_a, len) {
        assert forall|k: int| 0 <= k < volume(shape_b) implies 0 <= #[trigger] offset_at(
            shape_b,
            stride_b,
            k,
        ) < len by {
            assert(offset_at(shape_a, stride_a, k) == offset_at(shape_b, stride_b, k));
        }
    }
    assert(gather(buf, shape_a, stride_a) =~= gather(buf, shape_b, stride_b)) by {
        assert forall|k: int| 0 <= k < volume(shape_a) implies gather(buf, shape_a, stride_a)[k]
            == gather(buf, shape_b, stride_b)[k] by {
            assert(offset_at(shape_a, stride_a, k) == offset_at(shape_b, stride_b, k));
        }
    }
}

/// A view that visits the same offsets as a single axis of `n` elements and
/// step `t` is a strided read of the buffer.
pub proof fn lemma_same_offsets_uniform<T>(
    buf: Seq<T>,
    shape: Seq<usize>,
    stride: Seq<usize>,
    n: usize,
    t: usize,
    len: int,
)
    requires
        same_offsets(shape, stride, seq![n], seq![t]),
        in_bounds(shape, stride, len),
        0 <= len,
    ensures
        volume(shape) == n,
        gather(buf, shape, stride) == gather_uniform(buf, n as nat, t),
        strided_fits(n as nat, t, len as nat),
{
    lemma_volume_single(n);
    assert(gather(buf, shape, stride) =~= gather_uniform(buf, n as nat, t)) by {
        assert forall|k: int| 0 <= k < n implies gather(buf, shape, stride)[k] == gather_uniform(
            buf,
            n as nat,
            t,
        )[k] by {
            assert(offset_at(shape, stride, k) == offset_at(seq![n], seq![t], k));
            lemma_offset_single(n, t, k);
        }
    }
    if n > 0 {
        assert(offset_at(shape, stride, n - 1) == offset_at(seq![n], seq![t], n - 1));
        lemma_offset_single(n, t, n - 1);
    }
}

/// In a view with two axes, the element in row `i` and column `j` lies at
/// `i` times the row stride plus `j` times the column stride.
pub proof fn lemma_offset_two_axes(m: usize, n: usize, s: usize, t: usize, i: int, j: int)
    requires
        0 <= i < m,
        0 <= j < n,
    ensures
        volume(seq![m, n]) == m * n,
        0 <= i * n + j < m * n,
        offset_at(seq![m, n], seq![s, t], i * n + j) == i * s + j * t,
{
    let shape = seq![m, n];
    let stride = seq![s, t];
    let k = i * n + j;
    assert(shape.drop_last() =~= seq![m]);
    assert(stride.drop_last() =~= seq![s]);
    assert(shape.last() == n && stride.last() == t);
    lemma_volume_single(m);
    assert(0 <= k < m * n) by (nonlinear_arith)
        requires
            k == i * n + j,
            0 <= i < m,
            0 <= j < n,
    ;
    lemma_fundamental_div_mod_converse(k, n as int, i, j);
    lemma_offset_single(m, s, i);
}

/// The element count of a group of trailing axes grows by one factor per
/// axis.
pub proof fn lemma_volume_skip(shape: Seq<usize>, axis: int)
    requires
        0 <= axis < shape.len(),
    ensures
        volume(shape.skip(axis)) == (shape[axis] as nat) * volume(shape.skip(axis + 1)),
{
    let one = seq![shape[axis]];
    assert(shape.skip(axis) =~= one + shape.skip(axis + 1));
    lemma_volume_concat(one, shape.skip(axis + 1));
    lemma_volume_single(shape[axis]);
}

/// Row-major strides scaled by `unit`: the stride of every axis is `unit`
/// times the element count of the axes after it.
pub open spec fn packed(shape: Seq<usize>, stride: Seq<usize>, unit: int) -> bool {
    &&& shape.len() == stride.len()
    &&& forall|i: int|
        0 <= i < shape.len() ==> #[trigger] stride[i] == unit * volume(shape.skip(i + 1))
}

/// With packed strides the `k`-th element lies at offset `unit * k`.
pub proof fn lemma_packed_offset(shape: Seq<usize>, stride: Seq<usize>, unit: int, k: int)
    requires
        packed(shape, stride, unit),
        0 <= unit,
        0 <= k < volume(shape),
    ensures
        offset_at(shape, stride, k) == unit * k,
    decreases shape.len(),
{
    if shape.len() == 0 {
        assert(unit * 0 == 0);
    } else {
        let n = shape.last() as int;
        let rest = shape.drop_last();
        let steps = stride.drop_last();
        let last = shape.len() - 1;
        lemma_volume_positive(shape);
        assert(shape.skip(last + 1) =~= Seq::<usize>::empty());
        assert(stride.last() == unit * 1);
        assert forall|i: int| 0 <= i < rest.len() implies #[trigger] steps[i] == (unit * n)
            * volume(rest.skip(i + 1)) by {
            assert(steps[i] == stride[i]);
            assert(shape.skip(i + 1).drop_last() =~= rest.skip(i + 1));
            assert(shape.skip(i + 1).last() == shape.last());
            assert(volume(shape.skip(i + 1)) == volume(rest.skip(i + 1)) * (n as nat));
            lemma_mul_is_associative(unit, n, volume(rest.skip(i + 1)) as int);
            lemma_mul_is_commutative(n, volume(rest.skip(i + 1)) as int);
        }
        assert(0 <= k / n < volume(rest)) by {
            lemma_div_pos_is_pos(k, n);
            lemma_multiply_divide_lt(k, n, volume(rest) as int);
            lemma_mul_is_commutative(n, volume(rest) as int);
        }
        lemma_mul_nonnegative(unit, n);
        lemma_packed_offset(rest, steps, unit * n, k / n);
        lemma_fundamental_div_mod(k, n);
        assert((unit * n) * (k / n) + (k % n) * unit == unit * k) by (nonlinear_arith)
            requires
                k == n * (k / n) + k % n,
        ;
    }
}

/// The row-major strides of a shape: the stride of every axis is the
/// element count of the axes after it. A shape without elements, or with
/// more than `usize` can count, gets stride 0 throughout.
pub open spec fn row_major(shape: Seq<usize>) -> Seq<usize> {
    Seq::new(
        shape.len(),
        |i: int|
            if 0 < volume(shape) <= usize::MAX {
                volume(shape.skip(i + 1)) as usize
            } else {
                0usize
            },
    )
}

/// The row-major strides of a shape: with them the `k`-th element of a
/// view lies at offset `k`, for every shape whose elements `usize` can
/// count.
pub fn contiguous_strides(shape: &[usize]) -> (stride: Vec<usize>)
    ensures
        stride@ == row_major(shape@),
        stride@.len() == shape@.len(),
        volume(shape@) <= usize::MAX ==> forall|k: int|
            0 <= k < volume(shape@) ==> #[trigger] offset_at(shape@, stride@, k) == k,
{
    let ndims = shape.len();
    let mut stride: Vec<usize> = Vec::new();
    let mut i: usize = 0;
    while i < ndims
        invariant
            i <= ndims,
            stride@.len() == i,
            forall|j: int| 0 <= j < i ==> stride@[j] == 0,
        decreases ndims - i,
    {
        stride.push(0);
        i += 1;
    }
    let total = match element_count(shape) {
        Some(total) => total,
        None => {
            proof {
                assert(stride@ =~= row_major(shape@));
            }
            return stride;
        },
    };
    if total == 0 {
        proof {
            assert(stride@ =~= row_major(shape@));
        }
        return stride;
    }
    let mut running: usize = 1;
    let mut i = ndims;
    proof {
        assert(shape@.skip(ndims as int) =~= Seq::<usize>::empty());
    }
    while i > 0
        invariant
            i <= ndims,
            ndims == shape@.len(),
            stride@.len() == ndims,
            0 < volume(shape@) <= usize::MAX,
            running == volume(shape@.skip(i as int)),
            forall|j: int| i <= j < ndims ==> #[trigger] stride@[j] == volume(shape@.skip(j + 1)),
        decreases i,
    {
        i -= 1;
        stride.set(i, running);
        proof {
            lemma_volume_skip(shape@, i as int);
            lemma_volume_prefix_bound(shape@, i as int);
            lemma_mul_is_commutative(running as int, shape@[i as int] as int);
        }
        running = running * shape[i];
    }
    proof {
        assert forall|j: int| 0 <= j < ndims implies #[trigger] stride@[j] == 1 * volume(
            shape@.skip(j + 1),
        ) by {}
        assert forall|k: int| 0 <= k < volume(shape@) implies #[trigger] offset_at(
            shape@,
            stride@,
            k,
        ) == k by {
            lemma_packed_offset(shape@, stride@, 1, k);
        }
        assert(stride@ =~= row_major(shape@));
    }
    stride
}

/// Whether two shapes are the same, axis by axis.
pub fn same_shape(a: &[usize], b: &[usize]) -> (same: bool)
    ensures
        same == (a@ == b@),
{
    if a.len() != b.len() {
        return false;
    }
    let n = a.len();
    let mut i: usize = 0;
    while i < n
        invariant
            i <= n,
            n == a@.len(),
            n == b@.len(),
            forall|j: int| 0 <= j < i ==> a@[j] == b@[j],
        decreases n - i,
    {
        if a[i] != b[i] {
            return false;
        }
        i += 1;
    }
    proof {
        assert(a@ =~= b@);
    }
    true
}

/// The offset of the last element of a view without an empty axis: on
/// every axis the last index times the stride.
pub open spec fn reach(shape: Seq<usize>, stride: Seq<usize>) -> int
    decreases shape.len(),
{
    if shape.len() == 0 || stride.len() == 0 {
        0
    } else {
        reach(shape.drop_last(), stride.drop_last()) + (shape.last() - 1) * stride.last()
    }
}

/// No element of a non-empty view lies beyond its reach.
pub proof fn lemma_offset_within_reach(shape: Seq<usize>, stride: Seq<usize>, k: int)
    requires
        shape.len() == stride.len(),
        0 <= k < volume(shape),
    ensures
        offset_at(shape, stride, k) <= reach(shape, stride),
    decreases shape.len(),
{
    if shape.len() != 0 {
        let n = shape.last() as int;
        let rest = shape.drop_last();
        lemma_volume_positive(shape);
        assert(0 <= k / n < volume(rest)) by {
            lemma_div_pos_is_pos(k, n);
            lemma_mul_is_commutative(n, volume(rest) as int);
            assert(k < n * volume(rest));
            lemma_multiply_divide_lt(k, n, volume(rest) as int);
        }
        lemma_offset_within_reach(rest, stride.drop_last(), k / n);
        lemma_mod_bound(k, n);
        assert((k % n) * stride.last() <= (n - 1) * stride.last()) by (nonlinear_arith)
            requires
                0 <= k % n <= n - 1,
                stride.last() >= 0,
        ;
    }
}

/// The last element of a non-empty view lies exactly at its reach.
pub proof fn lemma_last_offset(shape: Seq<usize>, stride: Seq<usize>)
    requires
        shape.len() == stride.len(),
        volume(shape) > 0,
    ensures
        offset_at(shape, stride, volume(shape) - 1) == reach(shape, stride),
    decreases shape.len(),
{
    if shape.len() != 0 {
        let n = shape.last() as int;
        let rest = shape.drop_last();
        let inner = volume(rest) as int;
        lemma_volume_positive(shape);
        assert(inner > 0) by (nonlinear_arith)
            requires
                inner * n > 0,
                n > 0,
        ;
        lemma_last_offset(rest, stride.drop_last());
        assert(volume(shape) - 1 == (inner - 1) * n + (n - 1)) by (nonlinear_arith)
            requires
                volume(shape) == inner * n,
        ;
        lemma_fundamental_div_mod_converse(volume(shape) - 1, n, inner - 1, n - 1);
    }
}

/// The reach of a group of leading axes is no greater than that of the
/// whole view.
pub proof fn lemma_reach_prefix(shape: Seq<usize>, stride: Seq<usize>, i: int)
    requires
        shape.len() == stride.len(),
        0 <= i <= shape.len(),
        forall|j: int| 0 <= j < shape.len() ==> shape[j] >= 1,
    ensures
        0 <= reach(shape.take(i), stride.take(i)) <= reach(shape, stride),
    decreases shape.len(),
{
    if shape.len() == 0 {
        assert(shape.take(i) =~= shape);
        assert(stride.take(i) =~= stride);
    } else if i == shape.len() {
        let rest = shape.drop_last();
        let steps = stride.drop_last();
        assert(shape.take(i) =~= shape);
        assert(stride.take(i) =~= stride);
        assert forall|j: int| 0 <= j < rest.len() implies rest[j] >= 1 by {
            assert(rest[j] == shape[j]);
        }
        lemma_reach_prefix(rest, steps, rest.len() as int);
        assert(rest.take(rest.len() as int) =~= rest);
        assert(steps.take(rest.len() as int) =~= steps);
        lemma_mul_nonnegative(shape.last() - 1, stride.last() as int);
    } else {
        let rest = shape.drop_last();
        let steps = stride.drop_last();
        assert forall|j: int| 0 <= j < rest.len() implies rest[j] >= 1 by {
            assert(rest[j] == shape[j]);
        }
        lemma_reach_prefix(rest, steps, i);
        assert(shape.take(i) =~= rest.take(i));
        assert(stride.take(i) =~= steps.take(i));
        lemma_mul_nonnegative(shape.last() - 1, stride.last() as int);
    }
}

/// Whether a view has one stride per axis and lies inside a buffer of
/// `len` elements.
pub fn view_fits(shape: &[usize], stride: &[usize], len: usize) -> (ok: bool)
    ensures
        ok == (shape@.len() == stride@.len() && in_bounds(shape@, stride@, len as int)),
{
    let ndims = shape.len();
    if stride.len() != ndims {
        return false;
    }
    let mut z: usize = 0;
    while z < ndims
        invariant
            z <= ndims,
            ndims == shape@.len(),
            ndims == stride@.len(),
            forall|j: int| 0 <= j < z ==> shape@[j] >= 1,
        decreases ndims - z,
    {
        if shape[z] == 0 {
            proof {
                lemma_volume_zero(shape@, z as int);
            }
            return true;
        }
        z += 1;
    }
    proof {
        lemma_volume_nonzero(shape@);
        lemma_last_offset(shape@, stride@);
        assert(shape@.take(0) =~= Seq::<usize>::empty());
    }
    let mut total: usize = 0;
    let mut i: usize = 0;
    while i < ndims
        invariant
            i <= ndims,
            ndims == shape@.len(),
            ndims == stride@.len(),
            volume(shape@) > 0,
            forall|j: int| 0 <= j < ndims ==> shape@[j] >= 1,
            offset_at(shape@, stride@, volume(shape@) - 1) == reach(shape@, stride@),
            total == reach(shape@.take(i as int), stride@.take(i as int)),
        decreases ndims - i,
    {
        proof {
            assert(shape@.take(i + 1).drop_last() =~= shape@.take(i as int));
            assert(stride@.take(i + 1).drop_last() =~= stride@.take(i as int));
            lemma_reach_prefix(shape@, stride@, i + 1);
        }
        let step = match (shape[i] - 1).checked_mul(stride[i]) {
            Some(step) => step,
            None => {
                proof {
                    lemma_reach_prefix(shape@, stride@, i as int);
                }
                return false;
            },
        };
        total = match total.checked_add(step) {
            Some(sum) => sum,
            None => {
                return false;
            },
        };
        i += 1;
    }
    proof {
        assert(shape@.take(ndims as int) =~= shape@);
        assert(stride@.take(ndims as int) =~= stride@);
        if total < len {
            assert forall|k: int| 0 <= k < volume(shape@) implies 0 <= #[trigger] offset_at(
                shape@,
                stride@,
                k,
            ) < len by {
                lemma_offset_within_reach(shape@, stride@, k);
                lemma_offset_nonnegative(shape@, stride@, k);
            }
        }
    }
    total < len
}

} // verus!
