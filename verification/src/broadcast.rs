//! Standard broadcasting: the shape two operands combine to, and the
//! strides that make each operand look like that shape.
//!
//! Shapes are aligned at their last axes; a missing leading axis counts as
//! an axis of extent 1. On every axis the two extents must be equal or one
//! of them must be 1, and the operand with extent 1 is repeated along that
//! axis by giving it stride 0.
use crate::binary_ops::elementwise_binary;
use crate::layout::{
    element_count, gather, in_bounds, lemma_volume_positive, offset_at, volume,
};
use crate::ops::{admissible, elementwise, BinaryOp};
use vstd::arithmetic::div_mod::*;
use vstd::prelude::*;

verus! {

/// The number of axes of the longer of two shapes.
pub open spec fn joint_rank(lhs: Seq<usize>, rhs: Seq<usize>) -> nat {
    if lhs.len() >= rhs.len() {
        lhs.len()
    } else {
        rhs.len()
    }
}

/// A shape extended to `rank` axes by leading axes of extent 1.
pub open spec fn padded(shape: Seq<usize>, rank: nat) -> Seq<usize> {
    Seq::new(
        rank,
        |i: int|
            if i < rank - shape.len() {
                1usize
            } else {
                shape[i - (rank - shape.len())]
            },
    )
}

/// Two extents can stand on the same axis.
pub open spec fn compatible(a: usize, b: usize) -> bool {
    a == b || a == 1 || b == 1
}

/// The extent of the result on an axis where the operands have the
/// compatible extents `a` and `b`: the one that is not 1, which for
/// operands without an empty axis is the larger of the two.
pub open spec fn joined(a: usize, b: usize) -> usize {
    if a == 1 {
        b
    } else {
        a
    }
}

/// The two shapes can be broadcast against each other.
pub open spec fn broadcastable(lhs: Seq<usize>, rhs: Seq<usize>) -> bool {
    forall|i: int|
        0 <= i < joint_rank(lhs, rhs) ==> compatible(
            #[trigger] padded(lhs, joint_rank(lhs, rhs))[i],
            padded(rhs, joint_rank(lhs, rhs))[i],
        )
}

/// The shape of the result of broadcasting two shapes.
pub open spec fn broadcast_shape(lhs: Seq<usize>, rhs: Seq<usize>) -> Seq<usize> {
    Seq::new(
        joint_rank(lhs, rhs),
        |i: int| joined(padded(lhs, joint_rank(lhs, rhs))[i], padded(rhs, joint_rank(lhs, rhs))[i]),
    )
}

/// The strides with which an operand is read as a view of `rank` axes:
/// stride 0 on the axes it lacks and on its axes of extent 1, its own
/// stride elsewhere.
pub open spec fn broadcast_stride(shape: Seq<usize>, stride: Seq<usize>, rank: nat) -> Seq<usize> {
    Seq::new(
        rank,
        |i: int|
            if i < rank - shape.len() || shape[i - (rank - shape.len())] == 1 {
                0usize
            } else {
                stride[i - (rank - shape.len())]
            },
    )
}

/// `target` is what `shape` looks like after broadcasting: on every axis
/// the operand has the target's extent or extent 1.
pub open spec fn broadcasts_to(shape: Seq<usize>, target: Seq<usize>) -> bool {
    &&& shape.len() <= target.len()
    &&& forall|i: int|
        0 <= i < target.len() ==> {
            ||| (#[trigger] padded(shape, target.len())[i]) == target[i]
            ||| padded(shape, target.len())[i] == 1
        }
}

/// Every element of a broadcast view is an element of the operand: the
/// `k`-th offset of the broadcast view is the offset of some element of the
/// operand's own view.
pub proof fn lemma_broadcast_source(
    shape: Seq<usize>,
    stride: Seq<usize>,
    target: Seq<usize>,
    k: int,
) -> (source: int)
    requires
        shape.len() == stride.len(),
        broadcasts_to(shape, target),
        0 <= k < volume(target),
    ensures
        0 <= source < volume(shape),
        offset_at(target, broadcast_stride(shape, stride, target.len()), k) == offset_at(
            shape,
            stride,
            source,
        ),
    decreases target.len(),
{
    let rank = target.len();
    let steps = broadcast_stride(shape, stride, rank);
    if rank == 0 {
        assert(shape.len() == 0);
        0
    } else {
        let extent = target.last() as int;
        let rest = target.drop_last();
        lemma_volume_positive(target);
        assert(extent > 0);
        assert(0 <= k / extent < volume(rest)) by {
            lemma_div_pos_is_pos(k, extent);
            lemma_multiply_divide_lt(k, extent, volume(rest) as int);
            vstd::arithmetic::mul::lemma_mul_is_commutative(extent, volume(rest) as int);
        }
        lemma_mod_bound(k, extent);
        if shape.len() == 0 {
            assert(broadcasts_to(shape, rest)) by {
                assert forall|i: int| 0 <= i < rest.len() implies (#[trigger] padded(
                    shape,
                    rest.len(),
                )[i]) == 1 by {}
            }
            assert(steps.drop_last() =~= broadcast_stride(shape, stride, rest.len()));
            let inner = lemma_broadcast_source(shape, stride, rest, k / extent);
            assert(steps.last() == 0);
            assert((k % extent) * 0 == 0);
            0
        } else {
            let own = shape.last();
            let shape_rest = shape.drop_last();
            let stride_rest = stride.drop_last();
            assert(padded(shape, rank)[rank - 1] == own);
            assert(broadcasts_to(shape_rest, rest)) by {
                assert forall|i: int| 0 <= i < rest.len() implies {
                    ||| (#[trigger] padded(shape_rest, rest.len())[i]) == rest[i]
                    ||| padded(shape_rest, rest.len())[i] == 1
                } by {
                    assert(padded(shape_rest, rest.len())[i] == padded(shape, rank)[i]);
                }
            }
            assert(steps.drop_last() =~= broadcast_stride(shape_rest, stride_rest, rest.len()));
            let inner = lemma_broadcast_source(shape_rest, stride_rest, rest, k / extent);
            if own == 1 {
                assert(steps.last() == 0);
                assert((k % extent) * 0 == 0);
                assert(inner / 1 == inner && inner % 1 == 0);
                assert((inner % 1) * (stride.last() as int) == 0);
                assert(volume(shape) == volume(shape_rest) * 1);
                inner
            } else {
                assert(own == extent);
                assert(steps.last() == stride.last());
                let source = inner * extent + k % extent;
                lemma_fundamental_div_mod_converse(source, extent, inner, k % extent);
                assert(0 <= source < volume(shape_rest) * extent) by (nonlinear_arith)
                    requires
                        source == inner * extent + k % extent,
                        0 <= inner < volume(shape_rest),
                        0 <= k % extent < extent,
                ;
                source
            }
        }
    }
}

/// A view that stays inside its buffer still does after broadcasting.
pub proof fn lemma_broadcast_in_bounds(
    shape: Seq<usize>,
    stride: Seq<usize>,
    target: Seq<usize>,
    len: int,
)
    requires
        shape.len() == stride.len(),
        broadcasts_to(shape, target),
        in_bounds(shape, stride, len),
    ensures
        in_bounds(target, broadcast_stride(shape, stride, target.len()), len),
{
    assert forall|k: int| 0 <= k < volume(target) implies 0 <= #[trigger] offset_at(
        target,
        broadcast_stride(shape, stride, target.len()),
        k,
    ) < len by {
        let source = lemma_broadcast_source(shape, stride, target, k);
        assert(0 <= offset_at(shape, stride, source) < len);
    }
}

/// Both operands broadcast to the shape of their result.
pub proof fn lemma_broadcast_shape_covers(lhs: Seq<usize>, rhs: Seq<usize>)
    requires
        broadcastable(lhs, rhs),
    ensures
        broadcasts_to(lhs, broadcast_shape(lhs, rhs)),
        broadcasts_to(rhs, broadcast_shape(lhs, rhs)),
{
    let rank = joint_rank(lhs, rhs);
    let target = broadcast_shape(lhs, rhs);
    assert forall|i: int| 0 <= i < target.len() implies {
        ||| (#[trigger] padded(lhs, target.len())[i]) == target[i]
        ||| padded(lhs, target.len())[i] == 1
    } by {
        assert(compatible(padded(lhs, rank)[i], padded(rhs, rank)[i]));
    }
    assert forall|i: int| 0 <= i < target.len() implies {
        ||| (#[trigger] padded(rhs, target.len())[i]) == target[i]
        ||| padded(rhs, target.len())[i] == 1
    } by {
        assert(compatible(padded(lhs, rank)[i], padded(rhs, rank)[i]));
    }
}

/// The extent of `shape` on axis `i` of a view with `rank` axes.
fn padded_extent(shape: &[usize], rank: usize, i: usize) -> (extent: usize)
    requires
        shape@.len() <= rank,
        i < rank,
    ensures
        extent == padded(shape@, rank as nat)[i as int],
{
    let pad = rank - shape.len();
    if i < pad {
        1
    } else {
        shape[i - pad]
    }
}

/// The shape that two shapes broadcast to, or `None` if on some axis
/// their extents differ and neither is 1.
pub fn broadcast_shapes(lhs_shape: &[usize], rhs_shape: &[usize]) -> (out: Option<Vec<usize>>)
    ensures
        match out {
            Some(shape) => broadcastable(lhs_shape@, rhs_shape@) && shape@ == broadcast_shape(
                lhs_shape@,
                rhs_shape@,
            ),
            None => !broadcastable(lhs_shape@, rhs_shape@),
        },
{
    let rank = if lhs_shape.len() >= rhs_shape.len() {
        lhs_shape.len()
    } else {
        rhs_shape.len()
    };
    let ghost target = broadcast_shape(lhs_shape@, rhs_shape@);
    let mut shape: Vec<usize> = Vec::new();
    let mut i: usize = 0;
    while i < rank
        invariant
            i <= rank,
            rank == joint_rank(lhs_shape@, rhs_shape@),
            target == broadcast_shape(lhs_shape@, rhs_shape@),
            shape@.len() == i,
            forall|j: int| 0 <= j < i ==> shape@[j] == target[j],
            forall|j: int|
                0 <= j < i ==> compatible(
                    #[trigger] padded(lhs_shape@, rank as nat)[j],
                    padded(rhs_shape@, rank as nat)[j],
                ),
        decreases rank - i,
    {
        let a = padded_extent(lhs_shape, rank, i);
        let b = padded_extent(rhs_shape, rank, i);
        if a != b && a != 1 && b != 1 {
            proof {
                assert(!compatible(
                    padded(lhs_shape@, rank as nat)[i as int],
                    padded(rhs_shape@, rank as nat)[i as int],
                ));
            }
            return None;
        }
        shape.push(if a == 1 {
            b
        } else {
            a
        });
        i += 1;
    }
    proof {
        assert(shape@ =~= target);
    }
    Some(shape)
}

/// The strides with which an operand is read as a view of `rank` axes.
pub fn broadcast_strides(shape: &[usize], stride: &[usize], rank: usize) -> (out: Vec<usize>)
    requires
        shape@.len() == stride@.len(),
        shape@.len() <= rank,
    ensures
        out@ == broadcast_stride(shape@, stride@, rank as nat),
{
    let pad = rank - shape.len();
    let ghost target = broadcast_stride(shape@, stride@, rank as nat);
    let mut out: Vec<usize> = Vec::new();
    let mut i: usize = 0;
    while i < rank
        invariant
            i <= rank,
            pad == rank - shape@.len(),
            shape@.len() == stride@.len(),
            target == broadcast_stride(shape@, stride@, rank as nat),
            out@.len() == i,
            forall|j: int| 0 <= j < i ==> out@[j] == target[j],
        decreases rank - i,
    {
        if i < pad || shape[i - pad] == 1 {
            out.push(0);
        } else {
            out.push(stride[i - pad]);
        }
        i += 1;
    }
    proof {
        assert(out@ =~= target);
    }
    out
}

/// Applies `Op` to two views under standard broadcasting and returns the
/// results in a new buffer, in row-major order, together with their shape.
///
/// The result is `None` if the shapes cannot be broadcast against each
/// other, or if the result would hold more elements than `usize` can count.
pub fn broadcast_binary<T: Copy, Op: BinaryOp<T>>(
    lhs: &[T],
    lhs_shape: &[usize],
    lhs_stride: &[usize],
    rhs: &[T],
    rhs_shape: &[usize],
    rhs_stride: &[usize],
) -> (out: Option<(Vec<T>, Vec<usize>)>)
    requires
        lhs_shape@.len() == lhs_stride@.len(),
        rhs_shape@.len() == rhs_stride@.len(),
        in_bounds(lhs_shape@, lhs_stride@, lhs@.len() as int),
        in_bounds(rhs_shape@, rhs_stride@, rhs@.len() as int),
        broadcastable(lhs_shape@, rhs_shape@) ==> admissible::<T, Op>(
            gather(
                lhs@,
                broadcast_shape(lhs_shape@, rhs_shape@),
                broadcast_stride(lhs_shape@, lhs_stride@, joint_rank(lhs_shape@, rhs_shape@)),
            ),
            gather(
                rhs@,
                broadcast_shape(lhs_shape@, rhs_shape@),
                broadcast_stride(rhs_shape@, rhs_stride@, joint_rank(lhs_shape@, rhs_shape@)),
            ),
        ),
    ensures
        out.is_some() <==> broadcastable(lhs_shape@, rhs_shape@) && volume(
            broadcast_shape(lhs_shape@, rhs_shape@),
        ) <= usize::MAX,
        match out {
            Some((values, shape)) => {
                &&& broadcastable(lhs_shape@, rhs_shape@)
                &&& shape@ == broadcast_shape(lhs_shape@, rhs_shape@)
                &&& values@ == elementwise::<T, Op>(
                    gather(
                        lhs@,
                        shape@,
                        broadcast_stride(lhs_shape@, lhs_stride@, shape@.len()),
                    ),
                    gather(
                        rhs@,
                        shape@,
                        broadcast_stride(rhs_shape@, rhs_stride@, shape@.len()),
                    ),
                )
            },
            None => !broadcastable(lhs_shape@, rhs_shape@) || volume(
                broadcast_shape(lhs_shape@, rhs_shape@),
            ) > usize::MAX,
        },
{
    let shape = match broadcast_shapes(lhs_shape, rhs_shape) {
        Some(shape) => shape,
        None => {
            return None;
        },
    };
    let count = match element_count(shape.as_slice()) {
        Some(count) => count,
        None => {
            return None;
        },
    };
    let rank = shape.len();
    let lhs_steps = broadcast_strides(lhs_shape, lhs_stride, rank);
    let rhs_steps = broadcast_strides(rhs_shape, rhs_stride, rank);
    proof {
        lemma_broadcast_shape_covers(lhs_shape@, rhs_shape@);
        lemma_broadcast_in_bounds(lhs_shape@, lhs_stride@, shape@, lhs@.len() as int);
        lemma_broadcast_in_bounds(rhs_shape@, rhs_stride@, shape@, rhs@.len() as int);
    }
    let mut values: Vec<T> = Vec::new();
    if count > 0 {
        proof {
            crate::layout::lemma_first_element(shape@, lhs_steps@);
            assert(0 <= offset_at(shape@, lhs_steps@, 0) < lhs@.len());
        }
        let filler = lhs[0];
        let mut i: usize = 0;
        while i < count
            invariant
                i <= count,
                values@.len() == i,
            decreases count - i,
        {
            values.push(filler);
            i += 1;
        }
    }
    elementwise_binary::<T, Op>(
        lhs,
        lhs_steps.as_slice(),
        rhs,
        rhs_steps.as_slice(),
        values.as_mut_slice(),
        shape.as_slice(),
    );
    proof {
        assert(values@ =~= elementwise::<T, Op>(
            gather(lhs@, shape@, lhs_steps@),
            gather(rhs@, shape@, rhs_steps@),
        ));
    }
    Some((values, shape))
}

/// Every shape broadcasts to itself.
pub proof fn lemma_broadcasts_to_itself(shape: Seq<usize>)
    ensures
        broadcasts_to(shape, shape),
{
    assert forall|i: int| 0 <= i < shape.len() implies (#[trigger] padded(shape, shape.len())[i])
        == shape[i] by {}
}

/// Broadcasting composes: a shape that broadcasts to a second, which
/// broadcasts to a third, broadcasts to the third.
pub proof fn lemma_broadcasts_to_transitive(a: Seq<usize>, b: Seq<usize>, c: Seq<usize>)
    requires
        broadcasts_to(a, b),
        broadcasts_to(b, c),
    ensures
        broadcasts_to(a, c),
{
    assert forall|i: int| 0 <= i < c.len() implies {
        ||| (#[trigger] padded(a, c.len())[i]) == c[i]
        ||| padded(a, c.len())[i] == 1
    } by {
        let in_b = i - (c.len() - b.len());
        assert(padded(b, c.len())[i] == c[i] || padded(b, c.len())[i] == 1);
        if in_b >= 0 {
            assert(padded(b, c.len())[i] == b[in_b]);
            assert(padded(a, b.len())[in_b] == b[in_b] || padded(a, b.len())[in_b] == 1);
            assert(padded(a, c.len())[i] == padded(a, b.len())[in_b]);
        }
    }
}

/// A shape joined with a shape it broadcasts to gives that shape, in
/// either order.
pub proof fn lemma_broadcasts_to_joins(shape: Seq<usize>, target: Seq<usize>)
    requires
        broadcasts_to(shape, target),
    ensures
        joint_rank(shape, target) == target.len(),
        joint_rank(target, shape) == target.len(),
        broadcastable(shape, target),
        broadcastable(target, shape),
        broadcast_shape(shape, target) == target,
        broadcast_shape(target, shape) == target,
{
    let rank = target.len();
    assert forall|i: int| 0 <= i < rank implies padded(target, rank)[i] == target[i] by {}
    assert forall|i: int| 0 <= i < rank implies compatible(
        #[trigger] padded(shape, rank)[i],
        padded(target, rank)[i],
    ) by {}
    assert forall|i: int| 0 <= i < rank implies compatible(
        #[trigger] padded(target, rank)[i],
        padded(shape, rank)[i],
    ) by {
        assert(padded(shape, rank)[i] == target[i] || padded(shape, rank)[i] == 1);
    }
    assert(broadcast_shape(shape, target) =~= target) by {
        assert forall|i: int| 0 <= i < rank implies broadcast_shape(shape, target)[i]
            == target[i] by {
            assert(padded(shape, rank)[i] == target[i] || padded(shape, rank)[i] == 1);
        }
    }
    assert(broadcast_shape(target, shape) =~= target) by {
        assert forall|i: int| 0 <= i < rank implies broadcast_shape(target, shape)[i]
            == target[i] by {
            assert(padded(shape, rank)[i] == target[i] || padded(shape, rank)[i] == 1);
        }
    }
}

/// Broadcasting a view to its own shape changes no offset: the axes that
/// get stride 0 hold one element each.
pub proof fn lemma_broadcast_to_own_shape(shape: Seq<usize>, stride: Seq<usize>, k: int)
    requires
        shape.len() == stride.len(),
    ensures
        offset_at(shape, broadcast_stride(shape, stride, shape.len()), k) == offset_at(
            shape,
            stride,
            k,
        ),
    decreases shape.len(),
{
    let steps = broadcast_stride(shape, stride, shape.len());
    if shape.len() != 0 {
        let rest = shape.drop_last();
        let n = shape.last() as int;
        assert(steps.drop_last() =~= broadcast_stride(rest, stride.drop_last(), rest.len()));
        lemma_broadcast_to_own_shape(rest, stride.drop_last(), k / n);
        if shape.last() == 1 {
            assert(k % 1 == 0);
            assert(steps.last() == 0);
            assert(0 * (stride.last() as int) == 0);
            assert(0 * 0 == 0);
        } else {
            assert(steps.last() == stride.last());
        }
    }
}

/// The elements of a view are those of the view broadcast to its own
/// shape.
pub proof fn lemma_gather_own_shape<T>(buf: Seq<T>, shape: Seq<usize>, stride: Seq<usize>)
    requires
        shape.len() == stride.len(),
    ensures
        gather(buf, shape, broadcast_stride(shape, stride, shape.len())) == gather(
            buf,
            shape,
            stride,
        ),
{
    assert forall|k: int| 0 <= k < volume(shape) implies offset_at(
        shape,
        broadcast_stride(shape, stride, shape.len()),
        k,
    ) == offset_at(shape, stride, k) by {
        lemma_broadcast_to_own_shape(shape, stride, k);
    }
    assert(gather(buf, shape, broadcast_stride(shape, stride, shape.len())) =~= gather(
        buf,
        shape,
        stride,
    ));
}

/// Broadcasting a column against a row, whatever their strides: where one
/// operand has shape `[m, 1]` and the other shape `[1, n]`, the element in
/// row `i` and column `j` of the result is the operator applied to element
/// `i` of the column and element `j` of the row.
pub proof fn lemma_column_against_row<T: Copy, Op: BinaryOp<T>>(
    column: Seq<T>,
    column_stride: Seq<usize>,
    row: Seq<T>,
    row_stride: Seq<usize>,
    m: usize,
    n: usize,
    i: int,
    j: int,
)
    requires
        column_stride.len() == 2,
        row_stride.len() == 2,
        0 <= i < m,
        0 <= j < n,
    ensures
        broadcastable(seq![m, 1usize], seq![1usize, n]),
        broadcast_shape(seq![m, 1usize], seq![1usize, n]) == seq![m, n],
        volume(seq![m, n]) == m * n,
        0 <= i * n + j < m * n,
        elementwise::<T, Op>(
            gather(column, seq![m, n], broadcast_stride(seq![m, 1usize], column_stride, 2)),
            gather(row, seq![m, n], broadcast_stride(seq![1usize, n], row_stride, 2)),
        )[i * n + j] == Op::eval(column[i * column_stride[0]], row[j * row_stride[1]]),
{
    let tall = seq![m, 1usize];
    let wide = seq![1usize, n];
    assert(padded(tall, 2)[0] == m && padded(tall, 2)[1] == 1);
    assert(padded(wide, 2)[0] == 1 && padded(wide, 2)[1] == n);
    assert(broadcast_shape(tall, wide) =~= seq![m, n]);
    let down = broadcast_stride(tall, column_stride, 2);
    let along = broadcast_stride(wide, row_stride, 2);
    assert(down =~= seq![down[0], 0usize]);
    assert(along =~= seq![0usize, along[1]]);
    crate::layout::lemma_offset_two_axes(m, n, down[0], 0, i, j);
    crate::layout::lemma_offset_two_axes(m, n, 0, along[1], i, j);
    assert(i * down[0] == i * column_stride[0]) by {
        if m == 1 {
            assert(i == 0);
            assert(0 * 0 == 0 * column_stride[0]) by (nonlinear_arith);
        }
    }
    assert(j * along[1] == j * row_stride[1]) by {
        if n == 1 {
            assert(j == 0);
            assert(0 * 0 == 0 * row_stride[1]) by (nonlinear_arith);
        }
    }
    assert(j * 0 == 0 && i * 0 == 0);
}

/// Two shapes that broadcast to a common shape broadcast against each
/// other, and what they broadcast to again broadcasts to that shape.
pub proof fn lemma_join_below(x: Seq<usize>, y: Seq<usize>, top: Seq<usize>)
    requires
        broadcasts_to(x, top),
        broadcasts_to(y, top),
    ensures
        broadcastable(x, y),
        broadcasts_to(broadcast_shape(x, y), top),
{
    let rank = joint_rank(x, y);
    let joint = broadcast_shape(x, y);
    let lift = top.len() - rank;
    assert forall|i: int| 0 <= i < rank implies {
        &&& compatible(#[trigger] padded(x, rank)[i], padded(y, rank)[i])
        &&& (joint[i] == top[i + lift] || joint[i] == 1)
    } by {
        assert(padded(x, top.len())[i + lift] == padded(x, rank)[i]);
        assert(padded(y, top.len())[i + lift] == padded(y, rank)[i]);
    }
    assert forall|i: int| 0 <= i < top.len() implies {
        ||| (#[trigger] padded(joint, top.len())[i]) == top[i]
        ||| padded(joint, top.len())[i] == 1
    } by {
        if i >= lift {
            assert(padded(x, rank)[i - lift] == padded(x, rank)[i - lift]);
            assert(joint[i - lift] == top[i - lift + lift] || joint[i - lift] == 1);
        }
    }
}

/// A shape holds no more elements than a non-empty shape it broadcasts to.
pub proof fn lemma_volume_below(shape: Seq<usize>, top: Seq<usize>)
    requires
        broadcasts_to(shape, top),
        volume(top) > 0,
    ensures
        volume(shape) <= volume(top),
    decreases top.len(),
{
    if top.len() == 0 {
        assert(shape.len() == 0);
    } else if shape.len() == 0 {
    } else {
        let rank = top.len();
        let rest = top.drop_last();
        let shape_rest = shape.drop_last();
        lemma_volume_positive(top);
        assert(padded(shape, rank)[rank - 1] == shape.last());
        assert(broadcasts_to(shape_rest, rest)) by {
            assert forall|i: int| 0 <= i < rest.len() implies {
                ||| (#[trigger] padded(shape_rest, rest.len())[i]) == rest[i]
                ||| padded(shape_rest, rest.len())[i] == 1
            } by {
                assert(padded(shape_rest, rest.len())[i] == padded(shape, rank)[i]);
            }
        }
        assert(volume(rest) > 0) by (nonlinear_arith)
            requires
                volume(rest) * (top.last() as nat) > 0,
        ;
        lemma_volume_below(shape_rest, rest);
        assert(volume(shape_rest) * (shape.last() as nat) <= volume(rest) * (top.last() as nat))
            by (nonlinear_arith)
            requires
                volume(shape_rest) <= volume(rest),
                shape.last() <= top.last(),
        ;
    }
}

/// Every shape that broadcasts to `top` holds no more elements than
/// `usize` can count.
pub open spec fn bounded(top: Seq<usize>) -> bool {
    forall|shape: Seq<usize>| #[trigger] broadcasts_to(shape, top) ==> volume(shape) <= usize::MAX
}

/// A non-empty shape whose elements `usize` can count bounds every shape
/// that broadcasts to it.
pub proof fn lemma_bounded(top: Seq<usize>)
    requires
        0 < volume(top) <= usize::MAX,
    ensures
        bounded(top),
{
    assert forall|shape: Seq<usize>| #[trigger] broadcasts_to(shape, top) implies volume(shape)
        <= usize::MAX by {
        lemma_volume_below(shape, top);
    }
}

} // verus!
