//! Reductions (sum, product, minimum, maximum) over contiguous or uniformly
//! strided input, accumulated in `LANES` independent lanes at a time.
//!
//! The lanes are combined horizontally once the full chunks are exhausted,
//! and the remaining tail is folded in element by element. Because every
//! reduction operator is associative and commutative, the result is that of
//! the plain sequential fold, for every input.
use crate::collapse_contiguous::collapse_to_uniform_stride;
use crate::flat_index_generator::FlatIndexGenerator;
use crate::layout::{
    gather, gather_uniform, in_bounds, lemma_same_offsets_uniform, lemma_strided_index,
    offset_at, strided_fits, volume,
};
use crate::ops::{fold, Add, Max, Min, Mul, ReduceOp};
use vstd::prelude::*;

verus! {

/// Number of elements a vector holds.
pub const LANES: usize = 4;

/// The lanes of a vector combined into one element, left to right.
pub open spec fn horizontal<T: Copy, Op: ReduceOp<T>>(v: Seq<T>) -> T {
    Op::eval(Op::eval(Op::eval(v[0], v[1]), v[2]), v[3])
}

/// Two vectors combined lane by lane.
pub open spec fn lanewise<T: Copy, Op: ReduceOp<T>>(a: Seq<T>, b: Seq<T>) -> Seq<T> {
    seq![
        Op::eval(a[0], b[0]),
        Op::eval(a[1], b[1]),
        Op::eval(a[2], b[2]),
        Op::eval(a[3], b[3]),
    ]
}

/// The identity is neutral on the right as well.
pub proof fn lemma_identity_right<T: Copy, Op: ReduceOp<T>>(a: T)
    ensures
        Op::eval(a, Op::identity()) == a,
{
    Op::lemma_commutative(a, Op::identity());
    Op::lemma_identity(a);
}

/// Folding a concatenation combines the folds of its parts.
pub proof fn lemma_fold_concat<T: Copy, Op: ReduceOp<T>>(front: Seq<T>, back: Seq<T>)
    ensures
        fold::<T, Op>(front + back) == Op::eval(fold::<T, Op>(front), fold::<T, Op>(back)),
    decreases back.len(),
{
    if back.len() == 0 {
        assert(front + back =~= front);
        lemma_identity_right::<T, Op>(fold::<T, Op>(front));
    } else {
        assert((front + back).drop_last() =~= front + back.drop_last());
        assert((front + back).last() == back.last());
        lemma_fold_concat::<T, Op>(front, back.drop_last());
        Op::lemma_associative(
            fold::<T, Op>(front),
            fold::<T, Op>(back.drop_last()),
            back.last(),
        );
    }
}

/// The fold of nothing is the identity, and the fold of a single element is
/// that element.
pub proof fn lemma_fold_small<T: Copy, Op: ReduceOp<T>>(a: T)
    ensures
        fold::<T, Op>(Seq::<T>::empty()) == Op::identity(),
        fold::<T, Op>(seq![a]) == a,
{
    assert(seq![a].drop_last() =~= Seq::<T>::empty());
    Op::lemma_identity(a);
}

/// The fold of three elements combines them left to right.
pub proof fn lemma_fold_three<T: Copy, Op: ReduceOp<T>>(a: T, b: T, c: T)
    ensures
        fold::<T, Op>(seq![a, b, c]) == Op::eval(Op::eval(a, b), c),
{
    let all = seq![a, b, c];
    let two = all.drop_last();
    let one = two.drop_last();
    assert(one =~= seq![a]);
    lemma_fold_small::<T, Op>(a);
    assert(two.last() == b && all.last() == c);
    assert(fold::<T, Op>(two) == Op::eval(a, b));
}

/// The fold of one full vector is its horizontal combination.
pub proof fn lemma_fold_vector<T: Copy, Op: ReduceOp<T>>(v: Seq<T>)
    requires
        v.len() == 4,
    ensures
        fold::<T, Op>(v) == horizontal::<T, Op>(v),
{
    let v3 = v.drop_last();
    let v2 = v3.drop_last();
    let v1 = v2.drop_last();
    assert(v1.drop_last() =~= Seq::<T>::empty());
    assert(fold::<T, Op>(v1.drop_last()) == Op::identity());
    Op::lemma_identity(v[0]);
    assert(fold::<T, Op>(v1) == v[0]);
    assert(fold::<T, Op>(v2) == Op::eval(v[0], v[1]));
    assert(fold::<T, Op>(v3) == Op::eval(Op::eval(v[0], v[1]), v[2]));
}

/// Combining two pairs crosswise gives the same as combining them
/// straight.
pub proof fn lemma_medial<T: Copy, Op: ReduceOp<T>>(p: T, q: T, r: T, s: T)
    ensures
        Op::eval(Op::eval(p, q), Op::eval(r, s)) == Op::eval(Op::eval(p, r), Op::eval(q, s)),
{
    Op::lemma_associative(p, q, Op::eval(r, s));
    Op::lemma_associative(q, r, s);
    Op::lemma_commutative(q, r);
    Op::lemma_associative(r, q, s);
    Op::lemma_associative(p, r, Op::eval(q, s));
}

/// Combining lane by lane and then horizontally gives the same as
/// combining horizontally first.
pub proof fn lemma_horizontal_lanewise<T: Copy, Op: ReduceOp<T>>(a: Seq<T>, b: Seq<T>)
    requires
        a.len() == 4,
        b.len() == 4,
    ensures
        horizontal::<T, Op>(lanewise::<T, Op>(a, b)) == Op::eval(
            horizontal::<T, Op>(a),
            horizontal::<T, Op>(b),
        ),
{
    lemma_medial::<T, Op>(a[0], b[0], a[1], b[1]);
    lemma_medial::<T, Op>(Op::eval(a[0], a[1]), Op::eval(b[0], b[1]), a[2], b[2]);
    lemma_medial::<T, Op>(
        Op::eval(Op::eval(a[0], a[1]), a[2]),
        Op::eval(Op::eval(b[0], b[1]), b[2]),
        a[3],
        b[3],
    );
}

/// A vector with every lane set to `value`.
pub fn simd_from_constant<T: Copy>(value: T) -> (v: [T; LANES])
    ensures
        v@ =~= seq![value, value, value, value],
{
    [value, value, value, value]
}

/// The vector of the `LANES` elements that start at element `first` of a
/// strided read.
pub fn simd_vec_from_stride<T: Copy>(data: &[T], first: usize, stride: usize) -> (v: [T; LANES])
    requires
        first + LANES <= usize::MAX,
        strided_fits((first + LANES) as nat, stride, data@.len()),
    ensures
        v@ =~= seq![
            data@[first * stride],
            data@[(first + 1) * stride],
            data@[(first + 2) * stride],
            data@[(first + 3) * stride],
        ],
{
    let len = data.len();
    proof {
        lemma_strided_index(first as int, (first + LANES) as nat, stride, len);
        lemma_strided_index(first + 1, (first + LANES) as nat, stride, len);
        lemma_strided_index(first + 2, (first + LANES) as nat, stride, len);
        lemma_strided_index(first + 3, (first + LANES) as nat, stride, len);
    }
    [
        data[first * stride],
        data[(first + 1) * stride],
        data[(first + 2) * stride],
        data[(first + 3) * stride],
    ]
}

/// The vector of the `LANES` adjacent elements that start at `first`.
pub fn simd_load<T: Copy>(data: &[T], first: usize) -> (v: [T; LANES])
    requires
        first + LANES <= data@.len(),
    ensures
        v@ =~= seq![data@[first as int], data@[first + 1], data@[first + 2], data@[first + 3]],
{
    [data[first], data[first + 1], data[first + 2], data[first + 3]]
}

/// Two vectors combined lane by lane.
pub fn simd_combine<T: Copy, Op: ReduceOp<T>>(a: [T; LANES], b: [T; LANES]) -> (v: [T; LANES])
    ensures
        v@ =~= lanewise::<T, Op>(a@, b@),
{
    proof {
        Op::lemma_total(a@[0], b@[0]);
        Op::lemma_total(a@[1], b@[1]);
        Op::lemma_total(a@[2], b@[2]);
        Op::lemma_total(a@[3], b@[3]);
    }
    [
        Op::apply(a[0], b[0]),
        Op::apply(a[1], b[1]),
        Op::apply(a[2], b[2]),
        Op::apply(a[3], b[3]),
    ]
}

/// The lanes of a vector combined into one element.
pub fn simd_horizontal<T: Copy, Op: ReduceOp<T>>(v: [T; LANES]) -> (out: T)
    ensures
        out == horizontal::<T, Op>(v@),
{
    proof {
        Op::lemma_total(v@[0], v@[1]);
        Op::lemma_total(Op::eval(v@[0], v@[1]), v@[2]);
        Op::lemma_total(Op::eval(Op::eval(v@[0], v@[1]), v@[2]), v@[3]);
    }
    Op::apply(Op::apply(Op::apply(v[0], v[1]), v[2]), v[3])
}

/// The scalar fallback: the sequential fold of `count` elements read at a
/// constant step, seeded with the operator's identity.
pub fn reduce_scalar<T: Copy, Op: ReduceOp<T>>(data: &[T], count: usize, stride: usize) -> (out: T)
    requires
        strided_fits(count as nat, stride, data@.len()),
    ensures
        out == fold::<T, Op>(gather_uniform(data@, count as nat, stride)),
{
    proof {
        assert(gather_uniform(data@, count as nat, stride).take(0) =~= Seq::<T>::empty());
    }
    reduce_tail::<T, Op>(data, count, stride, 0, Op::seed())
}

/// Folds the elements from `start` on into `partial`, one at a time.
fn reduce_tail<T: Copy, Op: ReduceOp<T>>(
    data: &[T],
    count: usize,
    stride: usize,
    start: usize,
    partial: T,
) -> (out: T)
    requires
        start <= count,
        strided_fits(count as nat, stride, data@.len()),
        partial == fold::<T, Op>(gather_uniform(data@, count as nat, stride).take(start as int)),
    ensures
        out == fold::<T, Op>(gather_uniform(data@, count as nat, stride)),
{
    let ghost items = gather_uniform(data@, count as nat, stride);
    let len = data.len();
    let mut output = partial;
    let mut done = start;
    while done < count
        invariant
            done <= count,
            len == data@.len(),
            strided_fits(count as nat, stride, data@.len()),
            items == gather_uniform(data@, count as nat, stride),
            output == fold::<T, Op>(items.take(done as int)),
        decreases count - done,
    {
        proof {
            lemma_strided_index(done as int, count as nat, stride, len);
            assert(items.take(done + 1).drop_last() =~= items.take(done as int));
            Op::lemma_total(output, items[done as int]);
        }
        output = Op::apply(output, data[done * stride]);
        done += 1;
    }
    proof {
        assert(items.take(count as int) =~= items);
    }
    output
}

/// Reduces `count` elements read at a constant step, one vector per
/// iteration.
pub fn reduce_uniform<T: Copy, Op: ReduceOp<T>>(data: &[T], count: usize, stride: usize) -> (out:
    T)
    requires
        strided_fits(count as nat, stride, data@.len()),
    ensures
        out == fold::<T, Op>(gather_uniform(data@, count as nat, stride)),
{
    let ghost items = gather_uniform(data@, count as nat, stride);
    let mut acc = simd_from_constant(Op::seed());
    let mut done: usize = 0;
    proof {
        assert(items.take(0) =~= Seq::<T>::empty());
        Op::lemma_identity(Op::identity());
    }
    while count - done >= LANES
        invariant
            done <= count,
            strided_fits(count as nat, stride, data@.len()),
            items == gather_uniform(data@, count as nat, stride),
            horizontal::<T, Op>(acc@) == fold::<T, Op>(items.take(done as int)),
        decreases count - done,
    {
        proof {
            lemma_strided_prefix((done + LANES) as nat, count as nat, stride, data@.len());
        }
        let vec = simd_vec_from_stride(data, done, stride);
        let ghost before = acc@;
        acc = simd_combine::<T, Op>(acc, vec);
        proof {
            lemma_horizontal_lanewise::<T, Op>(before, vec@);
            lemma_fold_vector::<T, Op>(vec@);
            lemma_fold_concat::<T, Op>(items.take(done as int), vec@);
            assert(items.take(done + LANES) =~= items.take(done as int) + vec@);
        }
        done += LANES;
    }
    let output = simd_horizontal::<T, Op>(acc);
    reduce_tail::<T, Op>(data, count, stride, done, output)
}

/// Reading fewer elements at the same step fits wherever the longer read
/// fits.
pub proof fn lemma_strided_prefix(fewer: nat, count: nat, stride: usize, len: nat)
    requires
        fewer <= count,
        strided_fits(count, stride, len),
    ensures
        strided_fits(fewer, stride, len),
{
    if fewer > 0 {
        assert((fewer - 1) * stride <= (count - 1) * stride) by (nonlinear_arith)
            requires
                0 < fewer <= count,
                stride >= 0,
        ;
    }
}

/// Reduces `count` adjacent elements, four vectors per iteration.
pub fn reduce_contiguous<T: Copy, Op: ReduceOp<T>>(data: &[T], count: usize) -> (out: T)
    requires
        count <= data@.len(),
    ensures
        out == fold::<T, Op>(gather_uniform(data@, count as nat, 1)),
{
    let ghost items = gather_uniform(data@, count as nat, 1);
    let mut acc = simd_from_constant(Op::seed());
    let mut done: usize = 0;
    proof {
        assert(items.take(0) =~= Seq::<T>::empty());
        Op::lemma_identity(Op::identity());
    }
    while count - done >= 4 * LANES
        invariant
            done <= count,
            count <= data@.len(),
            items == gather_uniform(data@, count as nat, 1),
            horizontal::<T, Op>(acc@) == fold::<T, Op>(items.take(done as int)),
        decreases count - done,
    {
        let a = simd_load(data, done);
        let b = simd_load(data, done + LANES);
        let c = simd_load(data, done + 2 * LANES);
        let d = simd_load(data, done + 3 * LANES);
        let ab = simd_combine::<T, Op>(a, b);
        let cd = simd_combine::<T, Op>(c, d);
        let abcd = simd_combine::<T, Op>(ab, cd);
        let ghost before = acc@;
        acc = simd_combine::<T, Op>(acc, abcd);
        proof {
            lemma_horizontal_lanewise::<T, Op>(a@, b@);
            lemma_horizontal_lanewise::<T, Op>(c@, d@);
            lemma_horizontal_lanewise::<T, Op>(ab@, cd@);
            lemma_horizontal_lanewise::<T, Op>(before, abcd@);
            lemma_fold_vector::<T, Op>(a@);
            lemma_fold_vector::<T, Op>(b@);
            lemma_fold_vector::<T, Op>(c@);
            lemma_fold_vector::<T, Op>(d@);
            lemma_fold_concat::<T, Op>(a@, b@);
            lemma_fold_concat::<T, Op>(c@, d@);
            lemma_fold_concat::<T, Op>(a@ + b@, c@ + d@);
            lemma_fold_concat::<T, Op>(items.take(done as int), (a@ + b@) + (c@ + d@));
            assert(items.take(done + 4 * LANES) =~= items.take(done as int) + ((a@ + b@) + (c@
                + d@)));
        }
        done += 4 * LANES;
    }
    let output = simd_horizontal::<T, Op>(acc);
    proof {
        if count > 0 {
            assert((count - 1) * 1 < data@.len());
        }
    }
    reduce_tail::<T, Op>(data, count, 1, done, output)
}

/// The single entry point for reductions: contiguous input takes the
/// unrolled loop, any other step the strided one.
pub fn reduce<T: Copy, Op: ReduceOp<T>>(data: &[T], count: usize, stride: usize) -> (out: T)
    requires
        strided_fits(count as nat, stride, data@.len()),
    ensures
        out == fold::<T, Op>(gather_uniform(data@, count as nat, stride)),
{
    if stride == 1 {
        reduce_contiguous::<T, Op>(data, count)
    } else {
        reduce_uniform::<T, Op>(data, count, stride)
    }
}

/// Reduces every element of a view, in row-major order: a view that
/// collapses to one axis goes to the vector loops, any other is walked by
/// the index generator and folded element by element.
pub fn reduce_view<T: Copy, Op: ReduceOp<T>>(data: &[T], shape: &[usize], stride: &[usize]) -> (out:
    T)
    requires
        shape@.len() == stride@.len(),
        volume(shape@) <= usize::MAX,
        in_bounds(shape@, stride@, data@.len() as int),
    ensures
        out == fold::<T, Op>(gather(data@, shape@, stride@)),
{
    let len = data.len();
    let (collapsed_shape, collapsed_stride) = collapse_to_uniform_stride(shape, stride);
    if collapsed_shape.len() == 1 {
        proof {
            assert(collapsed_shape@ =~= seq![collapsed_shape@[0]]);
            assert(collapsed_stride@ =~= seq![collapsed_stride@[0]]);
            lemma_same_offsets_uniform(
                data@,
                shape@,
                stride@,
                collapsed_shape@[0],
                collapsed_stride@[0],
                len as int,
            );
        }
        reduce::<T, Op>(data, collapsed_shape[0], collapsed_stride[0])
    } else {
        let ghost items = gather(data@, shape@, stride@);
        let mut indices = FlatIndexGenerator::from(shape, stride);
        let mut output = Op::seed();
        let ghost mut done: int = 0;
        proof {
            assert(items.take(0) =~= Seq::<T>::empty());
        }
        loop
            invariant_except_break
                0 <= done <= volume(shape@),
                indices.position() == done,
                output == fold::<T, Op>(items.take(done)),
            invariant
                len == data@.len(),
                indices.wf(),
                indices.shape() == shape@,
                indices.stride() == stride@,
                in_bounds(shape@, stride@, data@.len() as int),
                items == gather(data@, shape@, stride@),
            ensures
                output == fold::<T, Op>(items),
            decreases volume(shape@) - done,
        {
            match indices.next() {
                Some(index) => {
                    proof {
                        assert(0 <= offset_at(shape@, stride@, done) < data@.len());
                        assert(items.take(done + 1).drop_last() =~= items.take(done));
                        Op::lemma_total(output, items[done]);
                    }
                    output = Op::apply(output, data[index]);
                    proof {
                        done = done + 1;
                    }
                },
                None => {
                    proof {
                        assert(items.take(done) =~= items);
                    }
                    break ;
                },
            }
        }
        output
    }
}

/// The reductions of an element type, by name.
pub trait SimdReduceOps: Copy + Sized where
    Add: ReduceOp<Self>,
    Mul: ReduceOp<Self>,
    Min: ReduceOp<Self>,
    Max: ReduceOp<Self>,
 {
    /// Wrapping sum of a strided read; 0 for no elements.
    fn simd_sum_uniform(data: &[Self], count: usize, stride: usize) -> (out: Self)
        requires
            strided_fits(count as nat, stride, data@.len()),
        ensures
            out == fold::<Self, Add>(gather_uniform(data@, count as nat, stride)),
    {
        reduce_uniform::<Self, Add>(data, count, stride)
    }

    /// Wrapping sum of adjacent elements; 0 for no elements.
    fn simd_sum_contiguous(data: &[Self], count: usize) -> (out: Self)
        requires
            count <= data@.len(),
        ensures
            out == fold::<Self, Add>(gather_uniform(data@, count as nat, 1)),
    {
        reduce_contiguous::<Self, Add>(data, count)
    }

    /// Wrapping product of a strided read; 1 for no elements.
    fn simd_product_uniform(data: &[Self], count: usize, stride: usize) -> (out: Self)
        requires
            strided_fits(count as nat, stride, data@.len()),
        ensures
            out == fold::<Self, Mul>(gather_uniform(data@, count as nat, stride)),
    {
        reduce_uniform::<Self, Mul>(data, count, stride)
    }

    /// Wrapping product of adjacent elements; 1 for no elements.
    fn simd_product_contiguous(data: &[Self], count: usize) -> (out: Self)
        requires
            count <= data@.len(),
        ensures
            out == fold::<Self, Mul>(gather_uniform(data@, count as nat, 1)),
    {
        reduce_contiguous::<Self, Mul>(data, count)
    }

    /// Least element of a strided read; the type's maximum for no elements.
    fn simd_min_uniform(data: &[Self], count: usize, stride: usize) -> (out: Self)
        requires
            strided_fits(count as nat, stride, data@.len()),
        ensures
            out == fold::<Self, Min>(gather_uniform(data@, count as nat, stride)),
    {
        reduce_uniform::<Self, Min>(data, count, stride)
    }

    /// Least of adjacent elements; the type's maximum for no elements.
    fn simd_min_contiguous(data: &[Self], count: usize) -> (out: Self)
        requires
            count <= data@.len(),
        ensures
            out == fold::<Self, Min>(gather_uniform(data@, count as nat, 1)),
    {
        reduce_contiguous::<Self, Min>(data, count)
    }

    /// Greatest element of a strided read; the type's minimum for no
    /// elements.
    fn simd_max_uniform(data: &[Self], count: usize, stride: usize) -> (out: Self)
        requires
            strided_fits(count as nat, stride, data@.len()),
        ensures
            out == fold::<Self, Max>(gather_uniform(data@, count as nat, stride)),
    {
        reduce_uniform::<Self, Max>(data, count, stride)
    }

    /// Greatest of adjacent elements; the type's minimum for no elements.
    fn simd_max_contiguous(data: &[Self], count: usize) -> (out: Self)
        requires
            count <= data@.len(),
        ensures
            out == fold::<Self, Max>(gather_uniform(data@, count as nat, 1)),
    {
        reduce_contiguous::<Self, Max>(data, count)
    }
}

impl SimdReduceOps for u8 {

}

impl SimdReduceOps for u16 {

}

impl SimdReduceOps for u32 {

}

impl SimdReduceOps for u64 {

}

impl SimdReduceOps for u128 {

}

impl SimdReduceOps for usize {

}

impl SimdReduceOps for i8 {

}

impl SimdReduceOps for i16 {

}

impl SimdReduceOps for i32 {

}

impl SimdReduceOps for i64 {

}

impl SimdReduceOps for i128 {

}

impl SimdReduceOps for isize {

}

} // verus!
