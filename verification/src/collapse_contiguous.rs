//! Rewriting a shape/stride pair into an equivalent pair with as few axes as
//! merging can give, so that more views qualify for the uniform-stride
//! kernels.
use crate::layout::{
    lemma_offset_single, lemma_offset_split, lemma_volume_concat, lemma_volume_nonzero,
    lemma_volume_single, lemma_volume_zero, offset_at, offsets, same_offsets, volume,
};
use vstd::arithmetic::div_mod::*;
use vstd::arithmetic::mul::*;
use vstd::prelude::*;

verus! {

/// Two adjacent axes compose contiguously: stepping the outer axis once
/// moves as far as walking the whole inner axis, and the merged extent is
/// representable.
pub open spec fn merges(
    outer_extent: usize,
    outer_stride: usize,
    inner_extent: usize,
    inner_stride: usize,
) -> bool {
    &&& outer_stride == inner_stride * inner_extent
    &&& outer_extent * inner_extent <= usize::MAX
}

/// A shape/stride pair that cannot be reduced further: it has at least one
/// axis, no axis of extent 1 unless it is the only one, and no two adjacent
/// axes that merge. A view of a single element is written as one axis of
/// extent 1 and stride 0.
pub open spec fn is_collapsed(shape: Seq<usize>, stride: Seq<usize>) -> bool {
    &&& shape.len() == stride.len()
    &&& shape.len() >= 1
    &&& shape[0] == 1 ==> stride[0] == 0
    &&& shape.len() > 1 ==> forall|i: int| 0 <= i < shape.len() ==> shape[i] != 1
    &&& forall|i: int|
        0 <= i < shape.len() - 1 ==> !merges(
            #[trigger] shape[i],
            stride[i],
            shape[i + 1],
            stride[i + 1],
        )
}

/// Putting the same axis in front of two equivalent views keeps them
/// equivalent.
proof fn lemma_prepend_axis(
    n: usize,
    t: usize,
    shape_a: Seq<usize>,
    stride_a: Seq<usize>,
    shape_b: Seq<usize>,
    stride_b: Seq<usize>,
)
    requires
        shape_a.len() == stride_a.len(),
        shape_b.len() == stride_b.len(),
        same_offsets(shape_a, stride_a, shape_b, stride_b),
    ensures
        same_offsets(seq![n] + shape_a, seq![t] + stride_a, seq![n] + shape_b, seq![t] + stride_b),
{
    let c = volume(shape_a) as int;
    lemma_volume_concat(seq![n], shape_a);
    lemma_volume_concat(seq![n], shape_b);
    assert forall|k: int| 0 <= k < volume(seq![n] + shape_a) implies #[trigger] offset_at(
        seq![n] + shape_a,
        seq![t] + stride_a,
        k,
    ) == offset_at(seq![n] + shape_b, seq![t] + stride_b, k) by {
        assert(c > 0) by (nonlinear_arith)
            requires
                0 <= k < volume(seq![n]) * c,
                c >= 0,
        ;
        lemma_offset_split(seq![n], seq![t], shape_a, stride_a, k);
        lemma_offset_split(seq![n], seq![t], shape_b, stride_b, k);
        lemma_mod_bound(k, c);
    }
}

/// An axis of extent 1 in front of a view does not change what it visits.
proof fn lemma_unit_axis(t: usize, shape: Seq<usize>, stride: Seq<usize>)
    requires
        shape.len() == stride.len(),
    ensures
        same_offsets(seq![1usize] + shape, seq![t] + stride, shape, stride),
{
    let c = volume(shape) as int;
    lemma_volume_concat(seq![1usize], shape);
    lemma_volume_single(1usize);
    assert(volume(seq![1usize] + shape) == volume(shape)) by (nonlinear_arith)
        requires
            volume(seq![1usize] + shape) == 1 * volume(shape),
    ;
    assert forall|k: int| 0 <= k < volume(seq![1usize] + shape) implies #[trigger] offset_at(
        seq![1usize] + shape,
        seq![t] + stride,
        k,
    ) == offset_at(shape, stride, k) by {
        lemma_offset_split(seq![1usize], seq![t], shape, stride, k);
        lemma_small_mod(k as nat, c as nat);
        lemma_basic_div(k, c);
        lemma_offset_single(1usize, t, 0);
    }
}

/// Two leading axes that compose contiguously visit the same offsets as the
/// single axis they merge into.
proof fn lemma_merge_axes(
    n: usize,
    e: usize,
    s: usize,
    product: usize,
    t: usize,
    shape: Seq<usize>,
    stride: Seq<usize>,
)
    requires
        shape.len() == stride.len(),
        t == s * e,
        product == n * e,
    ensures
        same_offsets(
            seq![n, e] + shape,
            seq![t, s] + stride,
            seq![product] + shape,
            seq![s] + stride,
        ),
{
    let c = volume(shape) as int;
    let pair = seq![n, e];
    let pair_stride = seq![t, s];
    assert(pair.drop_last() =~= seq![n]);
    assert(pair_stride.drop_last() =~= seq![t]);
    assert(pair.last() == e && pair_stride.last() == s);
    lemma_volume_single(n);
    lemma_volume_single(product);
    assert(volume(pair) == volume(seq![n]) * (e as nat));
    lemma_volume_concat(pair, shape);
    lemma_volume_concat(seq![product], shape);
    assert forall|k: int| 0 <= k < volume(pair + shape) implies #[trigger] offset_at(
        pair + shape,
        pair_stride + stride,
        k,
    ) == offset_at(seq![product] + shape, seq![s] + stride, k) by {
        assert(c > 0 && n > 0 && e > 0) by (nonlinear_arith)
            requires
                0 <= k < (n * e) * c,
                c >= 0,
        ;
        lemma_offset_split(pair, pair_stride, shape, stride, k);
        lemma_offset_split(seq![product], seq![s], shape, stride, k);
        let j = k / c;
        lemma_div_pos_is_pos(k, c);
        assert(j < n * e) by {
            lemma_mul_is_commutative(n * e, c);
            lemma_div_by_multiple_is_strongly_ordered(k, (n * e) * c, n * e, c);
            lemma_div_by_multiple(n * e, c);
        }
        lemma_offset_single(product, s, j);
        lemma_div_pos_is_pos(j, e as int);
        assert(j / (e as int) < n) by {
            lemma_mul_is_commutative(n as int, e as int);
            lemma_div_by_multiple_is_strongly_ordered(j, n * e, n as int, e as int);
            lemma_div_by_multiple(n as int, e as int);
        }
        lemma_offset_single(n, t, j / (e as int));
        lemma_fundamental_div_mod(j, e as int);
        assert(offset_at(pair, pair_stride, j) == (j / (e as int)) * t + (j % (e as int)) * s);
        assert((j / (e as int)) * t + (j % (e as int)) * s == j * s) by (nonlinear_arith)
            requires
                t == s * e,
                j == e * (j / (e as int)) + j % (e as int),
        ;
    }
}

/// Collapses a shape/stride pair: axes of extent 1 are dropped, and adjacent
/// axes are merged right to left wherever the outer stride equals the inner
/// stride times the inner extent. The result always has at least one axis,
/// and iterating it visits exactly the offsets of the pair it was given, in
/// the same order.
pub fn collapse_to_uniform_stride(shape: &[usize], stride: &[usize]) -> (out: (
    Vec<usize>,
    Vec<usize>,
))
    requires
        shape@.len() == stride@.len(),
    ensures
        is_collapsed(out.0@, out.1@),
        same_offsets(shape@, stride@, out.0@, out.1@),
        offsets(out.0@, out.1@) =~= offsets(shape@, stride@),
        out.0@.len() <= shape@.len() || out.0@.len() == 1,
        volume(shape@) == 0 ==> out.0@ =~= seq![0usize] && out.1@ =~= seq![0usize],
{
    let ndims = shape.len();
    let mut new_shape: Vec<usize> = Vec::new();
    let mut new_stride: Vec<usize> = Vec::new();
    let mut z: usize = 0;
    while z < ndims
        invariant
            z <= ndims,
            ndims == shape.len(),
            new_shape@.len() == 0,
            new_stride@.len() == 0,
            forall|j: int| 0 <= j < z ==> shape@[j] != 0,
        decreases ndims - z,
    {
        if shape[z] == 0 {
            new_shape.push(0);
            new_stride.push(0);
            proof {
                lemma_volume_zero(shape@, z as int);
                assert(new_shape@ =~= seq![0usize]);
                lemma_volume_single(0usize);
                assert(offsets(new_shape@, new_stride@) =~= offsets(shape@, stride@));
            }
            return (new_shape, new_stride);
        }
        z += 1;
    }
    new_shape.push(1);
    new_stride.push(0);
    let mut i = ndims;
    proof {
        assert(shape@.skip(ndims as int) =~= Seq::<usize>::empty());
        assert(new_shape@ =~= seq![1usize] + Seq::<usize>::empty());
        assert(new_stride@ =~= seq![0usize] + Seq::<usize>::empty());
        lemma_unit_axis(0usize, Seq::<usize>::empty(), Seq::<usize>::empty());
    }
    while i > 0
        invariant
            i <= ndims,
            ndims == shape.len(),
            shape@.len() == stride@.len(),
            forall|j: int| 0 <= j < ndims ==> shape@[j] != 0,
            new_shape@.len() == new_stride@.len(),
            new_shape@.len() >= 1,
            new_shape@[0] == 1 ==> new_stride@[0] == 0,
            new_shape@[0] != 1 ==> new_shape@.len() <= ndims - i,
            forall|j: int| 0 <= j < new_shape@.len() ==> new_shape@[j] != 0,
            new_shape@.len() > 1 ==> forall|j: int| 0 <= j < new_shape@.len() ==> new_shape@[j] != 1,
            forall|j: int|
                0 <= j < new_shape@.len() - 1 ==> !merges(
                    #[trigger] new_shape@[j],
                    new_stride@[j],
                    new_shape@[j + 1],
                    new_stride@[j + 1],
                ),
            same_offsets(shape@.skip(i as int), stride@.skip(i as int), new_shape@, new_stride@),
        decreases i,
    {
        i -= 1;
        let n = shape[i];
        let t = stride[i];
        let e = new_shape[0];
        let s = new_stride[0];
        let ghost old_shape = new_shape@;
        let ghost old_stride = new_stride@;
        let ghost rest_shape = shape@.skip(i + 1);
        let ghost rest_stride = stride@.skip(i + 1);
        proof {
            assert(shape@.skip(i as int) =~= seq![n] + rest_shape);
            assert(stride@.skip(i as int) =~= seq![t] + rest_stride);
            lemma_prepend_axis(n, t, rest_shape, rest_stride, old_shape, old_stride);
        }
        if n == 1 {
            proof {
                lemma_unit_axis(t, rest_shape, rest_stride);
            }
        } else if e == 1 {
            new_shape.set(0, n);
            new_stride.set(0, t);
            proof {
                assert(old_shape =~= seq![1usize] + Seq::<usize>::empty());
                assert(old_stride =~= seq![s] + Seq::<usize>::empty());
                assert(new_shape@ =~= seq![n] + Seq::<usize>::empty());
                assert(new_stride@ =~= seq![t] + Seq::<usize>::empty());
                lemma_unit_axis(s, Seq::<usize>::empty(), Seq::<usize>::empty());
                lemma_prepend_axis(
                    n,
                    t,
                    old_shape,
                    old_stride,
                    Seq::<usize>::empty(),
                    Seq::<usize>::empty(),
                );
            }
        } else {
            let run = s.checked_mul(e);
            let merged = n.checked_mul(e);
            if run == Some(t) && merged.is_some() {
                let product = merged.unwrap();
                new_shape.set(0, product);
                proof {
                    let tail_shape = old_shape.skip(1);
                    let tail_stride = old_stride.skip(1);
                    assert(old_shape =~= seq![e] + tail_shape);
                    assert(old_stride =~= seq![s] + tail_stride);
                    assert(seq![n] + old_shape =~= seq![n, e] + tail_shape);
                    assert(seq![t] + old_stride =~= seq![t, s] + tail_stride);
                    assert(new_shape@ =~= seq![product] + tail_shape);
                    assert(new_stride@ =~= seq![s] + tail_stride);
                    lemma_merge_axes(n, e, s, product, t, tail_shape, tail_stride);
                    assert(product != 1 && product != 0) by (nonlinear_arith)
                        requires
                            product == n * e,
                            n >= 2,
                            e >= 2,
                    ;
                    if old_shape.len() > 1 {
                        let e1 = old_shape[1];
                        let s1 = old_stride[1];
                        assert(!merges(old_shape[0], old_stride[0], e1, s1));
                        assert(!merges(product, s, e1, s1)) by (nonlinear_arith)
                            requires
                                !(s == s1 * e1 && e * e1 <= usize::MAX),
                                product == n * e,
                                n >= 1,
                                e1 >= 0,
                                e >= 0,
                        ;
                    }
                    assert forall|j: int| 0 <= j < new_shape@.len() - 1 implies !merges(
                        #[trigger] new_shape@[j],
                        new_stride@[j],
                        new_shape@[j + 1],
                        new_stride@[j + 1],
                    ) by {
                        if j > 0 {
                            assert(!merges(
                                old_shape[j],
                                old_stride[j],
                                old_shape[j + 1],
                                old_stride[j + 1],
                            ));
                        }
                    }
                }
            } else {
                new_shape.insert(0, n);
                new_stride.insert(0, t);
                proof {
                    assert(new_shape@ =~= seq![n] + old_shape);
                    assert(new_stride@ =~= seq![t] + old_stride);
                    assert(!merges(n, t, e, s));
                    assert forall|j: int| 0 <= j < new_shape@.len() - 1 implies !merges(
                        #[trigger] new_shape@[j],
                        new_stride@[j],
                        new_shape@[j + 1],
                        new_stride@[j + 1],
                    ) by {
                        if j > 0 {
                            assert(!merges(
                                old_shape[j - 1],
                                old_stride[j - 1],
                                old_shape[j],
                                old_stride[j],
                            ));
                        }
                    }
                }
            }
        }
    }
    proof {
        assert(shape@.skip(0) =~= shape@);
        assert(stride@.skip(0) =~= stride@);
        lemma_volume_nonzero(shape@);
    }
    (new_shape, new_stride)
}

/// A pair whose axes all hold two or more elements and of which no two
/// adjacent ones merge.
spec fn proper(shape: Seq<usize>, stride: Seq<usize>) -> bool {
    &&& shape.len() == stride.len()
    &&& forall|i: int| 0 <= i < shape.len() ==> shape[i] >= 2
    &&& forall|i: int|
        0 <= i < shape.len() - 1 ==> !merges(
            #[trigger] shape[i],
            stride[i],
            shape[i + 1],
            stride[i + 1],
        )
}

proof fn lemma_proper_rest(shape: Seq<usize>, stride: Seq<usize>)
    requires
        proper(shape, stride),
        shape.len() > 0,
    ensures
        proper(shape.drop_last(), stride.drop_last()),
        volume(shape.drop_last()) >= 1,
        volume(shape) == volume(shape.drop_last()) * shape.last(),
        volume(shape) >= shape.last(),
        shape.last() >= 2,
{
    let rest = shape.drop_last();
    let steps = stride.drop_last();
    assert forall|i: int| 0 <= i < rest.len() implies rest[i] >= 2 by {
        assert(rest[i] == shape[i]);
    }
    assert forall|i: int| 0 <= i < rest.len() - 1 implies !merges(
        #[trigger] rest[i],
        steps[i],
        rest[i + 1],
        steps[i + 1],
    ) by {
        assert(!merges(shape[i], stride[i], shape[i + 1], stride[i + 1]));
    }
    lemma_volume_nonzero(rest);
    assert(volume(rest) * shape.last() >= shape.last()) by (nonlinear_arith)
        requires
            volume(rest) >= 1,
            shape.last() >= 0,
    ;
}

/// The second offset of a view whose last axis holds two or more elements
/// is the stride of that axis.
proof fn lemma_second_offset(shape: Seq<usize>, stride: Seq<usize>)
    requires
        proper(shape, stride),
        shape.len() > 0,
    ensures
        offset_at(shape, stride, 1) == stride.last(),
{
    let n = shape.last() as int;
    lemma_proper_rest(shape, stride);
    lemma_small_mod(1, n as nat);
    lemma_basic_div(1, n);
    crate::layout::lemma_first_element(shape.drop_last(), stride.drop_last());
}

/// Two proper pairs that visit the same offsets cannot differ in the
/// extent of their last axis: the shorter axis would merge with the axis
/// before it.
proof fn lemma_last_extent_not_shorter(
    shape_a: Seq<usize>,
    stride_a: Seq<usize>,
    shape_b: Seq<usize>,
    stride_b: Seq<usize>,
)
    requires
        proper(shape_a, stride_a),
        proper(shape_b, stride_b),
        same_offsets(shape_a, stride_a, shape_b, stride_b),
        volume(shape_a) <= usize::MAX,
        shape_a.len() > 0,
        shape_b.len() > 0,
        stride_a.last() == stride_b.last(),
    ensures
        shape_a.last() >= shape_b.last(),
{
    let a = shape_a.last() as int;
    let b = shape_b.last() as int;
    let s = stride_a.last() as int;
    lemma_proper_rest(shape_a, stride_a);
    lemma_proper_rest(shape_b, stride_b);
    if a < b {
        let rest = shape_a.drop_last();
        let steps = stride_a.drop_last();
        if rest.len() == 0 {
            assert(volume(rest) == 1);
            assert(volume(shape_a) == a);
        } else {
            lemma_proper_rest(rest, steps);
            lemma_second_offset(rest, steps);
            lemma_div_by_self(a);
            lemma_mod_self_0(a);
            assert(offset_at(shape_a, stride_a, a) == steps.last());
            lemma_small_mod(a as nat, b as nat);
            lemma_basic_div(a, b);
            crate::layout::lemma_first_element(shape_b.drop_last(), stride_b.drop_last());
            assert(offset_at(shape_b, stride_b, a) == a * s);
            assert(offset_at(shape_a, stride_a, a) == offset_at(shape_b, stride_b, a));
            let outer = rest.last();
            assert(outer * a <= volume(shape_a)) by (nonlinear_arith)
                requires
                    volume(shape_a) == volume(rest) * a,
                    volume(rest) == volume(rest.drop_last()) * outer,
                    volume(rest.drop_last()) >= 1,
                    a >= 0,
                    outer >= 0,
            ;
            let i = shape_a.len() - 2;
            assert(shape_a[i] == outer && stride_a[i] == steps.last());
            assert(shape_a[i + 1] == a && stride_a[i + 1] == s);
            assert(s * a == a * s) by (nonlinear_arith);
            assert(merges(shape_a[i], stride_a[i], shape_a[i + 1], stride_a[i + 1]));
        }
    }
}

proof fn lemma_proper_unique(
    shape_a: Seq<usize>,
    stride_a: Seq<usize>,
    shape_b: Seq<usize>,
    stride_b: Seq<usize>,
)
    requires
        proper(shape_a, stride_a),
        proper(shape_b, stride_b),
        same_offsets(shape_a, stride_a, shape_b, stride_b),
        volume(shape_a) <= usize::MAX,
    ensures
        shape_a =~= shape_b,
        stride_a =~= stride_b,
    decreases shape_a.len(),
{
    if shape_a.len() == 0 {
        if shape_b.len() > 0 {
            lemma_proper_rest(shape_b, stride_b);
        }
    } else if shape_b.len() == 0 {
        lemma_proper_rest(shape_a, stride_a);
    } else {
        let a = shape_a.last() as int;
        let rest_a = shape_a.drop_last();
        let steps_a = stride_a.drop_last();
        let rest_b = shape_b.drop_last();
        let steps_b = stride_b.drop_last();
        lemma_proper_rest(shape_a, stride_a);
        lemma_proper_rest(shape_b, stride_b);
        lemma_second_offset(shape_a, stride_a);
        lemma_second_offset(shape_b, stride_b);
        assert(offset_at(shape_a, stride_a, 1) == offset_at(shape_b, stride_b, 1));
        lemma_last_extent_not_shorter(shape_a, stride_a, shape_b, stride_b);
        lemma_last_extent_not_shorter(shape_b, stride_b, shape_a, stride_a);
        assert(shape_b.last() == a);
        assert(volume(rest_a) == volume(rest_b)) by (nonlinear_arith)
            requires
                volume(rest_a) * a == volume(rest_b) * a,
                a >= 2,
        ;
        assert forall|q: int| 0 <= q < volume(rest_a) implies #[trigger] offset_at(
            rest_a,
            steps_a,
            q,
        ) == offset_at(rest_b, steps_b, q) by {
            let k = q * a;
            assert(0 <= k < volume(rest_a) * a) by (nonlinear_arith)
                requires
                    k == q * a,
                    0 <= q < volume(rest_a),
                    a >= 2,
            ;
            lemma_fundamental_div_mod_converse(k, a, q, 0);
            assert(offset_at(shape_a, stride_a, k) == offset_at(shape_b, stride_b, k));
            assert(0 * (stride_a.last() as int) == 0);
        }
        assert(volume(rest_a) <= volume(shape_a)) by (nonlinear_arith)
            requires
                volume(shape_a) == volume(rest_a) * a,
                a >= 2,
        ;
        lemma_proper_unique(rest_a, steps_a, rest_b, steps_b);
        assert(shape_a =~= rest_a.push(shape_a.last()));
        assert(shape_b =~= rest_b.push(shape_b.last()));
        assert(stride_a =~= steps_a.push(stride_a.last()));
        assert(stride_b =~= steps_b.push(stride_b.last()));
    }
}

/// A shape that holds exactly one element has no axis of another extent
/// than 1.
proof fn lemma_volume_one(shape: Seq<usize>)
    requires
        volume(shape) == 1,
    ensures
        forall|i: int| 0 <= i < shape.len() ==> shape[i] == 1,
    decreases shape.len(),
{
    if shape.len() > 0 {
        let rest = shape.drop_last();
        assert(volume(rest) == 1 && shape.last() == 1) by (nonlinear_arith)
            requires
                volume(rest) * (shape.last() as nat) == 1,
        ;
        lemma_volume_one(rest);
        assert forall|i: int| 0 <= i < shape.len() implies shape[i] == 1 by {
            if i < rest.len() {
                assert(rest[i] == shape[i]);
            }
        }
    }
}

/// The collapsed form is unique: two collapsed pairs that visit the same
/// offsets in the same order are the same pair. Together with what
/// `collapse_to_uniform_stride` promises, this fixes its result for every
/// view whose elements `usize` can count.
pub proof fn lemma_collapsed_unique(
    shape_a: Seq<usize>,
    stride_a: Seq<usize>,
    shape_b: Seq<usize>,
    stride_b: Seq<usize>,
)
    requires
        is_collapsed(shape_a, stride_a),
        is_collapsed(shape_b, stride_b),
        same_offsets(shape_a, stride_a, shape_b, stride_b),
        0 < volume(shape_a) <= usize::MAX,
    ensures
        shape_a == shape_b,
        stride_a == stride_b,
{
    if volume(shape_a) == 1 {
        lemma_volume_one(shape_a);
        lemma_volume_one(shape_b);
        assert(shape_a.len() == 1 && shape_b.len() == 1);
        assert(shape_a =~= shape_b);
        assert(stride_a =~= stride_b);
    } else {
        crate::layout::lemma_volume_positive(shape_a);
        crate::layout::lemma_volume_positive(shape_b);
        assert forall|i: int| 0 <= i < shape_a.len() implies shape_a[i] >= 2 by {
            if shape_a.len() == 1 {
                assert(shape_a =~= seq![shape_a[0]]);
                lemma_volume_single(shape_a[0]);
            }
        }
        assert forall|i: int| 0 <= i < shape_b.len() implies shape_b[i] >= 2 by {
            if shape_b.len() == 1 {
                assert(shape_b =~= seq![shape_b[0]]);
                lemma_volume_single(shape_b[0]);
            }
        }
        lemma_proper_unique(shape_a, stride_a, shape_b, stride_b);
    }
}

} // verus!
