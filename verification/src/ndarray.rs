//! Arrays: a flat buffer together with the shape and the strides through
//! which it is read.
use crate::broadcast::{
    broadcast_binary, broadcast_shape, broadcast_stride, broadcastable, joint_rank,
    lemma_broadcasts_to_itself, lemma_broadcasts_to_joins, lemma_gather_own_shape,
};
use crate::layout::{
    contiguous_strides, element_count, gather, in_bounds, offset_at, row_major, view_fits,
    volume,
};
use crate::ops::{elementwise, lemma_total_admissible, BinaryOp, TotalOp};
use vstd::prelude::*;
use vstd::slice::slice_to_vec;

verus! {

/// A view of a buffer that the array owns.
pub struct NdArray<T> {
    pub data: Vec<T>,
    pub shape: Vec<usize>,
    pub stride: Vec<usize>,
}

/// What an array is in contracts: the contents of its buffer, its shape
/// and its strides.
pub struct ArrayView<T> {
    pub data: Seq<T>,
    pub shape: Seq<usize>,
    pub stride: Seq<usize>,
}

impl<T> ArrayView<T> {
    /// The view has one stride per axis and stays inside the buffer.
    pub open spec fn wf(self) -> bool {
        &&& self.shape.len() == self.stride.len()
        &&& in_bounds(self.shape, self.stride, self.data.len() as int)
    }

    /// The elements of the array, in row-major order.
    pub open spec fn items(self) -> Seq<T> {
        gather(self.data, self.shape, self.stride)
    }

    /// The elements of the array broadcast to `shape`, in row-major order:
    /// the array is repeated along the axes it lacks and along its axes of
    /// extent 1.
    pub open spec fn items_as(self, shape: Seq<usize>) -> Seq<T> {
        gather(self.data, shape, broadcast_stride(self.shape, self.stride, shape.len()))
    }
}

/// The array that an operator gives on two arrays under standard
/// broadcasting: it has the shape the two broadcast to, holds the operator
/// applied to corresponding elements of the broadcast operands, and is
/// contiguous.
pub open spec fn zipped<T: Copy, Op: BinaryOp<T>>(lhs: ArrayView<T>, rhs: ArrayView<T>) -> ArrayView<
    T,
> {
    let shape = broadcast_shape(lhs.shape, rhs.shape);
    ArrayView {
        data: elementwise::<T, Op>(lhs.items_as(shape), rhs.items_as(shape)),
        shape,
        stride: row_major(shape),
    }
}

/// On two arrays of one shape the operator is applied to corresponding
/// elements, and the result has that shape.
pub proof fn lemma_zipped_same_shape<T: Copy, Op: BinaryOp<T>>(lhs: ArrayView<T>, rhs: ArrayView<T>)
    requires
        lhs.shape.len() == lhs.stride.len(),
        rhs.shape.len() == rhs.stride.len(),
        lhs.shape == rhs.shape,
    ensures
        broadcastable(lhs.shape, rhs.shape),
        zipped::<T, Op>(lhs, rhs).shape == lhs.shape,
        zipped::<T, Op>(lhs, rhs).data == elementwise::<T, Op>(lhs.items(), rhs.items()),
{
    lemma_broadcasts_to_itself(lhs.shape);
    lemma_broadcasts_to_joins(lhs.shape, lhs.shape);
    lemma_gather_own_shape(lhs.data, lhs.shape, lhs.stride);
    lemma_gather_own_shape(rhs.data, rhs.shape, rhs.stride);
}

impl<T> View for NdArray<T> {
    type V = ArrayView<T>;

    open spec fn view(&self) -> ArrayView<T> {
        ArrayView { data: self.data@, shape: self.shape@, stride: self.stride@ }
    }
}

impl<T> NdArray<T> {
    /// The view has one stride per axis and stays inside the buffer.
    pub open spec fn wf(&self) -> bool {
        self@.wf()
    }

    /// The elements of the array, in row-major order.
    pub open spec fn items(&self) -> Seq<T> {
        self@.items()
    }

    /// The elements of the array broadcast to `shape`, in row-major order.
    pub open spec fn items_as(&self, shape: Seq<usize>) -> Seq<T> {
        self@.items_as(shape)
    }
}

impl<T: Copy> NdArray<T> {
    /// The array that reads `data` through the given shape and strides, or
    /// `None` if there is not one stride per axis or the view reaches past
    /// the end of `data`.
    pub fn new(data: Vec<T>, shape: Vec<usize>, stride: Vec<usize>) -> (out: Option<NdArray<T>>)
        ensures
            out.is_some() <==> shape@.len() == stride@.len() && in_bounds(
                shape@,
                stride@,
                data@.len() as int,
            ),
            match out {
                Some(array) => {
                    &&& array.wf()
                    &&& array.data@ == data@
                    &&& array.shape@ == shape@
                    &&& array.stride@ == stride@
                },
                None => true,
            },
    {
        if view_fits(shape.as_slice(), stride.as_slice(), data.len()) {
            Some(NdArray { data, shape, stride })
        } else {
            None
        }
    }

    /// Whether the array's view has one stride per axis and lies inside its
    /// buffer.
    pub fn is_valid(&self) -> (ok: bool)
        ensures
            ok == self.wf(),
    {
        view_fits(self.shape.as_slice(), self.stride.as_slice(), self.data.len())
    }

    /// The array that reads the whole of `data` in row-major order with
    /// the given shape, or `None` if the shape does not hold exactly as
    /// many elements as `data`.
    pub fn contiguous(data: Vec<T>, shape: Vec<usize>) -> (out: Option<NdArray<T>>)
        ensures
            out.is_some() <==> volume(shape@) == data@.len(),
            match out {
                Some(array) => {
                    &&& array.wf()
                    &&& array.data@ == data@
                    &&& array.shape@ == shape@
                    &&& array.items() == data@
                },
                None => true,
            },
    {
        let len = data.len();
        match element_count(shape.as_slice()) {
            Some(count) => {
                if count != len {
                    return None;
                }
            },
            None => {
                return None;
            },
        }
        let stride = contiguous_strides(shape.as_slice());
        let array = NdArray { data, shape, stride };
        proof {
            assert(array.items() =~= array.data@);
        }
        Some(array)
    }

    /// A copy of the array: the same buffer contents, shape and strides.
    pub fn duplicate(&self) -> (copy: NdArray<T>)
        ensures
            copy@ == self@,
            copy.data@ == self.data@,
            copy.shape@ == self.shape@,
            copy.stride@ == self.stride@,
    {
        NdArray {
            data: slice_to_vec(self.data.as_slice()),
            shape: slice_to_vec(self.shape.as_slice()),
            stride: slice_to_vec(self.stride.as_slice()),
        }
    }

    /// Applies `Op` to two arrays under standard broadcasting, through the
    /// dispatcher, and returns the result as a new contiguous array. The
    /// result is `None` if the shapes cannot be broadcast against each
    /// other or the result would hold more elements than `usize` can count.
    pub fn zip<Op: TotalOp<T>>(&self, other: &NdArray<T>) -> (out: Option<NdArray<T>>)
        requires
            self.wf(),
            other.wf(),
        ensures
            out.is_some() <==> broadcastable(self.shape@, other.shape@) && volume(
                broadcast_shape(self.shape@, other.shape@),
            ) <= usize::MAX,
            match out {
                Some(array) => {
                    &&& array.wf()
                    &&& array@ == zipped::<T, Op>(self@, other@)
                    &&& array.shape@ == broadcast_shape(self.shape@, other.shape@)
                    &&& array.items() == elementwise::<T, Op>(
                        self.items_as(array.shape@),
                        other.items_as(array.shape@),
                    )
                },
                None => true,
            },
    {
        proof {
            let shape = broadcast_shape(self.shape@, other.shape@);
            let rank = joint_rank(self.shape@, other.shape@);
            lemma_total_admissible::<T, Op>(
                gather(self.data@, shape, broadcast_stride(self.shape@, self.stride@, rank)),
                gather(other.data@, shape, broadcast_stride(other.shape@, other.stride@, rank)),
            );
        }
        match broadcast_binary::<T, Op>(
            self.data.as_slice(),
            self.shape.as_slice(),
            self.stride.as_slice(),
            other.data.as_slice(),
            other.shape.as_slice(),
            other.stride.as_slice(),
        ) {
            None => None,
            Some((data, shape)) => {
                let stride = contiguous_strides(shape.as_slice());
                let array = NdArray { data, shape, stride };
                proof {
                    assert(array.data@.len() == volume(array.shape@));
                    assert(array.items() =~= array.data@);
                    assert(array.data@ =~= zipped::<T, Op>(self@, other@).data);
                }
                Some(array)
            },
        }
    }
}

} // verus!
