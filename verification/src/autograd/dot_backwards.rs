//! The backward function of a product.
use crate::autograd::gradient_function::{GradientFunction, Tensor};
use crate::broadcast::{broadcast_shape, broadcastable};
use crate::layout::volume;
use crate::ndarray::{zipped, NdArray};
use crate::ops::{elementwise, TotalOp};
use vstd::prelude::*;

verus! {

/// The record of one product `lhs * rhs`: the two operand views, which the
/// local derivatives need, and the backward functions of the two inputs.
pub struct DotBackwards<T> {
    pub next_functions: [GradientFunction; 2],
    pub lhs: NdArray<T>,
    pub rhs: NdArray<T>,
}

impl<T: Copy> DotBackwards<T> {
    /// Records the product of `lhs` and `rhs`.
    pub fn new(lhs: &Tensor<T>, rhs: &Tensor<T>) -> (node: DotBackwards<T>)
        ensures
            node.next_functions@ =~= seq![lhs.grad_fn, rhs.grad_fn],
            node.lhs@ == lhs.ndarray@,
            node.rhs@ == rhs.ndarray@,
            node.lhs.data@ == lhs.ndarray.data@,
            node.lhs.shape@ == lhs.ndarray.shape@,
            node.lhs.stride@ == lhs.ndarray.stride@,
            node.rhs.data@ == rhs.ndarray.data@,
            node.rhs.shape@ == rhs.ndarray.shape@,
            node.rhs.stride@ == rhs.ndarray.stride@,
    {
        DotBackwards {
            next_functions: [lhs.grad_fn(), rhs.grad_fn()],
            lhs: lhs.get_ndarray(),
            rhs: rhs.get_ndarray(),
        }
    }

    /// The gradient that flows to each input for the upstream gradient
    /// `grad`: `rhs * grad` to the left input and `lhs * grad` to the right
    /// one, in the order of `next_functions`. Each product is taken under
    /// standard broadcasting, through the dispatcher, with `M` as the
    /// multiplication; the record and `grad` are only read.
    pub fn backward<M: TotalOp<T>>(&self, grad: &NdArray<T>) -> (partials: (NdArray<T>, NdArray<T>))
        requires
            self.lhs.wf(),
            self.rhs.wf(),
            grad.wf(),
            broadcastable(self.rhs.shape@, grad.shape@),
            broadcastable(self.lhs.shape@, grad.shape@),
            volume(broadcast_shape(self.rhs.shape@, grad.shape@)) <= usize::MAX,
            volume(broadcast_shape(self.lhs.shape@, grad.shape@)) <= usize::MAX,
        ensures
            partials.0@ == zipped::<T, M>(self.rhs@, grad@),
            partials.1@ == zipped::<T, M>(self.lhs@, grad@),
            partials.0.wf(),
            partials.0.shape@ == broadcast_shape(self.rhs.shape@, grad.shape@),
            partials.0.items() == elementwise::<T, M>(
                self.rhs.items_as(partials.0.shape@),
                grad.items_as(partials.0.shape@),
            ),
            partials.1.wf(),
            partials.1.shape@ == broadcast_shape(self.lhs.shape@, grad.shape@),
            partials.1.items() == elementwise::<T, M>(
                self.lhs.items_as(partials.1.shape@),
                grad.items_as(partials.1.shape@),
            ),
    {
        let to_lhs = self.rhs.zip::<M>(grad).unwrap();
        let to_rhs = self.lhs.zip::<M>(grad).unwrap();
        (to_lhs, to_rhs)
    }
}

} // verus!
