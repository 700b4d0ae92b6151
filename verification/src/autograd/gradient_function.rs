//! Handles to backward functions, and the values that carry them.
use crate::ndarray::NdArray;
use vstd::prelude::*;

verus! {

/// Where the gradient of a value goes: nowhere, for a value that is not
/// tracked, or to the node of the graph that produced the value.
#[derive(Clone, Copy, PartialEq, Eq, Structural, Debug)]
pub enum GradientFunction {
    /// A sink that accepts and discards gradients.
    NoOp,
    /// The node with the given handle.
    Node(usize),
}

/// A value together with the handle of its backward function.
pub struct Tensor<T> {
    pub ndarray: NdArray<T>,
    pub grad_fn: GradientFunction,
}

impl<T: Copy> Tensor<T> {
    /// A value that is not tracked: gradients sent to it are discarded.
    pub fn constant(values: NdArray<T>) -> (t: Tensor<T>)
        ensures
            t.ndarray == values,
            t.grad_fn == GradientFunction::NoOp,
    {
        Tensor { ndarray: values, grad_fn: GradientFunction::NoOp }
    }

    /// A value produced by the node `grad_fn`.
    pub fn new(values: NdArray<T>, grad_fn: GradientFunction) -> (t: Tensor<T>)
        ensures
            t.ndarray == values,
            t.grad_fn == grad_fn,
    {
        Tensor { ndarray: values, grad_fn }
    }

    /// The handle of the value's backward function.
    pub fn grad_fn(&self) -> (f: GradientFunction)
        ensures
            f == self.grad_fn,
    {
        self.grad_fn
    }

    /// A copy of the value: the same buffer contents, shape and strides.
    pub fn get_ndarray(&self) -> (values: NdArray<T>)
        ensures
            values@ == self.ndarray@,
            values.data@ == self.ndarray.data@,
            values.shape@ == self.ndarray.shape@,
            values.stride@ == self.ndarray.stride@,
    {
        self.ndarray.duplicate()
    }
}

} // verus!
