//! Strided N-dimensional array kernels with verified indexing.
//!
//! The crate evaluates element-wise and reduction operations over strided,
//! possibly broadcast views of flat buffers, and propagates gradients
//! backward through a recorded graph of operations.
pub mod autograd;
pub mod binary_ops;
pub mod broadcast;
pub mod collapse_contiguous;
pub mod flat_index_generator;
pub mod layout;
pub mod ndarray;
pub mod ops;
pub mod simd_reduce_ops;
