//! Reverse-mode differentiation: operations recorded during the forward
//! pass, and the backward walk that accumulates gradients at every node.
pub mod dot_backwards;
pub mod gradient_function;
pub mod graph;
