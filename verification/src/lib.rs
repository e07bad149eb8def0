//! A small fixed-topology multilayer perceptron: construction, a staged
//! forward pass, error back-propagation, and a gradient-style weight update.
//!
//! Every scalar carried by the network is a single-precision IEEE 754 value
//! represented by its bit pattern (`u32`).  The library owns the network
//! state, its shape invariants, and the exact bookkeeping of every pass:
//! which values feed each arithmetic step and where each result is written.
//! The floating-point arithmetic itself cannot be verified and is performed
//! by the caller, who receives task descriptions from the library and hands
//! the results back.

pub mod matrix;
pub mod network;
