//! A small residual feed-forward network over dense matrices, generic in its
//! scalar type: the element arithmetic is handed in as closures, and every
//! shape check, loop and index of the matrix layer, the forward pass and the
//! training step is verified against spec functions over that arithmetic.
pub mod arith;
pub mod matrix;
pub mod layer;
pub mod tensor;
pub mod resnet;
pub mod metrics;
pub mod training;
