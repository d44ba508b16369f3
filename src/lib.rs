//! A small dense matrix library, a layered feed-forward network built on it,
//! and layout reorderings of batched buffers.
//!
//! Everything is generic over the scalar type: the arithmetic on scalars (and
//! the activation pair of a network) is handed in as closures, so the shape
//! logic, the order of the computation and the error cases are proved once
//! for every scalar type.
pub mod blas;
pub mod laws;
pub mod network;
pub mod tensor;
