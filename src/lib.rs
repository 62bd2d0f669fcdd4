//! A small dense-matrix engine and a layered feed-forward network built on it.
//!
//! The engine is generic over its cell type: shapes, layout, the order in
//! which products accumulate and the network's update rule are proved here,
//! while the arithmetic on cells is handed in as closures whose contracts
//! the results are stated against.

pub mod scalar;
pub mod matrix;
pub mod network;

pub use matrix::{Matrix, MatrixError, Shape};
pub use network::{Layer, NeuralNetwork};
pub use scalar::Arith;

