//! A small simulator of multi-qubit registers with real amplitudes.
//!
//! A register of `n` qubits is a vector of `2^n` amplitudes, one for each basis
//! state.  Gates take a state and give a new one; a measurement takes a state
//! and a random sample and gives a classical bit and the collapsed state.
//!
//! The numeric kernel is a parameter: every amplitude is a value of a type that
//! implements [`scalar::Scalar`], and every contract speaks of the results of that
//! type's operations.  What is proved here is everything around the kernel: the
//! shape rules of matrices, the Kronecker layout, the order in which products are
//! accumulated, the basis-index arithmetic of the gates and of measurement.

pub mod bits;
pub mod error;
pub mod gates;
pub mod matrix;
pub mod matrix_operations;
pub mod scalar;
pub mod state_vector;
pub mod text;

pub use crate::error::SimError;
pub use crate::gates::{cnot, h};
pub use crate::matrix::Matrix;
pub use crate::matrix_operations::{dot_product, tensor_product, transpose};
pub use crate::scalar::Scalar;
pub use crate::state_vector::QuantumStateVector;
