//! Level-1 vector kernels over strided buffers, and dense and banded
//! matrix storage layouts, with machine-checked contracts.

pub mod builtins;
pub mod data;
pub mod generic;
