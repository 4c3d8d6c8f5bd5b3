//! Kernels that are generic over the scalar they compute with.

pub mod lv1;
