//! Linear algebra: numbers, vectors, matrices, ranges and transforms.
pub mod algebra;
pub mod cofactor;
pub mod exact;
pub mod float;
pub mod math;
pub mod order;
pub mod transform;
pub mod value;
