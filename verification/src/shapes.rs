//! Surfaces that a ray can meet.
pub mod mesh;
pub mod obj;
pub mod plane;
pub mod triangle;
