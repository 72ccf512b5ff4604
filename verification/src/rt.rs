//! Rays, hits and the pixel store.
pub mod film;
pub mod ppm;
pub mod ray;
