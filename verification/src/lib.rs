//! A geometric kernel for ray casting: vectors and matrices, transforms that
//! carry their inverse, and the first hit of a ray on a plane, a triangle or
//! a mesh.
//!
//! Numbers are IEEE-754 doubles, carried as bit patterns. The crate does,
//! and proves, everything that is exact on such numbers: their order, sign
//! changes, range tests, the layout of vectors, matrices and transforms,
//! which operands each determinant and product takes, the selection of the
//! nearest hit, and the reading of model files. Products and sums that round
//! are left to the caller, who is handed their operands or asked for them as
//! closures. What the laid-out computations amount to is proved for
//! arithmetic that does not round.
pub mod lm;
pub mod rt;
pub mod shapes;

pub use crate::lm::float::Float;
pub use crate::lm::math::{
    Bound, Interval, Matrix22, Matrix33, Matrix44, SquareMatrix, Vector, Vector1, Vector2, Vector3,
    Vector4,
};
pub use crate::lm::transform::Transform;
pub use crate::rt::film::Film;
pub use crate::rt::ray::{Intersection, Ray};
pub use crate::shapes::mesh::Mesh;
pub use crate::shapes::plane::Plane;
pub use crate::shapes::triangle::{Barycentric, Meeting, Triangle};
