//! A small kinematics kernel in fixed-point arithmetic: points, vectors and
//! scalars with the operations that are meaningful between them, and the
//! time step of a box that bounces inside a rectangle.

pub mod fixed;
pub mod laws;
pub mod tuple;
pub mod world;
