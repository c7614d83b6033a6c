pub mod fixed;
pub mod vec3;
pub mod ray;
pub mod random;
pub mod material;
pub mod hitable;
pub mod sphere;
pub mod trace;
pub mod camera;
