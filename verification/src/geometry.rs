pub mod aabb;
pub mod kdtree;
pub mod model;
pub mod scene;
pub mod sphere;
pub mod triangle;
