pub mod common;
pub mod lighting;
pub mod geometry;
pub mod material;
pub mod tracer;
pub mod vecmath;
