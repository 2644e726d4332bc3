//! The integer core of a ray tracer: pixels and image buffers, materials and
//! textures, the rules by which a ray is held to meet a surface, the choice of
//! the nearest hit, the decisions of shading, and the storing of rendered
//! pixels. Numbers with a fraction come in by their bit patterns.

pub mod buffer;
pub mod codec;
pub mod common;
pub mod frame;
pub mod material;
pub mod mesh;
pub mod number;
pub mod ray_tracing;
pub mod render;
pub mod shading;
pub mod sphere;
pub mod texture;
pub mod triangle;
