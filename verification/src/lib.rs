//! A software 3D rendering pipeline on fixed-point arithmetic: a text-based
//! mesh and material loader, a geometry transform stage, a perspective
//! camera, and a scan-converting rasterizer with back-face culling,
//! z-buffering and nearest-pixel texture sampling.

pub mod colour;
pub mod camera;
pub mod fixed;
pub mod loader;
pub mod mesh;
pub mod renderer;
pub mod material;
pub mod texture;
pub mod math;
pub mod triangle;
pub mod trig;
pub mod vertex;
