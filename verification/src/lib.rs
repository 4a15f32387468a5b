//! Verified core of a terminal software 3D rasterizer.
//!
//! The crate covers the discrete heart of the renderer: triangle scan
//! conversion over integer screen coordinates, the z-buffer that resolves
//! occlusion between overlapping triangles, face-index validation for a
//! triangle mesh, and clamped texel lookup in a decoded texture.
//!
//! Floating-point work (vertex transforms, perspective division, shading
//! arithmetic) is carried out by the unverified presentation layer, which
//! reduces it to the plain integer values these modules operate on: screen
//! points, order-preserving depth keys, and 8-bit color channels.

pub mod color;
pub mod depth;
pub mod frame;
pub mod mesh;
pub mod raster;
pub mod texture;
