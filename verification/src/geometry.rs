//! Mesh geometry: triangle meshes, their wireframes, selections of
//! vertices, and a library of named meshes.
//!
//! A vertex carries a position and a colour of a coordinate type `P`; the
//! application uses three-component float vectors there.  Everything that
//! computes with coordinates lives with that type, outside the library.

pub mod buffers;
pub mod line_mesh;
pub mod mesh_builder;
pub mod triangle_mesh;
pub mod vertex_selection;
