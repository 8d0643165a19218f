//! The scrolling time graph: which facts are shown and where, and how the
//! meshes that draw them are stitched together.

pub mod mesh;
pub mod model;
