//! Geometry indexing and pass sequencing for a GPU path tracer.
//!
//! The crate holds the parts of the renderer that decide something: how the
//! triangles of a scene are gathered and indexed by a bounding volume
//! hierarchy, how that hierarchy is laid out for stackless traversal on the
//! device, which dimensions the intermediate images take, and in which order
//! the passes of a frame run. Device access, windowing and file decoding are
//! left to the program around it, which hands in plain values and carries out
//! the actions that come back.
//!
//! Coordinates are integers. Bounding boxes are built from comparisons
//! alone, so they are exact under every encoding of world space that keeps
//! the order of the coordinates; `lattice` holds one for single-precision
//! floats.

pub mod config;
pub mod geometry;
pub mod lattice;
pub mod materials;
pub mod render;
pub mod scene;
