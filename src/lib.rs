//! Scene engine of an interactive viewer for independently togglable
//! triangle meshes.
//!
//! Coordinates, colours and other real-valued quantities are carried as the
//! IEEE-754 bit patterns of their single-precision (`u32`) or
//! double-precision (`u64`) values. The library orders and compares them
//! exactly (see [`ieee`]); arithmetic on them is done by the host program.
pub mod bytes;
pub mod camera;
pub mod dirty;
pub mod frame;
pub mod geometry;
pub mod ieee;
pub mod mesh;
pub mod models;
pub mod viewer;

pub use camera::{Anchor, DragState, F64x2, ZoomStep};
pub use frame::{Cull, Step};
pub use geometry::{BBox, F32x3, F32x4, Vertex};
pub use mesh::{Material, ViewData};
pub use models::{FixGate, MergedMesh, Model, Models};
pub use viewer::Viewer;
