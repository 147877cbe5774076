//! A minimal voxel-world rendering core: a dense block grid with
//! face-adjacency visibility culling, a shelf-packing texture atlas, and a
//! draw-batching layer that groups instances by identical geometry.
//!
//! Windowing, GPU submission and asset decoding are left to the surrounding
//! application; this crate holds the grid, packing and batching logic with
//! verified contracts.

pub mod camera;
pub mod input;
pub mod mesh_instancer;
pub mod renderer;
pub mod text;
pub mod texture;
pub mod world;
