//! Core of a Gaussian-splat path tracer, trainer and viewer.
use vstd::prelude::*;

pub mod adam;
pub mod dispatch;
pub mod environment;
pub mod float_bits;
pub mod gltf_loader;
pub mod gpu_scene;
pub mod light_sampling;
pub mod loss;
pub mod material;
pub mod mesh;
pub mod pipelines;
pub mod ply;
pub mod ply_fields;
pub mod ply_header;
pub mod ply_laws;
pub mod ply_lines;
pub mod prefix_scan;
pub mod radix_sort;
pub mod raster;
pub mod reference;
pub mod renderer;
pub mod scene;
pub mod sh;
pub mod shaders;
pub mod slab;
pub mod splat_gpu;
pub mod splat_store;
pub mod staging;
pub mod text;
pub mod tile_binner;
pub mod train;
pub mod trainer;
pub mod view;
pub mod vk_runtime;

verus! {

}
