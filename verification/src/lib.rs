//! A ray tracer's scene-file reader, image and mesh readers, framebuffer
//! bookkeeping and constructive-solid-geometry hit merging, verified with Verus.
pub mod text;
pub mod numbers;
pub mod scene;
pub mod scene_file;
pub mod scene_fields;
pub mod csg;
pub mod image;
pub mod framebuffer;
pub mod hit;
pub mod work_split;
pub mod matrix;
pub mod photon;
pub mod obj;
pub mod mesh;
