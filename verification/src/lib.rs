//! Verified core of a GPU path tracer: the spatial acceleration structures
//! — axis-aligned bounding boxes, a generic top-down BVH builder, the
//! bottom-level (per-mesh) and top-level (per-scene) hierarchies, mesh
//! merging, the GPU-facing node layout and the rebuild/dirty-tracking
//! policy — together with the shader-reflection bookkeeping that assigns
//! the resulting buffers their bind positions.

pub mod aabb;
pub mod bvh;
pub mod blas;
pub mod mesh;
pub mod tlas;
pub mod gpu;
pub mod rebuild;
pub mod representation;
pub mod key;
pub mod traversal;
pub mod slang_program;
