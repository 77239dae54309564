//! A scene-graph runtime with generational handles, a GPU shader-resource
//! binding model, an editor data-provider bridge, and a small text format
//! for custom tile collider geometry.

pub mod bridge;
pub mod codec;
pub mod graph;
pub mod inspector;
pub mod numbers;
pub mod pool;
pub mod selection;
pub mod shader;
pub mod tile_collider;
