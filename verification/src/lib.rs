//! Verified core of the chora renderer: the node list that groups meshes,
//! the WGSL shader parser, rewriter and merger, and the bookkeeping that
//! decides how meshes are batched, packed into atlases and uploaded.

pub mod linked_list;
pub mod text;
pub mod str_map;
pub mod pattern;
pub mod shader_parser;
pub mod render_pipeline;
pub mod shader_rewriter;
pub mod shader_merger;
pub mod render_queue;
pub mod instancing;
pub mod coordination;
pub mod texture;
pub mod camera;
pub mod model;
pub mod list_order;
