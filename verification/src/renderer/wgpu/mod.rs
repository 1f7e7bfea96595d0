//! The tables of the GPU back-end, as far as they are made on the CPU: the
//! uniforms, the indices and vertices of the glyph quads, and the glyph atlas.

pub mod config;
pub mod glyph_atlas;
pub mod glyph_manager;
pub mod glyph_shadow;
pub mod index_buffer;
pub mod render_cache;
pub mod timestamp;
pub mod vertex_buffer;

pub use render_cache::WgpuRenderCache;
pub use vertex_buffer::VertexBuffer as WgpuVertexBuffer;

use crate::worker::WorkerBuffer;
use vstd::prelude::*;

verus! {

/// The three chunks round the clock as the GPU back-end keeps them.
pub type WgpuWorkerBuffer = WorkerBuffer<WgpuRenderCache, WgpuVertexBuffer>;

} // verus!
