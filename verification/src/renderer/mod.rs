//! What the back-ends draw from: where a comment stands at a given time, and
//! the tables that a GPU back-end fills.

pub mod noop;
pub mod stride;
pub mod wgpu;
