//! An overlay of timestamped comments on a video: danmaku.
//!
//! The library holds what is decided and computed on the way from a source of
//! comments to the screen. [`sources`] reads and orders comments, [`layout`]
//! gives each a lane, [`manager`] cuts the timeline into chunks of one
//! lifetime and lays them out one after the other, [`worker`] holds the rules
//! by which chunks are requested and handed to the renderer, and [`renderer`]
//! holds the geometry and the tables that a back-end draws from. The modules
//! [`layout_laws`] and [`manager_laws`] state what holds of every run, and
//! [`sources::documents`] that a document written from comments is read back.
//!
//! Every function is verified against its contract. Calls into other crates
//! are made through small functions whose contracts are taken on trust; each
//! says in its doc comment which function it calls and what is claimed of it.

pub mod danmaku;
pub mod filter;
pub mod layout;
pub mod layout_laws;
pub mod manager;
pub mod manager_laws;
pub mod renderer;
pub mod sources;
mod store;
pub mod worker;
