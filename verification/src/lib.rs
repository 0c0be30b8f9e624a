//! GPU resource management core for a sprite / tile-map / text renderer.
//!
//! The crate packs variable-sized bitmaps into fixed-size texture-atlas
//! layers, hands every renderable object a generational handle into a
//! byte-payload arena, batches per-frame instance data into growable
//! instance buffers, and orders draws with a total-order sort key.
//! Device-facing work (actual GPU uploads, window events, floating-point
//! vertex conversion) stays outside this crate; everything here is plain
//! data logic with verified contracts.

pub mod arena;
pub mod atlas;
pub mod instance;
pub mod maps;
pub mod order;
pub mod quad;
pub mod sprite;
pub mod text;
pub mod tilesheet;
