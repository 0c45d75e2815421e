//! A texture-atlas packing engine for 2D game sprites.
//!
//! Given a set of sprite images (PNG, base64-encoded) and an inter-sprite
//! padding, the engine searches for the smallest square canvas, doubling a
//! candidate bin size from 256 up to 2048, that accommodates all padded
//! sprite rectangles; when no bin fits, it retries after uniformly
//! downscaling all sprites through a fixed ladder of scale factors. On
//! success it composites the sprites onto a tightly-sized canvas and emits a
//! frame manifest mapping each sprite name to its placed rectangle.

pub mod atlas;
pub mod codec;
pub mod compose;
pub mod errors;
pub mod grid;
pub mod laws;
pub mod layout;
pub mod manifest;
pub mod oracle;
pub mod scaling;
pub mod textutil;

pub use atlas::{pack_atlas, payload_size, AtlasOutput, SpriteInput};
pub use errors::AtlasError;
pub use grid::grid_cells;
pub use layout::{plan_pack, Layout};
