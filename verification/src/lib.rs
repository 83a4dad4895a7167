//! Procedural terrain for a tile world, and the streaming of its chunks.
//!
//! A height sample becomes a terrain level (`layers`); a terrain field
//! classifies the samples of a height sampler and remembers the levels in
//! a bounded cache (`noise`, `cache`); the levels around a tile give its
//! edge mask (`mask`); level and mask select the tile art (`tile`,
//! `random`); a chunk is the art of all its tiles (`chunk`); and the
//! lifecycle decides which chunks are generated, applied and dropped as the
//! viewers move (`lifecycle`, `chunk_map`, `position`).
//!
//! Beside the terrain stand the weighted distributions (`distribution`), the
//! commands of the characters (`action`) and the replies of the chat model
//! that steers the bot (`gpt`).
//!
//! Heights are whole numbers on a scale that the caller chooses; nothing
//! here is floating point.

pub mod action;
pub mod cache;
pub mod chunk;
pub mod chunk_map;
pub mod distribution;
pub mod error;
pub mod gpt;
pub mod layers;
pub mod lifecycle;
pub mod mask;
pub mod noise;
pub mod position;
pub mod random;
pub mod tile;
