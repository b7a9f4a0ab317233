//! The audio timeline engine of a multi-track sequencer: clips placed by track and beat,
//! the clip that ends last, and the mixing of overlapping clips into interleaved stereo
//! buffers, whole or window by window, together with the decisions of the per-clip resample
//! workers and of the playback transport.
//!
//! Samples are of any `Copy` type; the mixer is handed the sum of two samples as a function.

pub mod chunk_buffer;
pub mod codec;
pub mod grid;
pub mod item_group;
pub mod mix;
pub mod settings;
pub mod sound_node;
pub mod transport;
pub mod worker;
