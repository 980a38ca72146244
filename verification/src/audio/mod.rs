//! Audio decoding decisions and the playback engine.

pub mod channel;
pub mod decoder;
pub mod engine;
