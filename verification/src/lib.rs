//! WavForge: the verified core of a small audio editor.
//!
//! - [`audio::engine`]: the playback state machine driven by engine commands,
//!   and the handle that sends those commands to the audio thread.
//! - [`audio::decoder`]: the decisions taken while decoding a file (track
//!   choice, packet handling, error messages) and the interleaving of
//!   decoded channel planes.
//! - [`app`]: the editor's state and how it reacts to the user's actions.
//!
//! Sample values are generic throughout: the library never looks inside a
//! sample, it only moves samples around.

pub mod app;
pub mod audio;
