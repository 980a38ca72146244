# WavForge

A lightweight audio editor. This crate is its verified core, written in Verus:

- `src/audio/engine.rs` — the playback state machine run on the audio thread
  (commands Play / Pause / Stop, and filling each output buffer frame by frame),
  the laws it obeys, the unbounded `crossbeam-channel` command channel, and
  the `AudioEngine` handle that sends commands over it; the sender keeps a
  record of the commands it enqueued, the receiver of those it took.
- `src/audio/decoder.rs` — the decisions taken while decoding a file: which
  track is decoded, what to do with each packet read, the error messages, and
  how per-channel planes become interleaved samples.
- `src/app.rs` — the editor state (`WavForgeApp`) and how it reacts to open,
  play, pause and stop, with the enabled state of the transport buttons.

Sample values are generic in the library; the program in `app/` uses `f32`.
`app/` holds what cannot be verified: the egui window, the file dialog,
reading and decoding files with Symphonia, the sample-value conversions
(floating point) and the `cpal` output stream with its real-time callback.
