//! The editor's state and how it reacts to the user's actions.
//!
//! [`WavForgeApp`] owns everything the editor knows: the decoded samples of
//! the open file with their sample rate and channel count, the file's path,
//! the audio engine, whether audio is playing, and the error to show. The
//! window around it only draws this state and forwards the user's actions.

use vstd::prelude::*;
use crate::audio::engine::{
    AudioEngine, EngineCommand, accepted_by, disconnected_message, refused_by, sent_or_refused,
};

verus! {

/// The text shown when a file could not be opened.
pub open spec fn open_error_message(reason: Seq<char>) -> Seq<char> {
    "Failed to open file: "@ + reason
}

/// The text shown when playback could not be started.
pub open spec fn playback_error_message(reason: Seq<char>) -> Seq<char> {
    "Playback error: "@ + reason
}

/// `cmd` is a `Play` command for `samples` at rate `rate` with `channels`
/// channels.
pub open spec fn is_play_command<T>(cmd: EngineCommand<T>, samples: Seq<T>, rate: u32, channels: usize) -> bool {
    cmd matches EngineCommand::Play { samples: s, sample_rate: r, channels: c } && s@ == samples && r
        == rate && c == channels
}

/// A copy of the samples held by `v`.
fn copy_samples<T: Copy>(v: &Vec<T>) -> (r: Vec<T>)
    ensures
        r@ == v@,
{
    let mut r: Vec<T> = Vec::new();
    let mut i: usize = 0;
    while i < v.len()
        invariant
            i <= v.len(),
            r@ == v@.subrange(0, i as int),
        decreases v.len() - i,
    {
        r.push(v[i]);
        i = i + 1;
    }
    r
}

/// The editor's state: samples of type `T`, an engine whose output stream
/// has type `H`, and a file path of type `P`.
#[verifier::reject_recursive_types(T)]
pub struct WavForgeApp<T, H, P> {
    samples: Option<Vec<T>>,
    sample_rate: u32,
    channels: usize,
    file_path: Option<P>,
    engine: AudioEngine<T, H>,
    is_playing: bool,
    error: Option<String>,
}

impl<T: Copy, H, P> WavForgeApp<T, H, P> {
    /// The decoded samples of the open file, if a file is open.
    pub closed spec fn loaded(&self) -> Option<Seq<T>> {
        match self.samples {
            Some(v) => Some(v@),
            None => None,
        }
    }

    /// The sample rate of the open file.
    pub closed spec fn rate(&self) -> u32 {
        self.sample_rate
    }

    /// The number of channels of the open file.
    pub closed spec fn channel_count(&self) -> usize {
        self.channels
    }

    /// The path of the open file.
    pub closed spec fn path(&self) -> Option<P> {
        self.file_path
    }

    /// The audio engine.
    pub closed spec fn audio(&self) -> AudioEngine<T, H> {
        self.engine
    }

    /// Whether audio is playing.
    pub closed spec fn playing(&self) -> bool {
        self.is_playing
    }

    /// The error to show, if any.
    pub closed spec fn error_text(&self) -> Option<Seq<char>> {
        match self.error {
            Some(e) => Some(e@),
            None => None,
        }
    }

    /// Audio is marked playing only while a file is open. Every operation of
    /// the editor keeps this.
    pub open spec fn playing_needs_file(&self) -> bool {
        self.playing() ==> self.loaded() is Some
    }

    /// The Play button is enabled: a file is open and audio is not playing.
    pub open spec fn play_enabled(&self) -> bool {
        self.loaded() is Some && !self.playing()
    }

    /// The Pause button is enabled: a file is open and audio is playing.
    pub open spec fn pause_enabled(&self) -> bool {
        self.loaded() is Some && self.playing()
    }

    /// The Stop button is enabled: a file is open.
    pub open spec fn stop_enabled(&self) -> bool {
        self.loaded() is Some
    }

    /// Creates an editor with no file open, around the given engine.
    pub fn new(engine: AudioEngine<T, H>) -> (r: Self)
        ensures
            r.loaded() is None,
            r.rate() == 44100,
            r.channel_count() == 1,
            r.path() is None,
            r.audio() == engine,
            !r.playing(),
            r.error_text() is None,
            r.playing_needs_file(),
    {
        WavForgeApp {
            samples: None,
            sample_rate: 44100,
            channels: 1,
            file_path: None,
            engine,
            is_playing: false,
            error: None,
        }
    }

    /// Takes in the outcome of decoding the file at `path`.
    ///
    /// On success the decoded samples replace any open file, playback is
    /// marked stopped, the error is cleared and a `Stop` command goes to the
    /// engine (whether it arrives does not matter). On failure only the
    /// error changes: it tells why the file could not be opened.
    pub fn open_file(&mut self, path: P, decoded: Result<(Vec<T>, u32, usize), String>)
        ensures
            match decoded {
                Ok((samples, rate, channels)) => {
                    &&& final(self).loaded() == Some(samples@)
                    &&& final(self).rate() == rate
                    &&& final(self).channel_count() == channels
                    &&& final(self).path() == Some(path)
                    &&& !final(self).playing()
                    &&& final(self).error_text() is None
                    &&& sent_or_refused(old(self).audio(), final(self).audio(), EngineCommand::Stop)
                },
                Err(reason) => {
                    &&& final(self).loaded() == old(self).loaded()
                    &&& final(self).rate() == old(self).rate()
                    &&& final(self).channel_count() == old(self).channel_count()
                    &&& final(self).path() == old(self).path()
                    &&& final(self).playing() == old(self).playing()
                    &&& final(self).error_text() == Some(open_error_message(reason@))
                    &&& final(self).audio() == old(self).audio()
                },
            },
            old(self).playing_needs_file() ==> final(self).playing_needs_file(),
    {
        match decoded {
            Ok((samples, sample_rate, channels)) => {
                self.samples = Some(samples);
                self.sample_rate = sample_rate;
                self.channels = channels;
                self.file_path = Some(path);
                self.is_playing = false;
                self.error = None;
                let _ = self.engine.send(EngineCommand::Stop);
            },
            Err(reason) => {
                self.error = Some(String::from_str("Failed to open file: ").concat(reason.as_str()));
            },
        }
    }

    /// The `Play` command for the open file: a copy of its samples, its
    /// sample rate and channel count; `None` when no file is open.
    pub fn play_command(&self) -> (r: Option<EngineCommand<T>>)
        ensures
            match self.loaded() {
                Some(v) => r matches Some(c) && is_play_command(c, v, self.rate(), self.channel_count()),
                None => r is None,
            },
    {
        match &self.samples {
            Some(samples) => Some(
                EngineCommand::Play {
                    samples: copy_samples(samples),
                    sample_rate: self.sample_rate,
                    channels: self.channels,
                },
            ),
            None => None,
        }
    }

    /// Takes in the outcome of sending the `Play` command for the open file:
    /// when it was sent, audio is marked playing; otherwise the error tells
    /// why, and playing stays as it was.
    pub fn after_send(&mut self, r: Result<(), String>)
        requires
            old(self).loaded() is Some,
        ensures
            final(self).loaded() == old(self).loaded(),
            final(self).rate() == old(self).rate(),
            final(self).channel_count() == old(self).channel_count(),
            final(self).path() == old(self).path(),
            final(self).audio() == old(self).audio(),
            match r {
                Ok(()) => final(self).playing() && final(self).error_text() == old(self).error_text(),
                Err(e) => final(self).playing() == old(self).playing() && final(self).error_text()
                    == Some(playback_error_message(e@)),
            },
            old(self).playing_needs_file() ==> final(self).playing_needs_file(),
    {
        match r {
            Err(e) => {
                self.error = Some(String::from_str("Playback error: ").concat(e.as_str()));
            },
            Ok(()) => {
                self.is_playing = true;
            },
        }
    }

    /// Sends a `Play` command with a copy of the open file's samples, its
    /// sample rate and channel count. Does nothing when no file is open.
    ///
    /// When the engine accepts the command, audio is marked playing; when it
    /// refuses it (its channel is disconnected), the error says so and
    /// playing stays as it was.
    pub fn play(&mut self)
        ensures
            old(self).loaded() is None ==> *final(self) == *old(self),
            old(self).loaded() is Some ==> {
                &&& final(self).loaded() == old(self).loaded()
                &&& final(self).rate() == old(self).rate()
                &&& final(self).channel_count() == old(self).channel_count()
                &&& final(self).path() == old(self).path()
                &&& exists|c: EngineCommand<T>|
                    #[trigger] is_play_command(
                        c,
                        old(self).loaded()->0,
                        old(self).rate(),
                        old(self).channel_count(),
                    ) && {
                        ||| accepted_by(old(self).audio(), final(self).audio(), c)
                            && final(self).playing() && final(self).error_text()
                            == old(self).error_text()
                        ||| refused_by(old(self).audio(), final(self).audio())
                            && final(self).playing() == old(self).playing()
                            && final(self).error_text() == Some(
                            playback_error_message(disconnected_message()),
                        )
                    }
            },
            old(self).playing_needs_file() ==> final(self).playing_needs_file(),
    {
        match self.play_command() {
            Some(cmd) => {
                let ghost c = cmd;
                let r = self.engine.send(cmd);
                self.after_send(r);
                assert(is_play_command(
                    c,
                    old(self).loaded()->0,
                    old(self).rate(),
                    old(self).channel_count(),
                ));
            },
            None => {},
        }
    }

    /// Sends a `Pause` command (whether it arrives does not matter) and marks
    /// audio as not playing.
    pub fn pause(&mut self)
        ensures
            final(self).loaded() == old(self).loaded(),
            final(self).rate() == old(self).rate(),
            final(self).channel_count() == old(self).channel_count(),
            final(self).path() == old(self).path(),
            sent_or_refused(old(self).audio(), final(self).audio(), EngineCommand::Pause),
            !final(self).playing(),
            final(self).error_text() == old(self).error_text(),
            old(self).playing_needs_file() ==> final(self).playing_needs_file(),
    {
        let _ = self.engine.send(EngineCommand::Pause);
        self.is_playing = false;
    }

    /// Sends a `Stop` command (whether it arrives does not matter) and marks
    /// audio as not playing.
    pub fn stop(&mut self)
        ensures
            final(self).loaded() == old(self).loaded(),
            final(self).rate() == old(self).rate(),
            final(self).channel_count() == old(self).channel_count(),
            final(self).path() == old(self).path(),
            sent_or_refused(old(self).audio(), final(self).audio(), EngineCommand::Stop),
            !final(self).playing(),
            final(self).error_text() == old(self).error_text(),
            old(self).playing_needs_file() ==> final(self).playing_needs_file(),
    {
        let _ = self.engine.send(EngineCommand::Stop);
        self.is_playing = false;
    }

    /// Takes in that the engine reached the end of the samples: audio is
    /// marked as not playing. No command is sent.
    pub fn playback_ended(&mut self)
        ensures
            final(self).loaded() == old(self).loaded(),
            final(self).rate() == old(self).rate(),
            final(self).channel_count() == old(self).channel_count(),
            final(self).path() == old(self).path(),
            final(self).audio() == old(self).audio(),
            !final(self).playing(),
            final(self).error_text() == old(self).error_text(),
            final(self).playing_needs_file(),
    {
        self.is_playing = false;
    }

    /// Whether the Play button is enabled: a file is open and audio is not
    /// playing.
    pub fn can_play(&self) -> (r: bool)
        ensures
            r == self.play_enabled(),
    {
        self.samples.is_some() && !self.is_playing
    }

    /// Whether the Pause button is enabled: a file is open and audio is
    /// playing.
    pub fn can_pause(&self) -> (r: bool)
        ensures
            r == self.pause_enabled(),
    {
        self.samples.is_some() && self.is_playing
    }

    /// Whether the Stop button is enabled: a file is open.
    pub fn can_stop(&self) -> (r: bool)
        ensures
            r == self.stop_enabled(),
    {
        self.samples.is_some()
    }

    /// The number of samples per channel in the open file, shown in the
    /// status bar; `None` when no file is open.
    pub fn frames(&self) -> (r: Option<usize>)
        requires
            self.loaded() is Some ==> self.channel_count() > 0,
        ensures
            match self.loaded() {
                Some(s) => r == Some((s.len() / (self.channel_count() as nat)) as usize),
                None => r is None,
            },
    {
        match &self.samples {
            Some(samples) => Some(samples.len() / self.channels),
            None => None,
        }
    }

    /// The decoded samples of the open file, if a file is open.
    pub fn samples(&self) -> (r: Option<&Vec<T>>)
        ensures
            match r {
                Some(v) => self.loaded() == Some(v@),
                None => self.loaded() is None,
            },
    {
        match &self.samples {
            Some(v) => Some(v),
            None => None,
        }
    }

    /// The sample rate of the open file.
    pub fn sample_rate(&self) -> (r: u32)
        ensures
            r == self.rate(),
    {
        self.sample_rate
    }

    /// The number of channels of the open file.
    pub fn channels(&self) -> (r: usize)
        ensures
            r == self.channel_count(),
    {
        self.channels
    }

    /// The path of the open file.
    pub fn file_path(&self) -> (r: Option<&P>)
        ensures
            match r {
                Some(p) => self.path() == Some(*p),
                None => self.path() is None,
            },
    {
        match &self.file_path {
            Some(p) => Some(p),
            None => None,
        }
    }

    /// Whether audio is playing.
    pub fn is_playing(&self) -> (r: bool)
        ensures
            r == self.playing(),
    {
        self.is_playing
    }

    /// The error to show, if any.
    pub fn error(&self) -> (r: Option<&String>)
        ensures
            match r {
                Some(e) => self.error_text() == Some(e@),
                None => self.error_text() is None,
            },
    {
        match &self.error {
            Some(e) => Some(e),
            None => None,
        }
    }

    /// The audio engine.
    pub fn engine(&self) -> (r: &AudioEngine<T, H>)
        ensures
            *r == self.audio(),
    {
        &self.engine
    }
}

/// Play and Pause are never enabled together, and whenever either is
/// enabled, so is Stop.
pub proof fn law_transport_buttons<T: Copy, H, P>(app: WavForgeApp<T, H, P>)
    ensures
        !(app.play_enabled() && app.pause_enabled()),
        app.play_enabled() || app.pause_enabled() ==> app.stop_enabled(),
        app.stop_enabled() ==> app.play_enabled() || app.pause_enabled(),
{
}

} // verus!
