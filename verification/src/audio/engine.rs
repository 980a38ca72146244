//! The playback engine.
//!
//! The user interface sends [`EngineCommand`]s through an [`AudioEngine`]
//! handle. On the audio thread, a [`PlaybackState`] takes each command in
//! turn and then fills every output buffer the device asks for, frame by
//! frame: samples from the cursor while playing, silence otherwise.
//!
//! Commands:
//! - `Play` begins playback of the given samples from the current cursor;
//! - `Pause` stops playback and holds the cursor where it is;
//! - `Stop` stops playback, resets the cursor to 0 and clears the samples.

use vstd::prelude::*;
use vstd::arithmetic::div_mod::lemma_fundamental_div_mod;
use vstd::arithmetic::div_mod::lemma_mod_pos_bound;
use vstd::arithmetic::div_mod::lemma_fundamental_div_mod_converse;
use crate::audio::channel::{channel_len, channel_send};
pub use crate::audio::channel::{command_channel, CommandReceiver, CommandSender};

verus! {

// ---------------------------------------------------------------------------
// Frame arithmetic
// ---------------------------------------------------------------------------

/// `m` whole blocks of `d` fit in `a` exactly when `m` is at most `a / d`.
proof fn lemma_blocks_fit(a: int, d: int, m: int)
    requires
        a >= 0,
        d > 0,
    ensures
        m * d <= a <==> m <= a / d,
        a / d >= 0,
{
    vstd::arithmetic::div_mod::lemma_div_pos_is_pos(a, d);
    lemma_fundamental_div_mod(a, d);
    lemma_mod_pos_bound(a, d);
    let q = a / d;
    let r = a % d;
    assert(m * d <= a <==> m <= q) by (nonlinear_arith)
        requires
            a == d * q + r,
            0 <= r < d,
            d > 0,
    ;
}

/// A frame that starts at `k * d` starts inside a buffer of `n` samples
/// exactly when `k` is below the buffer's frame count.
proof fn lemma_frame_starts_inside(n: int, d: int, k: int)
    requires
        n >= 0,
        d > 0,
    ensures
        k * d < n <==> k < (n + d - 1) / d,
        (n + d - 1) / d >= 0,
{
    lemma_blocks_fit(n + d - 1, d, k + 1);
    assert((k + 1) * d == k * d + d) by (nonlinear_arith);
    lemma_blocks_fit(n + d - 1, d, 0);
}

/// Products with a positive factor keep the order of the other factor.
proof fn lemma_scale_monotone(a: int, b: int, d: int)
    requires
        a <= b,
        d > 0,
    ensures
        a * d <= b * d,
{
    assert(a * d <= b * d) by (nonlinear_arith)
        requires
            a <= b,
            d > 0,
    ;
}

/// The number of frames in an output buffer of `n` samples with `channels`
/// samples per frame; the last frame may be partial.
pub open spec fn frame_count(n: nat, channels: nat) -> nat {
    ((n + channels - 1) / (channels as int)) as nat
}

/// The number of whole frames that `len` samples still hold from `cursor`.
pub open spec fn frames_left(len: nat, cursor: nat, channels: nat) -> nat {
    if cursor <= len {
        ((len - cursor) / (channels as int)) as nat
    } else {
        0
    }
}

/// The number of frames played out of `frames` output frames, starting from
/// `cursor` in `len` samples: all of them while whole frames remain, none
/// when not playing.
pub open spec fn frames_played_in(
    len: nat,
    cursor: nat,
    playing: bool,
    frames: nat,
    channels: nat,
) -> nat {
    if !playing {
        0
    } else if frames <= frames_left(len, cursor, channels) {
        frames
    } else {
        frames_left(len, cursor, channels)
    }
}

/// The number of frames that one fill of `n` output samples plays.
pub open spec fn frames_played(len: nat, cursor: nat, playing: bool, n: nat, channels: nat) -> nat {
    frames_played_in(len, cursor, playing, frame_count(n, channels), channels)
}

// ---------------------------------------------------------------------------
// Commands and the playback state
// ---------------------------------------------------------------------------

/// Commands the user interface sends to the audio engine.
pub enum EngineCommand<T> {
    /// Begin playback of the provided samples from the current cursor position.
    Play {
        /// Interleaved PCM samples.
        samples: Vec<T>,
        /// Sample rate of the audio data (e.g. 44100).
        sample_rate: u32,
        /// Number of interleaved channels (1 = mono, 2 = stereo).
        channels: usize,
    },
    /// Pause playback, holding the current cursor position.
    Pause,
    /// Stop playback, reset the cursor to the beginning and clear the samples.
    Stop,
}

/// The state of playback on the audio thread.
///
/// Its view is `(samples, cursor, playing)`: the samples loaded for
/// playback, the read position within them (an interleaved sample index)
/// and whether playback is active.
pub struct PlaybackState<T> {
    samples: Vec<T>,
    cursor: usize,
    playing: bool,
}

impl<T> View for PlaybackState<T> {
    type V = (Seq<T>, nat, bool);

    closed spec fn view(&self) -> (Seq<T>, nat, bool) {
        (self.samples@, self.cursor as nat, self.playing)
    }
}

/// The playback state after applying `cmd` to state `s`: `Play` loads the
/// given samples and starts playing from the current cursor, `Pause` stops
/// playing and keeps the cursor, `Stop` stops playing, resets the cursor and
/// clears the samples.
pub open spec fn after_command<T>(s: (Seq<T>, nat, bool), cmd: EngineCommand<T>) -> (Seq<T>, nat, bool) {
    match cmd {
        EngineCommand::Play { samples, .. } => (samples@, s.1, true),
        EngineCommand::Pause => (s.0, s.1, false),
        EngineCommand::Stop => (Seq::empty(), 0, false),
    }
}

/// The playback state after filling an output buffer of `n` samples from
/// state `s`: the cursor has moved by one frame for each frame played, and
/// playback has stopped if a frame could not be played and the cursor has
/// reached the end of the samples.
pub open spec fn filled_state<T>(s: (Seq<T>, nat, bool), n: nat, channels: nat) -> (Seq<T>, nat, bool) {
    let played = frames_played(s.0.len(), s.1, s.2, n, channels);
    let cursor = s.1 + played * channels;
    (s.0, cursor, s.2 && (played == frame_count(n, channels) || cursor < s.0.len()))
}

/// The output buffer of `n` samples filled from state `s`: the played frames
/// hold the samples from the cursor on, the rest is silence.
pub open spec fn filled_output<T>(s: (Seq<T>, nat, bool), n: nat, channels: nat, silence: T) -> Seq<T> {
    let played = frames_played(s.0.len(), s.1, s.2, n, channels);
    Seq::new(n, |i: int| if i < played * channels { s.0[s.1 + i] } else { silence })
}

impl<T: Copy> PlaybackState<T> {
    /// Creates a stopped, empty playback state.
    pub fn empty() -> (r: Self)
        ensures
            r@ == (Seq::<T>::empty(), 0nat, false),
    {
        PlaybackState { samples: Vec::new(), cursor: 0, playing: false }
    }

    /// The samples loaded for playback.
    pub fn samples(&self) -> (r: &Vec<T>)
        ensures
            r@ == self@.0,
    {
        &self.samples
    }

    /// The read position within the samples.
    pub fn cursor(&self) -> (r: usize)
        ensures
            r == self@.1,
    {
        self.cursor
    }

    /// Whether playback is active.
    pub fn is_playing(&self) -> (r: bool)
        ensures
            r == self@.2,
    {
        self.playing
    }

    /// Applies one command.
    pub fn apply_command(&mut self, cmd: EngineCommand<T>)
        ensures
            final(self)@ == after_command(old(self)@, cmd),
    {
        match cmd {
            EngineCommand::Play { samples, .. } => {
                self.samples = samples;
                self.playing = true;
            },
            EngineCommand::Pause => {
                self.playing = false;
            },
            EngineCommand::Stop => {
                self.samples = Vec::new();
                self.cursor = 0;
                self.playing = false;
            },
        }
    }

    /// Fills an output buffer of interleaved samples, `channels` samples per
    /// frame (the last frame may be partial).
    ///
    /// Frame by frame: while playing and a whole frame remains at the cursor,
    /// the frame is copied from the cursor and the cursor moves on by
    /// `channels`; otherwise the frame is silence, and playback stops once
    /// the cursor has reached the end of the samples. Returns whether
    /// playback stopped during this fill, that is, reached the end.
    pub fn fill_output(&mut self, output: &mut [T], channels: usize, silence: T) -> (ended: bool)
        requires
            channels > 0,
        ensures
            ended == (old(self)@.2 && !final(self)@.2),
            final(self)@ == filled_state(old(self)@, old(output)@.len(), channels as nat),
            final(output)@ == filled_output(old(self)@, old(output)@.len(), channels as nat, silence),
    {
        let was_playing = self.playing;
        let n = output.len();
        let len = self.samples.len();
        let ghost s0 = self.samples@;
        let ghost c0 = self.cursor as nat;
        let ghost p0 = self.playing;
        let ghost ch = channels as nat;
        let ghost frames = frame_count(n as nat, ch);
        let ghost left = frames_left(len as nat, c0, ch);
        let ghost mut k: nat = 0;
        proof {
            lemma_frame_starts_inside(n as int, ch as int, 0);
        }
        let mut start: usize = 0;
        while start < n
            invariant
                self.samples@ == s0,
                len == s0.len(),
                n == output@.len(),
                ch == channels,
                channels > 0,
                frames == frame_count(n as nat, ch),
                left == frames_left(len as nat, c0, ch),
                k <= frames,
                start <= n,
                start < n ==> start == k * ch && k < frames,
                start == n ==> k == frames,
                self.cursor == c0 + frames_played_in(len as nat, c0, p0, k, ch) * ch,
                self.playing == (p0 && (frames_played_in(len as nat, c0, p0, k, ch) == k
                    || self.cursor < len)),
                forall|i: int|
                    0 <= i < start ==> #[trigger] output@[i] == if i < frames_played_in(
                        len as nat,
                        c0,
                        p0,
                        k,
                        ch,
                    ) * ch {
                        s0[c0 + i]
                    } else {
                        silence
                    },
            decreases n - start,
        {
            let ghost pk = frames_played_in(len as nat, c0, p0, k, ch);
            let end: usize = if n - start < channels {
                n
            } else {
                start + channels
            };
            proof {
                assert((k + 1) * ch == k * ch + ch) by (nonlinear_arith);
                lemma_frame_starts_inside(n as int, ch as int, (k + 1) as int);
                if c0 <= len {
                    lemma_blocks_fit(len - c0, ch as int, (k + 1) as int);
                    lemma_blocks_fit(len - c0, ch as int, (left + 1) as int);
                    assert((left + 1) * ch == left * ch + ch) by (nonlinear_arith);
                }
                lemma_scale_monotone(pk as int, k as int, ch as int);
            }
            if self.playing && self.cursor <= len && channels <= len - self.cursor {
                assert(pk == k);
                let mut j: usize = start;
                while j < end
                    invariant
                        self.samples@ == s0,
                        len == s0.len(),
                        n == output@.len(),
                        start <= j <= end <= n,
                        end <= start + channels,
                        self.cursor + channels <= len,
                        self.cursor == c0 + k * ch,
                        start == k * ch,
                        forall|i: int|
                            0 <= i < start ==> #[trigger] output@[i] == if i < pk * ch {
                                s0[c0 + i]
                            } else {
                                silence
                            },
                        forall|i: int| start <= i < j ==> #[trigger] output@[i] == s0[c0 + i],
                    decreases end - j,
                {
                    output[j] = self.samples[self.cursor + (j - start)];
                    j = j + 1;
                }
                self.cursor = self.cursor + channels;
                proof {
                    k = k + 1;
                }
            } else {
                let mut j: usize = start;
                while j < end
                    invariant
                        n == output@.len(),
                        start <= j <= end <= n,
                        forall|i: int|
                            0 <= i < start ==> #[trigger] output@[i] == if i < pk * ch {
                                s0[c0 + i]
                            } else {
                                silence
                            },
                        forall|i: int| start <= i < j ==> #[trigger] output@[i] == silence,
                    decreases end - j,
                {
                    output[j] = silence;
                    j = j + 1;
                }
                if self.cursor >= len {
                    self.playing = false;
                }
                proof {
                    k = k + 1;
                }
            }
            start = end;
        }
        was_playing && !self.playing
    }
}

// ---------------------------------------------------------------------------
// Laws of playback
// ---------------------------------------------------------------------------

/// Each command does what it says, from any state: `Play` loads exactly the
/// samples it carries and starts playing from the current cursor; `Pause`
/// stops playing and keeps the samples and the cursor; `Stop` stops playing,
/// resets the cursor to 0 and clears the samples.
pub proof fn law_commands_do_what_they_say<T>(s: (Seq<T>, nat, bool), cmd: EngineCommand<T>)
    ensures
        cmd matches EngineCommand::Play { samples, .. } ==> {
            &&& after_command(s, cmd).0 == samples@
            &&& after_command(s, cmd).1 == s.1
            &&& after_command(s, cmd).2
        },
        cmd is Pause ==> after_command(s, cmd) == (s.0, s.1, false),
        cmd is Stop ==> after_command(s, cmd).0.len() == 0 && after_command(s, cmd).1 == 0
            && !after_command(s, cmd).2,
{
}

/// Pausing and then playing the same samples again resumes playback where
/// it was paused.
pub proof fn law_pause_then_play_resumes<T>(s: (Seq<T>, nat, bool), cmd: EngineCommand<T>)
    requires
        cmd matches EngineCommand::Play { samples, .. } && samples@ == s.0,
    ensures
        after_command(after_command(s, EngineCommand::Pause), cmd) == (s.0, s.1, true),
{
}

/// While playback is not active, filling an output buffer yields only
/// silence and leaves the state as it was.
pub proof fn law_idle_fill_is_silent<T>(s: (Seq<T>, nat, bool), n: nat, channels: nat, silence: T)
    requires
        !s.2,
        channels > 0,
    ensures
        filled_output(s, n, channels, silence) == Seq::new(n, |i: int| silence),
        filled_state(s, n, channels) == s,
{
    let played = frames_played(s.0.len(), s.1, s.2, n, channels);
    assert(played == 0);
    assert(played * channels == 0);
    assert(filled_output(s, n, channels, silence) =~= Seq::new(n, |i: int| silence));
}

/// After a stop, filling an output buffer yields only silence, and the
/// state stays stopped at the beginning of an empty sample buffer.
pub proof fn law_stop_silences<T>(s: (Seq<T>, nat, bool), n: nat, channels: nat, silence: T)
    requires
        channels > 0,
    ensures
        filled_output(after_command(s, EngineCommand::Stop), n, channels, silence) == Seq::new(
            n,
            |i: int| silence,
        ),
        filled_state(after_command(s, EngineCommand::Stop), n, channels) == (Seq::<T>::empty(), 0nat, false),
{
    law_idle_fill_is_silent(after_command(s, EngineCommand::Stop), n, channels, silence);
}

/// Filling never moves the cursor past the end of the samples.
pub proof fn law_fill_keeps_cursor_in_bounds<T>(s: (Seq<T>, nat, bool), n: nat, channels: nat)
    requires
        s.1 <= s.0.len(),
        channels > 0,
    ensures
        filled_state(s, n, channels).1 <= s.0.len(),
{
    let left = frames_left(s.0.len(), s.1, channels);
    let played = frames_played(s.0.len(), s.1, s.2, n, channels);
    lemma_blocks_fit(s.0.len() - s.1, channels as int, left as int);
    lemma_scale_monotone(played as int, left as int, channels as int);
}

/// The frame count of a buffer that starts with `m` whole frames is `m` more
/// than the frame count of the rest.
proof fn lemma_frame_count_shift(m: nat, n: nat, d: nat)
    requires
        d > 0,
    ensures
        frame_count(m * d + n, d) == m + frame_count(n, d),
        frame_count(m * d, d) == m,
{
    let q = (n + d - 1) / (d as int);
    let r = (n + d - 1) % (d as int);
    vstd::arithmetic::div_mod::lemma_fundamental_div_mod(n + d - 1, d as int);
    vstd::arithmetic::div_mod::lemma_mod_pos_bound(n + d - 1, d as int);
    assert(m * d + n + d - 1 == (m + q) * d + r) by (nonlinear_arith)
        requires
            n + d - 1 == d * q + r,
    ;
    lemma_fundamental_div_mod_converse(m * d + n + d - 1, d as int, m + q, r);
    assert(m * d + d - 1 == m * d + (d - 1));
    lemma_fundamental_div_mod_converse(m * d + d - 1, d as int, m as int, d - 1);
    assert(m * d >= 0) by (nonlinear_arith)
        requires
            d > 0,
    ;
}

/// Taking `m` whole frames off the samples left at a cursor leaves `m`
/// fewer whole frames.
proof fn lemma_frames_left_shift(len: nat, cursor: nat, m: nat, d: nat)
    requires
        d > 0,
        cursor + m * d <= len,
    ensures
        frames_left(len, cursor + m * d, d) + m == frames_left(len, cursor, d),
{
    let a = len - cursor - m * d;
    let q = a / (d as int);
    let r = a % (d as int);
    vstd::arithmetic::div_mod::lemma_fundamental_div_mod(a, d as int);
    vstd::arithmetic::div_mod::lemma_mod_pos_bound(a, d as int);
    vstd::arithmetic::div_mod::lemma_div_pos_is_pos(a, d as int);
    assert(len - cursor == (q + m) * d + r) by (nonlinear_arith)
        requires
            a == d * q + r,
            a == len - cursor - m * d,
    ;
    lemma_fundamental_div_mod_converse(len - cursor, d as int, q + m, r);
}

/// When the frames left at a cursor are all played, no whole frame is left.
proof fn lemma_no_frame_after_last(len: nat, cursor: nat, d: nat)
    requires
        d > 0,
    ensures
        frames_left(len, cursor + frames_left(len, cursor, d) * d, d) == 0,
{
    let left = frames_left(len, cursor, d);
    if cursor <= len {
        lemma_blocks_fit(len - cursor, d as int, left as int);
        lemma_blocks_fit(len - cursor, d as int, (left + 1) as int);
        assert((left + 1) * d == left * d + d) by (nonlinear_arith);
        let c1 = cursor + left * d;
        lemma_blocks_fit(len - c1, d as int, 1);
    }
}

/// Splitting an output buffer in two, the first part holding whole frames,
/// and filling the parts one after the other plays exactly what filling the
/// whole buffer at once plays, and leaves the same state: how the device
/// cuts its output into buffers does not change what is heard.
pub proof fn law_split_fill<T>(s: (Seq<T>, nat, bool), m: nat, n2: nat, channels: nat, silence: T)
    requires
        channels > 0,
    ensures
        ({
            let n1 = m * channels;
            let s1 = filled_state(s, n1, channels);
            &&& filled_state(s1, n2, channels) == filled_state(s, n1 + n2, channels)
            &&& filled_output(s, n1, channels, silence) + filled_output(s1, n2, channels, silence)
                == filled_output(s, n1 + n2, channels, silence)
        }),
{
    let d = channels;
    let n1 = m * d;
    let len = s.0.len();
    let (c, p) = (s.1, s.2);
    let s1 = filled_state(s, n1, d);
    let left = frames_left(len, c, d);
    let f2 = frame_count(n2, d);
    lemma_frame_count_shift(m, n2, d);
    assert(m * d >= 0) by (nonlinear_arith)
        requires
            d > 0,
    ;
    let played1 = frames_played(len, c, p, n1, d);
    let played2 = frames_played(len, s1.1, s1.2, n2, d);
    let played = frames_played(len, c, p, n1 + n2, d);
    assert(played1 == frames_played_in(len, c, p, m, d));
    if !p {
        assert(played1 == 0 && played2 == 0 && played == 0);
        assert(played1 * d == 0 && played2 * d == 0 && played * d == 0) by (nonlinear_arith)
            requires
                played1 == 0 && played2 == 0 && played == 0,
        ;
        assert(s1 == s);
        let o1 = filled_output(s, n1, d, silence);
        let o2 = filled_output(s1, n2, d, silence);
        let o = filled_output(s, n1 + n2, d, silence);
        assert(o1 + o2 =~= o) by {
            assert forall|i: int| 0 <= i < n1 + n2 implies #[trigger] (o1 + o2)[i] == o[i] by {
                if i >= n1 {
                    assert((o1 + o2)[i] == o2[i - n1]);
                }
            }
        }
        assert(filled_state(s1, n2, d) == filled_state(s, n1 + n2, d));
    } else if m == 0 {
        assert(n1 == 0);
        assert(played1 * d == 0);
        assert(s1 == s);
        assert(filled_output(s, n1, d, silence) + filled_output(s1, n2, d, silence) =~= filled_output(
            s,
            n1 + n2,
            d,
            silence,
        ));
    } else if m <= left {
        assert(played1 == m);
        if c <= len {
            lemma_blocks_fit(len - c, d as int, left as int);
            assert(left * d <= len - c);
            lemma_scale_monotone(m as int, left as int, d as int);
            assert(m * d <= left * d);
        }
        assert(c + m * d <= len);
        lemma_frames_left_shift(len, c, m, d);
        assert(s1.1 == c + m * d);
        assert(s1.2);
        assert(played == m + played2);
        assert((m + played2) * d == m * d + played2 * d) by (nonlinear_arith);
        let o1 = filled_output(s, n1, d, silence);
        let o2 = filled_output(s1, n2, d, silence);
        let o = filled_output(s, n1 + n2, d, silence);
        assert(o1 + o2 =~= o) by {
            assert forall|i: int| 0 <= i < n1 + n2 implies #[trigger] (o1 + o2)[i] == o[i] by {
                if i >= n1 {
                    assert((o1 + o2)[i] == o2[i - n1]);
                }
            }
        }
        assert(filled_state(s1, n2, d) == filled_state(s, n1 + n2, d));
    } else {
        assert(played1 == left);
        lemma_no_frame_after_last(len, c, d);
        assert(frames_left(len, s1.1, d) == 0);
        assert(played2 == 0);
        assert(played2 * d == 0) by (nonlinear_arith)
            requires
                played2 == 0,
        ;
        assert(played == left);
        lemma_scale_monotone(left as int, m as int, d as int);
        let o1 = filled_output(s, n1, d, silence);
        let o2 = filled_output(s1, n2, d, silence);
        let o = filled_output(s, n1 + n2, d, silence);
        assert(o1 + o2 =~= o) by {
            assert forall|i: int| 0 <= i < n1 + n2 implies #[trigger] (o1 + o2)[i] == o[i] by {
                if i >= n1 {
                    assert((o1 + o2)[i] == o2[i - n1]);
                }
            }
        }
        assert(filled_state(s1, n2, d) == filled_state(s, n1 + n2, d));
    }
}

/// Filling keeps the cursor on a frame boundary within the samples.
pub proof fn law_fill_keeps_frame_alignment<T>(s: (Seq<T>, nat, bool), n: nat, channels: nat)
    requires
        channels > 0,
        s.1 <= s.0.len(),
        s.1 % channels == 0,
    ensures
        filled_state(s, n, channels).1 <= s.0.len(),
        filled_state(s, n, channels).1 % channels == 0,
{
    law_fill_keeps_cursor_in_bounds(s, n, channels);
    let played = frames_played(s.0.len(), s.1, s.2, n, channels);
    let q = (s.1 as int) / (channels as int);
    vstd::arithmetic::div_mod::lemma_fundamental_div_mod(s.1 as int, channels as int);
    vstd::arithmetic::div_mod::lemma_div_pos_is_pos(s.1 as int, channels as int);
    assert(s.1 + played * channels == (q + played) * channels + 0) by (nonlinear_arith)
        requires
            s.1 == channels * q + 0,
    ;
    lemma_fundamental_div_mod_converse((s.1 + played * channels) as int, channels as int, q + played as int, 0);
}

/// Commands keep the cursor on a frame boundary within the samples, except
/// a `Play` of fewer samples than the cursor has already passed.
pub proof fn law_command_keeps_frame_alignment<T>(
    s: (Seq<T>, nat, bool),
    cmd: EngineCommand<T>,
    channels: nat,
)
    requires
        channels > 0,
        s.1 <= s.0.len(),
        s.1 % channels == 0,
        cmd matches EngineCommand::Play { samples, .. } ==> s.1 <= samples@.len(),
    ensures
        after_command(s, cmd).1 <= after_command(s, cmd).0.len(),
        after_command(s, cmd).1 % channels == 0,
{
    vstd::arithmetic::div_mod::lemma_small_mod(0, channels);
}

/// The total number of samples in buffers of the given sizes.
pub open spec fn total_size(sizes: Seq<nat>) -> nat
    decreases sizes.len(),
{
    if sizes.len() == 0 {
        0
    } else {
        total_size(sizes.drop_last()) + sizes.last()
    }
}

/// The state after filling output buffers of the given sizes one after the
/// other from state `s`, and the outputs of those fills, joined.
pub open spec fn fill_sequence<T>(s: (Seq<T>, nat, bool), sizes: Seq<nat>, channels: nat, silence: T) -> (
    (Seq<T>, nat, bool),
    Seq<T>,
)
    decreases sizes.len(),
{
    if sizes.len() == 0 {
        (s, Seq::empty())
    } else {
        let (mid, out) = fill_sequence(s, sizes.drop_last(), channels, silence);
        (
            filled_state(mid, sizes.last(), channels),
            out + filled_output(mid, sizes.last(), channels, silence),
        )
    }
}

/// Sizes that are whole numbers of frames add up to a whole number of frames.
proof fn lemma_total_whole_frames(sizes: Seq<nat>, channels: nat)
    requires
        channels > 0,
        forall|i: int| 0 <= i < sizes.len() ==> #[trigger] sizes[i] % channels == 0,
    ensures
        total_size(sizes) % channels == 0,
    decreases sizes.len(),
{
    if sizes.len() > 0 {
        let prefix = sizes.drop_last();
        assert forall|i: int| 0 <= i < prefix.len() implies #[trigger] prefix[i] % channels == 0 by {
            assert(prefix[i] == sizes[i]);
        }
        lemma_total_whole_frames(prefix, channels);
        let a = total_size(prefix);
        let b = sizes.last();
        assert(b % channels == 0) by {
            assert(b == sizes[sizes.len() - 1]);
        }
        vstd::arithmetic::div_mod::lemma_fundamental_div_mod(a as int, channels as int);
        vstd::arithmetic::div_mod::lemma_fundamental_div_mod(b as int, channels as int);
        let qa = (a as int) / (channels as int);
        let qb = (b as int) / (channels as int);
        assert(a + b == (qa + qb) * channels + 0) by (nonlinear_arith)
            requires
                a == channels * qa + 0,
                b == channels * qb + 0,
        ;
        lemma_fundamental_div_mod_converse((a + b) as int, channels as int, qa + qb, 0);
    } else {
        vstd::arithmetic::div_mod::lemma_small_mod(0, channels);
    }
}

/// Filling buffers one after the other, every buffer but the last holding
/// whole frames, plays what one fill of their total size plays.
pub proof fn law_fill_sequence<T>(s: (Seq<T>, nat, bool), sizes: Seq<nat>, channels: nat, silence: T)
    requires
        channels > 0,
        forall|i: int| 0 <= i < sizes.len() - 1 ==> #[trigger] sizes[i] % channels == 0,
    ensures
        fill_sequence(s, sizes, channels, silence) == (
            filled_state(s, total_size(sizes), channels),
            filled_output(s, total_size(sizes), channels, silence),
        ),
    decreases sizes.len(),
{
    if sizes.len() == 0 {
        law_idle_fill_shape(s, channels, silence);
    } else {
        let prefix = sizes.drop_last();
        assert forall|i: int| 0 <= i < prefix.len() implies #[trigger] prefix[i] % channels == 0 by {
            assert(prefix[i] == sizes[i]);
        }
        law_fill_sequence(s, prefix, channels, silence);
        lemma_total_whole_frames(prefix, channels);
        let a = total_size(prefix);
        vstd::arithmetic::div_mod::lemma_fundamental_div_mod(a as int, channels as int);
        vstd::arithmetic::div_mod::lemma_div_pos_is_pos(a as int, channels as int);
        let m = ((a as int) / (channels as int)) as nat;
        assert(a == channels * m);
        assert(m * channels == a) by (nonlinear_arith)
            requires
                a == channels * m,
        ;
        law_split_fill(s, m, sizes.last(), channels, silence);
    }
}

/// Filling an empty buffer changes nothing and yields nothing.
proof fn law_idle_fill_shape<T>(s: (Seq<T>, nat, bool), channels: nat, silence: T)
    requires
        channels > 0,
    ensures
        filled_state(s, 0, channels) == s,
        filled_output(s, 0, channels, silence) == Seq::<T>::empty(),
{
    lemma_frame_starts_inside(0, channels as int, 0);
    let played = frames_played(s.0.len(), s.1, s.2, 0, channels);
    assert(played == 0);
    assert(played * channels == 0);
    assert(filled_output(s, 0, channels, silence) =~= Seq::<T>::empty());
}

/// Playing samples from the beginning (a fresh state, or one just stopped)
/// through buffers that, but for the last, hold whole frames plays the
/// samples' whole frames in order, then silence.
pub proof fn law_play_from_start<T>(
    s: (Seq<T>, nat, bool),
    cmd: EngineCommand<T>,
    sizes: Seq<nat>,
    channels: nat,
    silence: T,
)
    requires
        channels > 0,
        s.1 == 0,
        cmd is Play,
        forall|i: int| 0 <= i < sizes.len() - 1 ==> #[trigger] sizes[i] % channels == 0,
    ensures
        ({
            let samples = after_command(s, cmd).0;
            let whole = ((samples.len() as int) / (channels as int)) * channels;
            fill_sequence(after_command(s, cmd), sizes, channels, silence).1 == Seq::new(
                total_size(sizes),
                |i: int| if i < whole { samples[i] } else { silence },
            )
        }),
{
    let start = after_command(s, cmd);
    let samples = start.0;
    let n = total_size(sizes);
    let len = samples.len();
    law_fill_sequence(start, sizes, channels, silence);
    let frames = frame_count(n, channels);
    let left = frames_left(len, 0, channels);
    let played = frames_played(len, 0, true, n, channels);
    let whole = ((len as int) / (channels as int)) * channels;
    lemma_blocks_fit(len as int, channels as int, left as int);
    assert(whole == left * channels);
    let out = filled_output(start, n, channels, silence);
    let expected = Seq::new(n, |i: int| if i < whole { samples[i] } else { silence });
    assert forall|i: int| 0 <= i < n implies #[trigger] out[i] == expected[i] by {
        if played == frames {
            lemma_frame_starts_inside(n as int, channels as int, played as int);
            lemma_scale_monotone(played as int, left as int, channels as int);
        } else {
            assert(played == left);
        }
    }
    assert(out =~= expected);
}

/// While playback is not active, filling any number of buffers yields only
/// silence and leaves the state as it was.
pub proof fn law_idle_fills_are_silent<T>(s: (Seq<T>, nat, bool), sizes: Seq<nat>, channels: nat, silence: T)
    requires
        !s.2,
        channels > 0,
    ensures
        fill_sequence(s, sizes, channels, silence) == (s, Seq::new(total_size(sizes), |i: int| silence)),
    decreases sizes.len(),
{
    if sizes.len() == 0 {
        assert(Seq::new(0, |i: int| silence) =~= Seq::<T>::empty());
    } else {
        law_idle_fills_are_silent(s, sizes.drop_last(), channels, silence);
        law_idle_fill_is_silent(s, sizes.last(), channels, silence);
        assert(Seq::new(total_size(sizes.drop_last()), |i: int| silence) + Seq::new(
            sizes.last(),
            |i: int| silence,
        ) =~= Seq::new(total_size(sizes), |i: int| silence));
    }
}

/// After a pause, filling any number of buffers yields only silence and
/// holds the cursor where it was.
pub proof fn law_pause_holds_position<T>(s: (Seq<T>, nat, bool), sizes: Seq<nat>, channels: nat, silence: T)
    requires
        channels > 0,
    ensures
        fill_sequence(after_command(s, EngineCommand::Pause), sizes, channels, silence) == (
            (s.0, s.1, false),
            Seq::new(total_size(sizes), |i: int| silence),
        ),
{
    law_idle_fills_are_silent(after_command(s, EngineCommand::Pause), sizes, channels, silence);
}

/// One step of the audio thread: a command applied, or an output buffer of
/// the given size filled.
pub enum PlaybackStep<T> {
    Command(EngineCommand<T>),
    Fill(nat),
}

/// The playback state after one step.
pub open spec fn after_step<T>(s: (Seq<T>, nat, bool), step: PlaybackStep<T>, channels: nat) -> (
    Seq<T>,
    nat,
    bool,
) {
    match step {
        PlaybackStep::Command(cmd) => after_command(s, cmd),
        PlaybackStep::Fill(n) => filled_state(s, n, channels),
    }
}

/// The playback state after the steps `steps`, in order.
pub open spec fn after_steps<T>(s: (Seq<T>, nat, bool), steps: Seq<PlaybackStep<T>>, channels: nat) -> (
    Seq<T>,
    nat,
    bool,
)
    decreases steps.len(),
{
    if steps.len() == 0 {
        s
    } else {
        after_step(after_steps(s, steps.drop_last(), channels), steps.last(), channels)
    }
}

/// Every `Play` among `steps` loads at least as many samples as the cursor
/// has passed when it comes.
pub open spec fn plays_cover_cursor<T>(s: (Seq<T>, nat, bool), steps: Seq<PlaybackStep<T>>, channels: nat) -> bool
    decreases steps.len(),
{
    if steps.len() == 0 {
        true
    } else {
        &&& plays_cover_cursor(s, steps.drop_last(), channels)
        &&& (steps.last() matches PlaybackStep::Command(EngineCommand::Play { samples, .. })
            ==> after_steps(s, steps.drop_last(), channels).1 <= samples@.len())
    }
}

/// Through any run of commands and fills, the cursor stays on a frame
/// boundary within the samples, as long as no `Play` loads fewer samples
/// than the cursor has passed.
pub proof fn law_run_keeps_frame_alignment<T>(
    s: (Seq<T>, nat, bool),
    steps: Seq<PlaybackStep<T>>,
    channels: nat,
)
    requires
        channels > 0,
        s.1 <= s.0.len(),
        s.1 % channels == 0,
        plays_cover_cursor(s, steps, channels),
    ensures
        after_steps(s, steps, channels).1 <= after_steps(s, steps, channels).0.len(),
        after_steps(s, steps, channels).1 % channels == 0,
    decreases steps.len(),
{
    if steps.len() > 0 {
        law_run_keeps_frame_alignment(s, steps.drop_last(), channels);
        let mid = after_steps(s, steps.drop_last(), channels);
        match steps.last() {
            PlaybackStep::Command(cmd) => law_command_keeps_frame_alignment(mid, cmd, channels),
            PlaybackStep::Fill(n) => law_fill_keeps_frame_alignment(mid, n, channels),
        }
    }
}

// ---------------------------------------------------------------------------
// The command channel
// ---------------------------------------------------------------------------

/// The playback state after applying the commands `cmds` in order.
pub open spec fn after_commands<T>(s: (Seq<T>, nat, bool), cmds: Seq<EngineCommand<T>>) -> (
    Seq<T>,
    nat,
    bool,
)
    decreases cmds.len(),
{
    if cmds.len() == 0 {
        s
    } else {
        after_command(after_commands(s, cmds.drop_last()), cmds.last())
    }
}

impl<T: Copy> PlaybackState<T> {
    /// Takes the commands waiting in `rx` without blocking and applies each,
    /// in the order taken: as many as were waiting when the call began,
    /// fewer if the channel runs empty first. Commands that arrive meanwhile
    /// wait for the next call.
    pub fn take_commands(&mut self, rx: &mut CommandReceiver<T>)
        ensures
            final(rx).channel() == old(rx).channel(),
            old(rx).received().len() <= final(rx).received().len(),
            final(rx).received().subrange(0, old(rx).received().len() as int) == old(rx).received(),
            final(self)@ == after_commands(
                old(self)@,
                final(rx).received().skip(old(rx).received().len() as int),
            ),
    {
        let waiting = channel_len(rx);
        let ghost start = self@;
        let ghost before = rx.received();
        let ghost mut taken: Seq<EngineCommand<T>> = Seq::empty();
        let mut i: usize = 0;
        while i < waiting
            invariant
                rx.channel() == old(rx).channel(),
                before == old(rx).received(),
                rx.received() == before + taken,
                self@ == after_commands(start, taken),
            decreases waiting - i,
        {
            match rx.try_receive() {
                Some(cmd) => {
                    let ghost c = cmd;
                    self.apply_command(cmd);
                    proof {
                        assert(taken.push(c).drop_last() =~= taken);
                        assert(before + taken.push(c) =~= (before + taken).push(c));
                        taken = taken.push(c);
                    }
                },
                None => {
                    break ;
                },
            }
            i = i + 1;
        }
        assert(rx.received().subrange(0, before.len() as int) =~= before);
        assert(rx.received().skip(before.len() as int) =~= taken);
    }
}

/// The message returned when the audio thread can no longer receive commands.
pub open spec fn disconnected_message() -> Seq<char> {
    "Audio engine disconnected"@
}

/// Turns the outcome of sending a command into the engine's answer: `Ok`
/// when the command was sent, the disconnection message otherwise.
pub fn send_outcome<T>(r: Result<(), EngineCommand<T>>) -> (out: Result<(), String>)
    ensures
        out is Ok <==> r is Ok,
        out matches Err(e) ==> e@ == disconnected_message(),
{
    match r {
        Ok(()) => Ok(()),
        Err(_) => Err(String::from_str("Audio engine disconnected")),
    }
}

/// The handle through which the user interface drives playback.
///
/// When an output device was opened, it holds the sender of the command
/// channel and the handle `H` of the running output stream, kept alive for
/// as long as the engine lives. Without a device it holds neither: it still
/// accepts commands, and produces no audio.
#[verifier::reject_recursive_types(T)]
pub struct AudioEngine<T, H> {
    tx: Option<CommandSender<T>>,
    stream: Option<H>,
}

/// `after` is the engine `before` once it accepted `cmd`: with a device, the
/// command was enqueued on the audio thread's channel, which was not known
/// to be disconnected; without one, it was taken and dropped.
pub open spec fn accepted_by<T, H>(
    before: AudioEngine<T, H>,
    after: AudioEngine<T, H>,
    cmd: EngineCommand<T>,
) -> bool {
    &&& after.output() == before.output()
    &&& match before.sender() {
        Some(tx) => after.sender() matches Some(tx2) && tx2.channel() == tx.channel() && tx2.sent()
            == tx.sent().push(cmd) && !tx.disconnected() && !tx2.disconnected(),
        None => after.sender() is None,
    }
}

/// `after` is the engine `before` once it refused a command because the
/// audio thread can no longer receive: it has a device, its channel is now
/// known to be disconnected, and nothing was enqueued.
pub open spec fn refused_by<T, H>(before: AudioEngine<T, H>, after: AudioEngine<T, H>) -> bool {
    &&& after.output() == before.output()
    &&& before.sender() is Some
    &&& after.sender() is Some
    &&& after.sender()->0.channel() == before.sender()->0.channel()
    &&& after.sender()->0.sent() == before.sender()->0.sent()
    &&& after.sender()->0.disconnected()
}

/// `after` is the engine `before` once it was handed `cmd`, whichever way
/// the send went.
pub open spec fn sent_or_refused<T, H>(
    before: AudioEngine<T, H>,
    after: AudioEngine<T, H>,
    cmd: EngineCommand<T>,
) -> bool {
    accepted_by(before, after, cmd) || refused_by(before, after)
}

/// Handing an engine a command never loses it silently: if the engine has a
/// device and its channel is not known to be disconnected afterwards, the
/// command was enqueued, exactly once and after everything sent before; a
/// command is refused only when the channel is disconnected; and an engine
/// without a device takes every command.
pub proof fn law_commands_reach_a_live_channel<T, H>(
    before: AudioEngine<T, H>,
    after: AudioEngine<T, H>,
    cmd: EngineCommand<T>,
)
    requires
        sent_or_refused(before, after, cmd),
    ensures
        before.sender() is Some && after.sender() is Some && !after.sender()->0.disconnected()
            ==> after.sender()->0.sent() == before.sender()->0.sent().push(cmd),
        refused_by(before, after) ==> after.sender() is Some && after.sender()->0.disconnected(),
        before.sender() is Some && after.sender() is Some && after.sender()->0.sent()
            == before.sender()->0.sent() ==> after.sender()->0.disconnected(),
        before.sender() is None ==> after.sender() is None && after.output() == before.output(),
{
    if before.sender() is Some && after.sender() is Some {
        let old_sent = before.sender()->0.sent();
        assert(old_sent.push(cmd).len() != old_sent.len());
    }
}

impl<T, H> AudioEngine<T, H> {
    /// The sender of the command channel, when an output device was opened.
    pub closed spec fn sender(&self) -> Option<CommandSender<T>> {
        self.tx
    }

    /// The running output stream, when an output device was opened.
    pub closed spec fn output(&self) -> Option<H> {
        self.stream
    }

    /// Creates the engine from the outcome of opening the output device: the
    /// command sender and the running stream, or why the device could not be
    /// opened. In the latter case the engine still accepts commands but
    /// produces no audio.
    pub fn new(built: Result<(CommandSender<T>, H), String>) -> (r: Self)
        ensures
            match built {
                Ok((tx, stream)) => r.sender() == Some(tx) && r.output() == Some(stream),
                Err(_) => r.sender() is None && r.output() is None,
            },
    {
        match built {
            Ok((tx, stream)) => AudioEngine { tx: Some(tx), stream: Some(stream) },
            Err(_) => AudioEngine { tx: None, stream: None },
        }
    }

    /// Whether the engine holds a running output stream.
    pub fn is_active(&self) -> (r: bool)
        ensures
            r == self.output() is Some,
    {
        self.stream.is_some()
    }

    /// Sends a command to the audio thread.
    ///
    /// With an output device, the command is enqueued on the audio thread's
    /// channel; when the audio thread can no longer receive commands, it is
    /// refused with the disconnection message and nothing changes. Without
    /// a device, the command is accepted and dropped.
    pub fn send(&mut self, cmd: EngineCommand<T>) -> (r: Result<(), String>)
        ensures
            r is Ok ==> accepted_by(*old(self), *final(self), cmd),
            r matches Err(e) ==> refused_by(*old(self), *final(self)) && e@ == disconnected_message(),
            old(self).sender() is None ==> r is Ok,
            old(self).sender() matches Some(tx) && tx.disconnected() ==> r is Err,
            sent_or_refused(*old(self), *final(self), cmd),
    {
        match &mut self.tx {
            Some(tx) => send_outcome(channel_send(tx, cmd)),
            None => Ok(()),
        }
    }
}

} // verus!
