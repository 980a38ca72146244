//! The decisions taken while decoding an audio file.
//!
//! Decoding reads a container, picks its first audio track, and then reads
//! packets one by one until the end of the stream, decoding those of the
//! chosen track. The reading and decoding themselves are the job of the
//! codec library; this module decides:
//! - which track is decoded, and with which sample rate and channel count
//!   ([`select_track`]);
//! - what to do with each packet read, or with the error met instead
//!   ([`packet_action`]);
//! - the message of each error ([`DecodeError::message`]);
//! - how the per-channel planes of a decoded buffer become interleaved
//!   samples ([`interleave_planes`]).

use vstd::prelude::*;
use vstd::arithmetic::div_mod::lemma_fundamental_div_mod_converse;

verus! {

// ---------------------------------------------------------------------------
// Errors
// ---------------------------------------------------------------------------

/// Why a file could not be decoded. The `String`s hold the description of
/// the underlying failure.
pub enum DecodeError {
    /// The file could not be opened.
    Open(String),
    /// No reader recognised the file's format.
    UnsupportedFormat(String),
    /// The file holds no audio track.
    NoAudioTrack,
    /// The chosen track does not state its sample rate.
    UnknownSampleRate,
    /// The chosen track does not state its channels.
    UnknownChannelCount,
    /// No decoder could be made for the chosen track.
    DecoderCreation(String),
    /// Reading a packet failed.
    Packet(String),
    /// Decoding a packet failed.
    Decode(String),
}

/// The message of a decoding error.
pub open spec fn error_message(e: DecodeError) -> Seq<char> {
    match e {
        DecodeError::Open(d) => "Cannot open file: "@ + d@,
        DecodeError::UnsupportedFormat(d) => "Unsupported format: "@ + d@,
        DecodeError::NoAudioTrack => "No audio track found"@,
        DecodeError::UnknownSampleRate => "Unknown sample rate"@,
        DecodeError::UnknownChannelCount => "Unknown channel count"@,
        DecodeError::DecoderCreation(d) => "Failed to create decoder: "@ + d@,
        DecodeError::Packet(d) => "Packet error: "@ + d@,
        DecodeError::Decode(d) => "Decode error: "@ + d@,
    }
}

impl DecodeError {
    /// The message of this error.
    pub fn message(&self) -> (r: String)
        ensures
            r@ == error_message(*self),
    {
        match self {
            DecodeError::Open(d) => String::from_str("Cannot open file: ").concat(d.as_str()),
            DecodeError::UnsupportedFormat(d) => String::from_str("Unsupported format: ").concat(
                d.as_str(),
            ),
            DecodeError::NoAudioTrack => String::from_str("No audio track found"),
            DecodeError::UnknownSampleRate => String::from_str("Unknown sample rate"),
            DecodeError::UnknownChannelCount => String::from_str("Unknown channel count"),
            DecodeError::DecoderCreation(d) => String::from_str("Failed to create decoder: ").concat(
                d.as_str(),
            ),
            DecodeError::Packet(d) => String::from_str("Packet error: ").concat(d.as_str()),
            DecodeError::Decode(d) => String::from_str("Decode error: ").concat(d.as_str()),
        }
    }
}

// ---------------------------------------------------------------------------
// Track choice
// ---------------------------------------------------------------------------

/// What the decoder needs to know of a track in the container.
pub struct TrackInfo {
    /// The track's identifier, carried by each of its packets.
    pub id: u32,
    /// Whether the track names a codec (the null codec marks tracks that
    /// carry no audio).
    pub has_codec: bool,
    /// The track's sample rate, when stated.
    pub sample_rate: Option<u32>,
    /// The track's channel count, when stated.
    pub channels: Option<usize>,
}

/// The stream chosen for decoding.
pub struct StreamChoice {
    /// The position of the chosen track in the container's track list.
    pub index: usize,
    /// The chosen track's identifier.
    pub track_id: u32,
    /// Its sample rate.
    pub sample_rate: u32,
    /// Its channel count.
    pub channels: usize,
}

/// The position of the first track that names a codec, if any.
pub open spec fn first_audio_track(tracks: Seq<TrackInfo>) -> Option<int> {
    if exists|i: int| 0 <= i < tracks.len() && (#[trigger] tracks[i]).has_codec {
        Some(
            choose|i: int|
                0 <= i < tracks.len() && (#[trigger] tracks[i]).has_codec && forall|j: int|
                    0 <= j < i ==> !(#[trigger] tracks[j]).has_codec,
        )
    } else {
        None
    }
}

/// Chooses the track to decode: the first one that names a codec.
///
/// Errors, in this order: no track names a codec; the chosen track states
/// no sample rate; it states no channel count.
pub fn select_track(tracks: &Vec<TrackInfo>) -> (r: Result<StreamChoice, DecodeError>)
    ensures
        match r {
            Ok(c) => {
                &&& 0 <= c.index < tracks@.len()
                &&& tracks@[c.index as int].has_codec
                &&& forall|j: int| 0 <= j < c.index ==> !(#[trigger] tracks@[j]).has_codec
                &&& c.track_id == tracks@[c.index as int].id
                &&& tracks@[c.index as int].sample_rate == Some(c.sample_rate)
                &&& tracks@[c.index as int].channels == Some(c.channels)
            },
            Err(e) => match first_audio_track(tracks@) {
                None => e is NoAudioTrack,
                Some(i) => {
                    ||| tracks@[i].sample_rate is None && e is UnknownSampleRate
                    ||| tracks@[i].sample_rate is Some && tracks@[i].channels is None
                        && e is UnknownChannelCount
                },
            },
        },
        r is Ok <==> match first_audio_track(tracks@) {
            None => false,
            Some(i) => tracks@[i].sample_rate is Some && tracks@[i].channels is Some,
        },
{
    let mut i: usize = 0;
    while i < tracks.len()
        invariant
            i <= tracks@.len(),
            forall|j: int| 0 <= j < i ==> !(#[trigger] tracks@[j]).has_codec,
        decreases tracks.len() - i,
    {
        if tracks[i].has_codec {
            let track = &tracks[i];
            proof {
                let found = first_audio_track(tracks@);
                assert(found == Some(i as int)) by {
                    let w = choose|w: int|
                        0 <= w < tracks@.len() && (#[trigger] tracks@[w]).has_codec && forall|
                            j: int,
                        |
                            0 <= j < w ==> !(#[trigger] tracks@[j]).has_codec;
                    assert(0 <= i < tracks@.len() && tracks@[i as int].has_codec);
                    if w < i {
                        assert(!tracks@[w].has_codec);
                    }
                    if w > i {
                        assert(!tracks@[i as int].has_codec);
                    }
                }
            }
            let sample_rate = match track.sample_rate {
                Some(rate) => rate,
                None => {
                    return Err(DecodeError::UnknownSampleRate);
                },
            };
            let channels = match track.channels {
                Some(count) => count,
                None => {
                    return Err(DecodeError::UnknownChannelCount);
                },
            };
            return Ok(StreamChoice { index: i, track_id: track.id, sample_rate, channels });
        }
        i = i + 1;
    }
    Err(DecodeError::NoAudioTrack)
}

// ---------------------------------------------------------------------------
// Packets
// ---------------------------------------------------------------------------

/// The outcome of reading the next packet of the container.
pub enum PacketRead {
    /// A packet of the track with the given identifier.
    Packet { track_id: u32 },
    /// The stream ended (the reader met the end of the file).
    EndOfStream,
    /// The reader asks for a reset, as chained streams do; decoding takes
    /// this as the end of the first stream.
    ResetRequired,
    /// Reading failed for another reason, described by the string.
    Failed(String),
}

/// What to do after reading a packet.
pub enum PacketAction {
    /// Decode the packet and append its samples.
    Decode,
    /// Skip the packet: it belongs to another track (such as cover art).
    Skip,
    /// Stop reading: the stream is over.
    Finish,
}

/// Decides what to do with the outcome of reading a packet, while decoding
/// the track `track_id`.
pub fn packet_action(read: PacketRead, track_id: u32) -> (r: Result<PacketAction, DecodeError>)
    ensures
        match read {
            PacketRead::Packet { track_id: id } => if id == track_id {
                r matches Ok(PacketAction::Decode)
            } else {
                r matches Ok(PacketAction::Skip)
            },
            PacketRead::EndOfStream => r matches Ok(PacketAction::Finish),
            PacketRead::ResetRequired => r matches Ok(PacketAction::Finish),
            PacketRead::Failed(d) => r matches Err(DecodeError::Packet(e)) && e@ == d@,
        },
{
    match read {
        PacketRead::Packet { track_id: id } => {
            if id == track_id {
                Ok(PacketAction::Decode)
            } else {
                Ok(PacketAction::Skip)
            }
        },
        PacketRead::EndOfStream => Ok(PacketAction::Finish),
        PacketRead::ResetRequired => Ok(PacketAction::Finish),
        PacketRead::Failed(d) => Err(DecodeError::Packet(d)),
    }
}

// ---------------------------------------------------------------------------
// Interleaving
// ---------------------------------------------------------------------------

/// The interleaving of `planes`, each `frames` samples long: frame by frame,
/// one sample of each plane in plane order.
pub open spec fn interleaved<T>(planes: Seq<Seq<T>>, frames: nat) -> Seq<T> {
    Seq::new(
        frames * planes.len(),
        |i: int| planes[i % (planes.len() as int)][i / (planes.len() as int)],
    )
}

/// Position `f * n + c` of an interleaving of `n` planes is sample `f` of
/// plane `c`.
proof fn lemma_interleaved_position(f: int, c: int, n: int)
    requires
        0 <= c < n,
        0 <= f,
    ensures
        (f * n + c) % n == c,
        (f * n + c) / n == f,
{
    lemma_fundamental_div_mod_converse(f * n + c, n, f, c);
}

/// In the interleaving of `n` planes, sample `f` of plane `c` lands at
/// position `f * n + c`, and nothing else is there: the interleaving holds
/// exactly `frames * n` samples.
pub proof fn law_interleaved_positions<T>(planes: Seq<Seq<T>>, frames: nat)
    requires
        planes.len() > 0,
    ensures
        interleaved(planes, frames).len() == frames * planes.len(),
        forall|f: int, c: int|
            0 <= f < frames && 0 <= c < planes.len() ==> #[trigger] interleaved(planes, frames)[f
                * planes.len() + c] == planes[c][f],
{
    let n = planes.len() as int;
    assert forall|f: int, c: int| 0 <= f < frames && 0 <= c < planes.len() implies #[trigger] interleaved(
        planes,
        frames,
    )[f * planes.len() + c] == planes[c][f] by {
        lemma_interleaved_position(f, c, n);
        assert(f * n + c < frames * n) by (nonlinear_arith)
            requires
                0 <= f < frames,
                0 <= c < n,
        ;
    }
}

/// Appends to `out` the samples of `planes`, interleaved: all planes must
/// hold the same number of samples, one plane per channel.
pub fn interleave_planes<T: Copy>(planes: &Vec<Vec<T>>, out: &mut Vec<T>)
    requires
        forall|c: int| 0 <= c < planes@.len() ==> (#[trigger] planes@[c])@.len() == planes@[0]@.len(),
        planes@.len() > 0 ==> old(out)@.len() + planes@[0]@.len() * planes@.len() <= usize::MAX,
    ensures
        final(out)@.subrange(0, old(out)@.len() as int) == old(out)@,
        planes@.len() > 0 ==> final(out)@.len() == old(out)@.len() + planes@[0]@.len()
            * planes@.len(),
        planes@.len() == 0 ==> final(out)@ == old(out)@,
        planes@.len() > 0 ==> final(out)@ == old(out)@ + interleaved(
            planes@.map_values(|p: Vec<T>| p@),
            planes@[0]@.len(),
        ),
{
    let nplanes = planes.len();
    if nplanes == 0 {
        return ;
    }
    let frames = planes[0].len();
    let ghost views = planes@.map_values(|p: Vec<T>| p@);
    let ghost start = out@;
    let ghost n = nplanes as int;
    let mut f: usize = 0;
    while f < frames
        invariant
            nplanes == planes@.len(),
            nplanes > 0,
            n == nplanes,
            frames == planes@[0]@.len(),
            views == planes@.map_values(|p: Vec<T>| p@),
            forall|c: int| 0 <= c < planes@.len() ==> (#[trigger] planes@[c])@.len() == frames,
            start.len() + frames * nplanes <= usize::MAX,
            f <= frames,
            out@.len() == start.len() + f * n,
            forall|i: int| 0 <= i < start.len() ==> #[trigger] out@[i] == start[i],
            forall|i: int|
                0 <= i < f * n ==> #[trigger] out@[start.len() + i] == views[i % n][i / n],
        decreases frames - f,
    {
        let mut c: usize = 0;
        proof {
            assert((f + 1) * n == f * n + n) by (nonlinear_arith);
            assert(f * n + n <= frames * n) by (nonlinear_arith)
                requires
                    f < frames,
                    n > 0,
            ;
        }
        while c < nplanes
            invariant
                nplanes == planes@.len(),
                nplanes > 0,
                n == nplanes,
                views == planes@.map_values(|p: Vec<T>| p@),
                forall|c: int| 0 <= c < planes@.len() ==> (#[trigger] planes@[c])@.len() == frames,
                f < frames,
                c <= nplanes,
                start.len() + f * n + n <= usize::MAX,
                out@.len() == start.len() + f * n + c,
                forall|i: int| 0 <= i < start.len() ==> #[trigger] out@[i] == start[i],
                forall|i: int|
                    0 <= i < f * n + c ==> #[trigger] out@[start.len() + i] == views[i % n][i / n],
            decreases nplanes - c,
        {
            proof {
                lemma_interleaved_position(f as int, c as int, n);
            }
            out.push(planes[c][f]);
            c = c + 1;
        }
        f = f + 1;
    }
    proof {
        let total = interleaved(views, frames as nat);
        assert(total.len() == frames * n);
        assert(out@ =~= start + total) by {
            assert forall|i: int| 0 <= i < out@.len() implies #[trigger] out@[i] == (start
                + total)[i] by {
                if i >= start.len() {
                    assert(out@[start.len() + (i - start.len())] == views[(i - start.len())
                        % n][(i - start.len()) / n]);
                }
            }
        }
    }
}

} // verus!
