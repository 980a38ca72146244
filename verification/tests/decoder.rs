use wavforge::audio::decoder::{
    interleave_planes, packet_action, select_track, DecodeError, PacketAction, PacketRead,
    TrackInfo,
};

fn track(id: u32, has_codec: bool, rate: Option<u32>, channels: Option<usize>) -> TrackInfo {
    TrackInfo { id, has_codec, sample_rate: rate, channels }
}

#[test]
fn error_messages() {
    let cases = vec![
        (DecodeError::Open("gone".to_string()), "Cannot open file: gone"),
        (DecodeError::UnsupportedFormat("x".to_string()), "Unsupported format: x"),
        (DecodeError::NoAudioTrack, "No audio track found"),
        (DecodeError::UnknownSampleRate, "Unknown sample rate"),
        (DecodeError::UnknownChannelCount, "Unknown channel count"),
        (DecodeError::DecoderCreation("y".to_string()), "Failed to create decoder: y"),
        (DecodeError::Packet("z".to_string()), "Packet error: z"),
        (DecodeError::Decode("w".to_string()), "Decode error: w"),
    ];
    for (e, msg) in cases {
        assert_eq!(e.message(), msg.to_string());
    }
}

#[test]
fn select_first_audio_track() {
    let tracks = vec![
        track(7, false, Some(8000), Some(1)),
        track(3, true, Some(44100), Some(2)),
        track(4, true, Some(48000), Some(1)),
    ];
    let c = select_track(&tracks).ok().unwrap();
    assert_eq!(c.index, 1);
    assert_eq!(c.track_id, 3);
    assert_eq!(c.sample_rate, 44100);
    assert_eq!(c.channels, 2);
}

#[test]
fn select_track_errors() {
    assert!(matches!(select_track(&vec![]), Err(DecodeError::NoAudioTrack)));
    assert!(matches!(
        select_track(&vec![track(1, false, Some(1), Some(1))]),
        Err(DecodeError::NoAudioTrack)
    ));
    assert!(matches!(
        select_track(&vec![track(1, true, None, Some(2)), track(2, true, Some(1), Some(1))]),
        Err(DecodeError::UnknownSampleRate)
    ));
    assert!(matches!(
        select_track(&vec![track(1, true, Some(44100), None)]),
        Err(DecodeError::UnknownChannelCount)
    ));
}

#[test]
fn packet_actions() {
    assert!(matches!(packet_action(PacketRead::Packet { track_id: 2 }, 2), Ok(PacketAction::Decode)));
    assert!(matches!(packet_action(PacketRead::Packet { track_id: 5 }, 2), Ok(PacketAction::Skip)));
    assert!(matches!(packet_action(PacketRead::EndOfStream, 2), Ok(PacketAction::Finish)));
    assert!(matches!(packet_action(PacketRead::ResetRequired, 2), Ok(PacketAction::Finish)));
    match packet_action(PacketRead::Failed("bad".to_string()), 2) {
        Err(e) => assert_eq!(e.message(), "Packet error: bad".to_string()),
        Ok(_) => panic!("expected an error"),
    }
}

#[test]
fn interleave_stereo_planes() {
    let planes = vec![vec![1, 2, 3], vec![10, 20, 30]];
    let mut out = vec![0];
    interleave_planes(&planes, &mut out);
    assert_eq!(out, vec![0, 1, 10, 2, 20, 3, 30]);
}

#[test]
fn interleave_mono_and_empty() {
    let mut out: Vec<u8> = Vec::new();
    interleave_planes(&vec![vec![4u8, 5, 6]], &mut out);
    assert_eq!(out, vec![4, 5, 6]);
    interleave_planes(&Vec::<Vec<u8>>::new(), &mut out);
    assert_eq!(out, vec![4, 5, 6]);
    interleave_planes(&vec![Vec::<u8>::new(), Vec::new()], &mut out);
    assert_eq!(out, vec![4, 5, 6]);
}
