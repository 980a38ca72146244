use wavforge::audio::engine::{command_channel, send_outcome, AudioEngine, EngineCommand, PlaybackState};

fn play_cmd(samples: Vec<i32>) -> EngineCommand<i32> {
    EngineCommand::Play { samples, sample_rate: 44100, channels: 2 }
}

#[test]
fn empty_state_is_stopped() {
    let st: PlaybackState<i32> = PlaybackState::empty();
    assert!(st.samples().is_empty());
    assert_eq!(st.cursor(), 0);
    assert!(!st.is_playing());
}

#[test]
fn play_loads_and_starts_from_cursor() {
    let mut st = PlaybackState::empty();
    st.apply_command(play_cmd(vec![1, 2, 3, 4]));
    assert_eq!(st.samples(), &vec![1, 2, 3, 4]);
    assert_eq!(st.cursor(), 0);
    assert!(st.is_playing());
}

#[test]
fn fill_copies_frames_while_playing() {
    let mut st = PlaybackState::empty();
    st.apply_command(play_cmd(vec![1, 2, 3, 4, 5, 6, 7, 8]));
    let mut out = [0i32; 4];
    st.fill_output(&mut out, 2, 0);
    assert_eq!(out, [1, 2, 3, 4]);
    assert_eq!(st.cursor(), 4);
    assert!(st.is_playing());
    st.fill_output(&mut out, 2, 0);
    assert_eq!(out, [5, 6, 7, 8]);
    assert_eq!(st.cursor(), 8);
    // every frame was played: playback stops only on the next fill
    assert!(st.is_playing());
    st.fill_output(&mut out, 2, -1);
    assert_eq!(out, [-1, -1, -1, -1]);
    assert!(!st.is_playing());
    assert_eq!(st.cursor(), 8);
}

#[test]
fn fill_pads_with_silence_at_end_of_samples() {
    let mut st = PlaybackState::empty();
    st.apply_command(play_cmd(vec![1, 2, 3, 4]));
    let mut out = [9i32; 6];
    st.fill_output(&mut out, 2, 0);
    assert_eq!(out, [1, 2, 3, 4, 0, 0]);
    assert_eq!(st.cursor(), 4);
    assert!(!st.is_playing());
}

#[test]
fn fill_keeps_playing_on_a_partial_tail_frame() {
    // three samples in stereo: the last sample never makes a whole frame
    let mut st = PlaybackState::empty();
    st.apply_command(play_cmd(vec![1, 2, 3]));
    let mut out = [9i32; 4];
    st.fill_output(&mut out, 2, 0);
    assert_eq!(out, [1, 2, 0, 0]);
    assert_eq!(st.cursor(), 2);
    assert!(st.is_playing());
}

#[test]
fn fill_plays_a_partial_last_output_frame() {
    let mut st = PlaybackState::empty();
    st.apply_command(play_cmd(vec![1, 2, 3, 4, 5, 6]));
    let mut out = [0i32; 3];
    st.fill_output(&mut out, 2, 0);
    assert_eq!(out, [1, 2, 3]);
    assert_eq!(st.cursor(), 4);
    assert!(st.is_playing());
}

#[test]
fn pause_holds_position_and_play_resumes() {
    let mut st = PlaybackState::empty();
    st.apply_command(play_cmd(vec![1, 2, 3, 4, 5, 6]));
    let mut out = [0i32; 2];
    st.fill_output(&mut out, 2, 0);
    st.apply_command(EngineCommand::Pause);
    assert!(!st.is_playing());
    assert_eq!(st.cursor(), 2);
    st.fill_output(&mut out, 2, 0);
    assert_eq!(out, [0, 0]);
    assert_eq!(st.cursor(), 2);
    st.apply_command(play_cmd(vec![1, 2, 3, 4, 5, 6]));
    st.fill_output(&mut out, 2, 0);
    assert_eq!(out, [3, 4]);
    assert_eq!(st.cursor(), 4);
}

#[test]
fn stop_resets_and_clears() {
    let mut st = PlaybackState::empty();
    st.apply_command(play_cmd(vec![1, 2, 3, 4]));
    let mut out = [0i32; 2];
    st.fill_output(&mut out, 2, 0);
    st.apply_command(EngineCommand::Stop);
    assert_eq!(st.cursor(), 0);
    assert!(st.samples().is_empty());
    assert!(!st.is_playing());
    st.fill_output(&mut out, 2, 7);
    assert_eq!(out, [7, 7]);
}

#[test]
fn play_past_the_end_of_shorter_samples_is_silent() {
    let mut st = PlaybackState::empty();
    st.apply_command(play_cmd(vec![1, 2, 3, 4, 5, 6]));
    let mut out = [0i32; 4];
    st.fill_output(&mut out, 1, 0);
    assert_eq!(st.cursor(), 4);
    st.apply_command(play_cmd(vec![1, 2]));
    st.fill_output(&mut out, 1, 0);
    assert_eq!(out, [0, 0, 0, 0]);
    assert!(!st.is_playing());
    assert_eq!(st.cursor(), 4);
}

#[test]
fn split_fill_matches_whole_fill() {
    let samples: Vec<i32> = (1..=9).collect();
    let mut a = PlaybackState::empty();
    a.apply_command(play_cmd(samples.clone()));
    let mut b = PlaybackState::empty();
    b.apply_command(play_cmd(samples));
    let mut whole = [0i32; 10];
    a.fill_output(&mut whole, 2, 0);
    let mut first = [0i32; 4];
    let mut second = [0i32; 6];
    b.fill_output(&mut first, 2, 0);
    b.fill_output(&mut second, 2, 0);
    let mut joined = first.to_vec();
    joined.extend_from_slice(&second);
    assert_eq!(joined, whole.to_vec());
    assert_eq!(a.cursor(), b.cursor());
    assert_eq!(a.is_playing(), b.is_playing());
    assert_eq!(whole, [1, 2, 3, 4, 5, 6, 7, 8, 0, 0]);
}

#[test]
fn send_outcome_maps_failure_to_message() {
    assert_eq!(send_outcome::<i32>(Ok(())), Ok(()));
    assert_eq!(
        send_outcome::<i32>(Err(EngineCommand::Pause)),
        Err("Audio engine disconnected".to_string())
    );
}

#[test]
fn connected_engine_delivers_commands() {
    let (tx, mut rx) = command_channel::<i32>();
    let mut engine: AudioEngine<i32, ()> = AudioEngine::new(Ok((tx, ())));
    assert!(engine.is_active());
    assert_eq!(engine.send(play_cmd(vec![5, 6])), Ok(()));
    match rx.try_receive() {
        Some(EngineCommand::Play { samples, sample_rate, channels }) => {
            assert_eq!(samples, vec![5, 6]);
            assert_eq!(sample_rate, 44100);
            assert_eq!(channels, 2);
        }
        _ => panic!("expected a Play command"),
    }
}

#[test]
fn engine_without_device_accepts_commands() {
    let mut engine: AudioEngine<i32, ()> = AudioEngine::new(Err("no device".to_string()));
    assert!(!engine.is_active());
    assert_eq!(engine.send(EngineCommand::Stop), Ok(()));
    assert_eq!(engine.send(play_cmd(vec![1])), Ok(()));
}

#[test]
fn engine_with_dropped_receiver_reports_disconnection() {
    let (tx, rx) = command_channel::<i32>();
    drop(rx);
    let mut engine: AudioEngine<i32, ()> = AudioEngine::new(Ok((tx, ())));
    assert_eq!(
        engine.send(EngineCommand::Pause),
        Err("Audio engine disconnected".to_string())
    );
}

#[test]
fn take_commands_applies_waiting_commands_in_order() {
    let (tx, mut rx) = command_channel::<i32>();
    let mut engine: AudioEngine<i32, ()> = AudioEngine::new(Ok((tx, ())));
    let mut st = PlaybackState::empty();
    st.take_commands(&mut rx);
    assert!(!st.is_playing());
    engine.send(play_cmd(vec![1, 2, 3, 4])).unwrap();
    let mut out = [0i32; 2];
    st.take_commands(&mut rx);
    st.fill_output(&mut out, 2, 0);
    assert_eq!(out, [1, 2]);
    engine.send(EngineCommand::Pause).unwrap();
    engine.send(EngineCommand::Stop).unwrap();
    st.take_commands(&mut rx);
    assert_eq!(st.cursor(), 0);
    assert!(!st.is_playing());
    assert!(st.samples().is_empty());
    assert!(rx.try_receive().is_none());
}

#[test]
fn take_commands_with_no_sender_left() {
    let (tx, mut rx) = command_channel::<i32>();
    drop(tx);
    let mut st: PlaybackState<i32> = PlaybackState::empty();
    st.take_commands(&mut rx);
    assert!(!st.is_playing());
}

#[test]
fn play_from_start_through_several_buffers() {
    // five samples in stereo: two whole frames, then silence
    let mut st = PlaybackState::empty();
    st.apply_command(EngineCommand::Stop);
    st.apply_command(play_cmd(vec![1, 2, 3, 4, 5]));
    let mut all = Vec::new();
    for size in [2usize, 2, 4, 3] {
        let mut out = vec![9i32; size];
        st.fill_output(&mut out, 2, 0);
        all.extend_from_slice(&out);
    }
    assert_eq!(all, vec![1, 2, 3, 4, 0, 0, 0, 0, 0, 0, 0]);
}

#[test]
fn cursor_stays_on_frame_boundaries() {
    let mut st = PlaybackState::empty();
    st.apply_command(play_cmd((0..10).collect()));
    let mut out = [0i32; 3];
    for _ in 0..5 {
        st.fill_output(&mut out, 2, 0);
        assert_eq!(st.cursor() % 2, 0);
        assert!(st.cursor() <= st.samples().len());
    }
    st.apply_command(EngineCommand::Pause);
    assert_eq!(st.cursor() % 2, 0);
}

#[test]
fn fill_reports_the_end_of_playback() {
    let mut st = PlaybackState::empty();
    st.apply_command(play_cmd(vec![1, 2]));
    let mut out = [0i32; 2];
    assert!(!st.fill_output(&mut out, 2, 0));
    assert!(st.fill_output(&mut out, 2, 0));
    assert!(!st.fill_output(&mut out, 2, 0));
    st.apply_command(EngineCommand::Pause);
    assert!(!st.fill_output(&mut out, 2, 0));
}
