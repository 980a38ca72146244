use wavforge::app::WavForgeApp;
use wavforge::audio::engine::{command_channel, AudioEngine, CommandReceiver, EngineCommand};

type App = WavForgeApp<i16, (), String>;

fn connected() -> (App, CommandReceiver<i16>) {
    let (tx, rx) = command_channel::<i16>();
    (WavForgeApp::new(AudioEngine::new(Ok((tx, ())))), rx)
}

fn without_device() -> App {
    WavForgeApp::new(AudioEngine::new(Err("no output device".to_string())))
}

fn disconnected() -> App {
    let (tx, rx) = command_channel::<i16>();
    drop(rx);
    WavForgeApp::new(AudioEngine::new(Ok((tx, ()))))
}

#[test]
fn new_editor_has_no_file() {
    let app = without_device();
    assert!(app.samples().is_none());
    assert_eq!(app.sample_rate(), 44100);
    assert_eq!(app.channels(), 1);
    assert!(app.file_path().is_none());
    assert!(!app.is_playing());
    assert!(app.error().is_none());
    assert!(!app.can_play());
    assert!(!app.can_pause());
    assert!(!app.can_stop());
    assert_eq!(app.frames(), None);
    assert!(!app.engine().is_active());
}

#[test]
fn opening_a_file_loads_it_and_stops_playback() {
    let (mut app, mut rx) = connected();
    app.open_file("song.wav".to_string(), Ok((vec![1, 2, 3, 4, 5, 6], 48000, 2)));
    assert_eq!(app.samples(), Some(&vec![1, 2, 3, 4, 5, 6]));
    assert_eq!(app.sample_rate(), 48000);
    assert_eq!(app.channels(), 2);
    assert_eq!(app.file_path(), Some(&"song.wav".to_string()));
    assert!(!app.is_playing());
    assert!(app.error().is_none());
    assert_eq!(app.frames(), Some(3));
    assert!(matches!(rx.try_receive(), Some(EngineCommand::Stop)));
    assert!(app.can_play());
    assert!(!app.can_pause());
    assert!(app.can_stop());
}

#[test]
fn failing_to_open_only_sets_the_error() {
    let (mut app, _rx) = connected();
    app.open_file("a.wav".to_string(), Ok((vec![1, 2], 22050, 1)));
    app.open_file("b.wav".to_string(), Err("Unsupported format: unknown".to_string()));
    assert_eq!(
        app.error(),
        Some(&"Failed to open file: Unsupported format: unknown".to_string())
    );
    assert_eq!(app.file_path(), Some(&"a.wav".to_string()));
    assert_eq!(app.samples(), Some(&vec![1, 2]));
    assert_eq!(app.sample_rate(), 22050);
}

#[test]
fn play_sends_a_copy_of_the_samples() {
    let (mut app, mut rx) = connected();
    app.open_file("a.wav".to_string(), Ok((vec![7, 8, 9, 10], 44100, 2)));
    let _ = rx.try_receive();
    app.play();
    assert!(app.is_playing());
    assert!(app.error().is_none());
    match rx.try_receive() {
        Some(EngineCommand::Play { samples, sample_rate, channels }) => {
            assert_eq!(samples, vec![7, 8, 9, 10]);
            assert_eq!(sample_rate, 44100);
            assert_eq!(channels, 2);
        }
        _ => panic!("expected a Play command"),
    }
    assert!(!app.can_play());
    assert!(app.can_pause());
}

#[test]
fn play_without_a_file_does_nothing() {
    let (mut app, mut rx) = connected();
    app.play();
    assert!(!app.is_playing());
    assert!(rx.try_receive().is_none());
}

#[test]
fn play_on_a_disconnected_engine_reports_the_error() {
    let mut app = disconnected();
    app.open_file("a.wav".to_string(), Ok((vec![1, 2], 44100, 1)));
    app.play();
    assert!(!app.is_playing());
    assert_eq!(
        app.error(),
        Some(&"Playback error: Audio engine disconnected".to_string())
    );
}

#[test]
fn pause_and_stop_mark_playback_stopped() {
    let (mut app, mut rx) = connected();
    app.open_file("a.wav".to_string(), Ok((vec![1, 2], 44100, 1)));
    app.play();
    app.pause();
    assert!(!app.is_playing());
    app.play();
    app.stop();
    assert!(!app.is_playing());
    let mut kinds = Vec::new();
    while let Some(cmd) = rx.try_receive() {
        kinds.push(match cmd {
            EngineCommand::Play { .. } => "play",
            EngineCommand::Pause => "pause",
            EngineCommand::Stop => "stop",
        });
    }
    assert_eq!(kinds, vec!["stop", "play", "pause", "play", "stop"]);
}

#[test]
fn transport_buttons_follow_the_state() {
    let (mut app, _rx) = connected();
    app.open_file("a.wav".to_string(), Ok((vec![1, 2], 44100, 1)));
    for _ in 0..2 {
        assert!(!(app.can_play() && app.can_pause()));
        app.play();
        assert!(!(app.can_play() && app.can_pause()));
        assert!(app.can_stop());
        app.stop();
    }
}

#[test]
fn play_without_a_device_is_accepted() {
    let mut app = without_device();
    app.open_file("a.wav".to_string(), Ok((vec![1, 2], 44100, 1)));
    app.play();
    assert!(app.is_playing());
    assert!(app.error().is_none());
}

#[test]
fn play_command_copies_the_open_file() {
    let (mut app, _rx) = connected();
    assert!(app.play_command().is_none());
    app.open_file("a.wav".to_string(), Ok((vec![3, 4, 5, 6], 8000, 2)));
    match app.play_command() {
        Some(EngineCommand::Play { samples, sample_rate, channels }) => {
            assert_eq!(samples, vec![3, 4, 5, 6]);
            assert_eq!(sample_rate, 8000);
            assert_eq!(channels, 2);
        }
        _ => panic!("expected a Play command"),
    }
}

#[test]
fn after_send_marks_playing_or_reports() {
    let (mut app, _rx) = connected();
    app.open_file("a.wav".to_string(), Ok((vec![1], 8000, 1)));
    app.after_send(Err("gone".to_string()));
    assert!(!app.is_playing());
    assert_eq!(app.error(), Some(&"Playback error: gone".to_string()));
    app.after_send(Ok(()));
    assert!(app.is_playing());
    assert_eq!(app.error(), Some(&"Playback error: gone".to_string()));
}

#[test]
fn failed_open_sends_nothing() {
    let (mut app, mut rx) = connected();
    app.open_file("a.wav".to_string(), Err("broken".to_string()));
    assert!(rx.try_receive().is_none());
}

#[test]
fn playback_ended_marks_stopped_without_sending() {
    let (mut app, mut rx) = connected();
    app.open_file("a.wav".to_string(), Ok((vec![1, 2], 44100, 1)));
    app.play();
    while rx.try_receive().is_some() {}
    app.playback_ended();
    assert!(!app.is_playing());
    assert!(app.can_play());
    assert!(app.samples().is_some());
    assert!(rx.try_receive().is_none());
}
