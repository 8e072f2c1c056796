use nxm_music::{
    ControllerMsg, FxIndexMap, MainPreloaderMsg, MainStreamMsg, OutputSlot, PreloaderMainMsg, State,
    StateError,
    StreamCommand, StreamMainMsg, Track, TrackId, TrackMsg, TrackPreloaderState, UserMainMsg,
};

fn library(ids: &[TrackId]) -> FxIndexMap<TrackId, Track> {
    let mut m: FxIndexMap<TrackId, Track> = FxIndexMap::default();
    for &id in ids {
        m.insert(
            id,
            Track {
                id,
                artist: String::new(),
                title: String::new(),
                filepath: format!("/music/{id}.ogg"),
            },
        );
    }
    m
}

fn requested(rx: &crossbeam_channel::Receiver<MainPreloaderMsg>) -> Vec<(TrackId, String)> {
    rx.try_iter()
        .map(|m| match m {
            MainPreloaderMsg::PreloadTrack { id, src } => (id, src),
        })
        .collect()
}

#[test]
fn play_pause_requests_current_track() {
    let (tx, rx) = crossbeam_channel::unbounded();
    let mut state = State::new(library(&[1, 2, 3]), tx);
    assert_eq!(state.handle_play_pause(), Ok(()));
    assert_eq!(state.curr_slot(), TrackPreloaderState::Preloading(1));
    assert_eq!(requested(&rx), vec![(1, "/music/1.ogg".to_string())]);
    // Already preloading: no second request.
    assert_eq!(state.handle_play_pause(), Ok(()));
    assert!(requested(&rx).is_empty());
}

#[test]
fn completion_for_other_track_leaves_slot() {
    let (tx, rx) = crossbeam_channel::unbounded();
    let mut state = State::new(library(&[1, 2, 3]), tx);
    state.handle_play_pause().unwrap();
    requested(&rx);
    let (cmd, res) = state.handle_preloader_main_msg(PreloaderMainMsg::PreloadedTrack {
        id: 2,
        stream: "stream-2",
    });
    assert!(matches!(cmd, StreamCommand::Nothing));
    assert_eq!(res, Ok(()));
    assert_eq!(state.curr_slot(), TrackPreloaderState::Preloading(1));
    assert_eq!(state.next_slot(), TrackPreloaderState::NotPreloaded);
    assert!(requested(&rx).is_empty());
}

#[test]
fn completion_for_current_starts_and_looks_ahead() {
    let (tx, rx) = crossbeam_channel::unbounded();
    let mut state = State::new(library(&[1, 2, 3]), tx);
    state.handle_play_pause().unwrap();
    requested(&rx);
    let (cmd, res) = state.handle_preloader_main_msg(PreloaderMainMsg::PreloadedTrack {
        id: 1,
        stream: "stream-1",
    });
    match cmd {
        StreamCommand::Start { id, stream } => {
            assert_eq!(id, 1);
            assert_eq!(stream, "stream-1");
        }
        _ => panic!("expected a start command"),
    }
    assert_eq!(res, Ok(()));
    assert_eq!(state.curr_slot(), TrackPreloaderState::Preloaded(1));
    assert_eq!(state.next_slot(), TrackPreloaderState::Preloading(2));
    assert_eq!(requested(&rx), vec![(2, "/music/2.ogg".to_string())]);

    // The look-ahead completes: advisory only.
    let (cmd, res) = state.handle_preloader_main_msg(PreloaderMainMsg::PreloadedTrack {
        id: 2,
        stream: "stream-2",
    });
    assert!(matches!(cmd, StreamCommand::Nothing));
    assert_eq!(res, Ok(()));
    assert_eq!(state.next_slot(), TrackPreloaderState::Preloaded(2));
    assert_eq!(state.curr_slot(), TrackPreloaderState::Preloaded(1));
}

#[test]
fn next_promotes_lookahead_in_flight() {
    let (tx, rx) = crossbeam_channel::unbounded();
    let mut state = State::new(library(&[1, 2, 3]), tx);
    state.handle_play_pause().unwrap();
    state
        .handle_preloader_main_msg(PreloaderMainMsg::PreloadedTrack { id: 1, stream: () })
        .1
        .unwrap();
    requested(&rx);
    assert_eq!(state.next_slot(), TrackPreloaderState::Preloading(2));
    assert_eq!(state.handle_play_next(), Ok(()));
    assert_eq!(state.curr_slot(), TrackPreloaderState::Preloading(2));
    assert_eq!(state.next_slot(), TrackPreloaderState::NotPreloaded);
    // No redundant request for track 2.
    assert!(requested(&rx).is_empty());
}

#[test]
fn next_without_lookahead_requests_new_current() {
    let (tx, rx) = crossbeam_channel::unbounded();
    let mut state = State::new(library(&[1, 2, 3]), tx);
    assert_eq!(state.handle_play_next(), Ok(()));
    assert_eq!(state.curr_slot(), TrackPreloaderState::Preloading(2));
    assert_eq!(requested(&rx), vec![(2, "/music/2.ogg".to_string())]);
    assert_eq!(state.queue().track_at(1), Some(2));
}

#[test]
fn next_while_playing_switches_track() {
    let (tx, rx) = crossbeam_channel::unbounded();
    let mut state = State::new(library(&[1, 2, 3]), tx);
    state.handle_play_pause().unwrap();
    state.handle_preloader_main_msg(PreloaderMainMsg::PreloadedTrack { id: 1, stream: () });
    // The look-ahead for 2 completed before "next".
    state.handle_preloader_main_msg(PreloaderMainMsg::PreloadedTrack { id: 2, stream: () });
    requested(&rx);
    assert_eq!(state.handle_play_next(), Ok(()));
    assert_eq!(state.curr_slot(), TrackPreloaderState::Preloading(2));
    assert_eq!(requested(&rx), vec![(2, "/music/2.ogg".to_string())]);
}

#[test]
fn next_on_empty_queue_does_nothing() {
    let (tx, rx) = crossbeam_channel::unbounded();
    let mut state = State::new(library(&[]), tx);
    assert_eq!(state.handle_play_next(), Ok(()));
    assert_eq!(state.handle_play_pause(), Ok(()));
    assert_eq!(state.curr_slot(), TrackPreloaderState::NotPreloaded);
    assert!(requested(&rx).is_empty());
}

#[test]
fn play_track_requests_when_nothing_preloaded() {
    let (tx, rx) = crossbeam_channel::unbounded();
    let mut state = State::new(library(&[1, 2, 3]), tx);
    assert_eq!(state.handle_track_msg(TrackMsg::Play(3)), Ok(()));
    assert_eq!(state.curr_slot(), TrackPreloaderState::Preloading(3));
    assert_eq!(requested(&rx), vec![(3, "/music/3.ogg".to_string())]);
}

#[test]
fn play_unknown_track_is_an_error() {
    let (tx, rx) = crossbeam_channel::unbounded();
    let mut state = State::new(library(&[1]), tx);
    assert_eq!(
        state.handle_track_msg(TrackMsg::Play(42)),
        Err(StateError::UnknownTrack(42))
    );
    assert_eq!(state.curr_slot(), TrackPreloaderState::NotPreloaded);
    assert!(requested(&rx).is_empty());
}

#[test]
fn gone_preloader_is_an_error() {
    let (tx, rx) = crossbeam_channel::unbounded();
    drop(rx);
    let mut state = State::new(library(&[1, 2]), tx);
    assert_eq!(state.handle_play_pause(), Err(StateError::PreloaderUnreachable));
    assert_eq!(state.curr_slot(), TrackPreloaderState::NotPreloaded);
}

#[test]
fn controller_messages_map_to_commands() {
    let (tx, rx) = crossbeam_channel::unbounded();
    let mut state = State::new(library(&[1, 2]), tx);
    let r: Result<StreamCommand<()>, StateError> =
        state.handle_user_main_msg(UserMainMsg::Controller(ControllerMsg::Seek(4410)));
    assert!(matches!(r, Ok(StreamCommand::Seek(4410))));
    let r: Result<StreamCommand<()>, StateError> =
        state.handle_controller_msg(ControllerMsg::PlayPrev);
    assert!(matches!(r, Ok(StreamCommand::Nothing)));
    let r: Result<StreamCommand<()>, StateError> =
        state.handle_user_main_msg(UserMainMsg::Controller(ControllerMsg::PlayPause));
    assert!(matches!(r, Ok(StreamCommand::Nothing)));
    assert_eq!(state.curr_slot(), TrackPreloaderState::Preloading(1));
    let r: Result<StreamCommand<()>, StateError> =
        state.handle_user_main_msg(UserMainMsg::Track(TrackMsg::Play(2)));
    assert!(matches!(r, Ok(StreamCommand::Nothing)));
    assert_eq!(state.curr_slot(), TrackPreloaderState::Preloading(2));
    assert_eq!(requested(&rx).len(), 2);
}

#[test]
fn stream_stopped_pauses() {
    let (tx, _rx) = crossbeam_channel::unbounded();
    let state = State::new(library(&[1]), tx);
    let cmd: StreamCommand<()> =
        state.handle_stream_main_msg(StreamMainMsg::StreamStopped(Some(Box::new(5u8))));
    assert!(matches!(cmd, StreamCommand::Pause));
    let cmd: StreamCommand<()> = state.handle_stream_stopped::<u8, ()>(None);
    assert!(matches!(cmd, StreamCommand::Pause));
    assert!(matches!(state.handle_pause::<()>(), StreamCommand::Pause));
    assert!(matches!(state.handle_resume::<()>(), StreamCommand::Nothing));
    assert!(matches!(state.handle_seek::<()>(7), StreamCommand::Seek(7)));
}

#[test]
fn output_slot_installs_replaces_and_stops() {
    let mut slot: OutputSlot<u32> = OutputSlot::new();
    assert!(!slot.has_processor());
    // A seek with nothing installed is dropped.
    assert_eq!(slot.apply(MainStreamMsg::Seek(10)), None);
    assert_eq!(slot.apply(MainStreamMsg::NewProcessor(Box::new(1))), None);
    assert_eq!(slot.apply(MainStreamMsg::NewProcessor(Box::new(2))), None);
    assert_eq!(slot.apply(MainStreamMsg::Seek(10)), Some(10));
    // Paused: nothing to process, the processor stays.
    assert!(slot.take_for_playback(false).is_none());
    assert!(slot.has_processor());
    let p = slot.take_for_playback(true).unwrap();
    assert_eq!(*p, 2);
    assert!(!slot.has_processor());
    slot.restore(p);
    let p = slot.take_for_playback(true).unwrap();
    match OutputSlot::stopped(p) {
        StreamMainMsg::StreamStopped(Some(b)) => assert_eq!(*b, 2),
        _ => panic!("expected the processor back"),
    }
    assert!(!slot.has_processor());
}

#[test]
fn preload_request_carries_id_and_path() {
    let (tx, rx) = crossbeam_channel::unbounded();
    let state = State::new(library(&[5, 6]), tx);
    match state.preload_request(6) {
        Ok(MainPreloaderMsg::PreloadTrack { id, src }) => {
            assert_eq!(id, 6);
            assert_eq!(src, "/music/6.ogg");
        }
        _ => panic!("expected a request"),
    }
    assert!(matches!(state.preload_request(7), Err(StateError::UnknownTrack(7))));
    // Building a request sends nothing.
    assert!(requested(&rx).is_empty());
}
