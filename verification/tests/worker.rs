use ncspot_core::worker::{
    after_load, before_waiting, handle_command, on_command, open, CommandStep, Notice,
    PendingLoad, PlayerMessage, PlayerStatus, Worker, WorkerAction, WorkerCommand,
};

const TRACK: &str = "spotify:track:4uLU6hMCjMI75M1A2tKUQC";
const ALBUM: &str = "spotify:album:4uLU6hMCjMI75M1A2tKUQC";

fn load(uri: &str, position_ms: u32) -> PendingLoad {
    PendingLoad {
        uri: uri.to_string(),
        start_playing: true,
        position_ms,
    }
}

fn position_of(action: &WorkerAction) -> Option<u32> {
    match action {
        WorkerAction::Load { position_ms, .. } => Some(*position_ms),
        _ => None,
    }
}

#[test]
fn tracks_are_loaded() {
    match open(&load(TRACK, 1500)) {
        WorkerAction::Load {
            uri,
            start_playing,
            position_ms,
        } => {
            assert_eq!(uri.to_uri().unwrap(), TRACK);
            assert!(start_playing);
            assert_eq!(position_ms, 1500);
        }
        _ => panic!("a track can be played"),
    }
}

#[test]
fn what_cannot_be_played_counts_as_finished() {
    assert!(matches!(
        open(&load(ALBUM, 0)),
        WorkerAction::Send(Notice::FinishedTrack)
    ));
    assert!(matches!(
        open(&load("no uri", 0)),
        WorkerAction::Send(Notice::FinishedTrack)
    ));
    assert!(matches!(
        open(&load("", 0)),
        WorkerAction::Send(Notice::FinishedTrack)
    ));
}

#[test]
fn commands_become_actions() {
    assert!(matches!(
        handle_command(WorkerCommand::Play)[..],
        [WorkerAction::Play]
    ));
    assert!(matches!(
        handle_command(WorkerCommand::Seek(7))[..],
        [WorkerAction::Seek(7)]
    ));
    assert!(matches!(
        handle_command(WorkerCommand::SetVolume(65535))[..],
        [WorkerAction::SetVolume(65535)]
    ));
    assert!(matches!(
        handle_command(WorkerCommand::Shutdown)[..],
        [WorkerAction::Stop, WorkerAction::ShutDownSession]
    ));
    match &handle_command(WorkerCommand::Preload(TRACK.into()))[..] {
        [WorkerAction::Preload(uri)] => assert_eq!(uri.to_uri().unwrap(), TRACK),
        _ => panic!("a track can be preloaded"),
    }
    assert!(handle_command(WorkerCommand::Preload("spotify".into())).is_empty());
}

#[test]
fn the_last_of_queued_loads_is_performed() {
    let step = on_command(Some(WorkerCommand::Load(load(TRACK, 1))));
    let CommandStep::Coalesce(pending) = step else {
        panic!("a load waits for others");
    };
    let step = after_load(pending, Some(WorkerCommand::Load(load(TRACK, 2))));
    let CommandStep::Coalesce(pending) = step else {
        panic!("a load waits for others");
    };
    assert_eq!(pending.position_ms, 2);
    match after_load(pending, None) {
        CommandStep::Perform(actions) => {
            assert_eq!(actions.len(), 1);
            assert_eq!(position_of(&actions[0]), Some(2));
        }
        CommandStep::Coalesce(_) => panic!("nothing is queued"),
    }
}

#[test]
fn another_command_ends_the_wait() {
    match after_load(load(TRACK, 3), Some(WorkerCommand::Pause)) {
        CommandStep::Perform(actions) => {
            assert_eq!(actions.len(), 2);
            assert!(matches!(actions[0], WorkerAction::Pause));
            assert_eq!(position_of(&actions[1]), Some(3));
        }
        CommandStep::Coalesce(_) => panic!("the wait is over"),
    }
    match on_command(None) {
        CommandStep::Perform(actions) => assert!(actions.is_empty()),
        CommandStep::Coalesce(_) => panic!("there is nothing to load"),
    }
    match on_command(Some(WorkerCommand::Stop)) {
        CommandStep::Perform(actions) => assert!(matches!(actions[..], [WorkerAction::Stop])),
        CommandStep::Coalesce(_) => panic!("there is nothing to load"),
    }
}

#[test]
fn stale_ends_are_ignored() {
    let mut worker = Worker::new();
    let end = |id| Some(PlayerMessage::EndOfTrack { play_request_id: id });
    assert!(worker.on_player_event(end(1)).is_none());
    assert!(worker
        .on_player_event(Some(PlayerMessage::PlayRequestIdChanged { play_request_id: 2 }))
        .is_none());
    assert!(worker.on_player_event(end(1)).is_none());
    assert!(matches!(
        worker.on_player_event(end(2)),
        Some(WorkerAction::Send(Notice::FinishedTrack))
    ));
    let preload = |id| Some(PlayerMessage::TimeToPreloadNextTrack { play_request_id: id });
    assert!(worker.on_player_event(preload(1)).is_none());
    assert!(matches!(
        worker.on_player_event(preload(2)),
        Some(WorkerAction::Send(Notice::PreloadTrackRequest))
    ));
}

#[test]
fn a_seek_tells_what_the_player_does() {
    let mut worker = Worker::new();
    let seek = Some(PlayerMessage::Seeked { position_ms: 9 });
    assert!(matches!(
        worker.on_player_event(seek),
        Some(WorkerAction::Send(Notice::Stopped))
    ));
    worker.on_player_event(Some(PlayerMessage::Playing { position_ms: 1 }));
    assert_eq!(worker.player_status, PlayerStatus::Playing);
    assert!(matches!(
        worker.on_player_event(seek),
        Some(WorkerAction::Send(Notice::Playing(9)))
    ));
    worker.on_player_event(Some(PlayerMessage::Paused { position_ms: 1 }));
    assert!(matches!(
        worker.on_player_event(seek),
        Some(WorkerAction::Send(Notice::Paused(9)))
    ));
    worker.on_player_event(Some(PlayerMessage::Stopped));
    assert!(matches!(
        worker.on_player_event(seek),
        Some(WorkerAction::Send(Notice::Stopped))
    ));
    assert!(worker.on_player_event(Some(PlayerMessage::Other)).is_none());
}

#[test]
fn ticks_redraw_only_while_playing() {
    let mut worker = Worker::new();
    assert!(worker.on_tick().is_none());
    worker.on_player_event(Some(PlayerMessage::Playing { position_ms: 0 }));
    assert!(matches!(worker.on_tick(), Some(WorkerAction::Trigger)));
    worker.on_player_event(Some(PlayerMessage::Paused { position_ms: 0 }));
    assert!(worker.on_tick().is_none());
}

#[test]
fn the_worker_ends_with_its_session_or_its_player() {
    assert!(before_waiting(false).is_empty());
    assert!(matches!(
        before_waiting(true)[..],
        [WorkerAction::Send(Notice::Stopped), WorkerAction::Terminate]
    ));
    assert!(matches!(
        Worker::new().on_player_event(None),
        Some(WorkerAction::Terminate)
    ));
}
