use songcompare::player::{
    key_action, samples_per_update, Key, KeyAction, PlaybackAction, PlayerCommand, PlayerStatus, SEEK_SECONDS,
    UPDATE_MILLIS,
};

fn status(position: usize, total: usize) -> PlayerStatus {
    PlayerStatus { position_samples: position, total_samples: total, sample_rate: 48_000, is_playing: true, is_paused: false }
}

#[test]
fn player_status_clone_keeps_every_field() {
    let s = PlayerStatus { position_samples: 3, total_samples: 9, sample_rate: 44_100, is_playing: false, is_paused: true };
    assert_eq!(s.clone(), s);
}

#[test]
fn tick_advances_and_stops_at_the_end() {
    let mut s = status(0, 10);
    assert_eq!(s.tick(false, 4), PlaybackAction::Continue);
    assert_eq!(s.position_samples, 4);
    assert_eq!(s.tick(false, 4), PlaybackAction::Continue);
    assert_eq!(s.position_samples, 8);
    assert_eq!(s.tick(false, 4), PlaybackAction::Continue);
    assert_eq!(s.position_samples, 10);
    assert!(s.is_playing);
}

#[test]
fn tick_on_empty_output_finishes() {
    let mut s = status(4, 10);
    assert_eq!(s.tick(true, 4), PlaybackAction::Finished);
    assert_eq!(s.position_samples, 10);
    assert!(!s.is_playing);
}

#[test]
fn stop_command_leaves_the_status() {
    let mut s = status(4, 10);
    assert_eq!(s.handle_command(PlayerCommand::Stop), PlaybackAction::StopOutput);
    assert_eq!(s, status(4, 10));
}

#[test]
fn seek_is_clamped_to_the_track() {
    let mut s = status(4, 10);
    assert_eq!(s.handle_command(PlayerCommand::Seek(3)), PlaybackAction::SeekOutput(7));
    assert_eq!(s.handle_command(PlayerCommand::Seek(30)), PlaybackAction::SeekOutput(10));
    assert_eq!(s.handle_command(PlayerCommand::Seek(-6)), PlaybackAction::SeekOutput(4));
    assert_eq!(s.handle_command(PlayerCommand::Seek(i64::MIN)), PlaybackAction::SeekOutput(0));
    assert_eq!(s.handle_command(PlayerCommand::Seek(i64::MAX)), PlaybackAction::SeekOutput(10));
    assert_eq!(s.total_samples, 10);
}

#[test]
fn keys_map_to_actions() {
    assert_eq!(SEEK_SECONDS, 5);
    assert_eq!(key_action(Key::Escape, 48_000, 2), KeyAction::Exit);
    assert_eq!(key_action(Key::Left, 48_000, 2), KeyAction::Seek(-480_000));
    assert_eq!(key_action(Key::Right, 44_100, 1), KeyAction::Seek(220_500));
    assert_eq!(key_action(Key::Other, 44_100, 1), KeyAction::Ignore);
    assert_eq!(key_action(Key::Space, 44_100, 1), KeyAction::TogglePause);
    assert_eq!(key_action(Key::Up, 44_100, 1), KeyAction::NextTrack);
    assert_eq!(key_action(Key::Down, 44_100, 1), KeyAction::PreviousTrack);
    assert_eq!(key_action(Key::Enter, 44_100, 1), KeyAction::RandomTrack);
    assert_eq!(key_action(Key::Right, u32::MAX, usize::MAX), KeyAction::Seek(i64::MAX));
}

#[test]
fn seeking_back_undoes_a_seek_within_the_track() {
    let mut s = status(4, 100);
    s.handle_command(PlayerCommand::Seek(30));
    assert_eq!(s.handle_command(PlayerCommand::Seek(-30)), PlaybackAction::SeekOutput(4));
}

#[test]
fn new_status_starts_at_the_beginning() {
    assert_eq!(PlayerStatus::new(1000, 44_100), PlayerStatus {
        position_samples: 0,
        total_samples: 1000,
        sample_rate: 44_100,
        is_playing: true,
        is_paused: false,
    });
}

#[test]
fn one_update_is_a_tenth_of_a_second() {
    assert_eq!(UPDATE_MILLIS, 100);
    assert_eq!(samples_per_update(44_100, 2), 8_820);
    assert_eq!(samples_per_update(48_000, 1), 4_800);
    assert_eq!(samples_per_update(22_050, 2), 4_410);
    assert_eq!(samples_per_update(8, 2), 0);
}

#[test]
fn playback_runs_to_the_end_and_finishes() {
    let mut s = PlayerStatus::new(20_000, 44_100);
    let step = samples_per_update(44_100, 2);
    let mut positions = Vec::new();
    for _ in 0..3 {
        assert_eq!(s.tick(false, step), PlaybackAction::Continue);
        positions.push(s.position_samples);
    }
    assert_eq!(positions, vec![8_820, 17_640, 20_000]);
    assert_eq!(s.tick(true, step), PlaybackAction::Finished);
    assert_eq!(s.position_samples, 20_000);
    assert!(!s.is_playing);
}

#[test]
fn pause_holds_the_position() {
    let mut s = status(4, 100);
    assert_eq!(s.handle_command(PlayerCommand::TogglePause), PlaybackAction::PauseOutput);
    assert!(s.is_paused);
    assert_eq!(s.tick(false, 10), PlaybackAction::Continue);
    assert_eq!(s.position_samples, 4);
    assert_eq!(s.handle_command(PlayerCommand::TogglePause), PlaybackAction::ResumeOutput);
    assert!(!s.is_paused);
    assert_eq!(s.tick(false, 10), PlaybackAction::Continue);
    assert_eq!(s.position_samples, 14);
}
