use mp3_player::PlayError;
use mp3_player::PlaybackState;
use mp3_player::Player;

#[test]
fn new_session_is_stopped_at_full_volume() {
    let p = Player::new();
    assert_eq!(*p.current_state(), PlaybackState::Stopped);
    assert!(!p.is_paused());
    assert_eq!(p.volume(), 100);
}

#[test]
fn successful_play_enters_playing() {
    let mut p = Player::new();
    let r = p.play("a.mp3", Ok(()));
    assert_eq!(r, Ok(()));
    assert_eq!(
        *p.current_state(),
        PlaybackState::Playing { path: "a.mp3".to_string() }
    );
    assert!(!p.is_paused());
}

#[test]
fn failed_play_reports_not_found_and_falls_back_to_stopped() {
    let mut p = Player::new();
    let r = p.play("missing.mp3", Err(PlayError::NotFound));
    assert_eq!(r, Err(PlayError::NotFound));
    assert_eq!(*p.current_state(), PlaybackState::Stopped);
}

#[test]
fn failed_play_reports_decode_error_even_while_playing() {
    let mut p = Player::new();
    p.play("a.mp3", Ok(())).unwrap();
    let r = p.play("broken.mp3", Err(PlayError::DecodeError));
    assert_eq!(r, Err(PlayError::DecodeError));
    assert_eq!(*p.current_state(), PlaybackState::Stopped);
}

#[test]
fn pause_and_resume_round_trip_keeps_the_path() {
    let mut p = Player::new();
    p.play("a.mp3", Ok(())).unwrap();
    p.pause();
    assert!(p.is_paused());
    assert_eq!(
        *p.current_state(),
        PlaybackState::Paused { path: "a.mp3".to_string() }
    );
    p.resume();
    assert!(!p.is_paused());
    assert_eq!(
        *p.current_state(),
        PlaybackState::Playing { path: "a.mp3".to_string() }
    );
}

#[test]
fn pause_and_resume_are_no_ops_while_stopped() {
    let mut p = Player::new();
    p.pause();
    assert_eq!(*p.current_state(), PlaybackState::Stopped);
    p.resume();
    assert_eq!(*p.current_state(), PlaybackState::Stopped);
}

#[test]
fn resume_while_playing_changes_nothing() {
    let mut p = Player::new();
    p.play("a.mp3", Ok(())).unwrap();
    p.resume();
    assert_eq!(
        *p.current_state(),
        PlaybackState::Playing { path: "a.mp3".to_string() }
    );
}

#[test]
fn stop_yields_stopped_from_every_state() {
    let mut p = Player::new();
    p.stop();
    assert_eq!(*p.current_state(), PlaybackState::Stopped);
    p.play("a.mp3", Ok(())).unwrap();
    p.stop();
    assert_eq!(*p.current_state(), PlaybackState::Stopped);
    p.play("a.mp3", Ok(())).unwrap();
    p.pause();
    p.stop();
    assert_eq!(*p.current_state(), PlaybackState::Stopped);
}

#[test]
fn set_volume_clamps_out_of_range_requests() {
    let mut p = Player::new();
    p.set_volume(150);
    assert_eq!(p.volume(), 100);
    p.set_volume(-3);
    assert_eq!(p.volume(), 0);
    p.set_volume(55);
    assert_eq!(p.volume(), 55);
}

#[test]
fn volume_set_while_stopped_is_honored_by_the_next_play() {
    let mut p = Player::new();
    p.set_volume(55);
    assert_eq!(*p.current_state(), PlaybackState::Stopped);
    p.play("a.mp3", Ok(())).unwrap();
    assert_eq!(p.volume(), 55);
    assert_eq!(
        *p.current_state(),
        PlaybackState::Playing { path: "a.mp3".to_string() }
    );
}

#[test]
fn volume_survives_pause_resume_and_stop() {
    let mut p = Player::new();
    p.set_volume(42);
    p.play("a.mp3", Ok(())).unwrap();
    p.pause();
    assert_eq!(p.volume(), 42);
    p.resume();
    assert_eq!(p.volume(), 42);
    p.stop();
    assert_eq!(p.volume(), 42);
}
