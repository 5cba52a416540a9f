use pomo::timer::{TimerPhase, TimerState};

#[test]
fn test_timer_state_default() {
    let state = TimerState::default();
    assert_eq!(state.phase, TimerPhase::Work);
    assert_eq!(state.remaining_seconds, 25 * 60);
    assert!(!state.is_paused);
    assert!(state.last_update.is_none());
}

#[test]
fn test_timer_phase_durations() {
    assert_eq!(TimerState::work_duration(), 25 * 60);
    assert_eq!(TimerState::break_duration(), 5 * 60);
}

#[test]
fn test_timer_state_format_time() {
    let mut state = TimerState::default();

    // Test 25:00
    state.remaining_seconds = 25 * 60;
    assert_eq!(state.format_time(), "25:00");

    // Test 01:30
    state.remaining_seconds = 90;
    assert_eq!(state.format_time(), "01:30");

    // Test 00:05
    state.remaining_seconds = 5;
    assert_eq!(state.format_time(), "00:05");

    // Test 00:00
    state.remaining_seconds = 0;
    assert_eq!(state.format_time(), "00:00");
}

#[test]
fn test_timer_phase_emoji() {
    let mut state = TimerState::default();

    state.phase = TimerPhase::Work;
    assert_eq!(state.emoji(), "ğŸ…");

    state.phase = TimerPhase::Break;
    assert_eq!(state.emoji(), "ğŸŒ´");
}

#[test]
fn test_timer_state_reset() {
    let mut state = TimerState::default();

    // Modify state
    state.remaining_seconds = 100;
    state.is_paused = true;
    state.last_update = Some(123456);

    // Reset to work
    state.reset_to_work();
    assert_eq!(state.phase, TimerPhase::Work);
    assert_eq!(state.remaining_seconds, TimerState::work_duration());
    assert!(!state.is_paused);
    assert!(state.last_update.is_none());

    // Reset to break
    state.reset_to_break();
    assert_eq!(state.phase, TimerPhase::Break);
    assert_eq!(state.remaining_seconds, TimerState::break_duration());
    assert!(!state.is_paused);
    assert!(state.last_update.is_none());
}

#[test]
fn test_timer_state_is_finished() {
    let mut state = TimerState::default();

    state.remaining_seconds = 100;
    assert!(!state.is_finished());

    state.remaining_seconds = 0;
    assert!(state.is_finished());
}

#[test]
fn test_timer_state_toggle_pause() {
    let mut state = TimerState::default();

    assert!(!state.is_paused);
    state.toggle_pause();
    assert!(state.is_paused);
    state.toggle_pause();
    assert!(!state.is_paused);
}

#[test]
fn update_first_call_deducts_nothing() {
    let mut state = TimerState::default();
    state.remaining_seconds = 90;
    state.last_update = None;
    state.update_at(1_000_000);
    assert_eq!(state.remaining_seconds, 90);
    assert_eq!(state.last_update, Some(1_000_000));
}

#[test]
fn update_deducts_elapsed_seconds() {
    let mut state = TimerState::default();
    state.remaining_seconds = 90;
    state.last_update = Some(1000);
    state.update_at(1025);
    assert_eq!(state.remaining_seconds, 65);
    assert_eq!(state.last_update, Some(1025));
}

#[test]
fn update_while_paused_keeps_remaining_but_refreshes_timestamp() {
    let mut state = TimerState::default();
    state.remaining_seconds = 90;
    state.is_paused = true;
    state.last_update = Some(1000);
    state.update_at(5000);
    assert_eq!(state.remaining_seconds, 90);
    assert_eq!(state.last_update, Some(5000));
    assert!(state.is_paused);
}

#[test]
fn update_saturates_at_zero() {
    let mut state = TimerState::default();
    state.remaining_seconds = 3;
    state.last_update = Some(1000);
    state.update_at(2000);
    assert_eq!(state.remaining_seconds, 0);
    assert_eq!(state.last_update, Some(2000));
}

#[test]
fn update_ignores_a_clock_that_went_backwards() {
    let mut state = TimerState::default();
    state.remaining_seconds = 90;
    state.last_update = Some(1000);
    state.update_at(900);
    assert_eq!(state.remaining_seconds, 90);
    assert_eq!(state.last_update, Some(900));
}

#[test]
fn format_time_edge_values() {
    let mut state = TimerState::default();
    state.remaining_seconds = 5999;
    assert_eq!(state.format_time(), "99:59");
    state.remaining_seconds = 6000;
    assert_eq!(state.format_time(), "100:00");
    state.remaining_seconds = 59;
    assert_eq!(state.format_time(), "00:59");
}

#[test]
fn status_line_shows_time_and_glyph() {
    let mut state = TimerState::default();
    state.remaining_seconds = 90;
    state.phase = TimerPhase::Work;
    assert_eq!(state.status_line(), "01:30 ğŸ…");
    state.phase = TimerPhase::Break;
    assert_eq!(state.status_line(), "01:30 ğŸŒ´");
}

#[test]
fn hint_line_follows_pause_flag() {
    let mut state = TimerState::default();
    state.is_paused = false;
    assert_eq!(state.hint_line(), "Press 'p' to pause, 'q' to quit");
    state.is_paused = true;
    assert_eq!(state.hint_line(), "PAUSED - Press 'r' to resume, 'q' to quit");
}
