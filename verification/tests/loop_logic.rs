use pomo::timer::{save_due, TimerPhase, TimerState};

#[test]
fn finished_work_phase_flips_to_break_with_notification() {
    // One loop iteration after the countdown crosses zero: start with one
    // second left, let real time advance past the boundary.
    let mut state = TimerState {
        phase: TimerPhase::Work,
        remaining_seconds: 1,
        is_paused: false,
        last_update: Some(1000),
    };
    state.update_at(1002);
    assert!(state.is_finished());
    let msg = state.finish_phase();
    assert_eq!(msg, Some("Work session completed! Time for a break."));
    assert_eq!(state.phase, TimerPhase::Break);
    assert_eq!(state.remaining_seconds, 300);
    assert!(!state.is_paused);
    assert!(state.last_update.is_none());
}

#[test]
fn finished_break_phase_flips_to_work_with_notification() {
    let mut state = TimerState {
        phase: TimerPhase::Break,
        remaining_seconds: 0,
        is_paused: false,
        last_update: Some(1000),
    };
    let msg = state.finish_phase();
    assert_eq!(msg, Some("Break time over! Ready for work?"));
    assert_eq!(state.phase, TimerPhase::Work);
    assert_eq!(state.remaining_seconds, 1500);
}

#[test]
fn unfinished_phase_is_left_alone() {
    let mut state = TimerState {
        phase: TimerPhase::Work,
        remaining_seconds: 1,
        is_paused: true,
        last_update: Some(7),
    };
    let msg = state.finish_phase();
    assert_eq!(msg, None);
    assert_eq!(state.phase, TimerPhase::Work);
    assert_eq!(state.remaining_seconds, 1);
    assert!(state.is_paused);
    assert_eq!(state.last_update, Some(7));
}

#[test]
fn quit_keys_end_the_loop() {
    let mut state = TimerState::default();
    assert!(state.handle_key('q', false));
    assert!(state.handle_key('q', true));
    assert!(state.handle_key('c', true));
    assert!(!state.handle_key('c', false));
    assert_eq!(state.phase, TimerPhase::Work);
    assert!(!state.is_paused);
}

#[test]
fn pause_and_resume_keys_respect_the_current_mode() {
    let mut state = TimerState::default();
    // 'r' while running does nothing
    assert!(!state.handle_key('r', false));
    assert!(!state.is_paused);
    // 'p' while running pauses
    assert!(!state.handle_key('p', false));
    assert!(state.is_paused);
    // 'p' while paused does nothing
    assert!(!state.handle_key('p', false));
    assert!(state.is_paused);
    // 'r' while paused resumes
    assert!(!state.handle_key('r', false));
    assert!(!state.is_paused);
}

#[test]
fn unrecognized_keys_are_ignored() {
    let mut state = TimerState::default();
    assert!(!state.handle_key('x', false));
    assert!(!state.handle_key(' ', true));
    assert_eq!(state.phase, TimerPhase::Work);
    assert_eq!(state.remaining_seconds, 1500);
    assert!(!state.is_paused);
}

#[test]
fn periodic_save_fires_after_five_seconds() {
    assert!(!save_due(0));
    assert!(!save_due(4));
    assert!(save_due(5));
    assert!(save_due(6));
}
