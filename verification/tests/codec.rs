use pomo::codec::{encode_state, parse_state};
use pomo::timer::{TimerPhase, TimerState};

#[test]
fn test_timer_state_serialization() {
    let state = TimerState {
        phase: TimerPhase::Break,
        remaining_seconds: 300,
        is_paused: true,
        last_update: Some(1234567890),
    };

    let json = encode_state(&state);
    let deserialized: TimerState = parse_state(json.as_str()).unwrap();

    assert_eq!(deserialized.phase, TimerPhase::Break);
    assert_eq!(deserialized.remaining_seconds, 300);
    assert!(deserialized.is_paused);
    assert_eq!(deserialized.last_update, Some(1234567890));
}

#[test]
fn encode_produces_pretty_json() {
    let state = TimerState {
        phase: TimerPhase::Break,
        remaining_seconds: 300,
        is_paused: true,
        last_update: Some(1234567890),
    };
    let expected = "{\n  \"phase\": \"Break\",\n  \"remaining_seconds\": 300,\n  \"is_paused\": true,\n  \"last_update\": 1234567890\n}";
    assert_eq!(encode_state(&state), expected);
}

#[test]
fn encode_none_timestamp_as_null() {
    let state = TimerState {
        phase: TimerPhase::Work,
        remaining_seconds: 0,
        is_paused: false,
        last_update: None,
    };
    let expected = "{\n  \"phase\": \"Work\",\n  \"remaining_seconds\": 0,\n  \"is_paused\": false,\n  \"last_update\": null\n}";
    assert_eq!(encode_state(&state), expected);
}

#[test]
fn round_trip_keeps_every_field() {
    let samples = [
        TimerState {
            phase: TimerPhase::Work,
            remaining_seconds: 0,
            is_paused: false,
            last_update: None,
        },
        TimerState {
            phase: TimerPhase::Break,
            remaining_seconds: 1,
            is_paused: true,
            last_update: Some(0),
        },
        TimerState {
            phase: TimerPhase::Work,
            remaining_seconds: u32::MAX,
            is_paused: false,
            last_update: Some(u64::MAX),
        },
        TimerState {
            phase: TimerPhase::Break,
            remaining_seconds: 1500,
            is_paused: false,
            last_update: Some(1),
        },
    ];
    for state in samples {
        let json = encode_state(&state);
        let back = parse_state(json.as_str()).unwrap();
        assert_eq!(back.phase, state.phase);
        assert_eq!(back.remaining_seconds, state.remaining_seconds);
        assert_eq!(back.is_paused, state.is_paused);
        assert_eq!(back.last_update, state.last_update);
    }
}

#[test]
fn parse_rejects_malformed_text() {
    assert!(parse_state("").is_none());
    assert!(parse_state("{}").is_none());
    assert!(parse_state("not json at all").is_none());
    // key order differs from the canonical layout
    assert!(parse_state(
        "{\n  \"remaining_seconds\": 300,\n  \"phase\": \"Break\",\n  \"is_paused\": true,\n  \"last_update\": null\n}"
    )
    .is_none());
    // unknown phase word
    assert!(parse_state(
        "{\n  \"phase\": \"Lunch\",\n  \"remaining_seconds\": 300,\n  \"is_paused\": true,\n  \"last_update\": null\n}"
    )
    .is_none());
}

#[test]
fn parse_rejects_bad_numbers() {
    // leading zeros are not canonical
    assert!(parse_state(
        "{\n  \"phase\": \"Work\",\n  \"remaining_seconds\": 007,\n  \"is_paused\": false,\n  \"last_update\": null\n}"
    )
    .is_none());
    // remaining_seconds above the field's range
    assert!(parse_state(
        "{\n  \"phase\": \"Work\",\n  \"remaining_seconds\": 4294967296,\n  \"is_paused\": false,\n  \"last_update\": null\n}"
    )
    .is_none());
    // timestamp too large for its field
    assert!(parse_state(
        "{\n  \"phase\": \"Work\",\n  \"remaining_seconds\": 5,\n  \"is_paused\": false,\n  \"last_update\": 18446744073709551616\n}"
    )
    .is_none());
}

#[test]
fn parse_rejects_trailing_garbage() {
    let state = TimerState::default();
    let mut json = encode_state(&state);
    json.push(' ');
    assert!(parse_state(json.as_str()).is_none());
}

#[test]
fn parse_accepts_boundary_values() {
    let json = "{\n  \"phase\": \"Work\",\n  \"remaining_seconds\": 4294967295,\n  \"is_paused\": false,\n  \"last_update\": 18446744073709551615\n}";
    let state = parse_state(json).unwrap();
    assert_eq!(state.remaining_seconds, u32::MAX);
    assert_eq!(state.last_update, Some(u64::MAX));
}
