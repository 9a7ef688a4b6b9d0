//! What a group was told, and whether a device's answer meets it.

use sismatic::api::{Alarm, Intent, MacAddr, ReadValue, RecordingState};
use sismatic::store::group::{expects, satisfies, RECORDING_STATE_FIELD};

#[test]
fn the_lifecycle_verbs_expect_a_recording_state() {
    for (intent, state) in [
        (Intent::StartRecording, RecordingState::Started),
        (Intent::StopRecording, RecordingState::Stopped),
        (Intent::PauseRecording, RecordingState::Paused),
    ] {
        assert_eq!(
            expects(&intent),
            (RECORDING_STATE_FIELD.to_owned(), ReadValue::State(state))
        );
    }
}

#[test]
fn a_write_expects_its_own_field_to_hold_the_text_it_carried() {
    assert_eq!(
        expects(&Intent::SetMetadata {
            field: "TITLE".into(),
            value: "Week 4".into(),
        }),
        ("TITLE".to_owned(), ReadValue::Text("Week 4".into()))
    );
    assert_eq!(
        expects(&Intent::SetSetting {
            field: "TIMEZONE".into(),
            value: "UTC".into(),
        }),
        ("TIMEZONE".to_owned(), ReadValue::Text("UTC".into()))
    );
}

#[test]
fn a_typed_expectation_is_satisfied_by_the_same_value_and_nothing_else() {
    let started = ReadValue::State(RecordingState::Started);
    assert!(satisfies(
        &started,
        &ReadValue::State(RecordingState::Started)
    ));
    for other in [
        ReadValue::State(RecordingState::Stopped),
        ReadValue::State(RecordingState::Paused),
        ReadValue::State(RecordingState::Unknown),
    ] {
        assert!(!satisfies(&started, &other), "{other:?} satisfied started");
    }
}

#[test]
fn a_text_expectation_is_read_in_the_shape_the_device_answered_in() {
    let cases = [
        ("8080", ReadValue::Port(8080)),
        ("300", ReadValue::Number(300)),
        ("1", ReadValue::Flag(true)),
        ("true", ReadValue::Flag(true)),
        ("on", ReadValue::Flag(true)),
        ("yes", ReadValue::Flag(true)),
        ("0", ReadValue::Flag(false)),
        ("false", ReadValue::Flag(false)),
        ("off", ReadValue::Flag(false)),
        ("no", ReadValue::Flag(false)),
        ("started", ReadValue::State(RecordingState::Started)),
        ("STARTED", ReadValue::State(RecordingState::Started)),
        ("2.11", ReadValue::Version("2.11".into())),
        ("RcdrY1", ReadValue::Ack("RcdrY1".into())),
        (
            "00-05-A6-1B-2C-3D",
            ReadValue::Mac(MacAddr("00-05-A6-1B-2C-3D".into())),
        ),
    ];
    for (text, observed) in cases {
        assert!(
            satisfies(&ReadValue::Text(text.into()), &observed),
            "'{text}' should have satisfied {observed:?}"
        );
    }
}

#[test]
fn a_text_expectation_ignores_the_callers_surrounding_whitespace() {
    assert!(satisfies(
        &ReadValue::Text("  8080 ".into()),
        &ReadValue::Port(8080)
    ));
}

#[test]
fn a_text_expectation_is_not_satisfied_by_a_different_value() {
    for observed in [
        ReadValue::Port(9090),
        ReadValue::Number(9090),
        ReadValue::Flag(false),
        ReadValue::Text("8081".into()),
        ReadValue::State(RecordingState::Stopped),
        ReadValue::Alarms(vec![Alarm {
            name: "video_loss".into(),
            level: "critical".into(),
        }]),
    ] {
        assert!(
            !satisfies(&ReadValue::Text("8080".into()), &observed),
            "'8080' should not have satisfied {observed:?}"
        );
    }
}

#[test]
fn an_uninterpretable_text_expectation_is_drift() {
    assert!(!satisfies(
        &ReadValue::Text("perhaps".into()),
        &ReadValue::Flag(true)
    ));
}
