//! Decoded replies as recorded values.

use sismatic::api::{Alarm, MacAddr, ReadValue, RecordingState};
use sismatic::protocol::states::RecordingState as CoreState;
use sismatic::protocol::value::{MacAddr as CoreMac, Value};
use sismatic::sync::dto::to_dto;

#[test]
fn maps_primitive_variants() {
    assert_eq!(to_dto(Value::Port(22023)), ReadValue::Port(22023));
    assert_eq!(to_dto(Value::Number(300)), ReadValue::Number(300));
    assert_eq!(to_dto(Value::Flag(true)), ReadValue::Flag(true));
    assert_eq!(
        to_dto(Value::Text("Lecture 1".into())),
        ReadValue::Text("Lecture 1".into())
    );
    assert_eq!(
        to_dto(Value::Ack("RcdrY1".into())),
        ReadValue::Ack("RcdrY1".into())
    );
}

#[test]
fn renders_mac_as_hyphenated_hex() {
    let dto = to_dto(Value::Mac(CoreMac([0x00, 0x05, 0xA6, 0x1B, 0x2C, 0x3D])));
    assert_eq!(dto, ReadValue::Mac(MacAddr("00-05-A6-1B-2C-3D".into())));
}

#[test]
fn maps_every_recording_state() {
    for (core, wire) in [
        (CoreState::Stopped, RecordingState::Stopped),
        (CoreState::Started, RecordingState::Started),
        (CoreState::Paused, RecordingState::Paused),
        (CoreState::Unknown, RecordingState::Unknown),
    ] {
        assert_eq!(to_dto(Value::State(core)), ReadValue::State(wire));
    }
}

#[test]
fn names_alarm_pair_fields() {
    let dto = to_dto(Value::Alarms(vec![
        ("video_loss".into(), "critical".into()),
        ("publish_failure".into(), "warning".into()),
    ]));
    assert_eq!(
        dto,
        ReadValue::Alarms(vec![
            Alarm {
                name: "video_loss".into(),
                level: "critical".into(),
            },
            Alarm {
                name: "publish_failure".into(),
                level: "warning".into(),
            },
        ])
    );
}
