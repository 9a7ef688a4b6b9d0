//! Turning a decoded reply into the value that is recorded of it.

use vstd::prelude::*;
use crate::api;
use crate::api::{Alarm, AlarmModel, MacAddr, ReadValue, ValueModel};
use crate::protocol::states;
use crate::protocol::value::{hyphenated, pairs_model, DecodedModel, Value};

verus! {

pub open spec fn wire_state(state: states::RecordingState) -> api::RecordingState {
    match state {
        states::RecordingState::Stopped => api::RecordingState::Stopped,
        states::RecordingState::Started => api::RecordingState::Started,
        states::RecordingState::Paused => api::RecordingState::Paused,
        states::RecordingState::Unknown => api::RecordingState::Unknown,
    }
}

/// The recorded value of a decoded reply.
pub open spec fn wire_value(value: DecodedModel) -> ValueModel {
    match value {
        DecodedModel::Text(s) => ValueModel::Text(s),
        DecodedModel::Version(s) => ValueModel::Version(s),
        DecodedModel::Port(p) => ValueModel::Port(p),
        DecodedModel::Number(n) => ValueModel::Number(n),
        DecodedModel::Flag(b) => ValueModel::Flag(b),
        DecodedModel::Mac(bytes) => ValueModel::Mac(hyphenated(bytes)),
        DecodedModel::Ack(s) => ValueModel::Ack(s),
        DecodedModel::State(s) => ValueModel::State(wire_state(s)),
        DecodedModel::Alarms(pairs) => ValueModel::Alarms(
            pairs.map_values(
                |p: (Seq<char>, Seq<char>)| AlarmModel { name: p.0, level: p.1 },
            ),
        ),
    }
}

/// The recorded form of a device's recording state.
pub fn state_to_dto(state: states::RecordingState) -> (r: api::RecordingState)
    ensures
        r == wire_state(state),
{
    match state {
        states::RecordingState::Stopped => api::RecordingState::Stopped,
        states::RecordingState::Started => api::RecordingState::Started,
        states::RecordingState::Paused => api::RecordingState::Paused,
        states::RecordingState::Unknown => api::RecordingState::Unknown,
    }
}

fn alarms_to_dto(pairs: &Vec<(String, String)>) -> (r: Vec<Alarm>)
    ensures
        api::alarms_model(r@) == pairs_model(pairs@).map_values(
            |p: (Seq<char>, Seq<char>)| AlarmModel { name: p.0, level: p.1 },
        ),
{
    let mut out: Vec<Alarm> = Vec::new();
    let mut i: usize = 0;
    while i < pairs.len()
        invariant
            i <= pairs.len(),
            out@.len() == i,
            forall|j: int|
                0 <= j < i ==> #[trigger] out@[j].name@ == pairs@[j].0@ && out@[j].level@
                    == pairs@[j].1@,
        decreases pairs.len() - i,
    {
        out.push(Alarm { name: pairs[i].0.clone(), level: pairs[i].1.clone() });
        i = i + 1;
    }
    proof {
        assert(api::alarms_model(out@) =~= pairs_model(pairs@).map_values(
            |p: (Seq<char>, Seq<char>)| AlarmModel { name: p.0, level: p.1 },
        ));
    }
    out
}

/// The recorded form of a decoded reply.
pub fn to_dto(value: Value) -> (r: ReadValue)
    ensures
        r@ == wire_value(value@),
{
    match value {
        Value::Text(s) => ReadValue::Text(s),
        Value::Version(s) => ReadValue::Version(s),
        Value::Port(p) => ReadValue::Port(p),
        Value::Number(n) => ReadValue::Number(n),
        Value::Flag(b) => ReadValue::Flag(b),
        Value::Mac(m) => ReadValue::Mac(MacAddr(m.rendered())),
        Value::Ack(s) => ReadValue::Ack(s),
        Value::State(s) => ReadValue::State(state_to_dto(s)),
        Value::Alarms(pairs) => ReadValue::Alarms(alarms_to_dto(&pairs)),
    }
}

} // verus!
