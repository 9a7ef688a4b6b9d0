//! The models in which contracts speak hold what the values hold, each part under
//! its own name.

use vstd::prelude::*;
use crate::api::{
    Accepted, Acceptance, Alarm, GroupExpectation, Intent, IntentModel, Read, ReadValue,
    StatusModel, ValueModel, WriteRecord, WriteStatus,
};
use crate::configuration::{FieldConfig, Overrides, RawField, ServerConfig};
use crate::devices::controller::{ControllerError, ControllerErrorModel};
use crate::inventory::config::{RawConfig, RawDevice, RawGroup};
use crate::inventory::refusal::{ConfigError, ConfigErrorModel, InventoryRefusal, RefusalModel};
use crate::protocol::value::{DecodedModel, Value};
use crate::retention::{Retention, RetentionModel};
use crate::store::outbox::{BarrierPolicy, Outcome, OutcomeModel, Submission, SubmitError};
use crate::sync::schedule::{FieldSchedule, Move, PolledDevice};
use crate::text;
use crate::text::text_of;

verus! {

/// A device, as the document writes it, is modelled setting by setting.
pub proof fn a_written_device_is_modelled_by_setting(d: RawDevice)
    ensures
        d@.id == d.id@,
        d@.host == d.host@,
        d@.port == d.port,
        d@.username is Some <==> d.username is Some,
        d.username is Some ==> d@.username->0 == d.username->0@,
        d@.password is Some <==> d.password is Some,
        d.password is Some ==> d@.password->0 == d.password->0@,
        d@.connect_secs == d.connect_secs,
        d@.exchange_secs == d.exchange_secs,
        d@.eager == d.eager,
        d@.sis_keepalive_secs == d.sis_keepalive_secs,
        d@.eager_retry_secs == d.eager_retry_secs,
        d@.cold_backoff_secs == d.cold_backoff_secs,
        d@.disabled_fields is Some <==> d.disabled_fields is Some,
        d.disabled_fields is Some ==> d@.disabled_fields->0 == text::views(d.disabled_fields->0@),
        d@.auto_disable_after == d.auto_disable_after,
        d@.self_heal_secs == d.self_heal_secs,
{
}

/// A group and a document, as they are written, are modelled part by part.
pub proof fn a_written_document_is_modelled_by_part(g: RawGroup, c: RawConfig, i: int)
    ensures
        g@.id == g.id@,
        g@.devices == text::views(g.devices@),
        g@.barrier_timeout_secs == g.barrier_timeout_secs,
        g@.barrier == g.barrier,
        c@.username == text_of(c.defaults.username),
        c@.password == text_of(c.defaults.password),
        c@.devices.len() == c.devices@.len(),
        0 <= i < c.devices@.len() ==> c@.devices[i] == c.devices@[i]@,
        c@.groups.len() == c.groups@.len(),
        0 <= i < c.groups@.len() ==> c@.groups[i] == c.groups@[i]@,
{
}

/// A list of texts is modelled text by text.
pub proof fn texts_are_modelled_one_by_one(s: Seq<String>, i: int)
    ensures
        text::views(s).len() == s.len(),
        0 <= i < s.len() ==> text::views(s)[i] == s[i]@,
        text_of(None) is None,
        0 <= i < s.len() ==> text_of(Some(s[i])) == Some(s[i]@),
{
}

/// A write on record, and what was accepted of one, are modelled part by part.
pub proof fn a_write_is_modelled_by_part(r: WriteRecord, w: Accepted, a: Acceptance, i: int)
    ensures
        r@.id == r.id@,
        r@.device == r.device@,
        r@.intent == r.intent@,
        r@.batch == text_of(r.batch),
        r@.epoch == r.epoch,
        r@.status == r.status@,
        r@.attempts == r.attempts,
        r@.enqueued_at == r.enqueued_at@,
        r@.updated_at == r.updated_at@,
        r@.not_before == r.not_before@,
        w@.id == w.id@,
        w@.device == w.device@,
        w@.epoch == w.epoch,
        a@.batch == text_of(a.batch),
        a@.writes.len() == a.writes@.len(),
        0 <= i < a.writes@.len() ==> a@.writes[i] == a.writes@[i]@,
{
}

/// Where a write has got to is modelled as what it is.
pub proof fn a_status_is_modelled_as_itself(value: ReadValue, reason: String)
    ensures
        WriteStatus::Pending@ == StatusModel::Pending,
        WriteStatus::InFlight@ == StatusModel::InFlight,
        (WriteStatus::Succeeded { value })@ == (StatusModel::Succeeded { value: value@ }),
        (WriteStatus::Failed { reason })@ == (StatusModel::Failed { reason: reason@ }),
        (WriteStatus::Canceled { reason })@ == (StatusModel::Canceled { reason: reason@ }),
        Outcome::Succeeded(value)@ == OutcomeModel::Succeeded(value@),
        Outcome::Failed(reason)@ == OutcomeModel::Failed(reason@),
{
}

/// What is asked of a device is modelled as what it is.
pub proof fn an_intent_is_modelled_as_itself(field: String, value: String)
    ensures
        Intent::StartRecording@ == IntentModel::StartRecording,
        Intent::StopRecording@ == IntentModel::StopRecording,
        Intent::PauseRecording@ == IntentModel::PauseRecording,
        (Intent::SetMetadata { field, value })@ == (IntentModel::SetMetadata {
            field: field@,
            value: value@,
        }),
        (Intent::SetSetting { field, value })@ == (IntentModel::SetSetting {
            field: field@,
            value: value@,
        }),
{
}

/// A submission is modelled part by part, and so is a barrier and what a group was
/// told.
pub proof fn a_submission_is_modelled_by_part(
    s: Submission,
    b: BarrierPolicy,
    e: GroupExpectation,
)
    ensures
        s@.ids == text::views(s.ids@),
        s@.targets == text::views(s.targets@),
        s@.group == text_of(s.group),
        s@.batch == text_of(s.batch),
        s@.barrier is Some <==> s.barrier is Some,
        s.barrier is Some ==> s@.barrier->0 == s.barrier->0@,
        s@.intent == s.intent@,
        s@.at == s.at@,
        s@.idempotency_key == text_of(s.idempotency_key),
        b@.timeout == b.timeout@,
        b@.on_timeout == b.on_timeout,
        e@.field == e.field@,
        e@.value == e.value@,
        e@.since == e.since@,
{
}

/// A refused submission is modelled as what it is.
pub proof fn a_refused_submission_is_modelled_as_itself(e: SubmitError)
    ensures
        e matches SubmitError::Malformed(m) ==> e@ is Malformed && e@->Malformed_0 == m@,
        e matches SubmitError::Backend(m) ==> e@ is Backend && e@->Backend_0 == m@,
        e matches SubmitError::Rejected { device, rejection, desired_recording_state } ==> e@
            is Rejected && e@->device == device@ && e@->rejection == rejection
            && e@->desired_recording_state == desired_recording_state,
{
}

/// A reading is modelled part by part, and an alarm too.
pub proof fn a_reading_is_modelled_by_part(r: Read, a: Alarm)
    ensures
        r@.device == r.device@,
        r@.field == r.field@,
        r@.value == r.value@,
        r@.at == r.at@,
        a@.name == a.name@,
        a@.level == a.level@,
{
}

/// A recorded value is modelled in its own shape.
pub proof fn a_value_is_modelled_as_itself(
    s: String,
    port: u16,
    n: u32,
    b: bool,
    state: crate::api::RecordingState,
    alarms: Vec<Alarm>,
)
    ensures
        ReadValue::Text(s)@ == ValueModel::Text(s@),
        ReadValue::Version(s)@ == ValueModel::Version(s@),
        ReadValue::Ack(s)@ == ValueModel::Ack(s@),
        ReadValue::Port(port)@ == ValueModel::Port(port),
        ReadValue::Number(n)@ == ValueModel::Number(n),
        ReadValue::Flag(b)@ == ValueModel::Flag(b),
        ReadValue::Mac(crate::api::MacAddr(s))@ == ValueModel::Mac(s@),
        ReadValue::State(state)@ == ValueModel::State(state),
        ReadValue::Alarms(alarms)@ == ValueModel::Alarms(alarms@.map_values(|a: Alarm| a@)),
{
}

/// A decoded reply is modelled in its own shape.
pub proof fn a_decoded_reply_is_modelled_as_itself(
    s: String,
    port: u16,
    n: u32,
    b: bool,
    mac: crate::protocol::value::MacAddr,
    state: crate::protocol::states::RecordingState,
)
    ensures
        Value::Text(s)@ == DecodedModel::Text(s@),
        Value::Version(s)@ == DecodedModel::Version(s@),
        Value::Ack(s)@ == DecodedModel::Ack(s@),
        Value::Port(port)@ == DecodedModel::Port(port),
        Value::Number(n)@ == DecodedModel::Number(n),
        Value::Flag(b)@ == DecodedModel::Flag(b),
        Value::Mac(mac)@ == DecodedModel::Mac(mac.0@),
        Value::State(state)@ == DecodedModel::State(state),
{
}

/// The settings of a server are modelled part by part.
pub proof fn settings_are_modelled_by_part(
    c: ServerConfig,
    f: FieldConfig,
    r: RawField,
    o: Overrides,
    i: int,
)
    ensures
        c@.devices_config_path == c.devices_config_path@,
        c@.poll == c.intent_relay.poll@,
        c@.max_attempts == c.intent_relay.max_attempts,
        c@.default_interval is Some <==> c.sync.default_interval is Some,
        c.sync.default_interval is Some ==> c@.default_interval->0
            == c.sync.default_interval->0@,
        c@.fields.len() == c.sync.fields@.len(),
        0 <= i < c.sync.fields@.len() ==> c@.fields[i] == c.sync.fields@[i]@,
        c@.host == c.http.host@,
        c@.port == c.http.port,
        f@.name == f.name@,
        f@.interval is Some <==> f.interval is Some,
        f.interval is Some ==> f@.interval->0 == f.interval->0@,
        r@.name == r.name@,
        r@.interval_secs == r.interval_secs,
        r@.wildcard() <==> r.name@ == "*"@,
        o@.devices_config_path == text_of(o.devices_config_path),
        o@.host == text_of(o.host),
        o@.port == o.port,
{
}

/// A retention is modelled as what it is.
pub proof fn a_retention_is_modelled_as_itself(
    age: crate::time::Duration,
    floor: crate::time::Timestamp,
)
    ensures
        Retention::Forever@ == RetentionModel::Forever,
        Retention::Age(age)@ == RetentionModel::Age(age@),
        Retention::Since(floor)@ == RetentionModel::Since(floor@),
        floor@ == floor.0@,
{
}

/// What the schedule sees of fields and devices is what they are.
pub proof fn a_schedule_is_modelled_by_part(f: FieldSchedule, d: PolledDevice, m: Move, k: Seq<char>)
    ensures
        f@.name == f.name@,
        f@.interval == f.interval,
        d@.uuid == d.uuid,
        d@.disabled_fields.contains(k) <==> text::views(d.disabled_fields@).contains(k),
        m@.pair == (m.field@, m.device@),
        m@.action == m.action,
        m@.wanted == m.wanted,
{
}

/// Faults and refusals are modelled as what they are.
pub proof fn faults_are_modelled_as_themselves(s: String, group: String, device: String)
    ensures
        ConfigError::DuplicateId(s)@ == ConfigErrorModel::DuplicateId(s@),
        (ConfigError::UnknownGroupMember { group, device })@
            == (ConfigErrorModel::UnknownGroupMember { group: group@, device: device@ }),
        ConfigError::Parse(s)@ == ConfigErrorModel::Parse(s@),
        ConfigError::MissingField(s)@ == ConfigErrorModel::MissingField(s@),
        ConfigError::UnknownDisabledField(s)@ == ConfigErrorModel::UnknownDisabledField(s@),
        ConfigError::EmptyGroup(s)@ == ConfigErrorModel::EmptyGroup(s@),
        ConfigError::Io(s)@ == ConfigErrorModel::Io(s@),
        ConfigError::UnsupportedFormat(s)@ == ConfigErrorModel::UnsupportedFormat(s@),
        InventoryRefusal::Malformed(s)@ == RefusalModel::Malformed(s@),
        InventoryRefusal::Duplicate(s)@ == RefusalModel::Duplicate(s@),
        InventoryRefusal::Unknown(s)@ == RefusalModel::Unknown(s@),
        InventoryRefusal::Blocked(s)@ == RefusalModel::Blocked(s@),
        InventoryRefusal::Source(s)@ == RefusalModel::Source(s@),
{
}

/// A failed exchange is modelled as what it is.
pub proof fn a_failed_exchange_is_modelled_as_itself(
    instruction: String,
    after: crate::time::Duration,
    source: crate::devices::transport::TransportError,
    code: u32,
)
    ensures
        (ControllerError::Timeout { instruction, after })@ == (ControllerErrorModel::Timeout {
            instruction: instruction@,
            after: after@,
        }),
        (ControllerError::ConnectionClosed { instruction })@
            == (ControllerErrorModel::ConnectionClosed { instruction: instruction@ }),
        (ControllerError::Transport { instruction, source })@ == (ControllerErrorModel::Transport {
            instruction: instruction@,
            source: source@,
        }),
        (ControllerError::Rejected { instruction, code })@ == (ControllerErrorModel::Rejected {
            instruction: instruction@,
            code,
        }),
{
}

} // verus!
