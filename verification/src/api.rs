//! The values that cross the crate's boundary: what a device reports, what a
//! caller asks for, and what is recorded of both.
//!
//! Each type that holds text has a model, its view, in which text is a sequence
//! of characters.

use vstd::prelude::*;
use crate::text;
use crate::text::same;
use crate::time::Timestamp;

verus! {

pub type DeviceId = String;

pub type GroupId = String;

pub type FieldName = String;

pub type WriteId = String;

pub type BatchId = String;

// ---- what a device reports -------------------------------------------------

/// The recording state a device reports.
#[derive(Debug, Clone, Copy, PartialEq, Eq, Structural)]
pub enum RecordingState {
    Stopped,
    Started,
    Paused,
    Unknown,
}

/// One active alarm.
#[derive(Debug, PartialEq, Eq)]
pub struct Alarm {
    pub name: String,
    pub level: String,
}

/// A hardware address, as text.
#[derive(Debug, PartialEq, Eq)]
pub struct MacAddr(pub String);

/// A decoded answer of a device.
#[derive(Debug, PartialEq, Eq)]
pub enum ReadValue {
    Text(String),
    Version(String),
    Ack(String),
    Port(u16),
    Number(u32),
    Flag(bool),
    Mac(MacAddr),
    State(RecordingState),
    Alarms(Vec<Alarm>),
}

pub struct AlarmModel {
    pub name: Seq<char>,
    pub level: Seq<char>,
}

pub enum ValueModel {
    Text(Seq<char>),
    Version(Seq<char>),
    Ack(Seq<char>),
    Port(u16),
    Number(u32),
    Flag(bool),
    Mac(Seq<char>),
    State(RecordingState),
    Alarms(Seq<AlarmModel>),
}

impl View for Alarm {
    type V = AlarmModel;

    open spec fn view(&self) -> AlarmModel {
        AlarmModel { name: self.name@, level: self.level@ }
    }
}

impl Clone for Alarm {
    fn clone(&self) -> (r: Self)
        ensures
            r == *self,
    {
        Alarm { name: self.name.clone(), level: self.level.clone() }
    }
}

pub open spec fn alarms_model(s: Seq<Alarm>) -> Seq<AlarmModel> {
    s.map_values(|a: Alarm| a@)
}

impl View for ReadValue {
    type V = ValueModel;

    open spec fn view(&self) -> ValueModel {
        match self {
            ReadValue::Text(s) => ValueModel::Text(s@),
            ReadValue::Version(s) => ValueModel::Version(s@),
            ReadValue::Ack(s) => ValueModel::Ack(s@),
            ReadValue::Port(p) => ValueModel::Port(*p),
            ReadValue::Number(n) => ValueModel::Number(*n),
            ReadValue::Flag(b) => ValueModel::Flag(*b),
            ReadValue::Mac(m) => ValueModel::Mac(m.0@),
            ReadValue::State(s) => ValueModel::State(*s),
            ReadValue::Alarms(a) => ValueModel::Alarms(alarms_model(a@)),
        }
    }
}

fn clone_alarms(alarms: &Vec<Alarm>) -> (r: Vec<Alarm>)
    ensures
        r@ == alarms@,
{
    let mut out: Vec<Alarm> = Vec::new();
    let mut i: usize = 0;
    while i < alarms.len()
        invariant
            i <= alarms.len(),
            out@ == alarms@.take(i as int),
        decreases alarms.len() - i,
    {
        out.push(alarms[i].clone());
        proof {
            assert(alarms@.take(i + 1) == alarms@.take(i as int).push(alarms@[i as int]));
        }
        i = i + 1;
    }
    proof {
        assert(alarms@.take(alarms@.len() as int) == alarms@);
    }
    out
}

impl Clone for ReadValue {
    fn clone(&self) -> (r: Self)
        ensures
            r@ == self@,
    {
        match self {
            ReadValue::Text(s) => ReadValue::Text(s.clone()),
            ReadValue::Version(s) => ReadValue::Version(s.clone()),
            ReadValue::Ack(s) => ReadValue::Ack(s.clone()),
            ReadValue::Port(p) => ReadValue::Port(*p),
            ReadValue::Number(n) => ReadValue::Number(*n),
            ReadValue::Flag(b) => ReadValue::Flag(*b),
            ReadValue::Mac(m) => ReadValue::Mac(MacAddr(m.0.clone())),
            ReadValue::State(s) => ReadValue::State(*s),
            ReadValue::Alarms(a) => ReadValue::Alarms(clone_alarms(a)),
        }
    }
}

fn same_alarms(a: &Vec<Alarm>, b: &Vec<Alarm>) -> (r: bool)
    ensures
        r == (alarms_model(a@) == alarms_model(b@)),
{
    if a.len() != b.len() {
        proof {
            assert(alarms_model(a@).len() == a.len());
            assert(alarms_model(b@).len() == b.len());
        }
        return false;
    }
    let mut i: usize = 0;
    while i < a.len()
        invariant
            a.len() == b.len(),
            i <= a.len(),
            forall|j: int| 0 <= j < i ==> #[trigger] alarms_model(a@)[j] == alarms_model(b@)[j],
        decreases a.len() - i,
    {
        if !same(a[i].name.as_str(), b[i].name.as_str()) || !same(
            a[i].level.as_str(),
            b[i].level.as_str(),
        ) {
            proof {
                assert(alarms_model(a@)[i as int] != alarms_model(b@)[i as int]);
            }
            return false;
        }
        i = i + 1;
    }
    proof {
        assert(alarms_model(a@) =~= alarms_model(b@));
    }
    true
}

impl ReadValue {
    /// Whether two values are equal.
    pub fn same_as(&self, other: &ReadValue) -> (r: bool)
        ensures
            r == (self@ == other@),
    {
        match (self, other) {
            (ReadValue::Text(a), ReadValue::Text(b)) => same(a.as_str(), b.as_str()),
            (ReadValue::Version(a), ReadValue::Version(b)) => same(a.as_str(), b.as_str()),
            (ReadValue::Ack(a), ReadValue::Ack(b)) => same(a.as_str(), b.as_str()),
            (ReadValue::Port(a), ReadValue::Port(b)) => *a == *b,
            (ReadValue::Number(a), ReadValue::Number(b)) => *a == *b,
            (ReadValue::Flag(a), ReadValue::Flag(b)) => *a == *b,
            (ReadValue::Mac(a), ReadValue::Mac(b)) => same(a.0.as_str(), b.0.as_str()),
            (ReadValue::State(a), ReadValue::State(b)) => *a == *b,
            (ReadValue::Alarms(a), ReadValue::Alarms(b)) => same_alarms(a, b),
            _ => false,
        }
    }
}

/// One reading of one field of one device.
#[derive(Debug, PartialEq, Eq)]
pub struct Read {
    pub device: DeviceId,
    pub field: FieldName,
    pub value: ReadValue,
    pub at: Timestamp,
}

pub struct ReadModel {
    pub device: Seq<char>,
    pub field: Seq<char>,
    pub value: ValueModel,
    pub at: Seq<char>,
}

impl View for Read {
    type V = ReadModel;

    open spec fn view(&self) -> ReadModel {
        ReadModel { device: self.device@, field: self.field@, value: self.value@, at: self.at@ }
    }
}

impl Clone for Read {
    fn clone(&self) -> (r: Self)
        ensures
            r@ == self@,
    {
        Read {
            device: self.device.clone(),
            field: self.field.clone(),
            value: self.value.clone(),
            at: self.at.clone(),
        }
    }
}

/// A stretch of time, both ends included.
#[derive(Debug, PartialEq, Eq)]
pub struct TimeSpan {
    pub start: Timestamp,
    pub end: Timestamp,
}

impl TimeSpan {
    pub open spec fn covers(self, at: Seq<char>) -> bool {
        !text::lex_lt(at, self.start@) && !text::lex_lt(self.end@, at)
    }

    /// Whether a stamp lies in the span.
    pub fn within(&self, at: &Timestamp) -> (r: bool)
        ensures
            r == self.covers(at@),
    {
        !at.precedes(&self.start) && !self.end.precedes(at)
    }
}

// ---- what a caller asks for ------------------------------------------------

/// What a write asks a device to do.
#[derive(Debug, PartialEq, Eq)]
pub enum Intent {
    StartRecording,
    StopRecording,
    PauseRecording,
    SetMetadata { field: FieldName, value: String },
    SetSetting { field: FieldName, value: String },
}

pub enum IntentModel {
    StartRecording,
    StopRecording,
    PauseRecording,
    SetMetadata { field: Seq<char>, value: Seq<char> },
    SetSetting { field: Seq<char>, value: Seq<char> },
}

impl View for Intent {
    type V = IntentModel;

    open spec fn view(&self) -> IntentModel {
        match self {
            Intent::StartRecording => IntentModel::StartRecording,
            Intent::StopRecording => IntentModel::StopRecording,
            Intent::PauseRecording => IntentModel::PauseRecording,
            Intent::SetMetadata { field, value } => IntentModel::SetMetadata {
                field: field@,
                value: value@,
            },
            Intent::SetSetting { field, value } => IntentModel::SetSetting {
                field: field@,
                value: value@,
            },
        }
    }
}

impl Clone for Intent {
    fn clone(&self) -> (r: Self)
        ensures
            r@ == self@,
    {
        match self {
            Intent::StartRecording => Intent::StartRecording,
            Intent::StopRecording => Intent::StopRecording,
            Intent::PauseRecording => Intent::PauseRecording,
            Intent::SetMetadata { field, value } => Intent::SetMetadata {
                field: field.clone(),
                value: value.clone(),
            },
            Intent::SetSetting { field, value } => Intent::SetSetting {
                field: field.clone(),
                value: value.clone(),
            },
        }
    }
}

/// What a device is meant to be doing, by what it was asked so far.
#[derive(Debug, Clone, Copy, PartialEq, Eq, Structural)]
pub enum Phase {
    Idle,
    Recording,
    Paused,
}

pub type DesiredRecordingState = Phase;

/// The phase of a device and the number of its current take.
#[derive(Debug, Clone, Copy, PartialEq, Eq, Structural)]
pub struct DeviceDesiredRecordingState {
    pub desired_recording_state: DesiredRecordingState,
    pub epoch: u64,
}

/// Why the admission table refused a write.
#[derive(Debug, Clone, Copy, PartialEq, Eq, Structural)]
pub enum Rejection {
    NotRecording,
    AlreadyRecording,
    AlreadyPaused,
    MetadataFrozen,
}

impl Rejection {
    pub open spec fn spelling(self) -> Seq<char> {
        match self {
            Rejection::NotRecording => "not_recording"@,
            Rejection::AlreadyRecording => "already_recording"@,
            Rejection::AlreadyPaused => "already_paused"@,
            Rejection::MetadataFrozen => "metadata_frozen"@,
        }
    }

    /// The spelling on the wire.
    pub fn name(self) -> (r: &'static str)
        ensures
            r@ == self.spelling(),
    {
        match self {
            Rejection::NotRecording => "not_recording",
            Rejection::AlreadyRecording => "already_recording",
            Rejection::AlreadyPaused => "already_paused",
            Rejection::MetadataFrozen => "metadata_frozen",
        }
    }
}

/// What a group does when its members are not ready in time.
#[derive(Debug, Clone, Copy, PartialEq, Eq, Structural)]
pub enum Barrier {
    FailBatch,
    DispatchReady,
}

// ---- what is recorded of a write -------------------------------------------

/// Where a write has got to.
#[derive(Debug, PartialEq, Eq)]
pub enum WriteStatus {
    Pending,
    InFlight,
    Succeeded { value: ReadValue },
    Failed { reason: String },
    /// Withdrawn before it was handed out.
    Canceled { reason: String },
}

pub enum StatusModel {
    Pending,
    InFlight,
    Succeeded { value: ValueModel },
    Failed { reason: Seq<char> },
    Canceled { reason: Seq<char> },
}

impl View for WriteStatus {
    type V = StatusModel;

    open spec fn view(&self) -> StatusModel {
        match self {
            WriteStatus::Pending => StatusModel::Pending,
            WriteStatus::InFlight => StatusModel::InFlight,
            WriteStatus::Succeeded { value } => StatusModel::Succeeded { value: value@ },
            WriteStatus::Failed { reason } => StatusModel::Failed { reason: reason@ },
            WriteStatus::Canceled { reason } => StatusModel::Canceled { reason: reason@ },
        }
    }
}

impl Clone for WriteStatus {
    fn clone(&self) -> (r: Self)
        ensures
            r@ == self@,
    {
        match self {
            WriteStatus::Pending => WriteStatus::Pending,
            WriteStatus::InFlight => WriteStatus::InFlight,
            WriteStatus::Succeeded { value } => WriteStatus::Succeeded { value: value.clone() },
            WriteStatus::Failed { reason } => WriteStatus::Failed { reason: reason.clone() },
            WriteStatus::Canceled { reason } => WriteStatus::Canceled { reason: reason.clone() },
        }
    }
}

/// One write to one device, and what became of it.
#[derive(Debug, PartialEq, Eq)]
pub struct WriteRecord {
    pub id: WriteId,
    pub device: DeviceId,
    pub intent: Intent,
    pub batch: Option<BatchId>,
    pub epoch: u64,
    pub status: WriteStatus,
    pub attempts: u32,
    pub enqueued_at: Timestamp,
    pub updated_at: Timestamp,
    pub not_before: Timestamp,
}

pub struct RecordModel {
    pub id: Seq<char>,
    pub device: Seq<char>,
    pub intent: IntentModel,
    pub batch: Option<Seq<char>>,
    pub epoch: u64,
    pub status: StatusModel,
    pub attempts: u32,
    pub enqueued_at: Seq<char>,
    pub updated_at: Seq<char>,
    pub not_before: Seq<char>,
}

/// The view of an optional text.
pub open spec fn option_view(s: Option<String>) -> Option<Seq<char>> {
    match s {
        Some(x) => Some(x@),
        None => None,
    }
}

impl View for WriteRecord {
    type V = RecordModel;

    open spec fn view(&self) -> RecordModel {
        RecordModel {
            id: self.id@,
            device: self.device@,
            intent: self.intent@,
            batch: option_view(self.batch),
            epoch: self.epoch,
            status: self.status@,
            attempts: self.attempts,
            enqueued_at: self.enqueued_at@,
            updated_at: self.updated_at@,
            not_before: self.not_before@,
        }
    }
}

/// A copy of an optional text.
pub fn clone_option(s: &Option<String>) -> (r: Option<String>)
    ensures
        r == *s,
{
    match s {
        Some(x) => Some(x.clone()),
        None => None,
    }
}

impl Clone for WriteRecord {
    fn clone(&self) -> (r: Self)
        ensures
            r@ == self@,
    {
        WriteRecord {
            id: self.id.clone(),
            device: self.device.clone(),
            intent: self.intent.clone(),
            batch: clone_option(&self.batch),
            epoch: self.epoch,
            status: self.status.clone(),
            attempts: self.attempts,
            enqueued_at: self.enqueued_at.clone(),
            updated_at: self.updated_at.clone(),
            not_before: self.not_before.clone(),
        }
    }
}

/// One write of an accepted submission.
#[derive(Debug, PartialEq, Eq)]
pub struct Accepted {
    pub id: WriteId,
    pub device: DeviceId,
    pub epoch: u64,
}

pub struct AcceptedModel {
    pub id: Seq<char>,
    pub device: Seq<char>,
    pub epoch: u64,
}

impl View for Accepted {
    type V = AcceptedModel;

    open spec fn view(&self) -> AcceptedModel {
        AcceptedModel { id: self.id@, device: self.device@, epoch: self.epoch }
    }
}

impl Clone for Accepted {
    fn clone(&self) -> (r: Self)
        ensures
            r@ == self@,
    {
        Accepted { id: self.id.clone(), device: self.device.clone(), epoch: self.epoch }
    }
}

/// What a submission became: a write for each target, and their batch.
#[derive(Debug, PartialEq, Eq)]
pub struct Acceptance {
    pub batch: Option<BatchId>,
    pub writes: Vec<Accepted>,
}

pub struct AcceptanceModel {
    pub batch: Option<Seq<char>>,
    pub writes: Seq<AcceptedModel>,
}

impl View for Acceptance {
    type V = AcceptanceModel;

    open spec fn view(&self) -> AcceptanceModel {
        AcceptanceModel {
            batch: option_view(self.batch),
            writes: self.writes@.map_values(|w: Accepted| w@),
        }
    }
}

impl Clone for Acceptance {
    fn clone(&self) -> (r: Self)
        ensures
            r@ == self@,
    {
        let mut writes: Vec<Accepted> = Vec::new();
        let mut i: usize = 0;
        while i < self.writes.len()
            invariant
                i <= self.writes.len(),
                writes.len() == i,
                forall|j: int| 0 <= j < i ==> (#[trigger] writes@[j])@ == self.writes@[j]@,
            decreases self.writes.len() - i,
        {
            writes.push(self.writes[i].clone());
            i = i + 1;
        }
        let r: Acceptance = Acceptance { batch: clone_option(&self.batch), writes };
        proof {
            assert(r@.writes =~= self@.writes);
        }
        r
    }
}

/// What a group was last told that a field should be.
#[derive(Debug, PartialEq, Eq)]
pub struct GroupExpectation {
    pub field: FieldName,
    pub value: ReadValue,
    pub since: Timestamp,
}

pub struct ExpectationModel {
    pub field: Seq<char>,
    pub value: ValueModel,
    pub since: Seq<char>,
}

impl View for GroupExpectation {
    type V = ExpectationModel;

    open spec fn view(&self) -> ExpectationModel {
        ExpectationModel { field: self.field@, value: self.value@, since: self.since@ }
    }
}

impl Clone for GroupExpectation {
    fn clone(&self) -> (r: Self)
        ensures
            r@ == self@,
    {
        GroupExpectation {
            field: self.field.clone(),
            value: self.value.clone(),
            since: self.since.clone(),
        }
    }
}

// ---- failures --------------------------------------------------------------

/// The class of a failure on the wire.
#[derive(Debug, Clone, Copy, PartialEq, Eq, Structural)]
pub enum ErrorCode {
    Conflict,
    Internal,
}

/// A failure as a caller sees it.
#[derive(Debug, PartialEq, Eq)]
pub struct ApiError {
    pub code: ErrorCode,
    pub message: String,
    pub rejection: Option<Rejection>,
}

impl ApiError {
    pub fn coded(code: ErrorCode, message: String) -> (r: Self)
        ensures
            r == (ApiError { code, message, rejection: None }),
    {
        ApiError { code, message, rejection: None }
    }

    /// A refusal of the admission table.
    pub fn rejected(rejection: Rejection, message: String) -> (r: Self)
        ensures
            r == (ApiError { code: ErrorCode::Conflict, message, rejection: Some(rejection) }),
    {
        ApiError { code: ErrorCode::Conflict, message, rejection: Some(rejection) }
    }
}

} // verus!
