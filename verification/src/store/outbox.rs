//! Admission of writes: what a device may be asked to do, and what each request
//! makes of the device's phase.

use vstd::prelude::*;
use crate::api;
use crate::api::{
    Barrier, BatchId, DesiredRecordingState, DeviceId, GroupId, Intent, IntentModel, Phase,
    ReadValue, RecordModel, RecordingState, Rejection, ValueModel, WriteId, WriteRecord,
};
use crate::text;
use crate::time::{Duration, Timestamp};

verus! {

/// How long a group waits for its members, and what happens when it has waited
/// long enough.
#[derive(Debug, Clone, Copy, PartialEq, Eq, Structural)]
pub struct BarrierPolicy {
    pub timeout: Duration,
    pub on_timeout: Barrier,
}

pub struct BarrierModel {
    pub timeout: nat,
    pub on_timeout: Barrier,
}

impl View for BarrierPolicy {
    type V = BarrierModel;

    open spec fn view(&self) -> BarrierModel {
        BarrierModel { timeout: self.timeout@, on_timeout: self.on_timeout }
    }
}

/// One request, addressed to one device or to every member of a group.
#[derive(Debug, PartialEq, Eq)]
pub struct Submission {
    /// The id of each write, one for each target.
    pub ids: Vec<WriteId>,
    pub targets: Vec<DeviceId>,
    /// The group that was addressed, if one was.
    pub group: Option<GroupId>,
    /// The batch that the writes act in as one, if they do.
    pub batch: Option<BatchId>,
    pub barrier: Option<BarrierPolicy>,
    pub intent: Intent,
    pub at: Timestamp,
    /// When present, a repeat with the same key gets the original writes back.
    pub idempotency_key: Option<String>,
}

pub struct SubmissionModel {
    pub ids: Seq<Seq<char>>,
    pub targets: Seq<Seq<char>>,
    pub group: Option<Seq<char>>,
    pub batch: Option<Seq<char>>,
    pub barrier: Option<BarrierModel>,
    pub intent: IntentModel,
    pub at: Seq<char>,
    pub idempotency_key: Option<Seq<char>>,
}

impl View for Submission {
    type V = SubmissionModel;

    open spec fn view(&self) -> SubmissionModel {
        SubmissionModel {
            ids: text::views(self.ids@),
            targets: text::views(self.targets@),
            group: api::option_view(self.group),
            batch: api::option_view(self.batch),
            barrier: match self.barrier {
                Some(b) => Some(b@),
                None => None,
            },
            intent: self.intent@,
            at: self.at@,
            idempotency_key: api::option_view(self.idempotency_key),
        }
    }
}

/// Why a submission did not become queued writes.
#[derive(Debug, PartialEq, Eq)]
pub enum SubmitError {
    /// The admission table refused it for one device.
    Rejected {
        device: DeviceId,
        rejection: Rejection,
        desired_recording_state: DesiredRecordingState,
    },
    /// The submission makes no sense.
    Malformed(String),
    /// The storage backend failed.
    Backend(String),
}

pub enum SubmitErrorModel {
    Rejected { device: Seq<char>, rejection: Rejection, desired_recording_state: Phase },
    Malformed(Seq<char>),
    Backend(Seq<char>),
}

impl View for SubmitError {
    type V = SubmitErrorModel;

    open spec fn view(&self) -> SubmitErrorModel {
        match self {
            SubmitError::Rejected { device, rejection, desired_recording_state } =>
                SubmitErrorModel::Rejected {
                device: device@,
                rejection: *rejection,
                desired_recording_state: *desired_recording_state,
            },
            SubmitError::Malformed(m) => SubmitErrorModel::Malformed(m@),
            SubmitError::Backend(m) => SubmitErrorModel::Backend(m@),
        }
    }
}

/// What became of a claimed write.
#[derive(Debug, PartialEq, Eq)]
pub enum Outcome {
    Succeeded(ReadValue),
    Failed(String),
}

pub enum OutcomeModel {
    Succeeded(ValueModel),
    Failed(Seq<char>),
}

impl View for Outcome {
    type V = OutcomeModel;

    open spec fn view(&self) -> OutcomeModel {
        match self {
            Outcome::Succeeded(v) => OutcomeModel::Succeeded(v@),
            Outcome::Failed(m) => OutcomeModel::Failed(m@),
        }
    }
}

/// What a claim hands out: one write, or the writes of a batch in device order.
#[derive(Debug, PartialEq, Eq)]
pub enum Claim {
    One(WriteRecord),
    Batch { id: BatchId, records: Vec<WriteRecord> },
}

pub enum ClaimModel {
    One(RecordModel),
    Batch { id: Seq<char>, records: Seq<RecordModel> },
}

impl View for Claim {
    type V = ClaimModel;

    open spec fn view(&self) -> ClaimModel {
        match self {
            Claim::One(r) => ClaimModel::One(r@),
            Claim::Batch { id, records } => ClaimModel::Batch {
                id: id@,
                records: records@.map_values(|r: WriteRecord| r@),
            },
        }
    }
}

// ---- the admission table ---------------------------------------------------

/// An intent without its payload.
#[derive(Debug, Clone, Copy, PartialEq, Eq, Structural)]
pub enum Verb {
    Start,
    Stop,
    Pause,
    WriteMetadata,
    WriteSetting,
}

pub open spec fn verb_of(intent: IntentModel) -> Verb {
    match intent {
        IntentModel::StartRecording => Verb::Start,
        IntentModel::StopRecording => Verb::Stop,
        IntentModel::PauseRecording => Verb::Pause,
        IntentModel::SetMetadata { .. } => Verb::WriteMetadata,
        IntentModel::SetSetting { .. } => Verb::WriteSetting,
    }
}

impl Verb {
    pub fn of(intent: &Intent) -> (r: Self)
        ensures
            r == verb_of(intent@),
    {
        match intent {
            Intent::StartRecording => Verb::Start,
            Intent::StopRecording => Verb::Stop,
            Intent::PauseRecording => Verb::Pause,
            Intent::SetMetadata { .. } => Verb::WriteMetadata,
            Intent::SetSetting { .. } => Verb::WriteSetting,
        }
    }
}

/// The admission decision. A device that is idle can be started; one that is
/// recording or paused can be stopped, one that is recording paused, and one
/// that is paused resumed. Metadata is frozen while a recording is in progress;
/// settings never are.
pub open spec fn admission(phase: Phase, verb: Verb) -> Result<Phase, Rejection> {
    match verb {
        Verb::Start => if phase == Phase::Recording {
            Err(Rejection::AlreadyRecording)
        } else {
            Ok(Phase::Recording)
        },
        Verb::Stop => if phase == Phase::Idle {
            Err(Rejection::NotRecording)
        } else {
            Ok(Phase::Idle)
        },
        Verb::Pause => match phase {
            Phase::Idle => Err(Rejection::NotRecording),
            Phase::Recording => Ok(Phase::Paused),
            Phase::Paused => Err(Rejection::AlreadyPaused),
        },
        Verb::WriteMetadata => if phase == Phase::Idle {
            Ok(phase)
        } else {
            Err(Rejection::MetadataFrozen)
        },
        Verb::WriteSetting => Ok(phase),
    }
}

/// The phase that an admitted verb puts a device in, or why it is refused.
pub fn admit_verb(phase: Phase, verb: Verb) -> (r: Result<Phase, Rejection>)
    ensures
        r == admission(phase, verb),
{
    match (phase, verb) {
        (Phase::Idle, Verb::Start) => Ok(Phase::Recording),
        (Phase::Idle, Verb::Stop) => Err(Rejection::NotRecording),
        (Phase::Idle, Verb::Pause) => Err(Rejection::NotRecording),
        (Phase::Idle, Verb::WriteMetadata) => Ok(Phase::Idle),
        (Phase::Idle, Verb::WriteSetting) => Ok(Phase::Idle),
        (Phase::Recording, Verb::Start) => Err(Rejection::AlreadyRecording),
        (Phase::Recording, Verb::Stop) => Ok(Phase::Idle),
        (Phase::Recording, Verb::Pause) => Ok(Phase::Paused),
        (Phase::Recording, Verb::WriteMetadata) => Err(Rejection::MetadataFrozen),
        (Phase::Recording, Verb::WriteSetting) => Ok(Phase::Recording),
        (Phase::Paused, Verb::Start) => Ok(Phase::Recording),
        (Phase::Paused, Verb::Stop) => Ok(Phase::Idle),
        (Phase::Paused, Verb::Pause) => Err(Rejection::AlreadyPaused),
        (Phase::Paused, Verb::WriteMetadata) => Err(Rejection::MetadataFrozen),
        (Phase::Paused, Verb::WriteSetting) => Ok(Phase::Paused),
    }
}

/// The phase once the device itself has spoken.
pub open spec fn reconciled(phase: Phase, observed: RecordingState) -> Phase {
    match observed {
        RecordingState::Unknown => phase,
        RecordingState::Stopped => Phase::Idle,
        RecordingState::Started => Phase::Recording,
        RecordingState::Paused => Phase::Paused,
    }
}

/// Folds an observed state into the phase: the device is right, unless it says
/// nothing.
pub fn reconcile(phase: Phase, observed: RecordingState) -> (r: Phase)
    ensures
        r == reconciled(phase, observed),
{
    match (phase, observed) {
        (p, RecordingState::Unknown) => p,
        (_, RecordingState::Stopped) => Phase::Idle,
        (_, RecordingState::Started) => Phase::Recording,
        (_, RecordingState::Paused) => Phase::Paused,
    }
}

pub open spec fn opens(before: Phase, after: Phase) -> bool {
    before == Phase::Idle && after == Phase::Recording
}

/// Whether a transition begins a new recording. A resume does not.
pub fn opens_recording(before: Phase, after: Phase) -> (r: bool)
    ensures
        r == opens(before, after),
{
    matches!((before, after), (Phase::Idle, Phase::Recording))
}

/// The phase once a write with this verb has failed for good.
pub open spec fn rolled_back(phase: Phase, verb: Verb) -> Phase {
    match verb {
        Verb::Start => if phase == Phase::Recording {
            Phase::Idle
        } else {
            phase
        },
        Verb::Stop => if phase == Phase::Idle {
            Phase::Recording
        } else {
            phase
        },
        Verb::Pause => if phase == Phase::Paused {
            Phase::Recording
        } else {
            phase
        },
        Verb::WriteMetadata => phase,
        Verb::WriteSetting => phase,
    }
}

/// Undoes the phase change a verb caused, where the phase is still the one it
/// caused.
pub fn rollback(phase: Phase, verb: Verb) -> (r: Phase)
    ensures
        r == rolled_back(phase, verb),
{
    match (phase, verb) {
        (Phase::Recording, Verb::Start) => Phase::Idle,
        (Phase::Idle, Verb::Stop) => Phase::Recording,
        (Phase::Paused, Verb::Pause) => Phase::Recording,
        (other, _) => other,
    }
}

/// The take that a write admitted from `before` belongs to: while idle, the next.
pub open spec fn take_of(before: Phase, epoch: u64) -> u64 {
    if before == Phase::Idle {
        (epoch + 1) as u64
    } else {
        epoch
    }
}

/// The epoch of a write admitted from `before` into `after`.
pub fn epoch_of(before: Phase, after: Phase, epoch: u64) -> (r: u64)
    requires
        before == Phase::Idle ==> epoch < u64::MAX,
    ensures
        r == take_of(before, epoch),
{
    match (before, after) {
        (Phase::Idle, _) => epoch + 1,
        _ => epoch,
    }
}

// ---- laws of the table -----------------------------------------------------

/// Each intent is its own verb.
pub proof fn each_intent_has_its_verb(field: Seq<char>, value: Seq<char>)
    ensures
        verb_of(IntentModel::StartRecording) == Verb::Start,
        verb_of(IntentModel::StopRecording) == Verb::Stop,
        verb_of(IntentModel::PauseRecording) == Verb::Pause,
        verb_of(IntentModel::SetMetadata { field, value }) == Verb::WriteMetadata,
        verb_of(IntentModel::SetSetting { field, value }) == Verb::WriteSetting,
{
}

/// A recording starts from idle and from a pause, stops from anywhere but idle,
/// and pauses from recording alone; what is refused says in which way it came too
/// late or too early.
pub proof fn a_recording_runs_from_start_to_stop()
    ensures
        admission(Phase::Idle, Verb::Start) == Ok::<Phase, Rejection>(Phase::Recording),
        admission(Phase::Paused, Verb::Start) == Ok::<Phase, Rejection>(Phase::Recording),
        admission(Phase::Recording, Verb::Start) == Err::<Phase, Rejection>(
            Rejection::AlreadyRecording,
        ),
        admission(Phase::Recording, Verb::Stop) == Ok::<Phase, Rejection>(Phase::Idle),
        admission(Phase::Paused, Verb::Stop) == Ok::<Phase, Rejection>(Phase::Idle),
        admission(Phase::Idle, Verb::Stop) == Err::<Phase, Rejection>(Rejection::NotRecording),
        admission(Phase::Recording, Verb::Pause) == Ok::<Phase, Rejection>(Phase::Paused),
        admission(Phase::Idle, Verb::Pause) == Err::<Phase, Rejection>(Rejection::NotRecording),
        admission(Phase::Paused, Verb::Pause) == Err::<Phase, Rejection>(Rejection::AlreadyPaused),
        admission(Phase::Recording, Verb::WriteMetadata) == Err::<Phase, Rejection>(
            Rejection::MetadataFrozen,
        ),
        admission(Phase::Paused, Verb::WriteMetadata) == Err::<Phase, Rejection>(
            Rejection::MetadataFrozen,
        ),
        forall|phase: Phase| #[trigger] admission(phase, Verb::WriteSetting) is Ok,
{
}

/// A command that was admitted is refused if it comes again at once, and a device
/// that reports the state it was asked for agrees with the phase.
pub proof fn a_report_of_what_was_asked_changes_nothing(phase: Phase, intent: IntentModel)
    requires
        admission(phase, verb_of(intent)) is Ok,
        intent is StartRecording || intent is StopRecording || intent is PauseRecording,
    ensures
        match crate::store::group::expectation(intent).1 {
            ValueModel::State(state) => reconciled(
                admission(phase, verb_of(intent))->Ok_0,
                state,
            ) == admission(phase, verb_of(intent))->Ok_0,
            _ => false,
        },
        admission(admission(phase, verb_of(intent))->Ok_0, verb_of(intent)) is Err,
{
}

/// What a device reports is the phase it is in.
pub proof fn each_report_has_its_phase(phase: Phase)
    ensures
        reconciled(phase, RecordingState::Stopped) == Phase::Idle,
        reconciled(phase, RecordingState::Started) == Phase::Recording,
        reconciled(phase, RecordingState::Paused) == Phase::Paused,
        reconciled(phase, RecordingState::Unknown) == phase,
{
}

/// A failed command is undone only where the phase is still the one it led to; a
/// phase that has moved on since stays.
pub proof fn a_phase_that_moved_on_is_not_undone(phase: Phase, verb: Verb)
    ensures
        rolled_back(phase, Verb::Start) == if phase == Phase::Recording {
            Phase::Idle
        } else {
            phase
        },
        rolled_back(phase, Verb::Stop) == if phase == Phase::Idle {
            Phase::Recording
        } else {
            phase
        },
        rolled_back(phase, Verb::Pause) == if phase == Phase::Paused {
            Phase::Recording
        } else {
            phase
        },
        (forall|from: Phase|
            #[trigger] admission(from, verb) is Ok ==> admission(from, verb)->Ok_0 != phase)
            ==> rolled_back(phase, verb) == phase,
{
    assert(admission(Phase::Idle, Verb::Start) is Ok);
    assert(admission(Phase::Recording, Verb::Stop) is Ok);
    assert(admission(Phase::Recording, Verb::Pause) is Ok);
}

/// Only a start from idle opens a take.
pub proof fn only_a_start_from_idle_opens_a_take(before: Phase, after: Phase)
    ensures
        opens(before, after) <==> before == Phase::Idle && after == Phase::Recording,
{
}

/// Metadata is writable exactly when no recording is in progress.
pub proof fn metadata_is_writable_exactly_when_idle(phase: Phase)
    ensures
        admission(phase, Verb::WriteMetadata) is Ok <==> phase == Phase::Idle,
{
}

/// A write never moves the phase, neither when it is admitted nor when it fails.
pub proof fn a_write_moves_no_phase(phase: Phase, verb: Verb)
    requires
        verb == Verb::WriteMetadata || verb == Verb::WriteSetting,
    ensures
        admission(phase, verb) is Ok ==> admission(phase, verb)->Ok_0 == phase,
        rolled_back(phase, verb) == phase,
{
}

/// A start that fails for good leaves the device's metadata writable.
pub proof fn a_failed_start_stops_freezing_metadata(phase: Phase)
    requires
        admission(phase, Verb::Start) is Ok,
    ensures
        admission(
            rolled_back(admission(phase, Verb::Start)->Ok_0, Verb::Start),
            Verb::WriteMetadata,
        ) is Ok,
{
}

/// Undoing a failed write restores the phase it was admitted from, except for a
/// resume and for a stop of a paused recording, whose phase the verb does not tell.
pub proof fn rollback_undoes_admission(phase: Phase, verb: Verb)
    requires
        admission(phase, verb) is Ok,
        !(phase == Phase::Paused && (verb == Verb::Start || verb == Verb::Stop)),
    ensures
        rolled_back(admission(phase, verb)->Ok_0, verb) == phase,
{
}

/// The device is the authority on its state whenever it reports one.
pub proof fn the_device_wins_unless_it_says_nothing(a: Phase, b: Phase, observed: RecordingState)
    ensures
        observed != RecordingState::Unknown ==> reconciled(a, observed) == reconciled(b, observed),
        reconciled(a, RecordingState::Unknown) == a,
        reconciled(reconciled(a, observed), observed) == reconciled(a, observed),
{
}

/// Metadata written while idle belongs to the take that the next start opens, and
/// nothing admitted during a take belongs to another.
pub proof fn metadata_shares_the_epoch_of_its_take(epoch: u64)
    requires
        epoch < u64::MAX,
    ensures
        take_of(Phase::Idle, epoch) == epoch + 1,
        take_of(Phase::Recording, epoch) == epoch,
        take_of(Phase::Paused, epoch) == epoch,
        opens(Phase::Idle, Phase::Recording),
        !opens(Phase::Paused, Phase::Recording),
{
}

} // verus!
