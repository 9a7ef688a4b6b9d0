//! What values, states and failures are called outside the process.

use vstd::prelude::*;
use vstd::string::*;
use crate::api;
use crate::api::{AlarmModel, Barrier, ErrorCode, Phase, Rejection, TimeSpan, ValueModel};
use crate::inventory::export::barrier_spelling;
use crate::protocol::states;
use crate::protocol::value::{hyphenated, state_in, DecodedModel};
use crate::store::error::{phase_spelling, submit_failure, ApiErrorModel};
use crate::store::group::state_spelling;
use crate::store::outbox::SubmitErrorModel;
use crate::sync::dto::{wire_state, wire_value};
use crate::text;
use crate::web::{native_of, NativeModel};

verus! {

/// A recording state has one word, whether it is shown as the device reports it or
/// as it is recorded.
pub proof fn a_state_has_one_word(state: states::RecordingState)
    ensures
        state.spelling() == state_spelling(wire_state(state)),
        native_of(DecodedModel::State(state)) == NativeModel::Text(
            state_spelling(wire_state(state)),
        ),
{
}

/// The word for each recording state, as it is recorded and as a caller takes it.
pub proof fn each_state_is_recorded_as_itself()
    ensures
        wire_state(states::RecordingState::Stopped) == api::RecordingState::Stopped,
        wire_state(states::RecordingState::Started) == api::RecordingState::Started,
        wire_state(states::RecordingState::Paused) == api::RecordingState::Paused,
        wire_state(states::RecordingState::Unknown) == api::RecordingState::Unknown,
        state_spelling(api::RecordingState::Stopped) == "stopped"@,
        state_spelling(api::RecordingState::Started) == "started"@,
        state_spelling(api::RecordingState::Paused) == "paused"@,
        state_spelling(api::RecordingState::Unknown) == "unknown"@,
        native_of(DecodedModel::State(states::RecordingState::Stopped)) == NativeModel::Text(
            "stopped"@,
        ),
        native_of(DecodedModel::State(states::RecordingState::Started)) == NativeModel::Text(
            "started"@,
        ),
        native_of(DecodedModel::State(states::RecordingState::Paused)) == NativeModel::Text(
            "paused"@,
        ),
        native_of(DecodedModel::State(states::RecordingState::Unknown)) == NativeModel::Text(
            "unknown"@,
        ),
{
}

/// A decoded reply is recorded in its own shape with its own content, and taken by
/// a caller as an integer, a flag, a list or a text with the same content.
pub proof fn a_reply_keeps_its_content(
    s: Seq<char>,
    port: u16,
    n: u32,
    b: bool,
    bytes: Seq<u8>,
    pairs: Seq<(Seq<char>, Seq<char>)>,
    i: int,
)
    ensures
        wire_value(DecodedModel::Text(s)) == ValueModel::Text(s),
        wire_value(DecodedModel::Version(s)) == ValueModel::Version(s),
        wire_value(DecodedModel::Ack(s)) == ValueModel::Ack(s),
        wire_value(DecodedModel::Port(port)) == ValueModel::Port(port),
        wire_value(DecodedModel::Number(n)) == ValueModel::Number(n),
        wire_value(DecodedModel::Flag(b)) == ValueModel::Flag(b),
        wire_value(DecodedModel::Mac(bytes)) == ValueModel::Mac(hyphenated(bytes)),
        match wire_value(DecodedModel::Alarms(pairs)) {
            ValueModel::Alarms(alarms) => alarms.len() == pairs.len() && (0 <= i < pairs.len()
                ==> alarms[i] == AlarmModel { name: pairs[i].0, level: pairs[i].1 }),
            _ => false,
        },
        native_of(DecodedModel::Text(s)) == NativeModel::Text(s),
        native_of(DecodedModel::Version(s)) == NativeModel::Text(s),
        native_of(DecodedModel::Ack(s)) == NativeModel::Text(s),
        native_of(DecodedModel::Port(port)) == NativeModel::Integer(port as u32),
        native_of(DecodedModel::Number(n)) == NativeModel::Integer(n),
        native_of(DecodedModel::Flag(b)) == NativeModel::Flag(b),
        native_of(DecodedModel::Mac(bytes)) == NativeModel::Text(hyphenated(bytes)),
        native_of(DecodedModel::Alarms(pairs)) == NativeModel::Alarms(pairs),
{
}

/// Only a reply that is a recording state has one in it, and it is that one.
pub proof fn a_state_is_found_in_its_reply_alone(value: DecodedModel, s: states::RecordingState)
    ensures
        state_in(value) == Some(s) <==> value == DecodedModel::State(s),
{
}

/// The words for phases, refusals and barriers.
pub proof fn each_word_on_the_wire()
    ensures
        phase_spelling(Phase::Idle) == "idle"@,
        phase_spelling(Phase::Recording) == "recording"@,
        phase_spelling(Phase::Paused) == "paused"@,
        Rejection::NotRecording.spelling() == "not_recording"@,
        Rejection::AlreadyRecording.spelling() == "already_recording"@,
        Rejection::AlreadyPaused.spelling() == "already_paused"@,
        Rejection::MetadataFrozen.spelling() == "metadata_frozen"@,
        barrier_spelling(Barrier::FailBatch) == "fail_batch"@,
        barrier_spelling(Barrier::DispatchReady) == "dispatch_ready"@,
{
}

/// A refusal is a conflict that names its reason, the device and the phase the
/// device is in; any other failed submission is internal and has no reason of the
/// admission table.
pub proof fn a_refusal_is_the_callers_to_resolve(
    device: Seq<char>,
    rejection: Rejection,
    phase: Phase,
    msg: Seq<char>,
)
    ensures
        submit_failure(
            SubmitErrorModel::Rejected { device, rejection, desired_recording_state: phase },
        ) == (ApiErrorModel {
            code: ErrorCode::Conflict,
            message: rejection.spelling() + (" (device '"@ + (device + ("', phase: "@ + (
            phase_spelling(phase) + ")"@)))),
            rejection: Some(rejection),
        }),
        submit_failure(SubmitErrorModel::Malformed(msg)) == (ApiErrorModel {
            code: ErrorCode::Internal,
            message: "malformed submission: "@ + msg,
            rejection: None,
        }),
        submit_failure(SubmitErrorModel::Backend(msg)) == (ApiErrorModel {
            code: ErrorCode::Internal,
            message: msg,
            rejection: None,
        }),
{
    assert(rejection.spelling() + " (device '"@ + device + "', phase: "@ + phase_spelling(phase)
        + ")"@ =~= rejection.spelling() + (" (device '"@ + (device + ("', phase: "@ + (
    phase_spelling(phase) + ")"@)))));
}

/// A span holds its two ends and everything between them, and nothing before its
/// start or after its end.
pub proof fn a_span_holds_its_ends(span: TimeSpan, at: Seq<char>)
    ensures
        text::lex_lt(at, span.start@) ==> !span.covers(at),
        text::lex_lt(span.end@, at) ==> !span.covers(at),
        text::lex_lt(span.start@, at) && text::lex_lt(at, span.end@) ==> span.covers(at),
        !text::lex_lt(span.end@, span.start@) ==> span.covers(span.start@) && span.covers(
            span.end@,
        ),
{
    text::lex_irreflexive(span.start@);
    text::lex_irreflexive(span.end@);
    if text::lex_lt(span.start@, at) && text::lex_lt(at, span.start@) {
        text::lex_transitive(at, span.start@, at);
        text::lex_irreflexive(at);
    }
    if text::lex_lt(span.end@, at) && text::lex_lt(at, span.end@) {
        text::lex_transitive(at, span.end@, at);
        text::lex_irreflexive(at);
    }
}

} // verus!
