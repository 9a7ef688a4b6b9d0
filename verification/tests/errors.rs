//! What a caller is told of a failure.

use sismatic::api::{ErrorCode, Phase, Rejection};
use sismatic::store::error::{
    api_error_of_read, api_error_of_submit, api_error_of_write, phase_name, ReadError, WriteError,
};
use sismatic::store::outbox::SubmitError;

#[test]
fn a_store_failure_is_an_internal_one() {
    let read = api_error_of_read(&ReadError::backend("disk gone"));
    assert_eq!(read.code, ErrorCode::Internal);
    assert_eq!(read.message, "store read failed: disk gone");
    assert_eq!(read.rejection, None);
    let write = api_error_of_write(&WriteError::backend("disk full"));
    assert_eq!(write.code, ErrorCode::Internal);
    assert_eq!(write.message, "store write failed: disk full");
}

#[test]
fn a_refused_submission_names_the_device_and_its_phase() {
    let refused = api_error_of_submit(SubmitError::Rejected {
        device: "atrium".to_owned(),
        rejection: Rejection::MetadataFrozen,
        desired_recording_state: Phase::Recording,
    });
    assert_eq!(refused.code, ErrorCode::Conflict);
    assert_eq!(refused.rejection, Some(Rejection::MetadataFrozen));
    assert_eq!(
        refused.message,
        "metadata_frozen (device 'atrium', phase: recording)"
    );
}

#[test]
fn other_submission_failures_are_internal() {
    let malformed = api_error_of_submit(SubmitError::Malformed("no targets".to_owned()));
    assert_eq!(malformed.code, ErrorCode::Internal);
    assert_eq!(malformed.message, "malformed submission: no targets");
    let backend = api_error_of_submit(SubmitError::Backend("disk full".to_owned()));
    assert_eq!(backend.code, ErrorCode::Internal);
    assert_eq!(backend.message, "disk full");
}

#[test]
fn phases_and_rejections_are_spelled_as_on_the_wire() {
    assert_eq!(phase_name(Phase::Idle), "idle");
    assert_eq!(phase_name(Phase::Paused), "paused");
    assert_eq!(Rejection::NotRecording.name(), "not_recording");
    assert_eq!(Rejection::AlreadyRecording.name(), "already_recording");
    assert_eq!(Rejection::AlreadyPaused.name(), "already_paused");
}
