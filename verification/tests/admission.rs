//! Which writes are admitted, and what they do to a device's phase.

use sismatic::api::{Phase, RecordingState, Rejection};
use sismatic::store::outbox::{
    admit_verb, epoch_of, opens_recording, reconcile, rollback, Verb,
};

#[test]
fn the_admission_policy_is_a_table() {

    assert_eq!(admit_verb(Phase::Idle, Verb::Start), Ok(Phase::Recording));
    assert_eq!(admit_verb(Phase::Idle, Verb::Stop), Err(Rejection::NotRecording));
    assert_eq!(admit_verb(Phase::Idle, Verb::Pause), Err(Rejection::NotRecording));
    assert_eq!(admit_verb(Phase::Idle, Verb::WriteMetadata), Ok(Phase::Idle));
    assert_eq!(admit_verb(Phase::Idle, Verb::WriteSetting), Ok(Phase::Idle));
    assert_eq!(admit_verb(Phase::Recording, Verb::Start), Err(Rejection::AlreadyRecording));
    assert_eq!(admit_verb(Phase::Recording, Verb::Stop), Ok(Phase::Idle));
    assert_eq!(admit_verb(Phase::Recording, Verb::Pause), Ok(Phase::Paused));
    assert_eq!(admit_verb(Phase::Recording, Verb::WriteMetadata), Err(Rejection::MetadataFrozen));
    assert_eq!(admit_verb(Phase::Recording, Verb::WriteSetting), Ok(Phase::Recording));
    assert_eq!(admit_verb(Phase::Paused, Verb::Start), Ok(Phase::Recording));
    assert_eq!(admit_verb(Phase::Paused, Verb::Stop), Ok(Phase::Idle));
    assert_eq!(admit_verb(Phase::Paused, Verb::Pause), Err(Rejection::AlreadyPaused));
    assert_eq!(admit_verb(Phase::Paused, Verb::WriteMetadata), Err(Rejection::MetadataFrozen));
    assert_eq!(admit_verb(Phase::Paused, Verb::WriteSetting), Ok(Phase::Paused));
}

#[test]
fn metadata_is_writable_exactly_when_no_recording_is_in_progress() {
    for phase in [Phase::Idle, Phase::Recording, Phase::Paused] {
        assert_eq!(
            admit_verb(phase, Verb::WriteMetadata).is_ok(),
            phase == Phase::Idle,
            "metadata admissibility disagreed with the phase at {phase:?}"
        );
    }
}

#[test]
fn a_failed_start_stops_freezing_metadata() {
    let after_failure = rollback(Phase::Recording, Verb::Start);
    assert_eq!(after_failure, Phase::Idle);
    assert_eq!(admit_verb(after_failure, Verb::WriteMetadata), Ok(Phase::Idle));
}

#[test]
fn rolling_back_a_verb_that_moves_nothing_is_the_identity() {
    for phase in [Phase::Idle, Phase::Recording, Phase::Paused] {
        for verb in [Verb::WriteMetadata, Verb::WriteSetting] {
            assert_eq!(rollback(phase, verb), phase);
        }
    }
}

#[test]
fn rollback_leaves_a_phase_the_verb_did_not_produce() {
    assert_eq!(rollback(Phase::Paused, Verb::Stop), Phase::Paused);
    assert_eq!(rollback(Phase::Idle, Verb::Start), Phase::Idle);
    assert_eq!(rollback(Phase::Recording, Verb::Pause), Phase::Recording);
}

#[test]
fn reconcile_lets_the_device_win_except_when_it_says_nothing() {
    for phase in [Phase::Idle, Phase::Recording, Phase::Paused] {
        assert_eq!(reconcile(phase, RecordingState::Stopped), Phase::Idle);
        assert_eq!(reconcile(phase, RecordingState::Started), Phase::Recording);
        assert_eq!(reconcile(phase, RecordingState::Paused), Phase::Paused);
        assert_eq!(reconcile(phase, RecordingState::Unknown), phase);
    }
}

#[test]
fn the_epoch_advances_on_a_start_and_not_on_a_resume() {
    assert!(opens_recording(Phase::Idle, Phase::Recording));
    assert!(!opens_recording(Phase::Paused, Phase::Recording));

    assert_eq!(epoch_of(Phase::Idle, Phase::Idle, 4), 5);
    assert_eq!(epoch_of(Phase::Idle, Phase::Recording, 4), 5);
    assert_eq!(epoch_of(Phase::Recording, Phase::Recording, 5), 5);
    assert_eq!(epoch_of(Phase::Paused, Phase::Recording, 5), 5);
}
