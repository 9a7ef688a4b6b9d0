//! Writes waiting for their devices: admission, order, retries, and groups that
//! act as one.

use sismatic::api::{
    Acceptance, Barrier, DesiredRecordingState, DeviceDesiredRecordingState, GroupExpectation,
    Intent, ReadValue, RecordingState, Rejection, WriteId, WriteStatus,
};
use sismatic::memory::outbox::MemoryOutbox;
use sismatic::store::error::WriteError;
use sismatic::store::outbox::{BarrierPolicy, Claim, Outcome, Submission, SubmitError};
use sismatic::time::{Duration, Timestamp};

const T0: &str = "2026-08-17T00:00:00.000Z";
const DEV: &str = "sim";

fn at(s: &str) -> Timestamp {
    Timestamp(s.to_owned())
}

fn at_plus(secs: u32) -> Timestamp {
    at(&format!("2026-08-17T00:00:{secs:02}.000Z"))
}

fn outbox() -> MemoryOutbox {
    MemoryOutbox::with_max_attempts(3).with_backoff(Duration::from_secs(0))
}

fn title(value: &str) -> Intent {
    Intent::SetMetadata {
        field: "TITLE".to_owned(),
        value: value.to_owned(),
    }
}

fn one(id: &str, intent: Intent) -> Submission {
    Submission {
        ids: vec![id.to_owned()],
        targets: vec![DEV.to_owned()],
        group: None,
        batch: None,
        barrier: None,
        intent,
        at: at(T0),
        idempotency_key: None,
    }
}

fn submit(
    outbox: &mut MemoryOutbox,
    id: &str,
    intent: Intent,
) -> Result<Acceptance, SubmitError> {
    outbox.submit(one(id, intent))
}

fn dispatch(outbox: &mut MemoryOutbox, outcome: Outcome) -> Option<WriteId> {
    let claimed = outbox
        .claim_next(DEV, &at(T0))
        .expect("claim")?;
    let Claim::One(record) = claimed else {
        panic!("expected a lone write, got a batch");
    };
    outbox
        .settle(&record.id, outcome, &at(T0))
        .expect("settle");
    Some(record.id)
}

fn desired_recording_state_of(
    outbox: &MemoryOutbox,
    device: &str,
) -> DeviceDesiredRecordingState {
    outbox
        .desired_recording_state(device)
        .expect("desired_recording_state")
}

fn status_of(outbox: &MemoryOutbox, id: &str) -> WriteStatus {
    outbox
        .write(id)
        .expect("read")
        .expect("the write exists")
        .status
}

#[test]
fn a_submission_with_no_targets_is_refused_as_malformed() {
    let mut outbox = outbox();
    let mut s = one("cmd", title("a"));
    s.targets.clear();
    s.ids.clear();
    assert_eq!(
        outbox.submit(s).unwrap_err(),
        SubmitError::Malformed("no targets".into())
    );
}

#[test]
fn a_submission_whose_ids_and_targets_disagree_is_refused() {
    let mut outbox = outbox();
    let mut s = one("cmd", title("a"));
    s.targets.push("other".to_owned());
    assert!(matches!(
        outbox.submit(s).unwrap_err(),
        SubmitError::Malformed(_)
    ));
}

#[test]
fn metadata_is_frozen_from_the_moment_a_start_is_accepted() {
    let mut outbox = outbox();

    assert!(submit(&mut outbox, "a", title("before")).is_ok());
    assert!(submit(&mut outbox, "b", Intent::StartRecording).is_ok());
    assert_eq!(
        submit(&mut outbox, "c", title("during")).unwrap_err(),
        SubmitError::Rejected {
            device: DEV.to_owned(),
            rejection: Rejection::MetadataFrozen,
            desired_recording_state: DesiredRecordingState::Recording,
        }
    );
    assert!(submit(&mut outbox, "d", Intent::StopRecording).is_ok());
    assert!(submit(&mut outbox, "e", title("after")).is_ok());
}

#[test]
fn a_setting_is_writable_during_a_recording() {
    let mut outbox = outbox();
    submit(&mut outbox, "a", Intent::StartRecording).unwrap();
    assert!(
        submit(
            &mut outbox,
            "b",
            Intent::SetSetting {
                field: "TIMEZONE".to_owned(),
                value: "UTC".to_owned(),
            }
        )
        .is_ok()
    );
}

#[test]
fn an_unknown_device_is_idle_at_epoch_zero() {
    assert_eq!(
        desired_recording_state_of(&outbox(), "never-heard-of"),
        DeviceDesiredRecordingState {
            desired_recording_state: DesiredRecordingState::Idle,
            epoch: 0
        }
    );
}

#[test]
fn metadata_prepared_for_a_take_shares_that_takes_epoch() {
    let mut outbox = outbox();
    let epoch = |a: Acceptance| a.writes[0].epoch;

    let first = submit(&mut outbox, "a", title("Week 4")).map(epoch);
    let presenter = submit(
        &mut outbox,
        "b",
        Intent::SetMetadata {
            field: "PRESENTER".to_owned(),
            value: "Komar".to_owned(),
        },
    )
    .map(epoch);
    let start = submit(&mut outbox, "c", Intent::StartRecording)
        .map(epoch);
    assert_eq!((first, presenter, start), (Ok(1), Ok(1), Ok(1)));

    submit(&mut outbox, "d", Intent::StopRecording).unwrap();
    assert_eq!(
        submit(&mut outbox, "e", title("Week 5")).map(epoch),
        Ok(2),
        "a new take must get a new epoch"
    );
}

#[test]
fn pausing_and_resuming_stays_in_one_epoch() {
    let mut outbox = outbox();
    submit(&mut outbox, "a", Intent::StartRecording).unwrap();
    submit(&mut outbox, "b", Intent::PauseRecording).unwrap();
    let resumed = submit(&mut outbox, "c", Intent::StartRecording).unwrap();
    assert_eq!(resumed.writes[0].epoch, 1);
    assert_eq!(desired_recording_state_of(&outbox, DEV).epoch, 1);
}

#[test]
fn claiming_follows_submission_order() {
    let mut outbox = outbox();
    submit(&mut outbox, "first", title("a")).unwrap();
    submit(&mut outbox, "second", title("b")).unwrap();
    submit(&mut outbox, "third", Intent::StartRecording)
        .unwrap();

    let mut claimed = Vec::new();
    while let Some(id) = dispatch(&mut outbox, Outcome::Succeeded(ReadValue::Flag(true))) {
        claimed.push(id);
    }
    assert_eq!(claimed, ["first", "second", "third"]);
}

#[test]
fn an_empty_queue_claims_nothing() {
    assert_eq!(
        { outbox() }.claim_next(DEV, &at(T0)).unwrap(),
        None
    );
}

#[test]
fn a_retry_is_re_dispatched_before_later_writes() {
    let mut outbox = outbox();
    submit(&mut outbox, "write", title("a")).unwrap();
    submit(&mut outbox, "start", Intent::StartRecording)
        .unwrap();

    assert_eq!(
        dispatch(&mut outbox, Outcome::Failed("ssh died".into()))
            .as_deref(),
        Some("write")
    );
    assert_eq!(
        dispatch(&mut outbox, Outcome::Succeeded(ReadValue::Flag(true)))
            .as_deref(),
        Some("write"),
        "the retry must not be overtaken by the start behind it"
    );
}

#[test]
fn attempts_are_counted_and_exhausted() {
    let mut outbox = outbox();
    submit(&mut outbox, "cmd", title("a")).unwrap();
    for _ in 0..3 {
        dispatch(&mut outbox, Outcome::Failed("down".into()));
    }
    assert_eq!(
        outbox.claim_next(DEV, &at(T0)).unwrap(),
        None
    );
    let record = outbox.write("cmd").unwrap().unwrap();
    assert_eq!(record.attempts, 3);
    assert_eq!(
        record.status,
        WriteStatus::Failed {
            reason: "down".to_owned()
        }
    );
}

#[test]
fn a_backing_off_write_holds_the_queue() {
    let mut outbox = MemoryOutbox::with_max_attempts(3).with_backoff(Duration::from_secs(60));
    submit(&mut outbox, "write", title("a")).unwrap();
    submit(&mut outbox, "start", Intent::StartRecording)
        .unwrap();
    dispatch(&mut outbox, Outcome::Failed("down".into()));

    assert_eq!(
        outbox.claim_next(DEV, &at_plus(1)).unwrap(),
        None
    );
    let due = outbox
        .claim_next(DEV, &at("2026-08-17T00:01:00.000Z"))
        .unwrap();
    assert!(matches!(due, Some(Claim::One(r)) if r.id == "write"));
}

#[test]
fn settling_a_write_twice_is_refused() {
    let mut outbox = outbox();
    submit(&mut outbox, "cmd", title("a")).unwrap();
    dispatch(&mut outbox, Outcome::Succeeded(ReadValue::Flag(true)));
    assert_eq!(
        outbox
            .settle("cmd", Outcome::Failed("late".into()), &at(T0)),
        Err(WriteError::backend(
            "settling a write that was not in flight"
        ))
    );
}

#[test]
fn a_start_that_never_reached_the_device_unfreezes_metadata() {
    let mut outbox = MemoryOutbox::with_max_attempts(1).with_backoff(Duration::from_secs(0));
    submit(&mut outbox, "start", Intent::StartRecording)
        .unwrap();
    assert_eq!(
        desired_recording_state_of(&outbox, DEV)
            .desired_recording_state,
        DesiredRecordingState::Recording
    );

    dispatch(&mut outbox, Outcome::Failed("device unreachable".into()));

    assert_eq!(
        desired_recording_state_of(&outbox, DEV)
            .desired_recording_state,
        DesiredRecordingState::Idle
    );
    assert!(submit(&mut outbox, "title", title("a")).is_ok());
}

#[test]
fn an_observed_recording_freezes_metadata_this_process_never_started() {
    let mut outbox = outbox();
    assert!(submit(&mut outbox, "before", title("a")).is_ok());
    outbox
        .observe(DEV, RecordingState::Started)
        .unwrap();
    assert!(submit(&mut outbox, "after", title("b")).is_err());
    assert_eq!(desired_recording_state_of(&outbox, DEV).epoch, 1);
}

#[test]
fn an_unknown_observed_state_changes_nothing() {
    let mut outbox = outbox();
    submit(&mut outbox, "start", Intent::StartRecording)
        .unwrap();
    outbox
        .observe(DEV, RecordingState::Unknown)
        .unwrap();
    assert_eq!(
        desired_recording_state_of(&outbox, DEV)
            .desired_recording_state,
        DesiredRecordingState::Recording
    );
}

#[test]
fn a_repeated_key_returns_the_original_write() {
    let mut outbox = outbox();
    let submission = |id: &str| Submission {
        idempotency_key: Some("take-4".to_owned()),
        ..one(id, Intent::StartRecording)
    };

    let first = outbox.submit(submission("one")).unwrap();
    let second = outbox.submit(submission("two")).unwrap();

    assert_eq!(first, second);
    assert_eq!(outbox.writes_for(DEV).unwrap().len(), 1);
}

#[test]
fn writes_are_listed_newest_first_and_scoped_to_one_device() {
    let mut outbox = outbox();
    submit(&mut outbox, "first", title("a")).unwrap();
    submit(&mut outbox, "second", title("b")).unwrap();
    outbox
        .submit(Submission {
            targets: vec!["other".to_owned()],
            ..one("elsewhere", title("c"))
        })
        .unwrap();

    let ids: Vec<_> = outbox
        .writes_for(DEV)
        .unwrap()
        .into_iter()
        .map(|r| r.id)
        .collect();
    assert_eq!(ids, ["second", "first"]);
}

#[test]
fn an_unknown_write_is_absence_not_an_error() {
    let mut outbox = outbox();
    assert_eq!(outbox.write("nope").unwrap(), None);
    assert_eq!(
        outbox.writes_for("nobody").unwrap(),
        Vec::new()
    );
}

#[test]
fn only_claimed_writes_are_in_flight() {
    let mut outbox = outbox();
    submit(&mut outbox, "claimed", title("a")).unwrap();
    submit(&mut outbox, "queued", title("b")).unwrap();
    outbox.claim_next(DEV, &at(T0)).unwrap();

    let stranded = outbox.in_flight(DEV).unwrap();
    assert_eq!(
        stranded.iter().map(|r| r.id.as_str()).collect::<Vec<_>>(),
        ["claimed"]
    );
}

const A: &str = "atrium";
const B: &str = "annex";
const GROUP: &str = "atrium-room";
const BATCH: &str = "batch-1";

fn group_start(on_timeout: Barrier) -> Submission {
    Submission {
        ids: vec!["cmd-a".to_owned(), "cmd-b".to_owned()],
        targets: vec![A.to_owned(), B.to_owned()],
        group: Some(GROUP.to_owned()),
        batch: Some(BATCH.to_owned()),
        barrier: Some(BarrierPolicy {
            timeout: Duration::from_secs(10),
            on_timeout,
        }),
        intent: Intent::StartRecording,
        at: at(T0),
        idempotency_key: None,
    }
}

fn blocker(id: &str, device: &str) -> Submission {
    Submission {
        ids: vec![id.to_owned()],
        targets: vec![device.to_owned()],
        group: None,
        batch: None,
        barrier: None,
        intent: Intent::SetMetadata {
            field: "TITLE".to_owned(),
            value: "ahead".to_owned(),
        },
        at: at(T0),
        idempotency_key: None,
    }
}

fn claim(outbox: &mut MemoryOutbox, device: &str, at_: Timestamp) -> Option<Claim> {
    outbox
        .claim_next(device, &at_)
        .expect("claim")
}

#[test]
fn a_group_submission_becomes_one_row_per_member_sharing_a_batch() {
    let mut outbox = outbox();
    let accepted = outbox
        .submit(group_start(Barrier::FailBatch))
        .unwrap();

    assert_eq!(accepted.batch.as_deref(), Some(BATCH));
    assert_eq!(
        accepted
            .writes
            .iter()
            .map(|c| (c.id.as_str(), c.device.as_str()))
            .collect::<Vec<_>>(),
        [("cmd-a", A), ("cmd-b", B)]
    );
    for (id, device) in [("cmd-a", A), ("cmd-b", B)] {
        let record = outbox.write(id).unwrap().unwrap();
        assert_eq!(record.device, device);
        assert_eq!(record.batch.as_deref(), Some(BATCH));
        assert_eq!(record.epoch, 1, "every member starts its own first take");
    }
}

#[test]
fn a_group_refused_by_one_member_records_nothing_at_all() {
    let mut outbox = outbox();
    outbox
        .submit(Submission {
            ids: vec!["solo".to_owned()],
            targets: vec![B.to_owned()],
            ..group_start(Barrier::FailBatch)
        })
        .unwrap();

    let refused = outbox
        .submit(group_start(Barrier::FailBatch))
        .unwrap_err();
    assert!(
        matches!(&refused, SubmitError::Rejected { device, .. } if device == B),
        "the refusing member must be named, got {refused:?}"
    );

    assert!(outbox.writes_for(A).unwrap().is_empty());
    assert_eq!(
        desired_recording_state_of(&outbox, A)
            .desired_recording_state,
        DesiredRecordingState::Idle
    );
}

#[test]
fn no_member_dispatches_until_every_member_is_ready() {
    let mut outbox = outbox();
    outbox.submit(blocker("ahead-b", B)).unwrap();
    outbox
        .submit(group_start(Barrier::FailBatch))
        .unwrap();

    assert!(
        claim(&mut outbox, A, at(T0)).is_none(),
        "a member must not go out alone"
    );

    let Some(Claim::One(ahead)) = claim(&mut outbox, B, at(T0)) else {
        panic!("B's blocker should be claimable");
    };
    assert_eq!(ahead.id, "ahead-b");
    outbox
        .settle(&ahead.id, Outcome::Succeeded(ReadValue::Flag(true)), &at(T0))
        .unwrap();

    let Some(Claim::Batch { id, records }) = claim(&mut outbox, A, at(T0)) else {
        panic!("the barrier should have filled");
    };
    assert_eq!(id, BATCH);
    assert_eq!(
        records.iter().map(|r| r.id.as_str()).collect::<Vec<_>>(),
        ["cmd-b", "cmd-a"],
        "one claim carries every member's row"
    );
}

#[test]
fn only_one_member_receives_the_batch() {
    let mut outbox = outbox();
    outbox
        .submit(group_start(Barrier::FailBatch))
        .unwrap();

    assert!(matches!(
        claim(&mut outbox, A, at(T0)),
        Some(Claim::Batch { .. })
    ));
    assert!(
        claim(&mut outbox, B, at(T0)).is_none(),
        "the sibling's row was already claimed by the batch"
    );
}

#[test]
fn a_waiting_batched_row_is_not_overtaken() {
    let mut outbox = outbox();
    outbox.submit(blocker("ahead-b", B)).unwrap();
    outbox
        .submit(group_start(Barrier::FailBatch))
        .unwrap();
    outbox
        .submit(Submission {
            ids: vec!["after-a".to_owned()],
            targets: vec![A.to_owned()],
            group: None,
            batch: None,
            barrier: None,
            intent: Intent::SetSetting {
                field: "TIMEZONE".to_owned(),
                value: "UTC".to_owned(),
            },
            at: at(T0),
            idempotency_key: None,
        })
        .unwrap();

    assert!(claim(&mut outbox, A, at(T0)).is_none());
    assert_eq!(
        status_of(&outbox, "after-a"),
        WriteStatus::Pending,
        "the write behind a waiting batch must stay behind it"
    );
}

#[test]
fn dispatch_ready_runs_the_members_that_arrived() {
    let mut outbox = outbox();
    outbox.submit(blocker("ahead-b", B)).unwrap();
    outbox
        .submit(group_start(Barrier::DispatchReady))
        .unwrap();

    assert!(claim(&mut outbox, A, at_plus(9)).is_none());

    let Some(Claim::Batch { records, .. }) = claim(&mut outbox, A, at_plus(11)) else {
        panic!("the ready member should have been dispatched");
    };
    assert_eq!(
        records.iter().map(|r| r.id.as_str()).collect::<Vec<_>>(),
        ["cmd-a"]
    );
}

#[test]
fn a_straggler_under_dispatch_ready_goes_out_alone() {
    let mut outbox = outbox();
    outbox.submit(blocker("ahead-b", B)).unwrap();
    outbox
        .submit(group_start(Barrier::DispatchReady))
        .unwrap();
    claim(&mut outbox, A, at_plus(11));

    let Some(Claim::One(ahead)) = claim(&mut outbox, B, at_plus(12)) else {
        panic!("B's blocker should be claimable");
    };
    outbox
        .settle(&ahead.id, Outcome::Succeeded(ReadValue::Flag(true)), &at_plus(12))
        .unwrap();

    let late = claim(&mut outbox, B, at_plus(13));
    assert!(
        matches!(&late, Some(Claim::One(r)) if r.id == "cmd-b"),
        "a straggler must still run under DispatchReady, got {late:?}"
    );
}

#[test]
fn fail_batch_abandons_the_take_rather_than_starting_half_a_room() {
    let mut outbox = outbox();
    outbox.submit(blocker("ahead-b", B)).unwrap();
    outbox
        .submit(group_start(Barrier::FailBatch))
        .unwrap();

    assert!(claim(&mut outbox, A, at_plus(9)).is_none());
    assert!(
        claim(&mut outbox, A, at_plus(11)).is_none(),
        "nothing is dispatched when the batch is abandoned"
    );

    assert!(
        matches!(
            status_of(&outbox, "cmd-a"),
            WriteStatus::Failed { .. }
        ),
        "the ready member's row is failed, not left pending"
    );
    assert_eq!(
        desired_recording_state_of(&outbox, A)
            .desired_recording_state,
        DesiredRecordingState::Idle
    );
}

#[test]
fn a_straggler_under_fail_batch_is_failed_too() {
    let mut outbox = outbox();
    outbox.submit(blocker("ahead-b", B)).unwrap();
    outbox
        .submit(group_start(Barrier::FailBatch))
        .unwrap();
    claim(&mut outbox, A, at_plus(11));

    let Some(Claim::One(ahead)) = claim(&mut outbox, B, at_plus(12)) else {
        panic!("B's blocker should be claimable");
    };
    outbox
        .settle(&ahead.id, Outcome::Succeeded(ReadValue::Flag(true)), &at_plus(12))
        .unwrap();

    assert!(
        claim(&mut outbox, B, at_plus(13)).is_none(),
        "the take was abandoned; a late member must not start alone"
    );
    assert!(matches!(
        status_of(&outbox, "cmd-b"),
        WriteStatus::Failed { .. }
    ));
    assert_eq!(
        desired_recording_state_of(&outbox, B)
            .desired_recording_state,
        DesiredRecordingState::Idle
    );
}

#[test]
fn a_batch_that_fills_in_time_is_dispatched_not_timed_out() {
    let mut outbox = outbox();
    outbox
        .submit(group_start(Barrier::FailBatch))
        .unwrap();

    let claimed = claim(&mut outbox, A, at_plus(10));
    assert!(
        matches!(claimed, Some(Claim::Batch { ref records, .. }) if records.len() == 2),
        "got {claimed:?}"
    );
}

#[test]
fn a_member_overtaken_by_a_retry_stops_being_ready() {
    let mut outbox = MemoryOutbox::with_max_attempts(3).with_backoff(Duration::from_secs(0));
    outbox.submit(blocker("ahead-a", A)).unwrap();
    outbox.submit(blocker("ahead-b", B)).unwrap();
    outbox
        .submit(group_start(Barrier::FailBatch))
        .unwrap();

    let Some(Claim::One(a_head)) = claim(&mut outbox, A, at(T0)) else {
        panic!("A's blocker should be claimable");
    };
    assert!(claim(&mut outbox, A, at(T0)).is_none(), "B is not ready");

    outbox
        .settle(&a_head.id, Outcome::Failed("ssh died".into()), &at(T0))
        .unwrap();

    let Some(Claim::One(b_head)) = claim(&mut outbox, B, at(T0)) else {
        panic!("B's blocker should be claimable");
    };
    outbox
        .settle(&b_head.id, Outcome::Succeeded(ReadValue::Flag(true)), &at(T0))
        .unwrap();

    let claimed = claim(&mut outbox, B, at(T0));
    assert!(
        claimed.is_none(),
        "A is no longer at the head, so the barrier is not full: got {claimed:?}"
    );
    assert_eq!(
        status_of(&outbox, "ahead-a"),
        WriteStatus::Pending,
        "A's retry is what sits at its head"
    );
}

#[test]
fn an_unbatched_group_expansion_dispatches_per_member() {
    let mut outbox = outbox();
    outbox
        .submit(Submission {
            batch: None,
            barrier: None,
            intent: Intent::SetMetadata {
                field: "TITLE".to_owned(),
                value: "Week 4".to_owned(),
            },
            ..group_start(Barrier::FailBatch)
        })
        .unwrap();

    for (device, id) in [(A, "cmd-a"), (B, "cmd-b")] {
        let claimed = claim(&mut outbox, device, at(T0));
        assert!(
            matches!(&claimed, Some(Claim::One(r)) if r.id == id),
            "{device} should dispatch on its own, got {claimed:?}"
        );
    }
}

fn expected(outbox: &MemoryOutbox, field: &str) -> Option<GroupExpectation> {
    outbox.expected(GROUP, field)
        .expect("expected")
}

const RUNNING_STATE: &str = "RUNNING_STATE";

#[test]
fn an_admitted_group_request_records_what_the_room_was_told() {
    let mut outbox = outbox();
    outbox
        .submit(group_start(Barrier::FailBatch))
        .unwrap();

    assert_eq!(
        expected(&outbox, RUNNING_STATE),
        Some(GroupExpectation {
            field: RUNNING_STATE.to_owned(),
            value: ReadValue::State(RecordingState::Started),
            since: at(T0),
        })
    );
}

#[test]
fn an_abandoned_take_leaves_the_expectation_standing() {
    let mut outbox = outbox();
    outbox.submit(blocker("ahead-b", B)).unwrap();
    outbox
        .submit(group_start(Barrier::FailBatch))
        .unwrap();
    claim(&mut outbox, A, at_plus(11));
    assert_eq!(
        desired_recording_state_of(&outbox, A)
            .desired_recording_state,
        DesiredRecordingState::Idle
    );

    assert_eq!(
        expected(&outbox, RUNNING_STATE).map(|e| e.value),
        Some(ReadValue::State(RecordingState::Started)),
        "a failed write must not erase what the device group was asked for"
    );
}

#[test]
fn a_refused_group_request_leaves_the_previous_expectation_untouched() {
    let mut outbox = outbox();
    outbox
        .submit(group_start(Barrier::FailBatch))
        .unwrap();

    let refused = outbox
        .submit(Submission {
            ids: vec!["cmd-c".to_owned(), "cmd-d".to_owned()],
            batch: Some("batch-2".to_owned()),
            at: at_plus(30),
            ..group_start(Barrier::FailBatch)
        });
    assert!(refused.is_err(), "a second start should be refused");

    assert_eq!(
        expected(&outbox, RUNNING_STATE).map(|e| e.since),
        Some(at(T0)),
        "the refused submission must not have moved `since`"
    );
}

#[test]
fn a_device_addressed_request_records_no_group_expectation() {
    let mut outbox = outbox();
    outbox.submit(blocker("lone", A)).unwrap();

    assert_eq!(
        outbox
            .expected_all(GROUP)
            .expect("expected_all"),
        Vec::new()
    );
}

#[test]
fn expectations_accumulate_per_field_in_field_order() {
    let mut outbox = outbox();
    outbox
        .submit(Submission {
            ids: vec!["cmd-t1".to_owned(), "cmd-t2".to_owned()],
            batch: None,
            barrier: None,
            intent: Intent::SetMetadata {
                field: "TITLE".to_owned(),
                value: "Week 4".to_owned(),
            },
            ..group_start(Barrier::FailBatch)
        })
        .unwrap();
    outbox
        .submit(group_start(Barrier::FailBatch))
        .unwrap();

    let all = outbox
        .expected_all(GROUP)
        .expect("expected_all");
    assert_eq!(
        all.iter().map(|e| e.field.as_str()).collect::<Vec<_>>(),
        [RUNNING_STATE, "TITLE"]
    );
    assert_eq!(all[1].value, ReadValue::Text("Week 4".to_owned()));
}

#[test]
fn an_idempotent_replay_does_not_move_the_expectation() {
    let mut outbox = outbox();
    let keyed = |at_: Timestamp| Submission {
        idempotency_key: Some("retry-me".to_owned()),
        at: at_,
        ..group_start(Barrier::FailBatch)
    };
    outbox.submit(keyed(at(T0))).unwrap();
    outbox.submit(keyed(at_plus(30))).unwrap();

    assert_eq!(
        expected(&outbox, RUNNING_STATE).map(|e| e.since),
        Some(at(T0))
    );
}

// ---- order, repeats and withdrawals ---------------------------------------

fn failed(outbox: &mut MemoryOutbox, id: &str) {
    outbox
        .settle(id, Outcome::Failed("x".to_owned()), &at(T0))
        .expect("settle");
}

fn claimed_id(outbox: &mut MemoryOutbox) -> String {
    match outbox.claim_next(DEV, &at(T0)).expect("claim") {
        Some(Claim::One(record)) => record.id,
        other => panic!("expected a lone write, got {other:?}"),
    }
}

#[test]
fn a_later_retry_does_not_overtake_an_older_one() {
    for order in [["a", "b"], ["b", "a"]] {
        let mut outbox = outbox();
        submit(&mut outbox, "a", title("first")).unwrap();
        submit(&mut outbox, "b", title("second")).unwrap();
        submit(&mut outbox, "c", title("third")).unwrap();
        assert_eq!(claimed_id(&mut outbox), "a");
        assert_eq!(claimed_id(&mut outbox), "b");
        for id in order {
            failed(&mut outbox, id);
        }
        assert_eq!(claimed_id(&mut outbox), "a", "the oldest pending write");
        assert_eq!(claimed_id(&mut outbox), "b");
        assert_eq!(claimed_id(&mut outbox), "c");
    }
}

fn keyed_start(batch: bool, suffix: &str) -> Submission {
    Submission {
        ids: vec![format!("a-{suffix}"), format!("b-{suffix}")],
        batch: if batch { Some(BATCH.to_owned()) } else { None },
        idempotency_key: Some("take-4".to_owned()),
        ..group_start(Barrier::DispatchReady)
    }
}

#[test]
fn a_repeated_key_returns_every_write_of_a_fan_out() {
    for batch in [false, true] {
        let mut outbox = MemoryOutbox::with_max_attempts(1);
        let first = outbox.submit(keyed_start(batch, "one")).unwrap();
        assert_eq!(first.writes.len(), 2);
        let again = outbox.submit(keyed_start(batch, "two")).unwrap();
        assert_eq!(again, first);
        assert!(outbox.write("a-two").unwrap().is_none());
        assert!(outbox.write("b-two").unwrap().is_none());

        // One member fails for good, the other succeeds.
        claim(&mut outbox, A, at(T0)).expect("a claim");
        if !batch {
            claim(&mut outbox, B, at(T0)).expect("a claim");
        }
        outbox
            .settle("a-one", Outcome::Failed("gone".to_owned()), &at(T0))
            .expect("settle");
        outbox
            .settle(
                "b-one",
                Outcome::Succeeded(ReadValue::Ack("ok".to_owned())),
                &at(T0),
            )
            .expect("settle");
        let late = outbox.submit(keyed_start(batch, "three")).unwrap();
        assert_eq!(late, first, "whatever has been settled since");
        assert!(outbox.write("a-three").unwrap().is_none());
        assert_eq!(outbox.writes_for(A).unwrap().len(), 1);
        assert_eq!(outbox.writes_for(B).unwrap().len(), 1);
    }
}

#[test]
fn canceling_withdraws_what_is_queued_and_nothing_else() {
    let mut outbox = outbox();
    submit(&mut outbox, "flying", title("first")).unwrap();
    assert_eq!(claimed_id(&mut outbox), "flying");
    submit(&mut outbox, "queued", title("second")).unwrap();
    submit(&mut outbox, "start", Intent::StartRecording).unwrap();
    outbox.submit(blocker("elsewhere", A)).unwrap();

    assert_eq!(outbox.cancel_queued(DEV, "gone", &at_plus(7)), 2);

    for id in ["queued", "start"] {
        let record = outbox.write(id).unwrap().unwrap();
        assert_eq!(
            record.status,
            WriteStatus::Canceled {
                reason: "gone".to_owned()
            }
        );
        assert_eq!(record.updated_at, at_plus(7));
        assert_eq!(record.enqueued_at, at(T0));
    }
    assert_eq!(status_of(&outbox, "flying"), WriteStatus::InFlight);
    assert_eq!(status_of(&outbox, "elsewhere"), WriteStatus::Pending);
    assert_eq!(outbox.writes_for(DEV).unwrap().len(), 3);
    assert!(claim(&mut outbox, DEV, at_plus(8)).is_none());
    assert_eq!(
        desired_recording_state_of(&outbox, DEV).desired_recording_state,
        DesiredRecordingState::Idle,
        "a start that was withdrawn freezes nothing"
    );
    assert!(submit(&mut outbox, "later", title("third")).is_ok());
    assert_eq!(outbox.cancel_queued("unheard-of", "gone", &at(T0)), 0);
}

#[test]
fn a_canceled_member_is_no_longer_waited_for() {
    let mut outbox = outbox();
    outbox.submit(blocker("ahead-b", B)).unwrap();
    outbox.submit(group_start(Barrier::FailBatch)).unwrap();
    assert!(claim(&mut outbox, A, at(T0)).is_none(), "b is not ready");
    assert_eq!(outbox.cancel_queued(B, "gone", &at(T0)), 2);
    let Some(Claim::Batch { records, .. }) = claim(&mut outbox, A, at(T0)) else {
        panic!("what is left of the batch goes out");
    };
    assert_eq!(records.len(), 1);
    assert_eq!(records[0].device, A);
}

#[test]
fn another_number_of_tries_holds_from_the_next_failure() {
    let mut outbox = outbox();
    submit(&mut outbox, "a", title("first")).unwrap();
    outbox.set_max_attempts(1);
    assert_eq!(claimed_id(&mut outbox), "a");
    failed(&mut outbox, "a");
    assert!(matches!(
        status_of(&outbox, "a"),
        WriteStatus::Failed { .. }
    ));
    outbox.set_max_attempts(0);
    submit(&mut outbox, "b", title("second")).unwrap();
    assert_eq!(claimed_id(&mut outbox), "b");
    failed(&mut outbox, "b");
    assert!(matches!(
        status_of(&outbox, "b"),
        WriteStatus::Failed { .. }
    ));
}

#[test]
fn a_barrier_as_long_as_the_calendar_is_admitted() {
    for secs in [7_956_864_489_660, u64::MAX] {
        let mut outbox = outbox();
        let mut s = group_start(Barrier::FailBatch);
        s.barrier = Some(BarrierPolicy {
            timeout: Duration::from_secs(secs),
            on_timeout: Barrier::FailBatch,
        });
        s.at = at("9999-12-31T23:59:59.999Z");
        outbox.submit(blocker("ahead-b", B)).unwrap();
        outbox.submit(s).unwrap();
        assert!(claim(&mut outbox, A, at("9999-12-31T23:59:59.999Z")).is_none());
        assert_eq!(status_of(&outbox, "cmd-a"), WriteStatus::Pending);
    }
}
