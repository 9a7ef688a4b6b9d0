//! Which poll loops run, what changes as the schedule and the fleet do, and what
//! a run of polls is worth saying.

use sismatic::api::{ReadValue, RecordingState};
use sismatic::devices::controller::ControllerError;
use sismatic::devices::device::{DeviceError, VetoSource};
use sismatic::devices::transport::{ConnectError, TransportError};
use sismatic::ordered::OrderedMap;
use sismatic::protocol::states;
use sismatic::protocol::value::Value;
use sismatic::retention::Level;
use sismatic::store::group::RECORDING_STATE_FIELD;
use sismatic::sync::auto_disabled::AutoDisabled;
use sismatic::sync::health::{announce, step, Contact, Health, Report};
use sismatic::sync::pairs::{PairTable, Wanted};
use sismatic::sync::poll::{count, is_running_state, Count, PollLoop, Refusal, Tick};
use sismatic::sync::schedule::{
    act, report, wanted_loops, Action, Change, FieldSchedule, Loops, Move, PolledDevice,
};
use sismatic::sync::supervisor::{never_polled, News, Supervisor};
use sismatic::time::{Duration, Timestamp};

#[test]
fn the_stores_recording_field_is_the_name_this_driver_polls_it_under() {
    assert_eq!(RECORDING_STATE_FIELD, "RUNNING_STATE");
    assert!(is_running_state(RECORDING_STATE_FIELD));
    assert!(!is_running_state("FIRMWARE"));
}

// ---- a schedule that changes ----------------------------------------------

#[test]
fn the_diff_is_a_table() {
    let one: u128 = 1;
    let at = |secs, device| {
        Some(Wanted {
            interval: Duration::from_secs(secs),
            device,
        })
    };

    assert_eq!(act(None, None), Action::Leave);
    assert_eq!(act(None, at(5, one)), Action::Start);
    assert_eq!(act(at(5, one), None), Action::Stop);
    assert_eq!(act(at(5, one), at(5, one)), Action::Leave);
    assert_eq!(act(at(5, one), at(10, one)), Action::Retime);
    assert_eq!(act(at(10, one), None), Action::Stop);
}

#[test]
fn a_replaced_device_rebinds_even_at_an_unchanged_interval() {
    let before = Some(Wanted {
        interval: Duration::from_secs(5),
        device: 1,
    });
    let after = Some(Wanted {
        interval: Duration::from_secs(5),
        device: 2,
    });

    assert_eq!(act(before, after), Action::Rebind);
    assert_eq!(
        act(
            before,
            Some(Wanted {
                interval: Duration::from_secs(10),
                device: 2,
            })
        ),
        Action::Rebind
    );
}

// ---- expanding a schedule over the fleet ----------------------------------

fn device(uuid: u128, disabled: &[&str]) -> PolledDevice {
    PolledDevice {
        uuid,
        disabled_fields: disabled.iter().map(|f| (*f).to_owned()).collect(),
    }
}

fn fleet_of(devices: Vec<(&str, PolledDevice)>) -> OrderedMap<PolledDevice> {
    let mut fleet = OrderedMap::new();
    for (id, device) in devices {
        fleet.insert(id.to_owned(), device);
    }
    fleet
}

fn every(secs: u64, names: &[&str]) -> Vec<FieldSchedule> {
    names
        .iter()
        .map(|name| FieldSchedule {
            name: (*name).to_owned(),
            interval: Some(Duration::from_secs(secs)),
        })
        .collect()
}

fn pairs(table: &PairTable) -> Vec<(String, String)> {
    (0..table.len())
        .map(|i| {
            let entry = table.at(i);
            (entry.field.clone(), entry.device.clone())
        })
        .collect()
}

fn acts(moves: &[Move]) -> Vec<(&str, &str, Action)> {
    moves
        .iter()
        .map(|m| (m.field.as_str(), m.device.as_str(), m.action))
        .collect()
}

#[test]
fn the_wanted_set_is_the_schedule_crossed_with_the_fleet_minus_the_vetoes() {
    let fleet = fleet_of(vec![
        ("plain", device(1, &[])),
        ("licensed", device(2, &["STREAM_2_NAME"])),
    ]);
    let (wanted, declined) = wanted_loops(&every(5, &["FIRMWARE", "STREAM_2_NAME"]), &fleet);

    assert_eq!(
        pairs(&wanted),
        vec![
            ("FIRMWARE".to_owned(), "licensed".to_owned()),
            ("FIRMWARE".to_owned(), "plain".to_owned()),
            ("STREAM_2_NAME".to_owned(), "plain".to_owned()),
        ],
        "the vetoed pair, and only it, should be absent"
    );
    assert_eq!(declined, 1);
    assert_eq!(
        wanted.get("FIRMWARE", "plain"),
        Some(Wanted {
            interval: Duration::from_secs(5),
            device: 1,
        })
    );
    assert_eq!(wanted.get("STREAM_2_NAME", "licensed"), None);
}

#[test]
fn a_field_set_to_never_expands_to_no_pairs() {
    let fleet = fleet_of(vec![("plain", device(1, &[]))]);
    let schedule = vec![FieldSchedule {
        name: "FIRMWARE".into(),
        interval: None,
    }];
    let (wanted, declined) = wanted_loops(&schedule, &fleet);

    assert_eq!(wanted.len(), 0);
    assert_eq!(declined, 0, "a field nobody polls was not declined");
}

#[test]
fn a_field_with_no_interval_starts_no_poll_loop() {
    let fleet = fleet_of(vec![("fixture", device(1, &[]))]);
    let schedule = vec![
        FieldSchedule {
            name: "UNIT_NAME".to_owned(),
            interval: None,
        },
        FieldSchedule {
            name: "FIRMWARE".to_owned(),
            interval: Some(Duration::from_millis(10)),
        },
    ];
    assert_eq!(never_polled(&schedule), ["UNIT_NAME"]);
    let (_, moves, change) = Supervisor::start(schedule, &fleet);
    assert_eq!(acts(&moves), [("FIRMWARE", "fixture", Action::Start)]);
    assert_eq!(change.started, 1);
}

#[test]
fn a_fleet_with_every_field_disabled_starts_nothing_and_still_shuts_down() {
    let fleet = fleet_of(vec![("fixture", device(1, &[]))]);
    let schedule = vec![FieldSchedule {
        name: "FIRMWARE".to_owned(),
        interval: None,
    }];
    let (supervisor, moves, change) = Supervisor::start(schedule, &fleet);
    assert!(moves.is_empty());
    assert!(change.is_nothing());
    assert_eq!(supervisor.loops.running.len(), 0);
}

#[test]
fn adding_a_device_starts_only_that_devices_loops() {
    let first = fleet_of(vec![("first", device(1, &[]))]);
    let both = fleet_of(vec![("first", device(1, &[])), ("second", device(2, &[]))]);
    let (mut supervisor, moves, _) =
        Supervisor::start(every(60, &["FIRMWARE", "UNIT_NAME"]), &first);
    assert_eq!(moves.len(), 2);

    let (moves, change) = supervisor.hear(News::Fleet, &both).expect("a pass");
    assert_eq!(
        acts(&moves),
        [
            ("FIRMWARE", "second", Action::Start),
            ("UNIT_NAME", "second", Action::Start),
        ]
    );
    assert_eq!(
        change,
        Change {
            started: 2,
            stopped: 0,
            retimed: 0,
            rebound: 0,
            declined: 0,
        }
    );
}

#[test]
fn removing_a_device_stops_its_loops_and_leaves_the_rest() {
    let both = fleet_of(vec![("keeper", device(1, &[])), ("goner", device(2, &[]))]);
    let one = fleet_of(vec![("keeper", device(1, &[]))]);
    let (mut supervisor, _, _) = Supervisor::start(every(60, &["FIRMWARE"]), &both);

    let (moves, change) = supervisor.hear(News::Fleet, &one).expect("a pass");
    assert_eq!(acts(&moves), [("FIRMWARE", "goner", Action::Stop)]);
    assert_eq!(change.stopped, 1);
    assert_eq!(supervisor.loops.running.len(), 1);
}

#[test]
fn a_device_that_gains_a_veto_loses_that_fields_loop() {
    let before = fleet_of(vec![("edited", device(1, &[]))]);
    let after = fleet_of(vec![("edited", device(2, &["FIRMWARE"]))]);
    let (mut supervisor, _, _) = Supervisor::start(every(60, &["FIRMWARE"]), &before);

    let (moves, change) = supervisor.hear(News::Fleet, &after).expect("a pass");
    assert_eq!(acts(&moves), [("FIRMWARE", "edited", Action::Stop)]);
    assert_eq!(change.declined, 1);
    assert_eq!(supervisor.loops.running.len(), 0);
}

#[test]
fn a_published_schedule_re_times_a_running_field() {
    let fleet = fleet_of(vec![("fixture", device(1, &[]))]);
    let (mut supervisor, _, _) = Supervisor::start(every(3_600, &["FIRMWARE"]), &fleet);

    let next = vec![FieldSchedule {
        name: "FIRMWARE".to_owned(),
        interval: Some(Duration::from_millis(10)),
    }];
    let (moves, change) = supervisor.hear(News::Schedule(next), &fleet).expect("a pass");
    assert_eq!(acts(&moves), [("FIRMWARE", "fixture", Action::Retime)]);
    assert_eq!(
        moves[0].wanted,
        Some(Wanted {
            interval: Duration::from_millis(10),
            device: 1,
        })
    );
    assert_eq!(change.retimed, 1);
}

#[test]
fn a_field_switched_off_stops_being_polled() {
    let fleet = fleet_of(vec![("fixture", device(1, &[]))]);
    let (mut supervisor, _, _) = Supervisor::start(every(5, &["FIRMWARE"]), &fleet);

    let off = vec![FieldSchedule {
        name: "FIRMWARE".to_owned(),
        interval: None,
    }];
    let (moves, _) = supervisor.hear(News::Schedule(off), &fleet).expect("a pass");
    assert_eq!(acts(&moves), [("FIRMWARE", "fixture", Action::Stop)]);
}

#[test]
fn a_field_added_to_the_schedule_starts_polling() {
    let fleet = fleet_of(vec![("fixture", device(1, &[]))]);
    let (mut supervisor, _, _) = Supervisor::start(every(5, &["FIRMWARE"]), &fleet);

    let (moves, change) = supervisor
        .hear(News::Schedule(every(5, &["FIRMWARE", "UNIT_NAME"])), &fleet)
        .expect("a pass");
    assert_eq!(acts(&moves), [("UNIT_NAME", "fixture", Action::Start)]);
    assert_eq!(change.started, 1);
}

#[test]
fn a_dropped_publisher_leaves_the_loops_running() {
    let fleet = fleet_of(vec![("fixture", device(1, &[]))]);
    let (mut supervisor, _, _) = Supervisor::start(every(5, &["FIRMWARE"]), &fleet);

    assert!(supervisor.hear(News::NoMoreSchedules, &fleet).is_none());
    assert!(supervisor.hear(News::NoMoreFleets, &fleet).is_none());
    assert!(!supervisor.watching_fields);
    assert!(!supervisor.watching_fleet);
    assert_eq!(supervisor.loops.running.len(), 1);
}

#[test]
fn a_second_pass_over_the_same_schedule_and_fleet_moves_nothing() {
    let fleet = fleet_of(vec![("a", device(1, &[])), ("b", device(2, &["FIRMWARE"]))]);
    let schedule = every(5, &["FIRMWARE", "UNIT_NAME"]);
    let mut loops = Loops::new();
    let (_, first) = loops.reconcile(&schedule, &fleet);
    assert_eq!(first.started, 3);
    assert_eq!(first.declined, 1);
    assert_eq!(report(first), Level::Info);

    let (moves, second) = loops.reconcile(&schedule, &fleet);
    assert!(moves.is_empty());
    assert!(second.is_nothing(), "declined pairs are no change");
    assert_eq!(second.declined, 1);
    assert_eq!(report(second), Level::Debug);
}

#[test]
fn moves_come_in_the_order_of_the_pairs() {
    let before = fleet_of(vec![("a", device(1, &[])), ("c", device(3, &[]))]);
    let after = fleet_of(vec![("b", device(2, &[])), ("c", device(4, &[]))]);
    let mut loops = Loops::new();
    loops.reconcile(&every(5, &["T", "S"]), &before);
    let (moves, change) = loops.reconcile(&every(5, &["T"]), &after);
    assert_eq!(
        acts(&moves),
        [
            ("S", "a", Action::Stop),
            ("S", "c", Action::Stop),
            ("T", "a", Action::Stop),
            ("T", "b", Action::Start),
            ("T", "c", Action::Rebind),
        ]
    );
    assert_eq!(
        change,
        Change {
            started: 1,
            stopped: 3,
            retimed: 0,
            rebound: 1,
            declined: 0,
        }
    );
}

#[test]
fn a_declared_veto_starts_no_loop_and_opens_no_connection() {
    let fleet = fleet_of(vec![("vetoed", device(1, &["FIRMWARE"]))]);
    let (_, moves, change) = Supervisor::start(every(10, &["FIRMWARE"]), &fleet);
    assert!(moves.is_empty());
    assert_eq!(change.declined, 1);
}

#[test]
fn a_device_without_the_veto_still_polls_the_same_field() {
    let fleet = fleet_of(vec![("fixture", device(1, &[]))]);
    let (_, moves, _) = Supervisor::start(every(10, &["FIRMWARE"]), &fleet);
    assert_eq!(acts(&moves), [("FIRMWARE", "fixture", Action::Start)]);
}

// ---- the health machine ---------------------------------------------------

fn reports(run: impl IntoIterator<Item = Contact>) -> Vec<Report> {
    let mut health = Health::Up;
    run.into_iter()
        .map(|contact| {
            let (next, report) = step(health, contact);
            health = next;
            report
        })
        .collect()
}

#[test]
fn the_machine_is_a_table() {
    assert_eq!(
        step(Health::Up, Contact::Reached),
        (Health::Up, Report::Silent)
    );
    assert_eq!(
        step(Health::Up, Contact::Failed),
        (Health::Down, Report::Onset)
    );
    assert_eq!(
        step(Health::Up, Contact::Gated),
        (Health::Down, Report::Ongoing)
    );
    assert_eq!(
        step(Health::Down, Contact::Reached),
        (Health::Up, Report::Recovery)
    );
    assert_eq!(
        step(Health::Down, Contact::Failed),
        (Health::Down, Report::Ongoing)
    );
    assert_eq!(
        step(Health::Down, Contact::Gated),
        (Health::Down, Report::Ongoing)
    );
}

#[test]
fn a_healthy_fleet_is_silent() {
    assert!(reports([Contact::Reached; 100])
        .iter()
        .all(|r| *r == Report::Silent));
}

#[test]
fn an_outage_costs_one_onset_however_long_it_lasts() {
    let mut run = vec![Contact::Reached, Contact::Failed];
    run.extend([Contact::Failed; 500]);

    let onsets = reports(run).iter().filter(|r| **r == Report::Onset).count();
    assert_eq!(onsets, 1, "log volume must not scale with outage duration");
}

#[test]
fn a_gated_poll_never_announces_an_onset() {
    let reported = reports([Contact::Gated; 50]);
    assert!(
        reported.iter().all(|r| *r == Report::Ongoing),
        "a shut gate is not independent evidence: {reported:?}"
    );
}

#[test]
fn recovery_is_announced_once_and_the_machine_rearms() {
    assert_eq!(
        reports([
            Contact::Reached,
            Contact::Failed,
            Contact::Failed,
            Contact::Reached,
            Contact::Reached,
            Contact::Failed
        ]),
        vec![
            Report::Silent,
            Report::Onset,
            Report::Ongoing,
            Report::Recovery,
            Report::Silent,
            Report::Onset
        ]
    );
}

#[test]
fn the_first_poll_of_a_down_device_reads_as_an_onset() {
    assert_eq!(reports([Contact::Failed]), vec![Report::Onset]);
}

#[test]
fn a_cold_error_classifies_as_gated_and_the_others_as_failed() {
    assert_eq!(
        Contact::of(&Err(DeviceError::Cold {
            retry_in: Duration::from_secs(1)
        })),
        Contact::Gated
    );
    assert_eq!(
        Contact::of(&Err(DeviceError::Connect(ConnectError::Failed(
            "refused".into()
        )))),
        Contact::Failed
    );
    assert_eq!(Contact::of(&Ok(Value::Port(22023))), Contact::Reached);
}

#[test]
fn a_refusal_classifies_apart_from_a_failure() {
    let refused: Result<Value, DeviceError> =
        Err(DeviceError::Command(ControllerError::Rejected {
            instruction: "STREAM_2_NAME".into(),
            code: 13,
        }));
    assert_eq!(Contact::of(&refused), Contact::Refused);
    assert!(
        refused.as_ref().unwrap_err().is_refusal(),
        "both must agree on what a refusal is"
    );
    let failed: Result<Value, DeviceError> =
        Err(DeviceError::Command(ControllerError::Transport {
            instruction: "STREAM_2_NAME".into(),
            source: TransportError::Io("reset".into()),
        }));
    assert_eq!(Contact::of(&failed), Contact::Failed);
}

#[test]
fn a_refusal_moves_the_health_machine_in_neither_direction() {
    assert_eq!(
        step(Health::Up, Contact::Refused),
        (Health::Up, Report::Refusal)
    );
    assert_eq!(
        step(Health::Down, Contact::Refused),
        (Health::Down, Report::Refusal)
    );

    assert_eq!(
        reports([
            Contact::Reached,
            Contact::Refused,
            Contact::Refused,
            Contact::Failed
        ]),
        vec![
            Report::Silent,
            Report::Refusal,
            Report::Refusal,
            Report::Onset
        ]
    );
}

#[test]
fn a_vetoed_poll_is_silent_and_leaves_health_alone() {
    let vetoed: Result<Value, DeviceError> = Err(DeviceError::Disabled {
        field: "STREAM_2_NAME".into(),
        source: VetoSource::Declared,
        retry_in: None,
    });
    assert_eq!(Contact::of(&vetoed), Contact::Vetoed);
    assert_eq!(
        step(Health::Down, Contact::Vetoed),
        (Health::Down, Report::Silent),
        "a veto must not be read as a recovery"
    );
    assert!(
        !vetoed.as_ref().unwrap_err().is_refusal(),
        "the device said nothing; we did"
    );
}

#[test]
fn each_report_is_announced_at_its_own_level() {
    assert!(announce(Report::Silent).is_none());
    assert_eq!(announce(Report::Onset).unwrap().level, Level::Warn);
    assert_eq!(announce(Report::Ongoing).unwrap().level, Level::Debug);
    assert_eq!(announce(Report::Recovery).unwrap().level, Level::Info);
    assert_eq!(announce(Report::Refusal).unwrap().level, Level::Debug);
    assert_eq!(
        announce(Report::Recovery).unwrap().message,
        "polling this field recovered"
    );
}

// ---- one poll loop --------------------------------------------------------

fn at() -> Timestamp {
    Timestamp("2026-08-17T00:00:00.000Z".to_owned())
}

fn polling(field: &str, self_heal: Option<Duration>) -> PollLoop {
    PollLoop::start(
        "fixture".to_owned(),
        field.to_owned(),
        self_heal,
        true,
        true,
    )
    .expect("a known field")
}

fn refused() -> Result<Value, DeviceError> {
    Err(DeviceError::Command(ControllerError::Rejected {
        instruction: "FIRMWARE".into(),
        code: 13,
    }))
}

#[test]
fn a_polled_recording_state_reaches_the_reconciler() {
    let mut polling = polling("RUNNING_STATE", None);
    let after = polling.absorb(
        Ok(Value::State(states::RecordingState::Started)),
        false,
        at(),
    );
    assert_eq!(after.observed, Some(RecordingState::Started));
    let read = after.read.expect("a reading");
    assert_eq!(read.device, "fixture");
    assert_eq!(read.field, "RUNNING_STATE");
    assert_eq!(read.value, ReadValue::State(RecordingState::Started));
    assert_eq!(read.at, at());
}

#[test]
fn a_field_that_is_not_the_recording_state_is_never_reconciled() {
    let mut firmware = polling("FIRMWARE", None);
    let after = firmware.absorb(Ok(Value::Version("2.11".into())), false, at());
    assert_eq!(after.observed, None);
    assert_eq!(
        after.read.expect("a reading").value,
        ReadValue::Version("2.11".into())
    );

    let mut other = polling("FIRMWARE", None);
    let state = other.absorb(
        Ok(Value::State(states::RecordingState::Started)),
        false,
        at(),
    );
    assert_eq!(state.observed, None, "the name decides, not the value");
}

#[test]
fn an_unknown_field_gets_no_loop() {
    let refused = PollLoop::start("d".to_owned(), "NOPE".to_owned(), None, false, false);
    assert_eq!(
        refused.unwrap_err().message,
        "unknown query field; poll loop not started"
    );
}

#[test]
fn repeated_refusals_auto_disable_the_field_and_stop_the_exchanges() {
    let mut polling = polling("FIRMWARE", None);
    assert_eq!(polling.tick(None), Tick::Ask);
    assert_eq!(count(&refused()), Count::Refused);
    let first = polling.absorb(refused(), false, at());
    assert_eq!(first.report, Report::Refusal);
    assert!(!first.ends);
    assert!(first.read.is_none(), "a refusal carries no value to store");

    let line = polling
        .announce_refusal(Refusal::Disabled { refusals: 2 })
        .expect("a line");
    assert_eq!(line.level, Level::Info);
    assert!(line.message.contains("disabled_fields"));
    let second = polling.absorb(refused(), true, at());
    assert!(second.ends);
}

#[test]
fn a_veto_with_no_retry_ends_the_poll_loop() {
    let mut forever = polling("FIRMWARE", None);
    assert!(forever.absorb(refused(), true, at()).ends);
    let mut healing = polling("FIRMWARE", Some(Duration::from_secs(60)));
    assert!(!healing.absorb(refused(), true, at()).ends);
}

#[test]
fn a_self_healing_field_is_retried_and_comes_back() {
    let mut polling = polling("FIRMWARE", Some(Duration::from_millis(60)));
    assert!(!polling.absorb(refused(), true, at()).ends);
    match polling.tick(Some(Some(Duration::from_millis(2_500)))) {
        Tick::Skip { retry_in_secs, .. } => assert_eq!(retry_in_secs, Some(2)),
        Tick::Ask => panic!("the field is off"),
    }
    match polling.tick(Some(None)) {
        Tick::Skip { retry_in_secs, .. } => assert_eq!(retry_in_secs, None),
        Tick::Ask => panic!("the field is off"),
    }
    assert_eq!(polling.tick(None), Tick::Ask);
    let answered = Ok(Value::Version("2.11".into()));
    assert_eq!(count(&answered), Count::Answered);
    assert_eq!(
        polling.announce_answer(true).expect("a line").level,
        Level::Info
    );
    assert!(polling.announce_answer(false).is_none());
    let after = polling.absorb(answered, false, at());
    assert!(after.read.is_some());
}

#[test]
fn a_failing_poll_is_counted_neither_way() {
    let failed: Result<Value, DeviceError> =
        Err(DeviceError::Connect(ConnectError::Failed("down".into())));
    assert_eq!(count(&failed), Count::Unchanged);
    let mut polling = polling("FIRMWARE", None);
    let after = polling.absorb(failed, false, at());
    assert_eq!(after.report, Report::Onset);
    assert_eq!(polling.health, Health::Down);
    assert!(after.read.is_none());
}

#[test]
fn a_pass_reports_what_it_did() {
    let mut loops = Loops::new();
    let before = fleet_of(vec![
        ("a", device(1, &[])),
        ("b", device(2, &[])),
        ("c", device(3, &["T"])),
    ]);
    let (_, change) = loops.reconcile(&every(5, &["F", "T"]), &before);
    assert_eq!(change.started, 5);
    assert_eq!(change.declined, 1);

    // b is replaced, c goes, d comes, and F is retimed.
    let after = fleet_of(vec![
        ("a", device(1, &[])),
        ("b", device(9, &[])),
        ("d", device(4, &["F"])),
    ]);
    let schedule = vec![
        FieldSchedule {
            name: "F".to_owned(),
            interval: Some(Duration::from_secs(6)),
        },
        FieldSchedule {
            name: "T".to_owned(),
            interval: Some(Duration::from_secs(5)),
        },
        FieldSchedule {
            name: "X".to_owned(),
            interval: None,
        },
    ];
    let (moves, change) = loops.reconcile(&schedule, &after);
    assert_eq!(change.started, 1, "T on d");
    assert_eq!(change.stopped, 1, "F on c");
    assert_eq!(change.rebound, 2, "F and T on b");
    assert_eq!(change.retimed, 1, "F on a");
    assert_eq!(change.declined, 1, "F on d");
    assert_eq!(moves.len(), 5);
}

// ---- what a device was found to refuse ------------------------------------

fn on_clock(millis: u64) -> Duration {
    Duration::from_millis(millis)
}

#[test]
fn a_field_goes_off_at_the_threshold_and_stays_off() {
    let mut learned = AutoDisabled::new();
    assert_eq!(
        learned.refused("FIRMWARE", 2, None, on_clock(0)),
        Refusal::Counted { refusals: 1 }
    );
    assert_eq!(learned.veto("FIRMWARE", on_clock(1)), None);
    assert_eq!(
        learned.refused("FIRMWARE", 2, None, on_clock(5)),
        Refusal::Disabled { refusals: 2 }
    );
    assert_eq!(learned.veto("FIRMWARE", on_clock(5)), Some(None));
    assert_eq!(learned.veto("FIRMWARE", on_clock(1 << 40)), Some(None));
    assert_eq!(learned.veto("SSH_PORT", on_clock(5)), None);
    assert_eq!(
        learned.refused("FIRMWARE", 2, None, on_clock(6)),
        Refusal::Still
    );
}

#[test]
fn a_threshold_of_zero_never_auto_disables() {
    let mut strict = AutoDisabled::new();
    let mut never = AutoDisabled::new();
    for n in 0..10 {
        strict.refused("FIRMWARE", 2, None, on_clock(n));
        never.refused("FIRMWARE", 0, None, on_clock(n));
    }
    assert_eq!(strict.veto("FIRMWARE", on_clock(10)), Some(None));
    assert_eq!(
        never.veto("FIRMWARE", on_clock(10)),
        None,
        "nothing should have been inferred at a threshold of zero"
    );
    assert!(!never.answered("FIRMWARE"), "nor recorded");
}

#[test]
fn an_answer_clears_the_veto_and_the_count() {
    let heal = Some(Duration::from_millis(60));
    let mut learned = AutoDisabled::new();
    learned.refused("FIRMWARE", 2, heal, on_clock(0));
    learned.refused("FIRMWARE", 2, heal, on_clock(10));
    assert_eq!(
        learned.veto("FIRMWARE", on_clock(30)),
        Some(Some(Duration::from_millis(40)))
    );
    assert_eq!(learned.veto("FIRMWARE", on_clock(70)), None, "tried again");
    assert_eq!(
        learned.refused("FIRMWARE", 2, heal, on_clock(71)),
        Refusal::Still
    );
    assert_eq!(
        learned.veto("FIRMWARE", on_clock(71)),
        Some(Some(Duration::from_millis(60))),
        "another refusal closes it for as long again"
    );
    assert!(learned.answered("FIRMWARE"));
    assert!(!learned.answered("FIRMWARE"));
    assert_eq!(learned.veto("FIRMWARE", on_clock(72)), None);
    assert_eq!(
        learned.refused("FIRMWARE", 2, heal, on_clock(73)),
        Refusal::Counted { refusals: 1 },
        "the next refusal starts afresh"
    );
}

#[test]
fn a_vetoed_field_is_not_asked_for() {
    let declined = vec!["SSH_PORT".to_owned()];
    let mut learned = AutoDisabled::new();
    learned.refused("FIRMWARE", 1, None, on_clock(0));
    assert_eq!(learned.admits(&declined, "TITLE", on_clock(1)), Ok(()));
    assert_eq!(
        learned.admits(&declined, "SSH_PORT", on_clock(1)),
        Err(DeviceError::Disabled {
            field: "SSH_PORT".to_owned(),
            source: VetoSource::Declared,
            retry_in: None,
        })
    );
    assert_eq!(
        learned.admits(&declined, "FIRMWARE", on_clock(1)),
        Err(DeviceError::Disabled {
            field: "FIRMWARE".to_owned(),
            source: VetoSource::Inferred,
            retry_in: None,
        })
    );
}

#[test]
fn a_declined_pair_counts_once_and_only_with_an_interval() {
    let fleet = fleet_of(vec![("a", device(1, &["F", "X"])), ("b", device(2, &["F"]))]);
    let mut schedule = every(5, &["F", "T", "F"]);
    schedule.push(FieldSchedule {
        name: "X".to_owned(),
        interval: None,
    });
    let (wanted, declined) = wanted_loops(&schedule, &fleet);
    assert_eq!(declined, 2, "F on a and on b");
    assert_eq!(pairs(&wanted).len(), 2, "T on a and on b");
}

#[test]
fn a_loop_ends_after_exactly_the_threshold_of_refusals() {
    for threshold in 1..6 {
        let mut polling = polling("FIRMWARE", None);
        let mut learned = AutoDisabled::new();
        for n in 1..threshold {
            assert_eq!(polling.tick_at(&learned, on_clock(5)), Tick::Ask);
            let after =
                polling.take_in(&mut learned, threshold, refused(), on_clock(5), at());
            assert!(!after.ends, "refusal {n} of {threshold}");
            assert_eq!(after.report, Report::Refusal);
            assert_eq!(after.notice.expect("a line").level, Level::Debug);
        }
        let last = polling.take_in(&mut learned, threshold, refused(), on_clock(6), at());
        assert!(last.ends);
        assert!(last.read.is_none());
        let line = last.notice.expect("a line");
        assert_eq!(line.level, Level::Info);
        assert!(line.message.contains("disabled_fields"));
        assert!(matches!(
            polling.tick_at(&learned, on_clock(7)),
            Tick::Skip {
                retry_in_secs: None,
                ..
            }
        ));
    }
}

#[test]
fn an_answer_between_refusals_starts_the_count_over() {
    let mut polling = polling("FIRMWARE", None);
    let mut learned = AutoDisabled::new();
    let answer = || Ok(Value::Version("2.11".into()));
    for _ in 0..5 {
        assert!(!polling.take_in(&mut learned, 2, refused(), on_clock(1), at()).ends);
        let after = polling.take_in(&mut learned, 2, answer(), on_clock(2), at());
        assert!(after.read.is_some());
        assert!(after.notice.is_none(), "it had not been off");
    }
    // A poll that failed is no refusal and no answer.
    assert!(!polling.take_in(&mut learned, 2, refused(), on_clock(3), at()).ends);
    let down = Err(DeviceError::Connect(ConnectError::Failed("down".into())));
    assert!(!polling.take_in(&mut learned, 2, down, on_clock(4), at()).ends);
    assert!(polling.take_in(&mut learned, 2, refused(), on_clock(5), at()).ends);
}

#[test]
fn a_healing_loop_goes_on_and_says_when_the_field_is_back() {
    let mut polling = polling("FIRMWARE", Some(Duration::from_secs(3)));
    let mut learned = AutoDisabled::new();
    let off = polling.take_in(&mut learned, 1, refused(), on_clock(0), at());
    assert!(!off.ends);
    assert!(off.notice.expect("a line").message.contains("tried again"));
    match polling.tick_at(&learned, on_clock(500)) {
        Tick::Skip { retry_in_secs, .. } => assert_eq!(retry_in_secs, Some(2)),
        Tick::Ask => panic!("the field is off"),
    }
    assert_eq!(polling.tick_at(&learned, on_clock(3_000)), Tick::Ask);
    let answer = Ok(Value::Version("2.11".into()));
    let back = polling.take_in(&mut learned, 1, answer, on_clock(3_000), at());
    assert!(back.read.is_some());
    assert!(back.notice.expect("a line").message.contains("no longer disabled"));
    assert!(learned.snapshot(on_clock(3_000)).is_empty());
}

#[test]
fn the_refused_fields_are_listed_in_order() {
    let heal = Some(Duration::from_secs(600));
    let mut learned = AutoDisabled::new();
    learned.refused("STREAM_3_NAME", 2, None, on_clock(0));
    learned.refused("STREAM_2_NAME", 1, heal, on_clock(0));
    learned.refused("FIRMWARE", 1, None, on_clock(0));
    let listed: Vec<(String, u32, bool, Option<Duration>)> = learned
        .snapshot(on_clock(1_000))
        .into_iter()
        .map(|f| (f.name, f.refusals, f.disabled, f.retry_in))
        .collect();
    assert_eq!(
        listed,
        [
            ("FIRMWARE".to_owned(), 1, true, None),
            (
                "STREAM_2_NAME".to_owned(),
                1,
                true,
                Some(Duration::from_secs(599))
            ),
            ("STREAM_3_NAME".to_owned(), 1, false, None),
        ]
    );
}
