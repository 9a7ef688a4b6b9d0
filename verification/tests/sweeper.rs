//! One pass of the sweeper.

use sismatic::api::{Read, ReadValue};
use sismatic::memory::store::{history_bytes, MemoryStore};
use sismatic::retention::{Report, Retention, StoreConfig, SweepState};
use sismatic::sweeper::{sweep, SweepAction, SweepNews, Sweeper};
use sismatic::time::{Duration, Timestamp};
use sismatic::units::instant;

fn read(at: &str) -> Read {
    Read {
        device: "dev-1".to_owned(),
        field: "T".to_owned(),
        value: ReadValue::Number(1),
        at: Timestamp(at.to_owned()),
    }
}

#[test]
fn a_pass_drops_what_the_window_does_not_keep() {
    let mut store = MemoryStore::default();
    let old = read("2026-07-23T14:00:00.000Z");
    let expected = history_bytes(&old);
    store.upsert_latest(old).unwrap();
    store
        .upsert_latest(read("2026-07-23T16:00:00.000Z"))
        .unwrap();
    let now = instant("2026-07-23T16:30:00Z").unwrap();
    let mut state = SweepState::new();

    let pass = sweep(
        &mut store,
        &Retention::Age(Duration::from_secs(3_600)),
        now,
        &mut state,
    );
    let (cutoff, swept) = pass.swept.expect("a bounded window");
    assert_eq!(cutoff.as_str(), "2026-07-23T15:30:00.000Z");
    assert_eq!(swept.entries, 1);
    assert_eq!(swept.bytes, expected);
    assert_eq!(pass.report, Report::Quiet);
    assert_eq!(store.usage().unwrap().entries, 1);
}

#[test]
fn keeping_forever_drops_nothing() {
    let mut store = MemoryStore::default();
    store
        .upsert_latest(read("2020-01-01T00:00:00.000Z"))
        .unwrap();
    let now = instant("2026-07-23T16:30:00Z").unwrap();
    let mut state = SweepState::new();
    let pass = sweep(&mut store, &Retention::Forever, now, &mut state);
    assert_eq!(pass.swept, None);
    let endless = Retention::Age(Duration::from_secs(u64::MAX));
    assert_eq!(sweep(&mut store, &endless, now, &mut state).swept, None);
    assert_eq!(store.usage().unwrap().entries, 1);
}

#[test]
fn a_store_below_its_floor_is_over_budget() {
    let mut store = MemoryStore::with_budget(Some(1));
    store
        .upsert_latest(read("2026-07-23T16:00:00.000Z"))
        .unwrap();
    let now = instant("2026-07-23T16:30:00Z").unwrap();
    let mut state = SweepState::new();
    let pass = sweep(&mut store, &Retention::Forever, now, &mut state);
    assert_eq!(pass.report, Report::OverBudget);
    assert_eq!(state.seen_evicted, 1);
}

#[test]
fn a_window_older_than_year_zero_drops_nothing() {
    let mut store = MemoryStore::default();
    store
        .upsert_latest(read("0000-01-01T00:00:00.000Z"))
        .unwrap();
    let now = instant("2026-07-23T16:30:00Z").unwrap();
    let window = Retention::Age(Duration::from_secs(100_000_000_000));
    let pass = sweep(&mut store, &window, now, &mut SweepState::new());
    assert_eq!(pass.swept, None);
    assert_eq!(store.usage().unwrap().entries, 1);
}

#[test]
fn a_read_at_the_edge_of_the_window_stays() {
    let mut store = MemoryStore::default();
    store
        .upsert_latest(read("2026-07-23T15:30:00.000Z"))
        .unwrap();
    store
        .upsert_latest(read("2026-07-23T15:29:59.999Z"))
        .unwrap();
    let now = instant("2026-07-23T16:30:00Z").unwrap();
    let window = Retention::Age(Duration::from_secs(3_600));
    let pass = sweep(&mut store, &window, now, &mut SweepState::new());
    assert_eq!(pass.swept.expect("a bounded window").1.entries, 1);
    assert_eq!(store.usage().unwrap().entries, 1);
}

fn sweeping_every(secs: Option<u64>) -> StoreConfig {
    StoreConfig {
        retain: Retention::Age(Duration::from_secs(3_600)),
        cleanup: secs.map(Duration::from_secs),
        max_memory: None,
    }
}

#[test]
fn a_new_policy_paces_the_sweeper_anew() {
    let mut sweeper = Sweeper::start(sweeping_every(Some(60)));
    assert_eq!(sweeper.period(), Some(Duration::from_secs(60)));
    assert_eq!(sweeper.hear(SweepNews::Tick), SweepAction::Sweep);
    assert_eq!(
        sweeper.hear(SweepNews::Policy(sweeping_every(None))),
        SweepAction::Repace
    );
    assert_eq!(sweeper.period(), None);
    assert_eq!(
        sweeper.hear(SweepNews::Tick),
        SweepAction::Wait,
        "a policy that never sweeps has no ticks"
    );
    assert_eq!(
        sweeper.hear(SweepNews::Policy(sweeping_every(Some(5)))),
        SweepAction::Repace
    );
    assert_eq!(sweeper.period(), Some(Duration::from_secs(5)));
}

#[test]
fn a_sweeper_nobody_publishes_to_keeps_its_policy() {
    let mut sweeper = Sweeper::start(sweeping_every(Some(60)));
    assert_eq!(sweeper.hear(SweepNews::NoMorePolicies), SweepAction::Wait);
    assert!(!sweeper.watching);
    assert_eq!(sweeper.hear(SweepNews::Tick), SweepAction::Sweep);
    assert_eq!(
        sweeper.hear(SweepNews::Policy(sweeping_every(None))),
        SweepAction::Wait
    );
    assert_eq!(sweeper.policy, sweeping_every(Some(60)));
}

#[test]
fn what_a_pass_saw_outlives_the_policy() {
    let budget = 2 * history_bytes(&read("2026-07-23T16:00:00.000Z"));
    let mut store = MemoryStore::with_budget(Some(budget));
    for _ in 0..5 {
        store
            .upsert_latest(read("2026-07-23T16:00:00.000Z"))
            .unwrap();
    }
    let evicted = store.usage().unwrap().evicted;
    assert!(evicted > 0);
    let now = instant("2026-07-23T16:30:00Z").unwrap();
    let mut sweeper = Sweeper::start(sweeping_every(Some(60)));
    let pass = sweeper.pass(&mut store, now);
    assert_eq!(pass.report, Report::Evicting { entries: evicted });
    sweeper.hear(SweepNews::Policy(sweeping_every(Some(5))));
    assert_eq!(sweeper.pass(&mut store, now).report, Report::Quiet);
}
