//! Recorded reads: the latest of each field, their history, what the budget
//! evicts and what a sweep drops.

use sismatic::api::{Read, ReadValue, TimeSpan};
use sismatic::memory::store::{history_bytes, latest_bytes, MemoryStore};
use sismatic::store::lifecycle::{Swept, Usage};
use sismatic::time::Timestamp;

fn read(device: &str, field: &str, value: u32, at: &str) -> Read {
    Read {
        device: device.into(),
        field: field.into(),
        value: ReadValue::Number(value),
        at: Timestamp(at.into()),
    }
}

fn span(start: &str, end: &str) -> TimeSpan {
    TimeSpan {
        start: Timestamp(start.into()),
        end: Timestamp(end.into()),
    }
}

fn all_history(store: &MemoryStore, dev: &str, field: &str) -> Vec<Read> {
    store
        .between(
            dev,
            field,
            &span("0000-01-01T00:00:00Z", "9999-12-31T23:59:59Z"),
        )
        .unwrap()
}

#[test]
fn latest_is_none_for_unknown_device() {
    let mut store = MemoryStore::default();
    assert_eq!(
        store
            .latest("nobody", "FIRMWARE")
            .unwrap(),
        None
    );
}

#[test]
fn latest_is_none_for_a_field_never_polled_on_a_known_device() {
    let mut store = MemoryStore::default();
    store
        .upsert_latest(read("dev-1", "FIRMWARE", 1, "2026-07-23T14:00:00Z"))
        .unwrap();

    assert_eq!(
        store
            .latest("dev-1", "SSH_PORT")
            .unwrap(),
        None
    );
}

#[test]
fn upsert_then_latest_returns_the_read() {
    let mut store = MemoryStore::default();
    let r = read("dev-1", "RUNNING_STATE", 1, "2026-07-23T14:00:00Z");
    store.upsert_latest(r.clone()).unwrap();

    assert_eq!(
        store
            .latest("dev-1", "RUNNING_STATE")
            .unwrap(),
        Some(r)
    );
}

#[test]
fn latest_reflects_the_most_recent_upsert_of_that_field() {
    let mut store = MemoryStore::default();
    let first = read("dev-1", "SSH_PORT", 22, "2026-07-23T14:00:00Z");
    let second = read("dev-1", "SSH_PORT", 2222, "2026-07-23T14:05:00Z");
    store.upsert_latest(first).unwrap();
    store.upsert_latest(second.clone()).unwrap();

    assert_eq!(
        store
            .latest("dev-1", "SSH_PORT")
            .unwrap(),
        Some(second)
    );
}

#[test]
fn fields_on_one_device_do_not_evict_each_other() {
    let mut store = MemoryStore::default();
    let firmware = read("dev-1", "FIRMWARE", 211, "2026-07-23T14:00:00Z");
    let ssh_port = read("dev-1", "SSH_PORT", 22023, "2026-07-23T14:00:01Z");
    let state = read("dev-1", "RUNNING_STATE", 1, "2026-07-23T14:00:02Z");
    for r in [&firmware, &ssh_port, &state] {
        store.upsert_latest(r.clone()).unwrap();
    }

    assert_eq!(
        store
            .latest("dev-1", "FIRMWARE")
            .unwrap(),
        Some(firmware)
    );
    assert_eq!(
        store
            .latest("dev-1", "SSH_PORT")
            .unwrap(),
        Some(ssh_port)
    );
    assert_eq!(
        store
            .latest("dev-1", "RUNNING_STATE")
            .unwrap(),
        Some(state)
    );
}

#[test]
fn devices_are_isolated() {
    let mut store = MemoryStore::default();
    let a = read("dev-a", "F", 1, "2026-07-23T14:00:00Z");
    let b = read("dev-b", "F", 2, "2026-07-23T14:00:00Z");
    store.upsert_latest(a.clone()).unwrap();
    store.upsert_latest(b.clone()).unwrap();

    assert_eq!(
        store.latest("dev-a", "F").unwrap(),
        Some(a)
    );
    assert_eq!(
        store.latest("dev-b", "F").unwrap(),
        Some(b)
    );
}

#[test]
fn latest_all_is_empty_for_unknown_device() {
    let mut store = MemoryStore::default();
    assert_eq!(
        store.latest_all("nobody").unwrap(),
        Vec::<Read>::new()
    );
}

#[test]
fn latest_all_returns_one_read_per_field_sorted_by_field_name() {
    let mut store = MemoryStore::default();
    let ssh_port = read("dev-1", "SSH_PORT", 22023, "2026-07-23T14:00:00Z");
    let firmware = read("dev-1", "FIRMWARE", 211, "2026-07-23T14:00:01Z");
    let timezone = read("dev-1", "TIMEZONE", 1, "2026-07-23T14:00:02Z");
    for r in [&ssh_port, &firmware, &timezone] {
        store.upsert_latest(r.clone()).unwrap();
    }
    let firmware_again = read("dev-1", "FIRMWARE", 212, "2026-07-23T14:05:00Z");
    store.upsert_latest(firmware_again.clone()).unwrap();

    assert_eq!(
        store.latest_all("dev-1").unwrap(),
        vec![firmware_again, ssh_port, timezone]
    );
}

#[test]
fn latest_all_is_scoped_to_one_device() {
    let mut store = MemoryStore::default();
    let mine = read("dev-a", "F", 1, "2026-07-23T14:00:00Z");
    store.upsert_latest(mine.clone()).unwrap();
    store
        .upsert_latest(read("dev-b", "G", 2, "2026-07-23T14:00:00Z"))
        .unwrap();

    assert_eq!(store.latest_all("dev-a").unwrap(), vec![mine]);
}

#[test]
fn between_is_empty_for_unknown_device() {
    let mut store = MemoryStore::default();
    assert_eq!(all_history(&store, "nobody", "T"), Vec::<Read>::new());
}

#[test]
fn between_is_empty_for_a_field_with_no_history() {
    let mut store = MemoryStore::default();
    store
        .upsert_latest(read("dev-1", "T", 1, "2026-07-23T14:00:00Z"))
        .unwrap();

    assert_eq!(
        all_history(&store, "dev-1", "OTHER"),
        Vec::<Read>::new()
    );
}

#[test]
fn between_keeps_every_upsert_in_insertion_order() {
    let mut store = MemoryStore::default();
    let r1 = read("dev-1", "T", 10, "2026-07-23T14:00:00Z");
    let r2 = read("dev-1", "T", 20, "2026-07-23T14:01:00Z");
    let r3 = read("dev-1", "T", 30, "2026-07-23T14:02:00Z");
    for r in [&r1, &r2, &r3] {
        store.upsert_latest(r.clone()).unwrap();
    }

    assert_eq!(all_history(&store, "dev-1", "T"), vec![r1, r2, r3]);
}

#[test]
fn between_returns_only_the_requested_field() {
    let mut store = MemoryStore::default();
    let t1 = read("dev-1", "T", 10, "2026-07-23T14:00:00Z");
    let other = read("dev-1", "OTHER", 99, "2026-07-23T14:00:30Z");
    let t2 = read("dev-1", "T", 20, "2026-07-23T14:01:00Z");
    for r in [&t1, &other, &t2] {
        store.upsert_latest(r.clone()).unwrap();
    }

    assert_eq!(all_history(&store, "dev-1", "T"), vec![t1, t2]);
    assert_eq!(all_history(&store, "dev-1", "OTHER"), vec![other]);
}

#[test]
fn between_filters_to_the_span_inclusive_of_bounds() {
    let mut store = MemoryStore::default();
    let before = read("dev-1", "T", 1, "2026-07-23T13:59:59Z");
    let on_start = read("dev-1", "T", 2, "2026-07-23T14:00:00Z");
    let inside = read("dev-1", "T", 3, "2026-07-23T14:30:00Z");
    let on_end = read("dev-1", "T", 4, "2026-07-23T15:00:00Z");
    let after = read("dev-1", "T", 5, "2026-07-23T15:00:01Z");
    for r in [&before, &on_start, &inside, &on_end, &after] {
        store.upsert_latest(r.clone()).unwrap();
    }

    let got = store
        .between(
            "dev-1",
            "T",
            &span("2026-07-23T14:00:00Z", "2026-07-23T15:00:00Z"),
        )
        .unwrap();
    assert_eq!(got, vec![on_start, inside, on_end]);
}

#[test]
fn between_can_return_empty_when_nothing_falls_in_span() {
    let mut store = MemoryStore::default();
    store
        .upsert_latest(read("dev-1", "T", 1, "2026-07-23T14:00:00Z"))
        .unwrap();

    let got = store
        .between(
            "dev-1",
            "T",
            &span("2020-01-01T00:00:00Z", "2020-12-31T23:59:59Z"),
        )
        .unwrap();
    assert_eq!(got, Vec::<Read>::new());
}

fn budget_for(sample: &Read, entries: u64, series: u64) -> u64 {
    history_bytes(sample) * entries + latest_bytes(sample) * series
}

#[test]
fn an_empty_store_holds_nothing() {
    let mut store = MemoryStore::default();
    assert_eq!(
        store.usage().unwrap(),
        Usage {
            bytes: 0,
            entries: 0,
            budget: None,
            evicted: 0,
        }
    );
}

#[test]
fn usage_counts_every_write() {
    let mut store = MemoryStore::default();
    let r = read("dev-1", "T", 1, "2026-07-23T14:00:00Z");
    store.upsert_latest(r.clone()).unwrap();
    store
        .upsert_latest(read("dev-1", "T", 2, "2026-07-23T14:00:01Z"))
        .unwrap();

    let usage = store.usage().unwrap();
    assert_eq!(usage.entries, 2, "history counts both writes");
    assert_eq!(usage.bytes, budget_for(&r, 2, 1));
    assert!(!usage.over_budget(), "an unbounded store is never over");
}

#[test]
fn an_unbounded_store_evicts_nothing() {
    let mut store = MemoryStore::default();
    for n in 0..50 {
        store
            .upsert_latest(read("dev-1", "T", n, &format!("2026-07-23T14:00:{n:02}Z")))
            .unwrap();
    }

    assert_eq!(all_history(&store, "dev-1", "T").len(), 50);
    assert_eq!(store.usage().unwrap().evicted, 0);
}

#[test]
fn a_budget_evicts_the_oldest_entry_first() {
    let sample = read("dev-1", "T", 0, "2026-07-23T14:00:00Z");
    let mut store = MemoryStore::with_budget(Some(budget_for(&sample, 3, 1)));

    for n in 0..5 {
        store
            .upsert_latest(read("dev-1", "T", n, &format!("2026-07-23T14:00:{n:02}Z")))
            .unwrap();
    }

    let kept: Vec<u32> = all_history(&store, "dev-1", "T")
        .iter()
        .map(|r| match r.value {
            ReadValue::Number(n) => n,
            _ => unreachable!("the fixture writes numbers"),
        })
        .collect();
    assert_eq!(kept, [2, 3, 4]);
    assert_eq!(store.usage().unwrap().evicted, 2);
}

#[test]
fn eviction_keeps_the_store_within_its_budget() {
    let sample = read("dev-1", "T", 0, "2026-07-23T14:00:00Z");
    let budget = budget_for(&sample, 4, 1);
    let mut store = MemoryStore::with_budget(Some(budget));

    for n in 0..200u32 {
        store
            .upsert_latest(read(
                "dev-1",
                "T",
                n,
                &format!("2026-07-23T14:{:02}:{:02}Z", n / 60, n % 60),
            ))
            .unwrap();
        let usage = store.usage().unwrap();
        assert!(
            !usage.over_budget(),
            "over budget after write {n}: {} > {budget}",
            usage.bytes
        );
    }
}

#[test]
fn eviction_crosses_devices_in_write_order() {
    let sample = read("dev-a", "T", 0, "2026-07-23T14:00:00Z");
    let mut store = MemoryStore::with_budget(Some(budget_for(&sample, 2, 2)));

    store
        .upsert_latest(read("dev-a", "T", 1, "2026-07-23T14:00:00Z"))
        .unwrap();
    store
        .upsert_latest(read("dev-b", "T", 2, "2026-07-23T14:00:01Z"))
        .unwrap();
    store
        .upsert_latest(read("dev-b", "T", 3, "2026-07-23T14:00:02Z"))
        .unwrap();

    assert_eq!(all_history(&store, "dev-a", "T"), Vec::<Read>::new());
    assert_eq!(all_history(&store, "dev-b", "T").len(), 2);
}

#[test]
fn eviction_never_touches_latest() {
    let sample = read("dev-1", "T", 0, "2026-07-23T14:00:00Z");
    let mut store = MemoryStore::with_budget(Some(budget_for(&sample, 1, 1)));

    let first = read("dev-1", "T", 1, "2026-07-23T14:00:00Z");
    let second = read("dev-1", "T", 2, "2026-07-23T14:00:01Z");
    store.upsert_latest(first).unwrap();
    store.upsert_latest(second.clone()).unwrap();

    assert_eq!(
        store.latest("dev-1", "T").unwrap(),
        Some(second)
    );
}

#[test]
fn a_budget_below_the_latest_floor_reports_itself() {
    let mut store = MemoryStore::with_budget(Some(1));
    store
        .upsert_latest(read("dev-1", "T", 1, "2026-07-23T14:00:00Z"))
        .unwrap();

    let usage = store.usage().unwrap();
    assert_eq!(usage.entries, 0, "everything evictable was evicted");
    assert!(usage.over_budget(), "and it is still over");
    assert_eq!(usage.evicted, 1);
}

#[test]
fn prune_drops_entries_older_than_the_cutoff() {
    let mut store = MemoryStore::default();
    let old = read("dev-1", "T", 1, "2026-07-23T14:00:00Z");
    let cutoff = read("dev-1", "T", 2, "2026-07-23T15:00:00Z");
    let new = read("dev-1", "T", 3, "2026-07-23T16:00:00Z");
    for r in [&old, &cutoff, &new] {
        store.upsert_latest(r.clone()).unwrap();
    }

    let swept = store
        .prune(&Timestamp("2026-07-23T15:00:00Z".into()))
        .unwrap();

    assert_eq!(swept.entries, 1);
    assert_eq!(swept.bytes, history_bytes(&old));
    assert_eq!(all_history(&store, "dev-1", "T"), vec![cutoff, new]);
}

#[test]
fn prune_reaches_every_device() {
    let mut store = MemoryStore::default();
    for dev in ["dev-a", "dev-b", "dev-c"] {
        store
            .upsert_latest(read(dev, "T", 1, "2026-07-23T14:00:00Z"))
            .unwrap();
        store
            .upsert_latest(read(dev, "T", 2, "2026-07-23T16:00:00Z"))
            .unwrap();
    }

    let swept = store
        .prune(&Timestamp("2026-07-23T15:00:00Z".into()))
        .unwrap();

    assert_eq!(swept.entries, 3, "the old entry of each device");
    for dev in ["dev-a", "dev-b", "dev-c"] {
        assert_eq!(all_history(&store, dev, "T").len(), 1);
    }
}

#[test]
fn prune_reaches_an_expired_entry_written_after_a_current_one() {
    let mut store = MemoryStore::default();
    let current = read("dev-a", "T", 1, "2026-07-23T16:00:00Z");
    let expired = read("dev-b", "T", 2, "2026-07-23T14:00:00Z");
    store.upsert_latest(current.clone()).unwrap();
    store.upsert_latest(expired).unwrap();

    let swept = store
        .prune(&Timestamp("2026-07-23T15:00:00Z".into()))
        .unwrap();

    assert_eq!(swept.entries, 1);
    assert_eq!(all_history(&store, "dev-a", "T"), vec![current]);
    assert_eq!(all_history(&store, "dev-b", "T"), Vec::<Read>::new());
}

#[test]
fn prune_leaves_the_survivors_in_eviction_order() {
    let sample = read("dev-1", "T", 0, "2026-07-23T14:00:00Z");
    let mut store = MemoryStore::with_budget(Some(budget_for(&sample, 2, 1)));

    for hour in [14, 16, 17] {
        store
            .upsert_latest(read(
                "dev-1",
                "T",
                hour,
                &format!("2026-07-23T{hour}:00:00Z"),
            ))
            .unwrap();
    }
    store
        .prune(&Timestamp("2026-07-23T15:00:00Z".into()))
        .unwrap();
    store
        .upsert_latest(read("dev-1", "T", 18, "2026-07-23T18:00:00Z"))
        .unwrap();

    let kept: Vec<u32> = all_history(&store, "dev-1", "T")
        .iter()
        .map(|r| match r.value {
            ReadValue::Number(n) => n,
            _ => unreachable!("the fixture writes numbers"),
        })
        .collect();
    assert_eq!(kept, [17, 18]);
}

#[test]
fn prune_leaves_latest_alone() {
    let mut store = MemoryStore::default();
    let ancient = read("dev-1", "T", 1, "2020-01-01T00:00:00Z");
    store.upsert_latest(ancient.clone()).unwrap();

    store
        .prune(&Timestamp("2026-07-23T15:00:00Z".into()))
        .unwrap();

    assert_eq!(all_history(&store, "dev-1", "T"), Vec::<Read>::new());
    assert_eq!(
        store.latest("dev-1", "T").unwrap(),
        Some(ancient)
    );
}

#[test]
fn prune_is_idempotent() {
    let mut store = MemoryStore::default();
    store
        .upsert_latest(read("dev-1", "T", 1, "2026-07-23T14:00:00Z"))
        .unwrap();

    let cutoff = Timestamp("2026-07-23T15:00:00Z".into());
    let first = store.prune(&cutoff).unwrap();
    let second = store.prune(&cutoff).unwrap();

    assert_eq!(first.entries, 1);
    assert_eq!(second, Swept::default(), "nothing left to take");
}

#[test]
fn prune_returns_the_bytes_to_the_ledger() {
    let mut store = MemoryStore::default();
    let r = read("dev-1", "T", 1, "2026-07-23T14:00:00Z");
    store.upsert_latest(r.clone()).unwrap();

    store
        .prune(&Timestamp("2026-07-23T15:00:00Z".into()))
        .unwrap();

    let usage = store.usage().unwrap();
    assert_eq!(usage.entries, 0);
    assert_eq!(usage.bytes, latest_bytes(&r));
}

#[test]
fn expiry_makes_room_the_budget_can_use() {
    let sample = read("dev-1", "T", 0, "2026-07-23T14:00:00Z");
    let mut store = MemoryStore::with_budget(Some(budget_for(&sample, 2, 1)));

    store
        .upsert_latest(read("dev-1", "T", 1, "2026-07-23T14:00:00Z"))
        .unwrap();
    store
        .upsert_latest(read("dev-1", "T", 2, "2026-07-23T14:00:01Z"))
        .unwrap();
    store
        .prune(&Timestamp("2026-07-23T15:00:00Z".into()))
        .unwrap();
    store
        .upsert_latest(read("dev-1", "T", 3, "2026-07-23T16:00:00Z"))
        .unwrap();

    assert_eq!(store.usage().unwrap().evicted, 0);
    assert_eq!(all_history(&store, "dev-1", "T").len(), 1);
}

#[test]
fn an_emptied_series_leaves_no_key_behind() {
    let mut store = MemoryStore::default();
    store
        .upsert_latest(read("dev-1", "T", 1, "2026-07-23T14:00:00Z"))
        .unwrap();

    store
        .prune(&Timestamp("2026-07-23T15:00:00Z".into()))
        .unwrap();

    assert!(store.history_is_empty(), "the device key went with it");
}

#[test]
fn value_size_is_counted() {
    let short = Read {
        value: ReadValue::Port(22),
        ..read("dev-1", "T", 0, "2026-07-23T14:00:00Z")
    };
    let long = Read {
        value: ReadValue::Text("x".repeat(4096)),
        ..read("dev-1", "T", 0, "2026-07-23T14:00:00Z")
    };
    assert!(history_bytes(&long) > history_bytes(&short) + 4000);
}

#[test]
fn forgetting_a_device_drops_its_reads_and_no_others() {
    let mut store = MemoryStore::default();
    for r in [
        read("dev-1", "T", 1, "2026-07-23T14:00:00Z"),
        read("dev-2", "T", 2, "2026-07-23T14:00:01Z"),
        read("dev-1", "U", 3, "2026-07-23T14:00:02Z"),
        read("dev-1", "T", 4, "2026-07-23T14:00:03Z"),
    ] {
        store.upsert_latest(r).unwrap();
    }
    let mut alone = MemoryStore::default();
    alone
        .upsert_latest(read("dev-2", "T", 2, "2026-07-23T14:00:01Z"))
        .unwrap();

    assert_eq!(store.forget_device("dev-1"), 3);
    assert!(store.latest_all("dev-1").unwrap().is_empty());
    assert!(all_history(&store, "dev-1", "T").is_empty());
    assert!(all_history(&store, "dev-1", "U").is_empty());
    assert_eq!(all_history(&store, "dev-2", "T").len(), 1);
    assert_eq!(store.usage().unwrap(), alone.usage().unwrap());
    assert_eq!(store.forget_device("dev-1"), 0);
}

#[test]
fn a_lowered_budget_is_met_at_once() {
    let mut store = MemoryStore::default();
    for n in 0..10 {
        store
            .upsert_latest(read("dev-1", "T", n, "2026-07-23T14:00:00Z"))
            .unwrap();
    }
    let one = history_bytes(&read("dev-1", "T", 0, "2026-07-23T14:00:00Z"));
    let held = store.usage().unwrap().bytes;
    assert_eq!(store.set_budget(Some(held)), 0);
    assert_eq!(store.set_budget(Some(held - 1)), 1);
    assert_eq!(store.usage().unwrap().bytes, held - one);
    assert_eq!(all_history(&store, "dev-1", "T").len(), 9);
    assert_eq!(
        all_history(&store, "dev-1", "T")[0],
        read("dev-1", "T", 1, "2026-07-23T14:00:00Z")
    );
    assert_eq!(store.set_budget(Some(0)), 9);
    assert!(store.latest("dev-1", "T").unwrap().is_some());
    assert_eq!(store.set_budget(None), 0);
    assert_eq!(store.usage().unwrap().evicted, 10);
    assert_eq!(store.usage().unwrap().budget, None);
}
