//! Settings that change while the process runs.

use sismatic::configuration::{
    resolve_config, RawField, RawIntentRelay, RawServerConfig, RawSync, ServerConfig,
};
use sismatic::api::{Read, ReadValue};
use sismatic::memory::outbox::MemoryOutbox;
use sismatic::memory::store::MemoryStore;
use sismatic::retention::{Retention, StoreConfig};
use sismatic::settings::{
    refuse, schedules, unreadable, ConfigRefusal, LiveSettings, PatchError,
};
use sismatic::sync::schedule::FieldSchedule;
use sismatic::time::{Duration, Timestamp};

fn config(fields: &[(&str, u64)]) -> ServerConfig {
    config_polling(fields, None)
}

fn config_polling(fields: &[(&str, u64)], poll_ms: Option<u64>) -> ServerConfig {
    let raw = RawServerConfig {
        intent_relay: Some(RawIntentRelay {
            poll_ms,
            max_attempts: None,
        }),
        sync: Some(RawSync {
            interval_secs: None,
            fields: Some(
                fields
                    .iter()
                    .map(|(name, secs)| RawField {
                        name: (*name).to_owned(),
                        interval_secs: Some(*secs),
                    })
                    .collect(),
            ),
        }),
        ..RawServerConfig::default()
    };
    resolve_config("/etc/sismatic", raw, &Vec::new())
}

fn policy(max_memory: Option<u64>) -> StoreConfig {
    StoreConfig {
        retain: Retention::Age(Duration::from_secs(21_600)),
        cleanup: Some(Duration::from_secs(60)),
        max_memory,
    }
}

fn keep_forever() -> StoreConfig {
    StoreConfig {
        retain: Retention::Forever,
        cleanup: None,
        max_memory: None,
    }
}

#[test]
fn a_patch_reaches_every_task_that_enforces_a_piece_of_it() {
    let mut settings = LiveSettings::new(config(&[("FIRMWARE", 30)]), keep_forever());
    let mut store = MemoryStore::default();
    let mut outbox = MemoryOutbox::with_max_attempts(1);
    assert_eq!(settings.current.intent_relay.poll, Duration::from_millis(250));
    let next = config_polling(&[("RUNNING_STATE", 5)], Some(50));
    let published = settings
        .apply(Ok((next.clone(), policy(None))), &mut store, &mut outbox)
        .expect("it applies");
    assert_eq!(
        published.schedule,
        vec![FieldSchedule {
            name: "RUNNING_STATE".to_owned(),
            interval: Some(Duration::from_secs(5)),
        }]
    );
    assert_eq!(published.drain, Duration::from_millis(50));
    assert_eq!(published.policy, policy(None));
    assert_eq!(published.policy.cleanup, Some(Duration::from_secs(60)));
    assert_eq!(published.evicted, 0);
    assert_eq!(settings.policy, policy(None));
    assert_eq!(settings.current, next);
    assert_eq!(schedules(&settings.current.sync), published.schedule);
}

#[test]
fn a_refused_patch_leaves_every_channel_untouched() {
    let before = config(&[("FIRMWARE", 30)]);
    let mut settings = LiveSettings::new(before.clone(), keep_forever());
    let mut store = MemoryStore::with_budget(Some(4096));
    let mut outbox = MemoryOutbox::with_max_attempts(1);
    let refusal = settings
        .apply(
            Err(PatchError::Malformed("5 fortnights".to_owned())),
            &mut store,
            &mut outbox,
        )
        .expect_err("a bad value should refuse the whole patch");
    assert_eq!(refusal, ConfigRefusal::Malformed("5 fortnights".to_owned()));
    assert_eq!(settings.current, before);
    assert_eq!(settings.policy, keep_forever());
    assert_eq!(store.usage().unwrap().budget, Some(4096));
    assert_eq!(
        refuse(PatchError::Fixed("http.port".to_owned())),
        ConfigRefusal::Fixed("http.port".to_owned())
    );
}

#[test]
fn a_reload_of_a_missing_file_is_a_source_failure() {
    assert_eq!(
        unreadable("unused-by-these-tests.yaml", "no such file"),
        ConfigRefusal::Source("reading unused-by-these-tests.yaml: no such file".to_owned())
    );
}

#[test]
fn a_lowered_budget_is_enforced_on_the_store_immediately() {
    let mut settings = LiveSettings::new(config(&[]), keep_forever());
    let mut store = MemoryStore::default();
    let mut outbox = MemoryOutbox::with_max_attempts(3);
    for n in 0..50 {
        store
            .upsert_latest(Read {
                device: "atrium-101".to_owned(),
                field: "FIRMWARE".to_owned(),
                value: ReadValue::Number(n),
                at: Timestamp(format!("2026-07-23T14:00:{n:02}.000Z")),
            })
            .expect("seeding the store");
    }
    let published = settings
        .apply(
            Ok((config(&[]), policy(Some(1024)))),
            &mut store,
            &mut outbox,
        )
        .expect("it applies");
    let usage = store.usage().expect("reading usage");
    assert_eq!(usage.budget, Some(1024));
    assert!(usage.evicted > 0, "history should have gone at once");
    assert_eq!(usage.evicted, published.evicted as u64);
    assert_eq!(usage.entries + usage.evicted, 50);
    assert!(usage.bytes <= 1024);
    assert_eq!(
        store.latest("atrium-101", "FIRMWARE").unwrap().unwrap().value,
        ReadValue::Number(49)
    );
}

#[test]
fn a_field_set_to_never_stays_on_the_schedule() {
    let config = config(&[("RUNNING_STATE", 5), ("FIRMWARE", 0)]);
    assert_eq!(
        schedules(&config.sync),
        vec![
            FieldSchedule {
                name: "RUNNING_STATE".to_owned(),
                interval: Some(Duration::from_secs(5)),
            },
            FieldSchedule {
                name: "FIRMWARE".to_owned(),
                interval: None,
            },
        ]
    );
}
