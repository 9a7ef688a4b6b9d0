//! Changing the fleet while it runs, and the document that describes it.

use sismatic::api::{Barrier, Intent, Read, ReadValue, WriteStatus};
use sismatic::inventory::config::{
    raw_of, DeviceConfig, DeviceDefaults, DeviceWrite, GroupConfig, GroupWrite, RawConfig,
    RawDevice, RawGroup, Resolved,
};
use sismatic::inventory::edit::{group_summary_of, summary_of, LiveFleet, Removed};
use sismatic::inventory::export::{
    export, format_of, persist_query, promotable, render, ExportDefaults, ExportFormat,
    ExportQuery, Names,
};
use sismatic::inventory::refusal::{refusal_of, ConfigError, InventoryRefusal};
use sismatic::inventory::summary::{
    summarize, summarize_all, summarize_all_groups, AutoDisabledField, ConnectionStatus,
};
use sismatic::memory::catalog::MemoryCatalog;
use sismatic::memory::outbox::MemoryOutbox;
use sismatic::memory::store::MemoryStore;
use sismatic::ordered::OrderedMap;
use sismatic::store::outbox::Submission;
use sismatic::time::{Duration, Timestamp};

const KNOWN_FIELDS: &[&str] = &["FIRMWARE", "STREAM_2_NAME", "STREAM_3_NAME"];

/// Settles a document: what is left out falls back on the defaults, every id
/// names one thing, and every member is a device.
fn resolve(raw: &RawConfig) -> Result<Resolved, ConfigError> {
    let mut ids: Vec<&str> = Vec::new();
    for id in raw
        .devices
        .iter()
        .map(|d| d.id.as_str())
        .chain(raw.groups.iter().map(|g| g.id.as_str()))
    {
        if ids.contains(&id) {
            return Err(ConfigError::DuplicateId(id.to_owned()));
        }
        ids.push(id);
    }
    let mut devices = Vec::new();
    for device in &raw.devices {
        for field in device.disabled_fields.iter().flatten() {
            if !KNOWN_FIELDS.contains(&field.as_str()) {
                return Err(ConfigError::UnknownDisabledField(format!(
                    "device '{}' disables unknown field '{field}'",
                    device.id
                )));
            }
        }
        let missing = |field: &str| {
            ConfigError::MissingField(format!("device '{}' is missing '{field}'", device.id))
        };
        let secs = |secs: Option<u64>| secs.filter(|s| *s > 0).map(Duration::from_secs);
        let identity = device
            .host
            .bytes()
            .fold(7u128, |sum, b| sum * 31 + u128::from(b));
        devices.push(DeviceConfig {
            id: device.id.clone(),
            host: device.host.clone(),
            port: device.port.unwrap_or(22023),
            username: device
                .username
                .clone()
                .or(raw.defaults.username.clone())
                .ok_or_else(|| missing("username"))?,
            password: device
                .password
                .clone()
                .or(raw.defaults.password.clone())
                .ok_or_else(|| missing("password"))?,
            connect_timeout: Duration::from_secs(device.connect_secs.unwrap_or(5)),
            exchange_timeout: Duration::from_secs(device.exchange_secs.unwrap_or(3)),
            eager: device.eager.unwrap_or(false),
            sis_keepalive: secs(device.sis_keepalive_secs),
            eager_retry: secs(device.eager_retry_secs),
            cold_backoff: secs(device.cold_backoff_secs),
            uuid: identity,
            disabled_fields: device.disabled_fields.clone().unwrap_or_default(),
            auto_disable_after: device.auto_disable_after.unwrap_or(0),
            self_heal: secs(device.self_heal_secs),
        });
    }
    let mut groups = Vec::new();
    for group in &raw.groups {
        if group.devices.is_empty() {
            return Err(ConfigError::EmptyGroup(format!(
                "group '{}' has no members",
                group.id
            )));
        }
        for member in &group.devices {
            if !raw.devices.iter().any(|d| d.id == *member) {
                return Err(ConfigError::UnknownGroupMember {
                    group: group.id.clone(),
                    device: member.clone(),
                });
            }
        }
        groups.push(GroupConfig {
            id: group.id.clone(),
            device_ids: group.devices.clone(),
            barrier_timeout: Duration::from_secs(group.barrier_timeout_secs.unwrap_or(8)),
            barrier: group.barrier.unwrap_or(Barrier::FailBatch),
        });
    }
    Ok(Resolved { devices, groups })
}

fn raw_device(id: &str) -> RawDevice {
    RawDevice {
        id: id.to_owned(),
        host: "10.0.0.1".to_owned(),
        port: None,
        username: None,
        password: None,
        connect_secs: None,
        exchange_secs: None,
        eager: None,
        sis_keepalive_secs: None,
        eager_retry_secs: None,
        cold_backoff_secs: None,
        disabled_fields: None,
        auto_disable_after: None,
        self_heal_secs: None,
    }
}

fn document(ids: &[&str]) -> RawConfig {
    RawConfig {
        defaults: DeviceDefaults {
            username: Some("admin".to_owned()),
            password: Some("extron".to_owned()),
        },
        devices: ids.iter().map(|id| raw_device(id)).collect(),
        groups: Vec::new(),
    }
}

fn live(ids: &[&str], cleanup_on_remove: bool) -> LiveFleet {
    let document = document(ids);
    let resolved = resolve(&document).expect("the fixture resolves");
    LiveFleet {
        catalog: MemoryCatalog::new(
            summarize_all(&resolved.devices),
            summarize_all_groups(&resolved.groups),
        ),
        document,
        generation: 0,
        cleanup_on_remove,
    }
}

fn amend(
    fleet: &mut LiveFleet,
    edited: Result<RawConfig, InventoryRefusal>,
) -> Result<Resolved, InventoryRefusal> {
    let edited = edited?;
    let resolution = resolve(&edited);
    fleet.amend(edited, resolution)
}

fn now() -> Timestamp {
    Timestamp("2026-08-17T00:00:00.000Z".to_owned())
}

fn queue_a_write(outbox: &mut MemoryOutbox, device: &str, id: &str) {
    outbox
        .submit(Submission {
            ids: vec![id.to_owned()],
            targets: vec![device.to_owned()],
            group: None,
            batch: None,
            barrier: None,
            intent: Intent::SetSetting {
                field: "TIMEZONE".to_owned(),
                value: "Europe/Vienna".to_owned(),
            },
            at: now(),
            idempotency_key: None,
        })
        .expect("the submission");
}

fn seed_a_read(store: &mut MemoryStore, device: &str) {
    store
        .upsert_latest(Read {
            device: device.to_owned(),
            field: "FIRMWARE".to_owned(),
            value: ReadValue::Text("2.11".to_owned()),
            at: now(),
        })
        .expect("seeding");
}

fn status_of(outbox: &MemoryOutbox, id: &str) -> WriteStatus {
    outbox.write(id).unwrap().expect("the write").status
}

fn remove(
    fleet: &mut LiveFleet,
    id: &str,
    outbox: &mut MemoryOutbox,
    store: &mut MemoryStore,
) -> Result<Removed, InventoryRefusal> {
    let resolution = resolve(&fleet.without(id)?);
    fleet.remove(id, resolution, outbox, store, &now())
}

fn blank_write() -> DeviceWrite {
    DeviceWrite {
        id: None,
        host: String::new(),
        port: None,
        username: None,
        password: None,
        connect_secs: None,
        exchange_secs: None,
        eager: None,
        sis_keepalive_secs: None,
        eager_retry_secs: None,
        cold_backoff_secs: None,
        disabled_fields: None,
        auto_disable_after: None,
        self_heal_secs: None,
    }
}

fn group_write(id: Option<&str>, members: &[&str]) -> GroupWrite {
    GroupWrite {
        id: id.map(ToOwned::to_owned),
        devices: members.iter().map(|m| (*m).to_owned()).collect(),
        barrier_timeout_secs: None,
        barrier: None,
    }
}

fn ids(fleet: &LiveFleet) -> Vec<String> {
    fleet.catalog.devices().iter().map(|d| d.id.clone()).collect()
}

// ---- devices --------------------------------------------------------------

#[test]
fn an_added_device_inherits_the_files_defaults() {
    let mut fleet = live(&["first"], false);
    let edited = fleet.with_added(DeviceWrite {
        id: Some("second".to_owned()),
        host: "10.0.0.2".to_owned(),
        ..blank_write()
    });
    let resolved = amend(&mut fleet, edited).expect("it inherits its credentials");

    assert_eq!(summary_of(&resolved, "second").unwrap().id, "second");
    assert_eq!(ids(&fleet), ["first", "second"]);
    assert_eq!(fleet.document.devices[1].username, Some("admin".to_owned()));
    assert_eq!(fleet.document.devices[1].port, Some(22023));
}

#[test]
fn a_refused_add_leaves_the_fleet_untouched() {
    let mut fleet = live(&["taken"], false);
    let edited = fleet.with_added(DeviceWrite {
        id: Some("taken".to_owned()),
        host: "10.0.0.2".to_owned(),
        ..blank_write()
    });
    let refusal = amend(&mut fleet, edited).expect_err("a duplicate id");

    assert_eq!(
        refusal,
        InventoryRefusal::Duplicate(
            "'taken' already names a device or group; use PUT /v1/inventory/devices/taken to \
             replace it"
                .to_owned()
        )
    );
    assert_eq!(ids(&fleet), ["taken"]);
    assert_eq!(fleet.document.devices[0].host, "10.0.0.1");
    assert_eq!(fleet.generation, 0);
}

#[test]
fn an_added_device_must_state_its_id() {
    let fleet = live(&["first"], false);
    assert_eq!(
        fleet.with_added(blank_write()).unwrap_err(),
        InventoryRefusal::Malformed(
            "an added device must state an `id`; the URL does not name one".to_owned()
        )
    );
    assert_eq!(
        fleet.with_added_group(group_write(None, &["first"])).unwrap_err(),
        InventoryRefusal::Malformed(
            "an added group must state an `id`; the URL does not name one".to_owned()
        )
    );
}

#[test]
fn an_added_device_with_an_unknown_veto_is_refused() {
    let mut fleet = live(&["first"], false);
    let edited = fleet.with_added(DeviceWrite {
        id: Some("typo".to_owned()),
        host: "10.0.0.2".to_owned(),
        disabled_fields: Some(vec!["STREAM_9_NAME".to_owned()]),
        ..blank_write()
    });
    let refusal = amend(&mut fleet, edited).expect_err("an unknown field name");
    assert!(
        matches!(refusal, InventoryRefusal::Malformed(_)),
        "{refusal:?}"
    );
    assert_eq!(ids(&fleet), ["first"]);
}

#[test]
fn replacing_a_device_changes_its_identity() {
    let mut fleet = live(&["edited"], false);
    let before = fleet.catalog.device("edited").unwrap().uuid.clone();
    let edited = fleet.with_replaced(
        "edited",
        DeviceWrite {
            host: "10.0.0.9".to_owned(),
            ..blank_write()
        },
    );
    let resolved = amend(&mut fleet, edited).expect("the replacement");

    assert_ne!(summary_of(&resolved, "edited").unwrap().uuid, before);
    assert_eq!(fleet.catalog.device("edited").unwrap().host, "10.0.0.9");
}

#[test]
fn a_replace_does_not_merge_with_the_previous_device() {
    let mut fleet = live(&["edited"], false);
    for (eager, expected) in [(Some(true), true), (None, false)] {
        let edited = fleet.with_replaced(
            "edited",
            DeviceWrite {
                host: "10.0.0.1".to_owned(),
                eager,
                ..blank_write()
            },
        );
        amend(&mut fleet, edited).expect("the replacement");
        assert_eq!(fleet.catalog.device("edited").unwrap().eager, expected);
    }
}

#[test]
fn a_replace_states_the_id_once() {
    let fleet = live(&["a"], false);
    let refusal = fleet
        .with_replaced(
            "a",
            DeviceWrite {
                id: Some("b".to_owned()),
                ..blank_write()
            },
        )
        .unwrap_err();
    assert_eq!(
        refusal,
        InventoryRefusal::Malformed(
            "the body names device 'b' and the path names 'a'; a replace states the id once"
                .to_owned()
        )
    );
    assert_eq!(
        fleet.with_replaced("ghost", blank_write()).unwrap_err(),
        InventoryRefusal::Unknown("no device 'ghost' is configured".to_owned())
    );
    assert_eq!(
        fleet
            .with_replaced_group("g", group_write(Some("h"), &[]))
            .unwrap_err(),
        InventoryRefusal::Malformed(
            "the body names group 'h' and the path names 'g'; a replace states the id once"
                .to_owned()
        )
    );
    assert_eq!(
        fleet
            .with_replaced_group("ghost", group_write(None, &[]))
            .unwrap_err(),
        InventoryRefusal::Unknown("no group 'ghost' is configured".to_owned())
    );
}

#[test]
fn a_replaced_device_keeps_its_place() {
    let mut fleet = live(&["c", "a", "b"], false);
    let edited = fleet.with_replaced("a", blank_write());
    amend(&mut fleet, edited).expect("the replacement");
    let order: Vec<&str> = fleet.document.devices.iter().map(|d| d.id.as_str()).collect();
    assert_eq!(order, ["c", "a", "b"]);
    assert_eq!(ids(&fleet), ["a", "b", "c"], "the catalog is ordered by id");
}

#[test]
fn removing_what_was_added_restores_the_document() {
    let mut fleet = live(&["first"], false);
    let once = amend_nothing(&mut fleet);
    let edited = fleet.with_added(DeviceWrite {
        id: Some("second".to_owned()),
        ..blank_write()
    });
    amend(&mut fleet, edited).expect("the add");
    let edited = fleet.without("second");
    amend(&mut fleet, edited).expect("the removal");
    assert_eq!(fleet.document, once);
}

/// Writes the fleet down as it resolves.
fn amend_nothing(fleet: &mut LiveFleet) -> RawConfig {
    let same = fleet.document.clone();
    amend(fleet, Ok(same)).expect("the document resolves");
    fleet.document.clone()
}

#[test]
fn removing_a_device_cancels_its_queue_and_keeps_its_reads() {
    let mut fleet = live(&["goner", "keeper"], false);
    let mut outbox = MemoryOutbox::with_max_attempts(1);
    let mut store = MemoryStore::default();
    queue_a_write(&mut outbox, "goner", "doomed");
    queue_a_write(&mut outbox, "keeper", "kept");
    seed_a_read(&mut store, "goner");

    let removed = remove(&mut fleet, "goner", &mut outbox, &mut store).expect("the removal");

    assert_eq!(removed.device, "goner");
    assert_eq!(removed.writes_canceled, 1);
    assert_eq!(
        removed.reads_dropped, None,
        "off means the history was kept, which is not the same as dropping none"
    );
    assert_eq!(ids(&fleet), ["keeper"]);
    assert_eq!(
        status_of(&outbox, "doomed"),
        WriteStatus::Canceled {
            reason: "the device was removed from the fleet".to_owned()
        }
    );
    assert_eq!(
        status_of(&outbox, "kept"),
        WriteStatus::Pending,
        "another device's queue is not this device's to cancel"
    );
    assert_eq!(
        store.latest_all("goner").unwrap().len(),
        1,
        "the reads must still be there"
    );
    assert!(outbox.claim_next("goner", &now()).unwrap().is_none());
}

#[test]
fn cleanup_on_remove_drops_the_departed_devices_reads() {
    let mut fleet = live(&["goner", "keeper"], true);
    let mut outbox = MemoryOutbox::with_max_attempts(1);
    let mut store = MemoryStore::default();
    seed_a_read(&mut store, "goner");
    seed_a_read(&mut store, "keeper");

    let removed = remove(&mut fleet, "goner", &mut outbox, &mut store).expect("the removal");

    assert_eq!(removed.writes_canceled, 0);
    assert_eq!(removed.reads_dropped, Some(1));
    assert!(store.latest_all("goner").unwrap().is_empty());
    assert_eq!(
        store.latest_all("keeper").unwrap().len(),
        1,
        "another device's reads stay"
    );
    assert_eq!(store.usage().unwrap().entries, 1);
}

#[test]
fn a_cancelled_write_stays_readable_even_with_cleanup_on() {
    let mut fleet = live(&["goner"], true);
    let mut outbox = MemoryOutbox::with_max_attempts(1);
    let mut store = MemoryStore::default();
    queue_a_write(&mut outbox, "goner", "doomed");
    seed_a_read(&mut store, "goner");

    remove(&mut fleet, "goner", &mut outbox, &mut store).expect("the removal");

    assert!(
        outbox.write("doomed").unwrap().is_some(),
        "reads go with the device; the log of its writes is evidence"
    );
    assert_eq!(outbox.writes_for("goner").unwrap().len(), 1);
}

#[test]
fn removing_a_group_member_is_refused_and_cancels_nothing() {
    let mut fleet = live(&["member", "other"], true);
    let edited = fleet.with_added_group(group_write(Some("room"), &["member", "other"]));
    amend(&mut fleet, edited).expect("the group");
    let mut outbox = MemoryOutbox::with_max_attempts(1);
    let mut store = MemoryStore::default();
    queue_a_write(&mut outbox, "member", "still-owed");
    seed_a_read(&mut store, "member");

    let refusal =
        remove(&mut fleet, "member", &mut outbox, &mut store).expect_err("a group holds it");
    assert_eq!(
        refusal,
        InventoryRefusal::Blocked(
            "group 'room' still names device 'member'; remove it from the group first".to_owned()
        )
    );
    assert_eq!(
        ids(&fleet),
        ["member", "other"],
        "a refused removal must leave the device in the fleet"
    );
    assert_eq!(fleet.generation, 1);
    assert_eq!(
        status_of(&outbox, "still-owed"),
        WriteStatus::Pending,
        "nothing may be cancelled for a removal that did not happen"
    );
    assert_eq!(store.latest_all("member").unwrap().len(), 1);
}

#[test]
fn removing_a_device_that_does_not_exist_is_unknown() {
    let mut fleet = live(&["first"], true);
    let unknown = InventoryRefusal::Unknown("no device 'ghost' is configured".to_owned());
    assert_eq!(fleet.without("ghost").unwrap_err(), unknown);
    let mut outbox = MemoryOutbox::with_max_attempts(1);
    let mut store = MemoryStore::default();
    queue_a_write(&mut outbox, "ghost", "owed");
    let resolution = resolve(&document(&["first"]));
    let refusal = fleet
        .remove("ghost", resolution, &mut outbox, &mut store, &now())
        .expect_err("no such device");
    assert_eq!(refusal, unknown);
    assert_eq!(status_of(&outbox, "owed"), WriteStatus::Pending);
}

#[test]
fn a_removal_whose_document_does_not_resolve_cancels_nothing() {
    let mut fleet = live(&["first", "second"], true);
    let mut outbox = MemoryOutbox::with_max_attempts(1);
    let mut store = MemoryStore::default();
    queue_a_write(&mut outbox, "first", "owed");
    let refusal = fleet
        .remove(
            "first",
            Err(ConfigError::MissingField("no username".to_owned())),
            &mut outbox,
            &mut store,
            &now(),
        )
        .expect_err("it does not resolve");
    assert_eq!(refusal, InventoryRefusal::Malformed("no username".to_owned()));
    assert_eq!(status_of(&outbox, "owed"), WriteStatus::Pending);
    assert_eq!(ids(&fleet), ["first", "second"]);
}

#[test]
fn every_mutation_wakes_the_subscribers() {
    let mut fleet = live(&["first"], false);
    let edited = fleet.with_added(DeviceWrite {
        id: Some("second".to_owned()),
        ..blank_write()
    });
    amend(&mut fleet, edited).expect("add");
    assert_eq!(fleet.generation, 1);
    let edited = fleet.with_replaced("second", blank_write());
    amend(&mut fleet, edited).expect("replace");
    assert_eq!(fleet.generation, 2);
    let edited = fleet.without("second");
    amend(&mut fleet, edited).expect("remove");
    assert_eq!(fleet.generation, 3);
    fleet.generation = u64::MAX;
    amend_nothing(&mut fleet);
    assert_eq!(fleet.generation, 0, "the count starts over");
}

// ---- groups ---------------------------------------------------------------

#[test]
fn an_added_group_resolves_over_the_running_devices() {
    let mut fleet = live(&["atrium", "annex"], false);
    let edited = fleet.with_added_group(group_write(Some("atrium-room"), &["atrium", "annex"]));
    let resolved = amend(&mut fleet, edited).expect("the group");

    let summary = group_summary_of(&resolved, "atrium-room").unwrap();
    assert_eq!(summary.id, "atrium-room");
    assert_eq!(summary.members, ["atrium", "annex"]);
    assert!(summary.barrier_timeout_secs > 0, "derived from the members");
    assert!(fleet.catalog.group("atrium-room").is_some());
}

#[test]
fn a_group_naming_an_unknown_device_is_refused() {
    let mut fleet = live(&["atrium"], false);
    let edited = fleet.with_added_group(group_write(Some("room"), &["atrium", "nobody"]));
    let refusal = amend(&mut fleet, edited).expect_err("an unresolvable member");
    assert!(
        matches!(refusal, InventoryRefusal::Blocked(_)),
        "{refusal:?}"
    );
    assert!(fleet.catalog.group("room").is_none());
}

#[test]
fn an_empty_group_is_refused() {
    let mut fleet = live(&["atrium"], false);
    let edited = fleet.with_added_group(group_write(Some("room"), &[]));
    let refusal = amend(&mut fleet, edited).expect_err("a group addressing nothing");
    assert!(
        matches!(refusal, InventoryRefusal::Malformed(_)),
        "{refusal:?}"
    );
}

#[test]
fn a_stated_barrier_policy_survives_a_later_edit() {
    let mut fleet = live(&["atrium"], false);
    let edited = fleet.with_added_group(GroupWrite {
        barrier: Some(Barrier::DispatchReady),
        ..group_write(Some("room"), &["atrium"])
    });
    let resolved = amend(&mut fleet, edited).expect("the group");
    assert_eq!(
        group_summary_of(&resolved, "room").unwrap().barrier,
        Barrier::DispatchReady
    );

    let edited = fleet.with_added_group(group_write(Some("other"), &["atrium"]));
    let resolved = amend(&mut fleet, edited).expect("a second group");
    assert_eq!(
        group_summary_of(&resolved, "room").unwrap().barrier,
        Barrier::DispatchReady,
        "the policy must not have reverted to the default"
    );
    assert_eq!(fleet.document.groups[1].barrier, None, "nor been filled in");
}

#[test]
fn replacing_a_group_replaces_its_membership() {
    let mut fleet = live(&["atrium", "annex"], false);
    let edited = fleet.with_added_group(group_write(Some("room"), &["atrium", "annex"]));
    amend(&mut fleet, edited).expect("the group");
    let edited = fleet.with_replaced_group("room", group_write(None, &["atrium"]));
    let resolved = amend(&mut fleet, edited).expect("the replacement");
    assert_eq!(group_summary_of(&resolved, "room").unwrap().members, ["atrium"]);
    assert_eq!(fleet.catalog.group("room").unwrap().members.len(), 1);
}

#[test]
fn removing_a_group_leaves_its_members_alone() {
    let mut fleet = live(&["atrium", "annex"], false);
    let edited = fleet.with_added_group(group_write(Some("room"), &["atrium", "annex"]));
    amend(&mut fleet, edited).expect("the group");
    let mut outbox = MemoryOutbox::with_max_attempts(1);
    queue_a_write(&mut outbox, "atrium", "owed");

    let resolution = resolve(&fleet.without_group("room").expect("it is there"));
    fleet
        .remove_group("room", resolution, &mut outbox)
        .expect("the removal");

    assert!(fleet.catalog.group("room").is_none());
    assert_eq!(
        ids(&fleet),
        ["annex", "atrium"],
        "a group is a name over devices, not an owner of them"
    );
    assert_eq!(
        status_of(&outbox, "owed"),
        WriteStatus::Pending,
        "what was owed to a device is still owed to it"
    );
}

#[test]
fn removing_a_group_that_does_not_exist_is_unknown() {
    let mut fleet = live(&["atrium"], false);
    let unknown = InventoryRefusal::Unknown("no group 'ghost' is configured".to_owned());
    assert_eq!(fleet.without_group("ghost").unwrap_err(), unknown);
    let mut outbox = MemoryOutbox::with_max_attempts(1);
    let resolution = resolve(&document(&["atrium"]));
    assert_eq!(
        fleet.remove_group("ghost", resolution, &mut outbox),
        Err(unknown)
    );
    assert_eq!(fleet.generation, 0);
}

#[test]
fn what_a_group_was_told_goes_with_it() {
    let mut fleet = live(&["atrium"], false);
    for id in ["room", "hall"] {
        let edited = fleet.with_added_group(group_write(Some(id), &["atrium"]));
        amend(&mut fleet, edited).expect("the group");
    }
    let mut outbox = MemoryOutbox::with_max_attempts(1);
    for (n, (group, field)) in [("room", "TITLE"), ("room", "SUBJECT"), ("hall", "TITLE")]
        .into_iter()
        .enumerate()
    {
        outbox
            .submit(Submission {
                ids: vec![format!("told-{n}")],
                targets: vec!["atrium".to_owned()],
                group: Some(group.to_owned()),
                batch: None,
                barrier: None,
                intent: Intent::SetMetadata {
                    field: field.to_owned(),
                    value: "x".to_owned(),
                },
                at: now(),
                idempotency_key: None,
            })
            .expect("the submission");
    }

    let refused = fleet.remove_group(
        "room",
        Err(ConfigError::Parse("bad".to_owned())),
        &mut outbox,
    );
    assert_eq!(refused, Err(InventoryRefusal::Malformed("bad".to_owned())));
    assert_eq!(outbox.expected_all("room").unwrap().len(), 2);

    let resolution = resolve(&fleet.without_group("room").expect("it is there"));
    assert_eq!(fleet.remove_group("room", resolution, &mut outbox), Ok(2));
    assert!(outbox.expected_all("room").unwrap().is_empty());
    assert_eq!(outbox.expected_all("hall").unwrap().len(), 1);
    assert_eq!(status_of(&outbox, "told-0"), WriteStatus::Pending);
    assert_eq!(outbox.forget_group("room"), 0);
}

#[test]
fn removing_a_group_unblocks_removing_its_members() {
    let mut fleet = live(&["atrium", "annex"], false);
    let edited = fleet.with_added_group(group_write(Some("room"), &["atrium", "annex"]));
    amend(&mut fleet, edited).expect("the group");
    let edited = fleet.without("atrium");
    let blocked = amend(&mut fleet, edited).expect_err("the group holds it");
    assert!(
        matches!(blocked, InventoryRefusal::Blocked(_)),
        "{blocked:?}"
    );

    let edited = fleet.without_group("room");
    amend(&mut fleet, edited).expect("the group removal");
    let edited = fleet.without("atrium");
    amend(&mut fleet, edited).expect("with the group gone, the device may go");
    assert_eq!(ids(&fleet), ["annex"]);
}

#[test]
fn a_group_change_wakes_the_subscribers() {
    let mut fleet = live(&["atrium"], false);
    let edited = fleet.with_added_group(group_write(Some("room"), &["atrium"]));
    amend(&mut fleet, edited).expect("the group");
    assert_eq!(fleet.generation, 1);
}

#[test]
fn an_unchanged_fleet_still_announces() {
    let mut fleet = live(&["a"], false);
    amend_nothing(&mut fleet);
    assert_eq!(fleet.generation, 1);
}

// ---- export ---------------------------------------------------------------

fn export_query(format: ExportFormat) -> ExportQuery {
    ExportQuery {
        format,
        promote_auto_disabled_fields_to_disabled_fields: false,
        include_secrets: false,
    }
}

#[test]
fn an_export_carries_groups_as_well_as_devices() {
    let mut fleet = live(&["atrium", "annex"], false);
    let edited = fleet.with_added_group(GroupWrite {
        barrier: Some(Barrier::DispatchReady),
        ..group_write(Some("atrium-room"), &["atrium", "annex"])
    });
    let resolved = amend(&mut fleet, edited).expect("the group");

    let exported = export(
        resolved.devices,
        &resolved.groups,
        &OrderedMap::new(),
        &export_query(ExportFormat::Toml),
    );
    let order: Vec<&str> = exported.devices.iter().map(|d| d.id.as_str()).collect();
    assert_eq!(order, ["annex", "atrium"], "devices are ordered by id");
    assert_eq!(exported.groups.len(), 1);
    assert_eq!(exported.groups[0].id, "atrium-room");
    assert_eq!(
        exported.groups[0].devices,
        ["atrium", "annex"],
        "member order is the operator's"
    );
    assert_eq!(exported.groups[0].barrier, "dispatch_ready");
    assert_eq!(exported.groups[0].barrier_timeout_secs, 8);
    assert!(exported.defaults.is_empty());
}

#[test]
fn an_export_omits_credentials_unless_asked() {
    let resolved = resolve(&document(&["atrium"])).expect("the fixture resolves");
    let without = render(
        &resolved.devices,
        &resolved.groups,
        &OrderedMap::new(),
        &export_query(ExportFormat::Toml),
    );
    assert_eq!(without.devices[0].password, None);
    assert_eq!(without.devices[0].username, "admin");

    let with = render(
        &resolved.devices,
        &resolved.groups,
        &OrderedMap::new(),
        &ExportQuery {
            include_secrets: true,
            ..export_query(ExportFormat::Toml)
        },
    );
    assert_eq!(with.devices[0].password, Some("extron".to_owned()));
}

#[test]
fn promotion_writes_inferred_vetoes_into_the_document() {
    let field = |name: &str, disabled: bool| AutoDisabledField {
        name: name.to_owned(),
        refusals: 1,
        disabled,
        retry_in_secs: None,
    };
    let mut resolved = resolve(&document(&["refuser"])).expect("the fixture resolves");
    resolved.devices[0].disabled_fields = vec!["FIRMWARE".to_owned()];
    let inferred = promotable(&vec![
        field("STREAM_2_NAME", true),
        field("STREAM_3_NAME", false),
        field("FIRMWARE", true),
    ]);
    let mut promoted = OrderedMap::new();
    promoted.insert("refuser".to_owned(), inferred);
    promoted.insert("other".to_owned(), Names(vec!["UNIT_NAME".to_owned()]));

    let asked = render(
        &resolved.devices,
        &resolved.groups,
        &promoted,
        &ExportQuery {
            promote_auto_disabled_fields_to_disabled_fields: true,
            ..export_query(ExportFormat::Toml)
        },
    );
    assert_eq!(
        asked.devices[0].disabled_fields,
        ["FIRMWARE", "STREAM_2_NAME"],
        "a field still being watched is evidence of nothing yet"
    );

    let plain = render(
        &resolved.devices,
        &resolved.groups,
        &promoted,
        &export_query(ExportFormat::Toml),
    );
    assert_eq!(plain.devices[0].disabled_fields, ["FIRMWARE"]);
}

#[test]
fn an_export_states_every_delay_in_seconds() {
    let mut resolved = resolve(&document(&["a"])).expect("the fixture resolves");
    resolved.devices[0].sis_keepalive = Some(Duration::from_millis(2_500));
    let exported = render(
        &resolved.devices,
        &resolved.groups,
        &OrderedMap::new(),
        &export_query(ExportFormat::Json),
    );
    let device = &exported.devices[0];
    assert_eq!(device.connect_secs, 5);
    assert_eq!(device.exchange_secs, 3);
    assert_eq!(device.sis_keepalive_secs, 2);
    assert_eq!(device.cold_backoff_secs, 0);
    let raw = raw_of(&resolved.devices[0]);
    assert_eq!(raw.sis_keepalive_secs, Some(2));
    assert_eq!(raw.self_heal_secs, Some(0));
    assert_eq!(raw.disabled_fields, Some(Vec::new()));
}

#[test]
fn the_extension_of_a_state_file_names_its_format() {
    assert_eq!(format_of("state.json"), ExportFormat::Json);
    assert_eq!(format_of("/var/lib/state.yaml"), ExportFormat::Yaml);
    assert_eq!(format_of("/var/lib/state.yml"), ExportFormat::Yaml);
    assert_eq!(format_of("/var/lib/state.toml"), ExportFormat::Toml);
    assert_eq!(format_of("/var/lib.json/state"), ExportFormat::Toml);
    assert_eq!(format_of("state.json.bak"), ExportFormat::Toml);
    assert_eq!(format_of(".json"), ExportFormat::Toml);
    assert_eq!(format_of("a/b.json/"), ExportFormat::Json);
    assert_eq!(format_of(""), ExportFormat::Toml);
    assert_eq!(
        persist_query("/srv/state.yaml"),
        ExportQuery {
            format: ExportFormat::Yaml,
            promote_auto_disabled_fields_to_disabled_fields: false,
            include_secrets: true,
        }
    );
}

#[test]
fn defaults_are_empty_only_without_either() {
    let with = |username: Option<&str>, password: Option<&str>| ExportDefaults {
        username: username.map(str::to_owned),
        password: password.map(str::to_owned),
    };
    assert!(with(None, None).is_empty());
    assert!(!with(Some("admin"), None).is_empty());
    assert!(!with(None, Some("extron")).is_empty());
}

// ---- reset ----------------------------------------------------------------

#[test]
fn a_reset_adopts_the_file_and_discards_runtime_changes() {
    let mut fleet = live(&["from-file", "added-at-runtime"], false);
    let file = document(&["from-file"]);
    let resolution = resolve(&file);
    let mut outbox = MemoryOutbox::with_max_attempts(1);
    let mut store = MemoryStore::default();
    let after = fleet
        .reset(
            "/etc/devices.toml",
            Ok(file),
            resolution,
            &mut outbox,
            &mut store,
            &now(),
        )
        .expect("the reset");
    assert_eq!(
        after.devices.iter().map(|d| d.id.as_str()).collect::<Vec<_>>(),
        ["from-file"]
    );
    assert_eq!(after.departed, ["added-at-runtime"]);
    assert_eq!(ids(&fleet), ["from-file"]);
    assert_eq!(fleet.document, document(&["from-file"]));
    assert_eq!(fleet.generation, 1);
}

#[test]
fn a_reset_that_cannot_read_the_file_changes_nothing() {
    let mut fleet = live(&["a", "b"], true);
    let mut outbox = MemoryOutbox::with_max_attempts(1);
    let mut store = MemoryStore::default();
    queue_a_write(&mut outbox, "b", "owed");
    seed_a_read(&mut store, "b");
    let refusal = fleet
        .reset(
            "/etc/devices.toml",
            Err("no such file".to_owned()),
            Err(ConfigError::Io("no such file".to_owned())),
            &mut outbox,
            &mut store,
            &now(),
        )
        .expect_err("the file is gone");
    assert_eq!(
        refusal,
        InventoryRefusal::Source("reading /etc/devices.toml: no such file".to_owned())
    );
    assert_eq!(ids(&fleet), ["a", "b"]);
    assert_eq!(fleet.generation, 0);

    let mut bad = document(&["a"]);
    bad.devices.push(raw_device("a"));
    let resolution = resolve(&bad);
    let refusal = fleet
        .reset(
            "/etc/devices.toml",
            Ok(bad),
            resolution,
            &mut outbox,
            &mut store,
            &now(),
        )
        .expect_err("the file does not resolve");
    assert!(matches!(refusal, InventoryRefusal::Duplicate(_)));
    assert_eq!(ids(&fleet), ["a", "b"]);
    assert_eq!(status_of(&outbox, "owed"), WriteStatus::Pending);
    assert_eq!(store.latest_all("b").unwrap().len(), 1);
}

#[test]
fn a_reset_cancels_writes_for_devices_the_file_does_not_describe() {
    for cleanup in [false, true] {
        let mut fleet = live(&["from-file", "added-at-runtime"], cleanup);
        let mut outbox = MemoryOutbox::with_max_attempts(1);
        let mut store = MemoryStore::default();
        queue_a_write(&mut outbox, "added-at-runtime", "stranded");
        queue_a_write(&mut outbox, "from-file", "kept");
        seed_a_read(&mut store, "added-at-runtime");
        seed_a_read(&mut store, "from-file");
        let file = document(&["from-file"]);
        let resolution = resolve(&file);

        fleet
            .reset(
                "/etc/devices.toml",
                Ok(file),
                resolution,
                &mut outbox,
                &mut store,
                &now(),
            )
            .expect("the reset");

        assert_eq!(
            status_of(&outbox, "stranded"),
            WriteStatus::Canceled {
                reason: "the device was removed by an inventory reset".to_owned()
            }
        );
        assert_eq!(status_of(&outbox, "kept"), WriteStatus::Pending);
        assert_eq!(
            store.latest_all("added-at-runtime").unwrap().is_empty(),
            cleanup
        );
        assert_eq!(store.latest_all("from-file").unwrap().len(), 1);
    }
}

// ---- what the fleet shows -------------------------------------------------

#[test]
fn a_summary_shows_everything_but_secrets() {
    let resolved = resolve(&document(&["atrium"])).expect("the fixture resolves");
    let mut device = resolved.devices.into_iter().next().expect("a device");
    device.uuid = 0x0123_4567_89ab_cdef_0123_4567_89ab_cdef;
    let summary = summarize(&device);
    assert_eq!(summary.uuid, "01234567-89ab-cdef-0123-456789abcdef");
    assert_eq!(summary.host, "10.0.0.1");
    assert_eq!(summary.port, 22023);
    assert_eq!(summary.status, ConnectionStatus::Unknown);
    assert!(summary.auto_disabled_fields.is_empty());
    let missing = summary_of(
        &Resolved {
            devices: Vec::new(),
            groups: Vec::new(),
        },
        "x",
    );
    assert_eq!(
        missing.unwrap_err(),
        InventoryRefusal::Malformed("device 'x' was not in the applied fleet".to_owned())
    );
}

#[test]
fn every_config_error_is_told() {
    for (err, words) in [
        (ConfigError::Parse("line 3".into()), "line 3"),
        (ConfigError::MissingField("no username".into()), "no username"),
        (ConfigError::UnknownDisabledField("NOPE".into()), "NOPE"),
        (ConfigError::EmptyGroup("no members".into()), "no members"),
        (ConfigError::Io("denied".into()), "denied"),
        (ConfigError::UnsupportedFormat("ini".into()), "ini"),
    ] {
        assert_eq!(refusal_of(err), InventoryRefusal::Malformed(words.into()));
    }
}
