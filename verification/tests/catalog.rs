//! The catalog of devices and groups.

use sismatic::api::Barrier;
use sismatic::inventory::summary::{ConnectionStatus, DeviceSummary, GroupSummary};
use sismatic::memory::catalog::MemoryCatalog;

fn device(id: &str) -> DeviceSummary {
    DeviceSummary {
        id: id.to_owned(),
        uuid: "00000000-0000-0000-0000-000000000000".to_owned(),
        host: "10.0.0.1".to_owned(),
        port: 22023,
        eager: false,
        status: ConnectionStatus::Unknown,
        disabled_fields: Vec::new(),
        auto_disabled_fields: Vec::new(),
    }
}

fn group(id: &str, members: &[&str]) -> GroupSummary {
    GroupSummary {
        id: id.to_owned(),
        members: members.iter().map(|m| (*m).to_owned()).collect(),
        barrier_timeout_secs: 15,
        barrier: Barrier::FailBatch,
    }
}

fn catalog() -> MemoryCatalog {
    MemoryCatalog::new(
        vec![device("atrium"), device("annex")],
        vec![group("room", &["atrium", "annex"])],
    )
}

#[test]
fn listing_is_ordered_by_id_whatever_order_it_was_built_in() {
    let ids: Vec<String> = catalog()
        .devices()
        .iter()
        .map(|d| d.id.clone())
        .collect();
    assert_eq!(ids, ["annex", "atrium"]);
}

#[test]
fn a_groups_members_stay_in_configured_order() {
    let catalog = catalog();
    let groups = catalog.groups();
    assert_eq!(groups[0].members, ["atrium", "annex"]);
}

#[test]
fn a_device_and_a_group_both_resolve_but_never_as_each_other() {
    let catalog = catalog();
    assert!(catalog.device("atrium").is_some());
    assert!(catalog.group("atrium").is_none());
    assert!(catalog.group("room").is_some());
    assert!(catalog.device("room").is_none());
}

#[test]
fn contains_covers_both_kinds_and_nothing_else() {
    let catalog = catalog();
    assert!(catalog.contains("atrium"));
    assert!(catalog.contains("room"));
    assert!(!catalog.contains("typo"));
}

#[test]
fn members_expands_a_group_and_wraps_a_device() {
    let catalog = catalog();
    assert_eq!(
        catalog.members("room"),
        Some(vec!["atrium".to_owned(), "annex".to_owned()])
    );
    assert_eq!(
        catalog.members("atrium"),
        Some(vec!["atrium".to_owned()])
    );
    assert_eq!(catalog.members("typo"), None);
}

#[test]
fn an_empty_catalog_contains_nothing() {
    let catalog = MemoryCatalog::default();
    assert!(catalog.devices().is_empty());
    assert!(catalog.groups().is_empty());
    assert!(!catalog.contains("anything"));
}
