//! What is observed of a device.

use sismatic::inventory::summary::ConnectionStatus;
use sismatic::status::{
    observe, observe_all, to_dto, Account, Connectivity, Observation, RefusedField,
};
use sismatic::time::Duration;

fn refused(name: &str, refusals: u32, disabled: bool, retry_in: Option<Duration>) -> RefusedField {
    RefusedField {
        name: name.to_owned(),
        refusals,
        disabled,
        retry_in,
    }
}

fn account(connectivity: Connectivity, refused: Vec<RefusedField>) -> Account {
    Account {
        connectivity,
        refused,
    }
}

#[test]
fn an_untouched_fleet_reads_as_cold() {
    let all = observe_all(&vec![
        ("atrium".to_owned(), account(Connectivity::Cold, Vec::new())),
        ("annex".to_owned(), account(Connectivity::Cold, Vec::new())),
    ]);
    let seen: Vec<(&str, ConnectionStatus)> = all
        .iter()
        .map(|o| (o.id.as_str(), o.observation.connection))
        .collect();
    assert_eq!(
        seen,
        [
            ("annex", ConnectionStatus::Cold),
            ("atrium", ConnectionStatus::Cold),
        ]
    );

    let observed = observe(Some(&account(Connectivity::Cold, Vec::new())));
    assert_eq!(observed.connection, ConnectionStatus::Cold);
    assert!(observed.auto_disabled.is_empty());
}

#[test]
fn a_device_that_has_been_used_reads_as_warm() {
    assert_eq!(
        observe(Some(&account(Connectivity::Warm, Vec::new()))).connection,
        ConnectionStatus::Warm
    );
}

#[test]
fn every_state_of_a_connection_has_its_own_status() {
    assert_eq!(to_dto(Connectivity::Warm), ConnectionStatus::Warm);
    assert_eq!(to_dto(Connectivity::Busy), ConnectionStatus::Busy);
    assert_eq!(to_dto(Connectivity::Cold), ConnectionStatus::Cold);
    assert_eq!(to_dto(Connectivity::Gated), ConnectionStatus::Gated);
}

#[test]
fn an_unknown_id_is_unknown_rather_than_an_error() {
    let observed = observe(None);
    assert_eq!(observed.connection, ConnectionStatus::Unknown);
    assert!(
        observed.auto_disabled.is_empty(),
        "and nothing may be claimed about a device that is not there"
    );
    assert_eq!(observed, Observation::default());
}

#[test]
fn the_inferred_veto_is_reported_with_the_connection_state() {
    let observed = observe(Some(&account(
        Connectivity::Cold,
        vec![
            refused("STREAM_2_NAME", 2, true, None),
            refused("STREAM_3_NAME", 1, false, None),
        ],
    )));

    assert_eq!(observed.auto_disabled.len(), 2, "{observed:?}");
    let vetoed = &observed.auto_disabled[0];
    assert_eq!(vetoed.name, "STREAM_2_NAME");
    assert!(vetoed.disabled);
    assert_eq!(vetoed.refusals, 2);
    assert_eq!(
        vetoed.retry_in_secs, None,
        "self-heal is off, so there is no next attempt to report"
    );

    let watched = &observed.auto_disabled[1];
    assert_eq!(watched.name, "STREAM_3_NAME");
    assert!(
        !watched.disabled,
        "a near-miss is reported, so a field never goes dark out of nowhere"
    );
    assert_eq!(watched.refusals, 1);
}

#[test]
fn a_self_healing_veto_reports_its_retry_window() {
    let observed = observe(Some(&account(
        Connectivity::Warm,
        vec![refused(
            "STREAM_2_NAME",
            1,
            true,
            Some(Duration::from_millis(599_900)),
        )],
    )));
    let field = &observed.auto_disabled[0];

    assert!(field.disabled);
    let retry = field.retry_in_secs.expect("a self-healing veto retries");
    assert!((599..=600).contains(&retry), "{retry}");
}
