//! The set of known devices, and requests that name one.

use sismatic::devices::registry::Registry;
use sismatic::inventory::config::DeviceConfig;
use sismatic::protocol::states::RecordingState;
use sismatic::protocol::value::{MacAddr, Value};
use sismatic::time::Duration;
use sismatic::web::{command, list_devices, native, register, target, AppError, Native};

fn device(id: &str, host: &str) -> DeviceConfig {
    DeviceConfig {
        id: id.into(),
        host: host.into(),
        port: 22023,
        username: "admin".into(),
        password: "extron".into(),
        connect_timeout: Duration::from_secs(5),
        exchange_timeout: Duration::from_secs(3),
        eager: false,
        sis_keepalive: None,
        eager_retry: None,
        cold_backoff: None,
        uuid: 0,
        disabled_fields: Vec::new(),
        auto_disable_after: 0,
        self_heal: None,
    }
}

fn registry() -> Registry {
    Registry::from_configs(vec![
        device("atrium-101", "10.0.0.7"),
        device("annex-far", "10.9.40.12"),
    ])
}

#[test]
fn builds_an_entry_per_device() {
    let registry = registry();
    assert_eq!(registry.len(), 2);
    assert!(!registry.is_empty());
    let mut ids = registry.ids();
    ids.sort();
    assert_eq!(ids, vec!["annex-far", "atrium-101"]);
}

#[test]
fn lookup_hits_and_misses() {
    let registry = registry();
    assert!(registry.device("atrium-101").is_some());
    assert!(registry.device("nope").is_none());
    assert_eq!(registry.device("annex-far").unwrap().host, "10.9.40.12");
}

#[test]
fn of_two_devices_with_one_id_the_later_is_kept() {
    let registry = Registry::from_configs(vec![device("a", "first"), device("a", "second")]);
    assert_eq!(registry.len(), 1);
    assert_eq!(registry.device("a").unwrap().host, "second");
}

#[test]
fn an_empty_registry_holds_nothing() {
    let registry = Registry::from_configs(Vec::new());
    assert!(registry.is_empty());
    assert_eq!(registry.len(), 0);
    assert!(registry.ids().is_empty());
    assert!(list_devices(&registry).is_empty());
}

#[test]
fn devices_are_listed_in_order() {
    assert_eq!(list_devices(&registry()), ["annex-far", "atrium-101"]);
}

#[test]
fn a_request_names_a_device_and_an_instruction() {
    let registry = registry();
    assert_eq!(target(&registry, "annex-far").unwrap().id, "annex-far");
    let unknown = target(&registry, "nope").unwrap_err();
    assert_eq!(unknown, AppError::UnknownDevice("nope".into()));
    assert_eq!(unknown.status(), 404);
    assert_eq!(unknown.message(), "unknown device 'nope'");

    assert_eq!(command("start").unwrap().payload, "\x1bY1RCDR\r");
    let bad = command("rewind").unwrap_err();
    assert_eq!(bad.status(), 400);
    assert_eq!(bad.message(), "no built-in instruction named 'rewind'");

    assert_eq!(
        register("title", "Week 4").unwrap().payload,
        "\x1bM13*Week 4RCDR\r"
    );
    assert_eq!(register("date", "x").unwrap_err().status(), 400);
    assert_eq!(AppError::Device("timed out".into()).status(), 502);
    assert_eq!(AppError::Device("timed out".into()).message(), "timed out");
}

#[test]
fn values_become_what_a_caller_takes() {
    assert_eq!(native(Value::Port(22023)), Native::Integer(22023));
    assert_eq!(native(Value::Number(7)), Native::Integer(7));
    assert_eq!(native(Value::Flag(true)), Native::Flag(true));
    assert_eq!(
        native(Value::Mac(MacAddr([0, 5, 0xA6, 0x1B, 0x2C, 0x3D]))),
        Native::Text("00-05-A6-1B-2C-3D".into())
    );
    assert_eq!(
        native(Value::State(RecordingState::Paused)),
        Native::Text("paused".into())
    );
    assert_eq!(
        native(Value::Version("2.11".into())),
        Native::Text("2.11".into())
    );
    let alarms = vec![("video_loss".to_owned(), "critical".to_owned())];
    assert_eq!(
        native(Value::Alarms(alarms.clone())),
        Native::Alarms(alarms)
    );
}
