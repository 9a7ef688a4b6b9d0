//! What a config document comes to.

use serde_json::Value;
use sismatic::configuration::{
    base_dir, resolve_config, Defaults, FieldConfig, HttpConfig, IntentRelayConfig, Overrides,
    RawField, RawHttp, RawIntentRelay, RawServerConfig, RawSync, ServerConfig, SyncConfig,
    CONFIG_PATH_ENV, DEFAULT_DEVICES_CONFIG_PATH, DEFAULT_HOST, DEFAULT_INTENT_RELAY_POLL_MS,
    DEFAULT_INTERVAL_SECS, DEFAULT_MAX_ATTEMPTS, DEFAULT_PORT, ENV_CONFIG_PATH_KEY, ENV_PREFIX,
    ENV_SEPARATOR,
};
use sismatic::time::Duration;

/// The fields a device can be asked for, in the order of the catalog.
fn catalog() -> Vec<String> {
    [
        "FIRMWARE",
        "MAC_ADDRESS",
        "MODEL_NAME",
        "RUNNING_STATE",
        "SSH_PORT",
        "TIMEZONE",
        "UNIT_NAME",
    ]
    .iter()
    .map(|name| (*name).to_owned())
    .collect()
}

fn text_at(value: &Value, key: &str) -> Option<String> {
    value.get(key).and_then(Value::as_str).map(str::to_owned)
}

fn number_at(value: &Value, key: &str) -> Option<u64> {
    value.get(key).and_then(Value::as_u64)
}

fn fields_at(value: &Value) -> Option<Vec<RawField>> {
    let list = value.get("fields").and_then(Value::as_array)?;
    Some(
        list.iter()
            .map(|entry| match entry.as_str() {
                Some(name) => RawField::named(name),
                None => RawField {
                    name: text_at(entry, "name").expect("a name"),
                    interval_secs: number_at(entry, "interval_secs"),
                },
            })
            .collect(),
    )
}

/// A document of config text.
fn raw(text: &str) -> RawServerConfig {
    let document: Value = config::Config::builder()
        .add_source(config::File::from_str(text, config::FileFormat::Yaml))
        .build()
        .expect("building config")
        .try_deserialize()
        .expect("a document");
    let port = |value: &Value| number_at(value, "port").map(|p| p as u16);
    let defaults = document.get("defaults").cloned().unwrap_or(Value::Null);
    RawServerConfig {
        defaults: Defaults {
            devices_config_path: text_at(&defaults, "devices_config_path"),
            interval_secs: number_at(&defaults, "interval_secs"),
            fields: fields_at(&defaults),
            host: text_at(&defaults, "host"),
            port: port(&defaults),
        },
        devices_config_path: text_at(&document, "devices_config_path"),
        intent_relay: document.get("intent_relay").map(|relay| RawIntentRelay {
            poll_ms: number_at(relay, "poll_ms"),
            max_attempts: number_at(relay, "max_attempts").map(|n| n as u32),
        }),
        sync: document.get("sync").map(|sync| RawSync {
            interval_secs: number_at(sync, "interval_secs"),
            fields: fields_at(sync),
        }),
        http: document.get("http").map(|http| RawHttp {
            host: text_at(http, "host"),
            port: port(http),
        }),
    }
}

fn resolve(base: &str, text: &str) -> ServerConfig {
    resolve_config(base, raw(text), &catalog())
}

fn schedule(cfg: &ServerConfig) -> Vec<(&str, Option<u64>)> {
    cfg.sync
        .fields
        .iter()
        .map(|f| (f.name.as_str(), f.interval.map(|i| i.as_secs())))
        .collect()
}

#[test]
fn devices_path_falls_back_to_the_built_in_default() {
    let cfg = resolve("", "{}");
    assert_eq!(cfg.devices_config_path, "devices.toml");
}

#[test]
fn defaults_table_supplies_the_devices_path() {
    let cfg = resolve("", "defaults:\n  devices_config_path: pool.toml\n");
    assert_eq!(cfg.devices_config_path, "pool.toml");
}

#[test]
fn explicit_devices_path_beats_the_defaults_table() {
    let cfg = resolve(
        "",
        "devices_config_path: explicit.toml\ndefaults:\n  devices_config_path: fallback.toml\n",
    );
    assert_eq!(cfg.devices_config_path, "explicit.toml");
}

#[test]
fn relative_devices_path_is_anchored_to_the_config_file_directory() {
    let cfg = resolve("/etc/sismatic", "devices_config_path: devices.toml\n");
    assert_eq!(
        cfg.devices_config_path,
        "/etc/sismatic/devices.toml"
    );
}

#[test]
fn absolute_devices_path_ignores_the_config_file_directory() {
    let cfg = resolve("/etc/sismatic", "devices_config_path: /srv/devices.toml\n");
    assert_eq!(cfg.devices_config_path, "/srv/devices.toml");
}

#[test]
fn base_dir_of_a_bare_filename_is_the_working_directory() {
    assert_eq!(base_dir("configuration.yaml"), "");
    assert_eq!(
        base_dir("/etc/sismatic/configuration.yaml"),
        "/etc/sismatic"
    );
}

#[test]
fn sync_and_http_fall_back_layer_by_layer() {
    let cfg = resolve(
        "",
        "defaults:\n  interval_secs: 7\n  port: 9999\nsync:\n  fields: [FIRMWARE]\nhttp:\n  host: 0.0.0.0\n",
    );
    assert_eq!(cfg.sync.default_interval, Some(Duration::from_secs(7)));
    assert_eq!(cfg.http.port, 9999);
    assert_eq!(schedule(&cfg), [("FIRMWARE", Some(7))]);
    assert_eq!(cfg.http.host, "0.0.0.0");
}

#[test]
fn a_bare_field_name_inherits_the_sync_interval() {
    let cfg = resolve(
        "",
        "sync:\n  interval_secs: 5\n  fields: [RUNNING_STATE, FIRMWARE]\n",
    );
    assert_eq!(
        schedule(&cfg),
        [("RUNNING_STATE", Some(5)), ("FIRMWARE", Some(5))]
    );
}

#[test]
fn a_field_may_pin_its_own_interval_above_the_sync_default() {
    let cfg = resolve(
        "",
        "sync:\n  interval_secs: 5\n  fields:\n    - RUNNING_STATE\n    - name: FIRMWARE\n      interval_secs: 3600\n",
    );
    assert_eq!(
        schedule(&cfg),
        [("RUNNING_STATE", Some(5)), ("FIRMWARE", Some(3600))]
    );
}

#[test]
fn a_field_table_without_an_interval_still_inherits() {
    let cfg = resolve(
        "",
        "sync:\n  interval_secs: 5\n  fields:\n    - name: RUNNING_STATE\n",
    );
    assert_eq!(schedule(&cfg), [("RUNNING_STATE", Some(5))]);
}

#[test]
fn a_field_override_survives_every_layer_below_it() {
    let cfg = resolve(
        "",
        "defaults:\n  interval_secs: 7\nsync:\n  interval_secs: 5\n  fields:\n    - RUNNING_STATE\n    - name: FIRMWARE\n      interval_secs: 3600\n",
    );
    assert_eq!(cfg.sync.default_interval, Some(Duration::from_secs(5)));
    assert_eq!(
        schedule(&cfg),
        [("RUNNING_STATE", Some(5)), ("FIRMWARE", Some(3600))]
    );
}

#[test]
fn fields_inherit_the_defaults_table_when_sync_names_no_interval() {
    let cfg = resolve(
        "",
        "defaults:\n  interval_secs: 7\nsync:\n  fields:\n    - RUNNING_STATE\n    - name: FIRMWARE\n      interval_secs: 3600\n",
    );
    assert_eq!(
        schedule(&cfg),
        [("RUNNING_STATE", Some(7)), ("FIRMWARE", Some(3600))]
    );
}

#[test]
fn the_built_in_interval_reaches_fields_that_override_nothing() {
    let cfg = resolve("", "sync:\n  fields: [RUNNING_STATE]\n");
    assert_eq!(
        schedule(&cfg),
        [("RUNNING_STATE", Some(DEFAULT_INTERVAL_SECS))]
    );
}

#[test]
fn per_field_intervals_work_in_the_defaults_table_too() {
    let cfg = resolve(
        "",
        "defaults:\n  interval_secs: 5\n  fields:\n    - RUNNING_STATE\n    - name: FIRMWARE\n      interval_secs: 3600\n",
    );
    assert_eq!(
        schedule(&cfg),
        [("RUNNING_STATE", Some(5)), ("FIRMWARE", Some(3600))]
    );
}

fn interval_of(cfg: &ServerConfig, name: &str) -> Option<Option<u64>> {
    cfg.sync
        .fields
        .iter()
        .find(|f| f.name == name)
        .map(|f| f.interval.map(|i| i.as_secs()))
}

#[test]
fn the_wildcard_expands_to_exactly_the_fields_core_can_query() {
    let cfg = resolve("", "sync:\n  fields: ['*']\n");

    let expanded: Vec<&str> = cfg.sync.fields.iter().map(|f| f.name.as_str()).collect();
    assert_eq!(expanded, catalog());
}

#[test]
fn the_wildcard_fills_with_the_inherited_interval() {
    let cfg = resolve("", "sync:\n  interval_secs: 300\n  fields: ['*']\n");
    assert_eq!(interval_of(&cfg, "RUNNING_STATE"), Some(Some(300)));
    assert_eq!(interval_of(&cfg, "MAC_ADDRESS"), Some(Some(300)));
}

#[test]
fn an_override_beats_the_wildcard_and_leaves_the_rest_alone() {
    let cfg = resolve(
        "",
        "sync:\n  interval_secs: 300\n  fields:\n    - '*'\n    - name: RUNNING_STATE\n      interval_secs: 5\n    - name: MAC_ADDRESS\n      interval_secs: 0\n",
    );
    assert_eq!(interval_of(&cfg, "RUNNING_STATE"), Some(Some(5)));
    assert_eq!(interval_of(&cfg, "MAC_ADDRESS"), Some(None));
    assert_eq!(interval_of(&cfg, "FIRMWARE"), Some(Some(300)));
    assert_eq!(cfg.sync.fields.len(), catalog().len());
}

#[test]
fn an_override_above_the_wildcard_works_the_same_as_one_below_it() {
    let above = resolve(
        "",
        "sync:\n  interval_secs: 300\n  fields:\n    - name: RUNNING_STATE\n      interval_secs: 5\n    - '*'\n",
    );
    let below = resolve(
        "",
        "sync:\n  interval_secs: 300\n  fields:\n    - '*'\n    - name: RUNNING_STATE\n      interval_secs: 5\n",
    );
    assert_eq!(interval_of(&above, "RUNNING_STATE"), Some(Some(5)));
    assert_eq!(interval_of(&below, "RUNNING_STATE"), Some(Some(5)));
    assert_eq!(above.sync.fields.len(), below.sync.fields.len());
}

#[test]
fn the_wildcard_may_pin_the_interval_it_fills_with() {
    let cfg = resolve(
        "",
        "sync:\n  interval_secs: 30\n  fields:\n    - name: '*'\n      interval_secs: 600\n",
    );
    assert_eq!(interval_of(&cfg, "FIRMWARE"), Some(Some(600)));
    assert_eq!(interval_of(&cfg, "RUNNING_STATE"), Some(Some(600)));
}

#[test]
fn a_disabled_wildcard_lists_the_catalog_switched_off() {
    let cfg = resolve(
        "",
        "sync:\n  fields:\n    - name: '*'\n      interval_secs: 0\n    - name: RUNNING_STATE\n      interval_secs: 5\n",
    );
    assert_eq!(interval_of(&cfg, "RUNNING_STATE"), Some(Some(5)));
    assert_eq!(interval_of(&cfg, "FIRMWARE"), Some(None));
    assert_eq!(cfg.sync.fields.len(), catalog().len());
}

#[test]
fn a_field_is_emitted_once_however_often_it_is_mentioned() {
    let cfg = resolve(
        "",
        "sync:\n  interval_secs: 30\n  fields:\n    - '*'\n    - '*'\n    - RUNNING_STATE\n    - name: RUNNING_STATE\n      interval_secs: 5\n",
    );
    assert_eq!(cfg.sync.fields.len(), catalog().len());
    assert_eq!(interval_of(&cfg, "RUNNING_STATE"), Some(Some(5)));
}

#[test]
fn the_wildcard_works_from_the_defaults_table_too() {
    let cfg = resolve("", "defaults:\n  interval_secs: 300\n  fields: ['*']\n");
    assert_eq!(cfg.sync.fields.len(), catalog().len());
    assert_eq!(interval_of(&cfg, "FIRMWARE"), Some(Some(300)));
}

#[test]
fn without_a_wildcard_only_the_named_fields_are_polled() {
    let cfg = resolve("", "sync:\n  fields: [RUNNING_STATE]\n");
    assert_eq!(cfg.sync.fields.len(), 1);
    assert_eq!(interval_of(&cfg, "FIRMWARE"), None);
}

#[test]
fn a_zero_interval_disables_that_field_without_removing_it() {
    let cfg = resolve(
        "",
        "sync:\n  interval_secs: 5\n  fields:\n    - RUNNING_STATE\n    - name: FIRMWARE\n      interval_secs: 0\n",
    );
    assert_eq!(
        schedule(&cfg),
        [("RUNNING_STATE", Some(5)), ("FIRMWARE", None)]
    );
}

#[test]
fn a_zero_default_disables_every_field_that_inherits_it() {
    let cfg = resolve(
        "",
        "sync:\n  interval_secs: 0\n  fields:\n    - FIRMWARE\n    - name: RUNNING_STATE\n      interval_secs: 5\n",
    );
    assert_eq!(cfg.sync.default_interval, None);
    assert_eq!(
        schedule(&cfg),
        [("FIRMWARE", None), ("RUNNING_STATE", Some(5))]
    );
}

#[test]
fn a_zero_in_the_defaults_table_disables_just_as_well() {
    let cfg = resolve(
        "",
        "defaults:\n  interval_secs: 0\nsync:\n  fields: [FIRMWARE]\n",
    );
    assert_eq!(schedule(&cfg), [("FIRMWARE", None)]);
}

#[test]
fn a_field_may_re_enable_itself_above_a_zero_default() {
    let cfg = resolve(
        "",
        "defaults:\n  interval_secs: 0\nsync:\n  fields:\n    - name: RUNNING_STATE\n      interval_secs: 5\n",
    );
    assert_eq!(schedule(&cfg), [("RUNNING_STATE", Some(5))]);
}

#[test]
fn an_empty_config_resolves_entirely_to_built_in_defaults() {
    let cfg = resolve("", "{}");
    assert_eq!(
        cfg,
        ServerConfig {
            devices_config_path: DEFAULT_DEVICES_CONFIG_PATH.to_owned(),
            intent_relay: IntentRelayConfig {
                poll: Duration::from_millis(DEFAULT_INTENT_RELAY_POLL_MS),
                max_attempts: DEFAULT_MAX_ATTEMPTS,
            },
            sync: SyncConfig {
                default_interval: Some(Duration::from_secs(DEFAULT_INTERVAL_SECS)),
                fields: vec![FieldConfig {
                    name: "RUNNING_STATE".to_owned(),
                    interval: Some(Duration::from_secs(DEFAULT_INTERVAL_SECS)),
                }],
            },
            http: HttpConfig {
                host: DEFAULT_HOST.to_owned(),
                port: DEFAULT_PORT,
            },
        }
    );
}

#[test]
fn a_partial_sync_section_is_accepted() {
    let cfg = resolve("", "sync:\n  interval_secs: 1\n");
    assert_eq!(cfg.sync.default_interval, Some(Duration::from_secs(1)));
    assert_eq!(schedule(&cfg), [("RUNNING_STATE", Some(1))]);
}

#[test]
fn the_intent_relay_section_is_read() {
    let cfg = resolve("", "intent_relay:\n  poll_ms: 50\n  max_attempts: 7\n");
    assert_eq!(
        cfg.intent_relay,
        IntentRelayConfig {
            poll: Duration::from_millis(50),
            max_attempts: 7,
        }
    );
}

#[test]
fn a_partial_intent_relay_section_is_accepted() {
    let cfg = resolve("", "intent_relay:\n  max_attempts: 1\n");
    assert_eq!(cfg.intent_relay.max_attempts, 1);
    assert_eq!(
        cfg.intent_relay.poll,
        Duration::from_millis(DEFAULT_INTENT_RELAY_POLL_MS)
    );
}

#[test]
fn a_zero_poll_is_a_floor_rather_than_a_never() {
    let cfg = resolve("", "intent_relay:\n  poll_ms: 0\n");
    assert_eq!(cfg.intent_relay.poll, Duration::from_millis(1));
}

fn overrides(devices_config_path: &str, host: &str, port: u16) -> Overrides {
    Overrides {
        devices_config_path: Some(devices_config_path.to_owned()),
        host: Some(host.to_owned()),
        port: Some(port),
    }
}

#[test]
fn a_command_line_override_beats_every_layer_of_the_file() {
    let cfg = resolve(
        "",
        "devices_config_path: from-the-file.toml\ndefaults:\n  port: 9999\nhttp:\n  host: 0.0.0.0\n",
    )
    .with_overrides(overrides("/srv/typed.toml", "::1", 3000));

    assert_eq!(cfg.devices_config_path, "/srv/typed.toml");
    assert_eq!(cfg.http.host, "::1");
    assert_eq!(cfg.http.port, 3000);
}

#[test]
fn an_unnamed_override_leaves_the_resolved_value_alone() {
    let resolved = resolve(
        "",
        "devices_config_path: from-the-file.toml\nhttp:\n  host: 0.0.0.0\n  port: 9999\n",
    );
    let cfg = resolved.clone().with_overrides(Overrides {
        port: Some(3000),
        ..Overrides::default()
    });

    assert_eq!(cfg.http.port, 3000);
    assert_eq!(cfg.http.host, "0.0.0.0");
    assert_eq!(cfg.devices_config_path, resolved.devices_config_path);
    assert_eq!(cfg.sync, resolved.sync);
}

#[test]
fn overriding_nothing_is_the_identity() {
    let cfg = resolve(
        "",
        "devices_config_path: from-the-file.toml\nhttp:\n  host: 0.0.0.0\n  port: 9999\n",
    );
    assert_eq!(cfg.clone().with_overrides(Overrides::default()), cfg);
}

#[test]
fn a_command_line_path_is_not_anchored_to_the_config_directory() {
    let resolved = resolve("/etc/sismatic", "devices_config_path: devices.toml\n");
    assert_eq!(
        resolved.devices_config_path,
        "/etc/sismatic/devices.toml"
    );

    let cfg = resolved.with_overrides(Overrides {
        devices_config_path: Some("devices.toml".to_owned()),
        ..Overrides::default()
    });
    assert_eq!(cfg.devices_config_path, "devices.toml");
}

#[test]
fn applying_two_override_sets_is_applying_their_merge() {
    let cfg = resolve("", "http:\n  host: 0.0.0.0\n  port: 9999\n");
    let inner = Overrides {
        host: Some("::1".to_owned()),
        ..Overrides::default()
    };
    let outer = Overrides {
        port: Some(3000),
        ..Overrides::default()
    };

    let sequential = cfg
        .clone()
        .with_overrides(inner.clone())
        .with_overrides(outer.clone());
    let merged = cfg.with_overrides(Overrides {
        devices_config_path: outer.devices_config_path.or(inner.devices_config_path),
        host: outer.host.or(inner.host),
        port: outer.port.or(inner.port),
    });
    assert_eq!(sequential, merged);
}

#[test]
fn env_var_names_agree() {
    assert_eq!(
        CONFIG_PATH_ENV,
        format!(
            "{ENV_PREFIX}{ENV_SEPARATOR}{}",
            ENV_CONFIG_PATH_KEY.to_uppercase()
        )
    );
}
