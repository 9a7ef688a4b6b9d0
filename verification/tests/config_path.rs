//! Which config file is read.

use sismatic::configuration::resolve_config_path;

fn resolve(arg: Option<&str>, env: Option<&str>) -> String {
    resolve_config_path(arg.map(str::to_owned), env.map(str::to_owned))
}

#[test]
fn the_cli_argument_wins_over_every_layer_below_it() {
    assert_eq!(
        resolve(Some("/etc/one-off.yaml"), Some("/etc/deployment.yaml")),
        "/etc/one-off.yaml"
    );
}

#[test]
fn the_environment_answers_when_the_cli_names_nothing() {
    assert_eq!(
        resolve(None, Some("/etc/deployment.yaml")),
        "/etc/deployment.yaml"
    );
}

#[test]
fn the_built_in_default_answers_when_neither_layer_does() {
    assert_eq!(resolve(None, None), "configuration.yaml");
}
