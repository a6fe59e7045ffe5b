use reqaz::config::{Cli, CliConfig};

#[test]
fn defaults() {
    let config = CliConfig::default();
    assert_eq!(config.root, None);
    assert_eq!(config.port, 5000);
    assert!(!config.log);
}

#[test]
fn command_line_counts_where_it_says_something() {
    let config = CliConfig { root: Some("/a".to_string()), port: 80, log: false };
    let out = config.override_with_cli(Cli { path: None, port: Some(8080), log: Some(true) });
    assert_eq!(out.root, Some("/a".to_string()));
    assert_eq!(out.port, 8080);
    assert!(out.log);
}

#[test]
fn command_line_that_says_nothing_changes_nothing() {
    let out = CliConfig::default().override_with_cli(Cli { path: None, port: None, log: None });
    assert_eq!(out.root, None);
    assert_eq!(out.port, 5000);
    assert!(!out.log);
}

#[test]
fn command_line_can_switch_logging_off() {
    let config = CliConfig { root: None, port: 1, log: true };
    let out = config.override_with_cli(Cli {
        path: Some("/b".to_string()),
        port: None,
        log: Some(false),
    });
    assert_eq!(out.root, Some("/b".to_string()));
    assert_eq!(out.port, 1);
    assert!(!out.log);
}
