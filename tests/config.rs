use demikernel_ci::args::ProgramArguments;
use demikernel_ci::config::{Config, ConfigError};
use demikernel_ci::credentials::Credentials;

#[test]
fn workers_are_read_in_order() {
    let text = "workers:\n  - hostname: h1\n    port: 22\n    local-address: 10.0.0.1\n  - hostname: h2\n    port: 2222\n    local-address: 10.0.0.2\n";
    let c = Config::from_text(text).unwrap();
    let ws = c.get_workers().ok().unwrap();
    assert_eq!(ws.len(), 2);
    assert_eq!((ws[0].hostname.as_str(), ws[0].port, ws[0].local_addr.as_str()), ("h1", 22, "10.0.0.1"));
    assert_eq!((ws[1].hostname.as_str(), ws[1].port, ws[1].local_addr.as_str()), ("h2", 2222, "10.0.0.2"));
}

#[test]
fn malformed_workers_are_rejected() {
    let no_host = Config::from_text("workers:\n  - port: 22\n    local-address: a\n").unwrap();
    assert_eq!(no_host.get_workers().err(), Some(ConfigError::MissingHostname));
    let bad_port = Config::from_text("workers:\n  - hostname: h\n    port: x\n    local-address: a\n").unwrap();
    assert_eq!(bad_port.get_workers().err(), Some(ConfigError::BadPort));
    let big_port = Config::from_text("workers:\n  - hostname: h\n    port: 70000\n    local-address: a\n").unwrap();
    assert_eq!(big_port.get_workers().err(), Some(ConfigError::BadPort));
    let no_local = Config::from_text("workers:\n  - hostname: h\n    port: 1\n").unwrap();
    assert_eq!(no_local.get_workers().err(), Some(ConfigError::MissingLocalAddress));
    assert_eq!(Config::from_text("a: [").err(), Some(ConfigError::InvalidYaml));
}

#[test]
fn bind_address_is_read() {
    let c = Config::from_text("server:\n  - other: 1\n  - bind:\n      address: 0.0.0.0\n      port: 8080\n").unwrap();
    let b = c.addr().ok().unwrap();
    assert_eq!(b.address, "0.0.0.0");
    assert_eq!(b.port, 8080);
}

#[test]
fn bind_address_errors() {
    let missing = Config::from_text("server:\n  - other: 1\n").unwrap();
    assert_eq!(missing.addr().err(), Some(ConfigError::MissingBindAddress));
    let no_port = Config::from_text("server:\n  - bind:\n      address: h\n").unwrap();
    assert_eq!(no_port.addr().err(), Some(ConfigError::MalformedBindAddress));
    let bad_port = Config::from_text("server:\n  - bind:\n      address: h\n      port: p\n").unwrap();
    assert_eq!(bad_port.addr().err(), Some(ConfigError::MalformedBindAddress));
}

#[test]
fn credentials_and_arguments_keep_their_values() {
    let c = Credentials::new("ci", "/k.pub", "/k");
    assert_eq!((c.username(), c.public_key_path(), c.private_key_path()), ("ci", "/k.pub", "/k"));
    let a = ProgramArguments::with_values("c.yaml".to_string(), "u".to_string(), "p".to_string(), "q".to_string());
    assert_eq!((a.config_file(), a.username(), a.public_key_path(), a.private_key_path()), ("c.yaml", "u", "p", "q"));
}
