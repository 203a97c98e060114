use codex_plus_core::json::{JsonMember, JsonValue};
use codex_plus_core::ssh::{
    managed_connection_parts, parse_port_str, resolve_ssh_target_in_state, split_ssh_authority, validate_ssh_host,
    SshValidation,
};

fn text(key: &str, value: &str) -> JsonMember {
    JsonMember { key: key.to_string(), value: JsonValue::Str(value.to_string()) }
}

#[test]
fn authorities_split_into_user_host_and_port() {
    let (u, h, p) = split_ssh_authority(" me@box.example:2222 ").unwrap();
    assert_eq!((u.as_str(), h.as_str(), p), ("me", "box.example", Some(2222)));
    let (u, h, p) = split_ssh_authority("a@b@[::1]:22").unwrap();
    assert_eq!((u.as_str(), h.as_str(), p), ("a@b", "[::1]", Some(22)));
    let (u, h, p) = split_ssh_authority("host:abc").unwrap();
    assert_eq!((u.as_str(), h.as_str(), p), ("", "host:abc", None));
    let (_, h, p) = split_ssh_authority("fe80::1").unwrap();
    assert_eq!((h.as_str(), p), ("fe80::1", None));
    assert_eq!(split_ssh_authority("h:70000").unwrap_err(), SshValidation::InvalidPort);
    assert_eq!(split_ssh_authority("  ").unwrap(), (String::new(), String::new(), None));
}

#[test]
fn ports_and_hosts_are_checked() {
    let digits: Vec<char> = "0".chars().collect();
    assert_eq!(parse_port_str(&digits), Err(SshValidation::InvalidPort));
    assert_eq!(parse_port_str(&[]), Ok(None));
    assert_eq!(validate_ssh_host(" [::1] ", true).unwrap(), "[::1]");
    assert_eq!(validate_ssh_host("[zz]", false).unwrap_err(), SshValidation::InvalidHost);
    assert_eq!(validate_ssh_host("a b", false).unwrap_err(), SshValidation::InvalidHost);
    assert_eq!(validate_ssh_host("  ", false).unwrap_err(), SshValidation::CannotDetermineHost);
    assert_eq!(SshValidation::InvalidPort.message(), "Invalid SSH port");
}

#[test]
fn managed_connections_prefer_explicit_fields() {
    let connection = vec![
        text("hostId", "h1"),
        text("sshHost", "root@server:2200"),
        text("sshUser", "admin"),
        JsonMember { key: "sshPort".to_string(), value: JsonValue::Number("22".to_string(), Some(22)) },
    ];
    let (u, h, p) = managed_connection_parts(&connection).unwrap();
    assert_eq!((u.as_str(), h.as_str(), p), ("admin", "server", Some(22)));

    let state = JsonValue::Object(vec![JsonMember {
        key: "codex-managed-remote-connections".to_string(),
        value: JsonValue::Array(vec![JsonValue::Null, JsonValue::Object(connection)]),
    }]);
    let target = resolve_ssh_target_in_state("h1", &state, false).unwrap();
    assert_eq!(target.user, "admin");
    assert_eq!(target.host, "server");
    assert_eq!(target.port, Some(22));
    assert_eq!(resolve_ssh_target_in_state("h2", &state, false).unwrap_err(), SshValidation::CannotResolveHost);
    assert_eq!(resolve_ssh_target_in_state("", &state, false).unwrap_err(), SshValidation::HostIdRequired);
}

#[test]
fn alias_stands_in_for_a_missing_host() {
    let connection = vec![text("alias", "dev-box"), text("sshPort", " ")];
    let (u, h, p) = managed_connection_parts(&connection).unwrap();
    assert_eq!((u.as_str(), h.as_str(), p), ("", "dev-box", None));
    let bad_port = vec![text("sshHost", "x"), JsonMember { key: "sshPort".to_string(), value: JsonValue::Bool(true) }];
    assert_eq!(managed_connection_parts(&bad_port).unwrap_err(), SshValidation::InvalidPort);
}
