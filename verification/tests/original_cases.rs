use easytier_manager::digest::normalize_sha256;
use easytier_manager::elevated::validate_config_file_name;
use easytier_manager::process::parse_process_line;

#[test]
fn normalizes_sha256_digest() {
    let digest = "A".repeat(64);
    assert_eq!(
        normalize_sha256(&format!("sha256:{digest}")).unwrap(),
        "a".repeat(64)
    );
}

#[test]
fn rejects_invalid_sha256_digest() {
    assert!(normalize_sha256("sha256:not-a-digest").is_err());
    assert!(normalize_sha256(&"g".repeat(64)).is_err());
}

#[test]
fn validates_plain_toml_file_name() {
    assert!(validate_config_file_name("office.toml").is_ok());
    assert!(validate_config_file_name("../office.toml").is_err());
    assert!(validate_config_file_name("office.json").is_err());
}

#[test]
fn parses_easytier_process_line() {
    let process = parse_process_line(
        "  123 2048 /Users/test/Lib /Users/test/Library/Application Support/easytier-manager-pro/resource/current/easytier-core --config-file /Users/test/Library/Application Support/easytier-manager-pro/config/office.toml",
    )
    .unwrap();
    assert_eq!(process.pid, 123);
    assert_eq!(process.memory, 2 * 1024 * 1024);
    assert_eq!(process.name, "easytier-core");
    assert!(process.path.ends_with("resource/current/easytier-core"));
    assert_eq!(process.config_file_name.as_deref(), Some("office"));
    assert_eq!(process.file_name.as_deref(), Some("office.toml"));
    assert!(process
        .command_line
        .contains("easytier-core --config-file /Users/test/Library/Application Support"));
    assert!(parse_process_line("1 512 /sbin/launchd /sbin/launchd").is_none());
}

// The application parses the address as an `IpAddr` and hands over how it
// renders; these hosts render as written, and the library itself refuses
// text that no address renders as.
fn build_terminal_command(action: &str, host: &str, port: Option<u16>) -> Result<String, String> {
    easytier_manager::elevated::terminal_command_for(action, Some(host.to_string()), port)
}

#[test]
fn validates_terminal_commands() {
    assert_eq!(
        build_terminal_command("ssh", "10.144.144.23", None).unwrap(),
        "ssh root@10.144.144.23"
    );
    assert_eq!(
        build_terminal_command("telnet", "10.144.144.23", Some(22)).unwrap(),
        "nc -v 10.144.144.23 22"
    );
    assert!(build_terminal_command("ping", "127.0.0.1; whoami", None).is_err());
    assert!(build_terminal_command("shell", "127.0.0.1", None).is_err());
}
