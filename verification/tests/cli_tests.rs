use acowork_runtime::cli::{Cli, CliError, CliValues};

fn args(v: &[&str]) -> Vec<String> {
    v.iter().map(|s| s.to_string()).collect()
}

#[test]
fn test_cli_gateway_socket_arg() {
    let cli = Cli::parse_from(args(&[
        "acowork-runtime",
        "--agent-id",
        "com.test.agent",
        "--package-path",
        "/tmp/test.agent",
        "--work-dir",
        "/tmp/work",
        "--gateway-socket",
        "unix:///tmp/gateway.sock",
    ]))
    .unwrap();
    assert_eq!(cli.agent_id, "com.test.agent");
    assert_eq!(cli.package_path, "/tmp/test.agent");
    assert_eq!(cli.work_dir, "/tmp/work");
    assert_eq!(
        cli.gateway_socket,
        Some("unix:///tmp/gateway.sock".to_string())
    );
}

fn values() -> CliValues {
    CliValues {
        agent_id: Some("a".to_string()),
        package_path: Some("p".to_string()),
        work_dir: Some("w".to_string()),
        gateway_endpoint: None,
        gateway_socket: None,
        dev_mode: false,
        debug_port: None,
        log_level: None,
        log_file_size_mb: None,
        log_file_count: None,
        manifest_path: None,
        config_dir: None,
    }
}

#[test]
fn options_have_defaults() {
    let cli = Cli::from_values(values()).unwrap();
    assert_eq!(cli.debug_port, 19878);
    assert_eq!(cli.log_level, "info");
    assert_eq!(cli.log_file_size_mb, 10);
    assert_eq!(cli.log_file_count, 20);
    assert!(!cli.dev_mode);
    assert_eq!(cli.log_split_mb(), Some(10));
    assert_eq!(cli.log_files_kept(), Some(20));
}

#[test]
fn zero_means_no_limit() {
    let mut v = values();
    v.log_file_size_mb = Some("0".to_string());
    v.log_file_count = Some("0".to_string());
    let cli = Cli::from_values(v).unwrap();
    assert_eq!(cli.log_split_mb(), None);
    assert_eq!(cli.log_files_kept(), None);
}

#[test]
fn missing_and_invalid_options_are_named() {
    let mut v = values();
    v.work_dir = None;
    assert_eq!(
        Cli::from_values(v).err(),
        Some(CliError::Missing("work-dir".to_string()))
    );
    let mut v = values();
    v.debug_port = Some("70000".to_string());
    assert_eq!(
        Cli::from_values(v).err(),
        Some(CliError::Invalid {
            option: "debug-port".to_string(),
            value: "70000".to_string(),
        })
    );
    let mut v = values();
    v.log_file_count = Some("many".to_string());
    assert!(matches!(
        Cli::from_values(v),
        Err(CliError::Invalid { .. })
    ));
}

#[test]
fn flags_and_unknown_options() {
    let cli = Cli::parse_from(args(&[
        "acowork-runtime",
        "--agent-id=a",
        "--package-path=p",
        "--work-dir=w",
        "--dev-mode",
        "--debug-port",
        "5",
    ]))
    .unwrap();
    assert!(cli.dev_mode);
    assert_eq!(cli.debug_port, 5);
    assert!(matches!(
        Cli::parse_from(args(&["acowork-runtime", "--nonsense"])),
        Err(CliError::Usage(_))
    ));
}
