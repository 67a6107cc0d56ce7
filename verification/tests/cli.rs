use siggy::{parse_args, CliCommand};

fn args(list: &[&str]) -> Vec<String> {
    list.iter().map(|s| s.to_string()).collect()
}

#[test]
fn no_arguments_runs_with_defaults() {
    match parse_args(&args(&["signal-tui"])) {
        CliCommand::Run { config_path, account } => {
            assert_eq!(config_path, None);
            assert_eq!(account, None);
        }
        other => panic!("unexpected {other:?}"),
    }
}

#[test]
fn config_and_account() {
    match parse_args(&args(&["x", "-c", "a.toml", "--account", "+1555", "--config", "b.toml"])) {
        CliCommand::Run { config_path, account } => {
            assert_eq!(config_path.as_deref(), Some("b.toml"));
            assert_eq!(account.as_deref(), Some("+1555"));
        }
        other => panic!("unexpected {other:?}"),
    }
}

#[test]
fn missing_values_fail() {
    match parse_args(&args(&["x", "--config"])) {
        CliCommand::Fail(m) => assert_eq!(m, "--config requires a path argument"),
        other => panic!("unexpected {other:?}"),
    }
    match parse_args(&args(&["x", "-a"])) {
        CliCommand::Fail(m) => assert_eq!(m, "--account requires a phone number"),
        other => panic!("unexpected {other:?}"),
    }
}

#[test]
fn help_and_unknown() {
    assert!(matches!(parse_args(&args(&["x", "--help", "--bogus"])), CliCommand::Help));
    match parse_args(&args(&["x", "--bogus", "--help"])) {
        CliCommand::Fail(m) => assert_eq!(m, "Unknown argument: --bogus"),
        other => panic!("unexpected {other:?}"),
    }
}
