use s3mem_run::args::{parse_args, ArgError, LogLevel};

fn argv(tokens: &[&str]) -> Vec<String> {
    tokens.iter().map(|t| t.to_string()).collect()
}

#[test]
fn test_args_parsing() {
    // Test command-line argument parsing
    let args = parse_args(&argv(&[
        "s3mem-run",
        "--bucket",
        "test-bucket",
        "--key",
        "test-key",
        "--log-level",
        "debug",
        "program",
        "arg1",
        "arg2",
    ]))
    .unwrap();

    assert_eq!(args.bucket.unwrap(), "test-bucket");
    assert_eq!(args.key.unwrap(), "test-key");
    assert_eq!(args.log_level, LogLevel::Debug);
    assert_eq!(args.command, vec!["program", "arg1", "arg2"]);
    assert_eq!(args.memfd_placeholder, "{{memfd}}");
}

#[test]
fn test_args_missing_required() {
    // Test that required arguments are enforced
    let result = parse_args(&argv(&["s3mem-run"]));
    assert!(result.is_err());
}

#[test]
fn test_memfd_placeholder_replacement() {
    let args = parse_args(&argv(&[
        "s3mem-run",
        "--bucket",
        "test-bucket",
        "--key",
        "test-key",
        "--memfd-placeholder",
        "{{custom}}",
        "program",
        "{{custom}}",
        "arg2",
    ]))
    .unwrap();

    assert_eq!(args.memfd_placeholder, "{{custom}}");
    let program_args: Vec<String> = args.command[1..].to_vec();
    assert!(program_args.contains(&"{{custom}}".to_string()));
}

#[test]
fn args_error_cases() {
    // A flag with no token left for its value.
    assert_eq!(
        parse_args(&argv(&["s3mem-run", "--bucket"])).unwrap_err(),
        ArgError::MissingValue
    );
    // A log level that names no level.
    assert_eq!(
        parse_args(&argv(&["s3mem-run", "--log-level", "loud", "program"])).unwrap_err(),
        ArgError::InvalidLogLevel
    );
    // Flags but never a command.
    assert_eq!(
        parse_args(&argv(&["s3mem-run", "--bucket", "b"])).unwrap_err(),
        ArgError::MissingCommand
    );
}

#[test]
fn args_defaults_and_trailing() {
    // Without flags, everything after the program name is the command, and
    // the defaults stand.
    let args = parse_args(&argv(&["s3mem-run", "cat", "--bucket", "x"])).unwrap();
    assert_eq!(args.bucket, None);
    assert_eq!(args.key, None);
    assert_eq!(args.log_level, LogLevel::Info);
    assert_eq!(args.memfd_placeholder, "{{memfd}}");
    // Tokens after the first command token pass through even when they look
    // like flags.
    assert_eq!(args.command, vec!["cat", "--bucket", "x"]);
}
