use ct_shell_trace_writer::cli::{parse_cli_args, CliArgs, CliCommand};

fn argv(words: &[&str]) -> Vec<String> {
    words.iter().map(|w| w.to_string()).collect()
}

#[test]
fn version_and_help_win() {
    assert_eq!(parse_cli_args(&argv(&["w", "--version"])), Ok(CliCommand::Version));
    assert_eq!(parse_cli_args(&argv(&["w", "--bogus", "--help", "--version"])), Ok(CliCommand::Version));
    assert_eq!(parse_cli_args(&argv(&["w", "--help"])), Ok(CliCommand::Help));
    assert_eq!(parse_cli_args(&argv(&["w", "--format", "json", "-h"])), Ok(CliCommand::Help));
}

#[test]
fn reads_a_recording() {
    assert_eq!(
        parse_cli_args(&argv(&["w", "--out-dir", "/tmp/o"])),
        Ok(CliCommand::Run(CliArgs { output_dir: "/tmp/o".into(), program: "unknown".into(), args: vec![] }))
    );
    assert_eq!(
        parse_cli_args(&argv(&["w", "--program", "s.sh", "--out-dir", "o", "--args", "one", "--out-dir", "x"])),
        Ok(CliCommand::Run(CliArgs {
            output_dir: "o".into(),
            program: "s.sh".into(),
            args: argv(&["one", "--out-dir", "x"]),
        }))
    );
    assert_eq!(
        parse_cli_args(&argv(&["w", "--out-dir", "a", "--out-dir", "b"])),
        Ok(CliCommand::Run(CliArgs { output_dir: "b".into(), program: "unknown".into(), args: vec![] }))
    );
}

#[test]
fn rejects_format() {
    for flag in ["--format", "-f"] {
        let r = parse_cli_args(&argv(&["w", flag, "json", "--out-dir", "/tmp"]));
        let message = r.unwrap_err();
        assert!(message.contains("--format"), "{message}");
        assert!(message.contains("ct print"), "{message}");
    }
}

#[test]
fn rejects_bad_command_lines() {
    assert_eq!(parse_cli_args(&argv(&["w"])), Err("--out-dir is required".to_string()));
    assert_eq!(parse_cli_args(&argv(&["w", "--args", "x"])), Err("--out-dir is required".to_string()));
    assert_eq!(parse_cli_args(&argv(&["w", "--out-dir"])), Err("--out-dir requires a value".to_string()));
    assert_eq!(parse_cli_args(&argv(&["w", "--program"])), Err("--program requires a value".to_string()));
    assert_eq!(parse_cli_args(&argv(&["w", "--out-dir", "o", "-x"])), Err("unknown option: -x".to_string()));
}
