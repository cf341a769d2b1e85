//! The command line.
use alwaysrunning::cli::{from_matched, Cli, CliError, Commands, Matched};
use alwaysrunning::grammar::{all_commands, runner};

fn argv(words: &[&str]) -> Vec<String> {
    words.iter().map(|w| w.to_string()).collect()
}

fn parse(words: &[&str]) -> Commands {
    Cli::try_parse_from(&argv(words)).expect("parse").command
}

fn rejected(words: &[&str]) -> (String, i32) {
    match Cli::try_parse_from(&argv(words)) {
        Err(CliError::Rejected(r)) => (r.message, r.exit_code),
        other => panic!("expected a rejection, got {:?}", other),
    }
}

#[test]
fn cli_parses_run_args() {
    let cli = Cli::try_parse_from(&argv(&[
        "runner",
        "run",
        "myapp",
        "./bin",
        "--env-file",
        ".env",
        "--clean-env",
        "--foreground",
        "--instances",
        "3",
        "--",
        "--flag",
        "value",
    ]))
    .expect("parse");

    match cli.command {
        Commands::Run {
            name,
            cmd,
            env_file,
            clean_env,
            foreground,
            args,
            instances,
            no_autostart,
        } => {
            assert_eq!(name, "myapp");
            assert_eq!(cmd, "./bin");
            assert_eq!(env_file.as_deref(), Some(".env"));
            assert!(clean_env);
            assert!(foreground);
            assert_eq!(instances, 3);
            assert!(!no_autostart);
            assert_eq!(args, vec!["--flag", "value"]);
        }
        _ => panic!("expected run command"),
    }
}

#[test]
fn cli_parses_status_watch() {
    let cli = Cli::try_parse_from(&argv(&["runner", "status", "--watch"])).expect("parse");
    match cli.command {
        Commands::Status { name, watch, json } => {
            assert!(name.is_none());
            assert!(watch);
            assert!(!json);
        }
        _ => panic!("expected status command"),
    }
}

#[test]
fn cli_parses_stop_signal() {
    let cli = Cli::try_parse_from(&argv(&["runner", "stop", "myapp", "--signal", "KILL"])).expect("parse");
    match cli.command {
        Commands::Stop { name, all, signal } => {
            assert_eq!(name.as_deref(), Some("myapp"));
            assert!(!all);
            assert_eq!(signal, "KILL");
        }
        _ => panic!("expected stop command"),
    }
}

#[test]
fn run_has_defaults() {
    match parse(&["runner", "run", "a", "b"]) {
        Commands::Run { name, cmd, env_file, clean_env, foreground, args, instances, no_autostart } => {
            assert_eq!((name.as_str(), cmd.as_str()), ("a", "b"));
            assert_eq!(env_file, None);
            assert!(!clean_env && !foreground && !no_autostart);
            assert!(args.is_empty());
            assert_eq!(instances, 1);
        }
        other => panic!("{:?}", other),
    }
}

#[test]
fn everything_after_the_binary_args_begin_is_passed_through() {
    match parse(&["runner", "run", "a", "b", "--no-autostart", "x", "--instances", "3"]) {
        Commands::Run { args, instances, no_autostart, .. } => {
            assert_eq!(args, vec!["x", "--instances", "3"]);
            assert_eq!(instances, 1);
            assert!(no_autostart);
        }
        other => panic!("{:?}", other),
    }
}

#[test]
fn every_command_is_understood() {
    assert!(matches!(parse(&["runner", "start", "a"]), Commands::Start { instances: None, .. }));
    assert!(matches!(parse(&["runner", "start", "a", "--instances", "0"]), Commands::Start { instances: Some(0), .. }));
    match parse(&["runner", "restart", "--all"]) {
        Commands::Restart { name, all, signal } => {
            assert_eq!((name, all, signal.as_str()), (None, true, "TERM"))
        }
        other => panic!("{:?}", other),
    }
    assert!(matches!(parse(&["runner", "delete", "--all"]), Commands::Delete { name: None, all: true }));
    match parse(&["runner", "logs", "a", "--instance", "2", "--follow", "--since", "10m", "--json"]) {
        Commands::Logs { name, instance, follow, lines, since, json } => {
            assert_eq!(name, "a");
            assert_eq!(instance, Some(2));
            assert!(follow && json);
            assert_eq!(lines, 200);
            assert_eq!(since.as_deref(), Some("10m"));
        }
        other => panic!("{:?}", other),
    }
    match parse(&["runner", "export", "f", "a"]) {
        Commands::Export { file, name } => assert_eq!((file.as_str(), name.as_deref()), ("f", Some("a"))),
        other => panic!("{:?}", other),
    }
    assert!(matches!(parse(&["runner", "import", "f", "--replace", "--start"]), Commands::Import { replace: true, start: true, .. }));
    assert!(matches!(parse(&["runner", "daemon", "--foreground"]), Commands::Daemon { foreground: true, watch: false }));
    assert!(matches!(parse(&["runner", "install"]), Commands::Install));
    assert!(matches!(parse(&["runner", "uninstall"]), Commands::Uninstall));
}

#[test]
fn list_and_attach_ask_for_the_status() {
    let r = parse(&["runner", "list", "--json", "a"]).status_request().unwrap();
    assert_eq!((r.name.as_deref(), r.watch, r.json), (Some("a"), false, true));
    let r = parse(&["runner", "attach"]).status_request().unwrap();
    assert_eq!((r.name, r.watch, r.json), (None, true, false));
    let r = parse(&["runner", "status", "--watch", "b"]).status_request().unwrap();
    assert_eq!((r.name.as_deref(), r.watch, r.json), (Some("b"), true, false));
    assert!(matches!(parse(&["runner", "install"]).status_request(), Err(Commands::Install)));
}

#[test]
fn a_wrong_command_line_is_rejected() {
    let (message, code) = rejected(&["runner", "run", "a"]);
    assert!(message.contains("<CMD>"));
    assert_eq!(code, 2);
    let (message, code) = rejected(&["runner", "start", "a", "--instances", "x"]);
    assert_eq!(
        message,
        "error: invalid value 'x' for '--instances <INSTANCES>': invalid digit found in string\n\nFor more information, try '--help'.\n"
    );
    assert_eq!(code, 2);
    assert_eq!(rejected(&["runner", "nonsense"]).1, 2);
    assert_eq!(rejected(&["runner"]).1, 2);
}

#[test]
fn help_and_version_are_no_mistakes() {
    let (message, code) = rejected(&["runner", "--help"]);
    assert_eq!(code, 0);
    assert!(message.starts_with("Run a binary and keep it alive.\n\nUsage: runner <COMMAND>\n"));
    assert!(message.contains("  run        Register and run an app continuously\n"));
    assert!(message.contains("  uninstall  Uninstall autostart for the runner daemon\n"));
    let (message, code) = rejected(&["runner", "--version"]);
    assert_eq!((message.as_str(), code), ("runner 0.1.2\n", 0));
    let (message, code) = rejected(&["runner", "logs", "--help"]);
    assert_eq!(code, 0);
    assert!(message.contains("Usage: runner logs [OPTIONS] <NAME>"));
    assert!(message.contains("Number of lines to show (ignored with --follow) [default: 200]"));
}

#[test]
fn a_styled_rejection_says_the_same() {
    match Cli::try_parse_from(&argv(&["runner", "nonsense"])) {
        Err(CliError::Rejected(r)) => {
            assert!(r.styled.contains("\x1b["));
            assert!(!r.message.contains("\x1b["));
        }
        other => panic!("{:?}", other),
    }
}

fn matched(name: &str, values: &[(&str, &[&str])]) -> Matched {
    Matched {
        subcommand: name.to_string(),
        values: values.iter().map(|(id, v)| (id.to_string(), argv(v))).collect(),
    }
}

#[test]
fn values_are_read_by_their_id() {
    let m = matched(
        "run",
        &[
            ("args", &["x", "y"]),
            ("instances", &["+7"]),
            ("cmd", &["c"]),
            ("name", &["n"]),
            ("foreground", &["true"]),
            ("clean_env", &["false"]),
        ],
    );
    match from_matched(&m) {
        Some(Commands::Run { name, cmd, env_file, clean_env, foreground, args, instances, no_autostart }) => {
            assert_eq!((name.as_str(), cmd.as_str(), env_file), ("n", "c", None));
            assert!(foreground && !clean_env && !no_autostart);
            assert_eq!(args, vec!["x", "y"]);
            assert_eq!(instances, 7);
        }
        other => panic!("{:?}", other),
    }
}

#[test]
fn a_missing_value_gives_no_command() {
    assert!(from_matched(&matched("run", &[("name", &["n"]), ("instances", &["1"])])).is_none());
    assert!(from_matched(&matched("run", &[("name", &["n"]), ("cmd", &["c"])])).is_none());
    assert!(from_matched(&matched("start", &[("name", &["n"]), ("instances", &["-1"])])).is_none());
    assert!(from_matched(&matched("start", &[])).is_none());
    assert!(from_matched(&matched("help", &[])).is_none());
    assert!(from_matched(&matched("delete", &[])).is_some());
}

#[test]
fn the_grammar_lists_each_command_once() {
    let names: Vec<&str> = all_commands().iter().map(|c| c.name).collect();
    assert_eq!(
        names,
        vec![
            "run", "status", "start", "stop", "restart", "delete", "logs", "export", "import", "attach", "list",
            "daemon", "install", "uninstall"
        ]
    );
    assert_eq!(runner().name, "runner");
}
