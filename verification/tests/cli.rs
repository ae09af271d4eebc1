//! Tests of the command lines.

use resurreccion::cli::doctor::{help_text, Args, Command};
use resurreccion::cli::{Cli, CliErrorKind, Commands, EventsCmd, WorkspaceCmd};

#[test]
fn doctor_subcommand_parses() {
    let cli = Cli::try_parse_from(&["muxon", "doctor"]).expect("doctor should parse");
    assert!(matches!(cli.command, Commands::Doctor));
}

#[test]
fn workspace_list_parses() {
    let cli = Cli::try_parse_from(&["muxon", "workspace", "list"]).expect("workspace list should parse");
    assert!(matches!(cli.command, Commands::Workspace(_)));
}

#[test]
fn json_flag_parses() {
    let cli = Cli::try_parse_from(&["muxon", "doctor", "--json"]).expect("doctor --json should parse");
    assert!(cli.json);
    assert!(matches!(cli.command, Commands::Doctor));
}

#[test]
fn tree_subcommand_is_stub() {
    let cli = Cli::try_parse_from(&["muxon", "tree"]).expect("tree should parse");
    assert!(matches!(cli.command, Commands::Tree));
}

#[test]
fn events_tail_parses() {
    let cli = Cli::try_parse_from(&["muxon", "events", "tail"]).expect("events tail should parse");
    assert!(matches!(cli.command, Commands::Events(_)));
}

#[test]
fn global_options_stand_anywhere() {
    let cli = Cli::try_parse_from(&["muxon", "--json", "workspace", "--dir", "/w", "get", "--socket=/s.sock"])
        .unwrap();
    assert!(cli.json);
    assert_eq!(cli.dir.as_deref(), Some("/w"));
    assert_eq!(cli.socket.as_deref(), Some("/s.sock"));
    match cli.command {
        Commands::Workspace(w) => assert_eq!(w.cmd, WorkspaceCmd::Get),
        _ => panic!("workspace expected"),
    }
    let cli = Cli::try_parse_from(&["muxon", "events", "tail", "--dir=/x"]).unwrap();
    assert_eq!(cli.dir.as_deref(), Some("/x"));
    match cli.command {
        Commands::Events(e) => assert_eq!(e.cmd, EventsCmd::Tail),
        _ => panic!("events expected"),
    }
}

#[test]
fn cli_refusals_name_their_argument() {
    let e = Cli::try_parse_from(&["muxon"]).unwrap_err();
    assert_eq!(e.kind, CliErrorKind::MissingSubcommand);
    let e = Cli::try_parse_from(&["muxon", "events"]).unwrap_err();
    assert_eq!(e.kind, CliErrorKind::MissingSubcommand);
    let e = Cli::try_parse_from(&["muxon", "frobnicate"]).unwrap_err();
    assert_eq!(e.kind, CliErrorKind::UnknownArgument);
    assert_eq!(e.argument, "frobnicate");
    let e = Cli::try_parse_from(&["muxon", "doctor", "--verbose"]).unwrap_err();
    assert_eq!(e.kind, CliErrorKind::UnknownArgument);
    assert_eq!(e.argument, "--verbose");
    let e = Cli::try_parse_from(&["muxon", "doctor", "extra"]).unwrap_err();
    assert_eq!(e.kind, CliErrorKind::UnexpectedArgument);
    let e = Cli::try_parse_from(&["muxon", "doctor", "--socket"]).unwrap_err();
    assert_eq!(e.kind, CliErrorKind::MissingValue);
    assert_eq!(e.argument, "--socket");
    let e = Cli::try_parse_from(&["muxon", "--json", "doctor", "--json"]).unwrap_err();
    assert_eq!(e.kind, CliErrorKind::RepeatedArgument);
    let e = Cli::try_parse_from(&["muxon", "--dir=", "doctor"]).unwrap_err();
    assert_eq!(e.kind, CliErrorKind::MissingValue);
    assert_eq!(e.argument, "--dir");
    let e = Cli::try_parse_from(&["muxon", "--help"]).unwrap_err();
    assert_eq!(e.kind, CliErrorKind::Help);
    let e = Cli::try_parse_from(&["muxon", "workspace", "help"]).unwrap_err();
    assert_eq!(e.kind, CliErrorKind::Help);
}

fn strings(args: &[&str]) -> Vec<String> {
    args.iter().map(|a| a.to_string()).collect()
}

#[test]
fn doctor_args_default_to_plain_output_on_the_default_socket() {
    let args = Args::parse(&strings(&[])).unwrap();
    assert_eq!(args.command, Command::Doctor { json: false });
    assert_eq!(args.socket_path, "/tmp/resurreccion.sock");
    let args = Args::parse(&strings(&["doctor", "--json", "--socket", "/run/d.sock"])).unwrap();
    assert_eq!(args.command, Command::Doctor { json: true });
    assert_eq!(args.socket_path, "/run/d.sock");
}

#[test]
fn doctor_args_refusals() {
    assert_eq!(Args::parse(&strings(&["--socket"])).unwrap_err(), "missing value for --socket");
    assert_eq!(Args::parse(&strings(&["-h"])).unwrap_err(), help_text());
    assert_eq!(
        Args::parse(&strings(&["doctor", "--bogus"])).unwrap_err(),
        "unknown argument: --bogus\n\nUsage:\n  resurreccion-cli doctor [--socket PATH] [--json]"
    );
    assert_eq!(help_text(), "Usage:\n  resurreccion-cli doctor [--socket PATH] [--json]");
}
