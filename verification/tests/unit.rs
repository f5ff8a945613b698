use intmux::error::{ConfigError, IntmuxError};
use intmux::launch::{Action, Launch, RunOutcome};
use intmux::model::{CommandSpec, RunOptions};
use intmux::process::ProcessOutput;
use intmux::quote::shell_quote;
use intmux::target::parse_create_target;

use std::collections::VecDeque;
use std::io;

struct Recorded {
    calls: Vec<Vec<String>>,
    result: Result<(), IntmuxError>,
}

fn drive(spec: CommandSpec, options: RunOptions, outputs: Vec<io::Result<ProcessOutput>>) -> Recorded {
    let mut outputs = VecDeque::from(outputs);
    let mut calls = Vec::new();
    let (mut launch, mut action) = Launch::begin(spec, options);
    loop {
        match action {
            Action::Run(args) => {
                calls.push(args.clone());
                let next = outputs
                    .pop_front()
                    .unwrap_or_else(|| panic!("missing fake output for call {args:?}"));
                let outcome = match next {
                    Ok(output) => RunOutcome::Exited(output),
                    Err(source) => RunOutcome::Failed {
                        not_found: source.kind() == io::ErrorKind::NotFound,
                        source,
                    },
                };
                action = launch.advance(outcome);
            }
            Action::Sleep(_) => action = launch.resume(),
            Action::Finish(result) => return Recorded { calls, result },
        }
    }
}

fn success(stdout: &str) -> ProcessOutput {
    ProcessOutput::new(Some(0), String::from(stdout), String::new())
}

fn failure(code: i32, stderr: &str) -> ProcessOutput {
    ProcessOutput::new(Some(code), String::new(), String::from(stderr))
}

fn strings(items: &[&str]) -> Vec<String> {
    items.iter().map(|s| String::from(*s)).collect()
}

#[test]
fn tests_run_options_validate_socket_names() {
    assert_eq!(
        RunOptions::with_socket_name(String::new()),
        Err(ConfigError::EmptySocketName)
    );
    assert_eq!(
        RunOptions::with_socket_name(String::from("bad/name")),
        Err(ConfigError::SocketNameContainsSeparator)
    );
}

#[test]
fn tests_command_spec_rejects_empty_commands() {
    let result = CommandSpec::new(Vec::<String>::new(), String::from("/tmp"));
    assert!(matches!(result, Err(IntmuxError::InvalidCommand(_))));
}

#[test]
fn tests_command_spec_derives_window_name_from_basename() {
    let spec = CommandSpec::new(strings(&["/usr/bin/printf", "ok"]), String::from("/tmp"))
        .expect("valid command");
    assert_eq!(spec.window_name(), "printf");
}

#[test]
fn tests_parse_create_target_rejects_bad_output() {
    let result = parse_create_target("oops", "create tmux window");
    assert!(matches!(
        result,
        Err(IntmuxError::UnexpectedTmuxOutput { .. })
    ));
}

#[test]
fn tests_shell_quote_handles_spaces_and_single_quotes() {
    assert_eq!(shell_quote("plain-text"), "plain-text");
    assert_eq!(shell_quote("two words"), "'two words'");
    assert_eq!(shell_quote("it's"), "'it'\\''s'");
}

#[test]
fn tests_missing_session_creates_session_then_sends_command() {
    let spec = CommandSpec::new(strings(&["ls", "/tmp"]), String::from("/work")).expect("valid");
    let options = RunOptions::with_socket_name(String::from("test-socket")).expect("valid");
    let run = drive(
        spec,
        options,
        vec![
            Ok(failure(1, "can't find session: intmux")),
            Ok(success("@1\t%2\n")),
            Ok(success("")),
            Ok(success("0\tbash")),
            Ok(success("ls /tmp")),
            Ok(success("")),
        ],
    );
    assert!(run.result.is_ok());
    assert_eq!(
        run.calls,
        vec![
            strings(&["-L", "test-socket", "has-session", "-t", "intmux"]),
            strings(&[
                "-L",
                "test-socket",
                "new-session",
                "-d",
                "-P",
                "-F",
                "#{window_id}\t#{pane_id}",
                "-s",
                "intmux",
                "-n",
                "ls",
                "-c",
                "/work",
            ]),
            strings(&[
                "-L",
                "test-socket",
                "set-window-option",
                "-t",
                "@1",
                "automatic-rename",
                "off",
            ]),
            strings(&[
                "-L",
                "test-socket",
                "display-message",
                "-p",
                "-t",
                "%2",
                "#{pane_dead}\t#{pane_current_command}",
            ]),
            strings(&["-L", "test-socket", "send-keys", "-t", "%2", "-l", "ls /tmp"]),
            strings(&["-L", "test-socket", "send-keys", "-t", "%2", "C-m"]),
        ]
    );
}

#[test]
fn tests_existing_session_adds_window() {
    let spec = CommandSpec::new(strings(&["touch", "file with spaces"]), String::from("/work"))
        .expect("valid");
    let run = drive(
        spec,
        RunOptions::default(),
        vec![
            Ok(success("")),
            Ok(success("@4\t%9\n")),
            Ok(success("")),
            Ok(success("0\tbash")),
            Ok(success("touch 'file with spaces'")),
            Ok(success("")),
        ],
    );
    assert!(run.result.is_ok());
    assert_eq!(run.calls[1][0], "new-window");
    assert_eq!(run.calls[4][0], "send-keys");
    assert_eq!(run.calls[4][3], "-l");
    assert_eq!(run.calls[4][4], "touch 'file with spaces'");
}

#[test]
fn tests_wait_for_live_pane_retries_until_shell_is_ready() {
    let spec = CommandSpec::new(strings(&["ls"]), String::from("/work")).expect("valid");
    let run = drive(
        spec,
        RunOptions::default(),
        vec![
            Ok(failure(1, "can't find session: intmux")),
            Ok(success("@1\t%2\n")),
            Ok(success("")),
            Ok(success("1\t")),
            Ok(success("0\tbash")),
            Ok(success("ls")),
            Ok(success("")),
        ],
    );
    assert!(run.result.is_ok());
    assert_eq!(
        run.calls
            .iter()
            .filter(|call| call
                .iter()
                .any(|arg| arg == "#{pane_dead}\t#{pane_current_command}"))
            .count(),
        2
    );
}
