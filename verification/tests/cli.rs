use intmux::error::{ConfigError, IntmuxError};
use intmux::launch::{Action, Launch, RunOutcome};
use intmux::model::{CommandSpec, RunOptions};
use intmux::process::ProcessOutput;
use intmux::quote::shell_quote;
use intmux::reuse::compute_reuse_key;
use intmux::target::parse_create_target;

use std::collections::VecDeque;
use std::io;

struct Recorded {
    calls: Vec<Vec<String>>,
    result: Result<(), IntmuxError>,
}

fn drive(spec: CommandSpec, options: RunOptions, outputs: Vec<io::Result<ProcessOutput>>) -> Recorded {
    let mut outputs = VecDeque::from(outputs);
    let mut calls = Vec::new();
    let (mut launch, mut action) = Launch::begin(spec, options);
    loop {
        match action {
            Action::Run(args) => {
                calls.push(args.clone());
                let next = outputs
                    .pop_front()
                    .unwrap_or_else(|| panic!("missing fake output for call {args:?}"));
                let outcome = match next {
                    Ok(output) => RunOutcome::Exited(output),
                    Err(source) => RunOutcome::Failed {
                        not_found: source.kind() == io::ErrorKind::NotFound,
                        source,
                    },
                };
                action = launch.advance(outcome);
            }
            Action::Sleep(_) => action = launch.resume(),
            Action::Finish(result) => return Recorded { calls, result },
        }
    }
}

fn success(stdout: &str) -> ProcessOutput {
    ProcessOutput::new(Some(0), String::from(stdout), String::new())
}

fn failure(code: i32, stderr: &str) -> ProcessOutput {
    ProcessOutput::new(Some(code), String::new(), String::from(stderr))
}

fn strings(items: &[&str]) -> Vec<String> {
    items.iter().map(|s| String::from(*s)).collect()
}

#[test]
fn run_options_validate_socket_names() {
    assert_eq!(
        RunOptions::with_socket_name(String::new()),
        Err(ConfigError::EmptySocketName)
    );
    assert_eq!(
        RunOptions::with_socket_name(String::from("bad/name")),
        Err(ConfigError::SocketNameContainsSeparator)
    );
}

#[test]
fn compute_reuse_key_changes_with_working_directory() {
    let argv = strings(&["touch", "target-file"]);
    let first = compute_reuse_key("/one", &argv);
    let second = compute_reuse_key("/two", &argv);
    assert_ne!(first, second);
}

#[test]
fn command_spec_rejects_empty_commands() {
    let result = CommandSpec::new(Vec::<String>::new(), String::from("/tmp"));
    assert!(matches!(result, Err(IntmuxError::InvalidCommand(_))));
}

#[test]
fn command_spec_derives_window_name_from_basename() {
    let spec = CommandSpec::new(strings(&["/usr/bin/printf", "ok"]), String::from("/tmp"))
        .expect("valid command");
    assert_eq!(spec.window_name(), "printf");
}

#[test]
fn parse_create_target_rejects_bad_output() {
    let result = parse_create_target("oops", "create tmux window");
    assert!(matches!(
        result,
        Err(IntmuxError::UnexpectedTmuxOutput { .. })
    ));
}

#[test]
fn shell_quote_handles_spaces_and_single_quotes() {
    assert_eq!(shell_quote("plain-text"), "plain-text");
    assert_eq!(shell_quote("two words"), "'two words'");
    assert_eq!(shell_quote("it's"), "'it'\\''s'");
}
