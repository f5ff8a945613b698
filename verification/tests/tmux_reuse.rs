use intmux::error::IntmuxError;
use intmux::launch::{Action, Launch, RunOutcome};
use intmux::model::{CommandSpec, RunOptions};
use intmux::process::ProcessOutput;
use intmux::reuse::compute_reuse_key;

use std::collections::VecDeque;
use std::io;

struct Recorded {
    calls: Vec<Vec<String>>,
    result: Result<(), IntmuxError>,
}

fn drive(spec: CommandSpec, options: RunOptions, outputs: Vec<io::Result<ProcessOutput>>) -> Recorded {
    let mut outputs = VecDeque::from(outputs);
    let mut calls = Vec::new();
    let (mut launch, mut action) = Launch::begin(spec, options);
    loop {
        match action {
            Action::Run(args) => {
                calls.push(args.clone());
                let next = outputs
                    .pop_front()
                    .unwrap_or_else(|| panic!("missing fake output for call {args:?}"));
                let outcome = match next {
                    Ok(output) => RunOutcome::Exited(output),
                    Err(source) => RunOutcome::Failed {
                        not_found: source.kind() == io::ErrorKind::NotFound,
                        source,
                    },
                };
                action = launch.advance(outcome);
            }
            Action::Sleep(_) => action = launch.resume(),
            Action::Finish(result) => return Recorded { calls, result },
        }
    }
}

fn success(stdout: &str) -> ProcessOutput {
    ProcessOutput::new(Some(0), String::from(stdout), String::new())
}

fn failure(code: i32, stderr: &str) -> ProcessOutput {
    ProcessOutput::new(Some(code), String::new(), String::from(stderr))
}

fn strings(items: &[&str]) -> Vec<String> {
    items.iter().map(|s| String::from(*s)).collect()
}

fn reuse_filter(reuse_key: &str) -> String {
    format!("#{{==:#{{@intmux.reuse-key-sha256}},{reuse_key}}}")
}

fn tmux_call(args: &[&str]) -> Vec<String> {
    let mut call = strings(&["-L", "test-socket"]);
    call.extend(args.iter().map(|s| String::from(*s)));
    call
}

fn expected_reuse_calls(filter: &str, reuse_key: &str) -> Vec<Vec<String>> {
    vec![
        tmux_call(&["has-session", "-t", "intmux"]),
        tmux_call(&[
            "list-windows",
            "-t",
            "intmux",
            "-f",
            filter,
            "-F",
            "#{window_id}\t#{window_index}\t#{window_panes}\t#{pane_id}\t#{pane_dead}\t#{pane_current_command}",
        ]),
        tmux_call(&["show-options", "-v", "-g", "default-shell"]),
        tmux_call(&[
            "set-window-option",
            "-u",
            "-t",
            "@7",
            "@intmux.reuse-key-sha256",
        ]),
        tmux_call(&["set-window-option", "-t", "@4", "automatic-rename", "off"]),
        tmux_call(&[
            "set-window-option",
            "-t",
            "@4",
            "@intmux.reuse-key-sha256",
            reuse_key,
        ]),
        tmux_call(&["send-keys", "-t", "%9", "C-c"]),
        tmux_call(&["send-keys", "-t", "%9", "-l", "cd -- /work"]),
        tmux_call(&["send-keys", "-t", "%9", "C-m"]),
        tmux_call(&["send-keys", "-t", "%9", "-l", "touch 'file with spaces'"]),
        tmux_call(&["send-keys", "-t", "%9", "C-m"]),
    ]
}

#[test]
fn reuse_window_uses_matching_live_shell() {
    let argv = strings(&["touch", "file with spaces"]);
    let spec = CommandSpec::new(argv.clone(), String::from("/work")).expect("valid");
    let reuse_key = compute_reuse_key(spec.cwd(), &argv);
    let options = RunOptions::with_socket_name(String::from("test-socket"))
        .expect("valid")
        .with_reuse_window();
    let filter = reuse_filter(&reuse_key);
    let run = drive(
        spec,
        options,
        vec![
            Ok(success("")),
            Ok(success("@7\t4\t1\t%10\t0\tbash\n@4\t1\t1\t%9\t0\tbash\n")),
            Ok(success("/bin/bash")),
            Ok(success("")),
            Ok(success("")),
            Ok(success("")),
            Ok(success("")),
            Ok(success("")),
            Ok(success("")),
            Ok(success("")),
            Ok(success("")),
        ],
    );
    assert!(run.result.is_ok());
    assert_eq!(run.calls, expected_reuse_calls(&filter, &reuse_key));
}

#[test]
fn reuse_window_falls_back_to_new_window_for_busy_match() {
    let argv = strings(&["ls", "/tmp"]);
    let spec = CommandSpec::new(argv.clone(), String::from("/work")).expect("valid");
    let reuse_key = compute_reuse_key(spec.cwd(), &argv);
    let options = RunOptions::with_socket_name(String::from("test-socket"))
        .expect("valid")
        .with_reuse_window();
    let filter = reuse_filter(&reuse_key);
    let run = drive(
        spec,
        options,
        vec![
            Ok(success("")),
            Ok(success("@4\t1\t1\t%9\t0\tsleep")),
            Ok(success("/bin/bash")),
            Ok(success("")),
            Ok(success("@8\t%11\n")),
            Ok(success("")),
            Ok(success("")),
            Ok(success("0\tbash")),
            Ok(success("ls /tmp")),
            Ok(success("")),
        ],
    );
    assert!(run.result.is_ok());
    assert_eq!(run.calls[1][2], "list-windows");
    assert_eq!(run.calls[1][6], filter);
    assert_eq!(run.calls[3][5], "@4");
    assert_eq!(run.calls[4][2], "new-window");
    assert_eq!(run.calls[6][5], "@intmux.reuse-key-sha256");
    assert_eq!(run.calls[8][6], "ls /tmp");
}

#[test]
fn reuse_window_uses_custom_session_for_lookup() {
    let argv = strings(&["ls"]);
    let spec = CommandSpec::new(argv.clone(), String::from("/work")).expect("valid");
    let options = RunOptions::with_socket_name(String::from("test-socket"))
        .expect("valid")
        .with_session_name(String::from("team space"))
        .expect("valid")
        .with_reuse_window();
    let reuse_key = compute_reuse_key(spec.cwd(), &argv);
    let filter = reuse_filter(&reuse_key);
    let run = drive(
        spec,
        options,
        vec![
            Ok(success("")),
            Ok(success("@4\t1\t1\t%9\t0\tbash")),
            Ok(success("/bin/bash")),
            Ok(success("")),
            Ok(success("")),
            Ok(success("")),
            Ok(success("")),
            Ok(success("")),
            Ok(success("")),
            Ok(success("")),
        ],
    );
    assert!(run.result.is_ok());
    assert_eq!(run.calls[0][4], "team space");
    assert_eq!(run.calls[1][4], "team space");
    assert_eq!(run.calls[1][6], filter);
}
