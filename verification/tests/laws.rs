use intmux::error::{ConfigError, IntmuxError};
use intmux::launch::{Action, Launch, RunOutcome};
use intmux::model::{CommandSpec, RunOptions};
use intmux::process::ProcessOutput;
use intmux::quote::{shell_join, shell_quote};
use intmux::reuse::{compute_reuse_key, compute_shell_reuse_key, hex_encode, hex_nibble, ReuseKey};
use intmux::sticky::StickyWindow;
use intmux::launch::pane_live;
use intmux::model::derive_window_name;
use intmux::text::decimal_i32;
use intmux::target::{parse_create_target, parse_tmux_id, PaneId, WindowId};

use std::collections::VecDeque;
use std::io;

struct Recorded {
    calls: Vec<Vec<String>>,
    result: Result<(), IntmuxError>,
}

fn drive(spec: CommandSpec, options: RunOptions, outputs: Vec<io::Result<ProcessOutput>>) -> Recorded {
    let mut outputs = VecDeque::from(outputs);
    let mut calls = Vec::new();
    let (mut launch, mut action) = Launch::begin(spec, options);
    loop {
        match action {
            Action::Run(args) => {
                calls.push(args.clone());
                let next = outputs
                    .pop_front()
                    .unwrap_or_else(|| panic!("missing fake output for call {args:?}"));
                let outcome = match next {
                    Ok(output) => RunOutcome::Exited(output),
                    Err(source) => RunOutcome::Failed {
                        not_found: source.kind() == io::ErrorKind::NotFound,
                        source,
                    },
                };
                action = launch.advance(outcome);
            }
            Action::Sleep(_) => action = launch.resume(),
            Action::Finish(result) => return Recorded { calls, result },
        }
    }
}

fn success(stdout: &str) -> ProcessOutput {
    ProcessOutput::new(Some(0), String::from(stdout), String::new())
}

fn failure(code: i32, stderr: &str) -> ProcessOutput {
    ProcessOutput::new(Some(code), String::new(), String::from(stderr))
}

fn strings(items: &[&str]) -> Vec<String> {
    items.iter().map(|s| String::from(*s)).collect()
}


fn details(error: &IntmuxError) -> (&'static str, String) {
    match error {
        IntmuxError::UnexpectedTmuxOutput { context, details } => (context, details.clone()),
        IntmuxError::TmuxCommand { context, details } => (context, details.clone()),
        other => panic!("unexpected error {other:?}"),
    }
}

#[test]
fn shell_join_quotes_each_argument_and_joins_with_spaces() {
    let argv = strings(&["a b", "it's", "", "plain", "x$y"]);
    assert_eq!(shell_join(&argv), "'a b' 'it'\\''s' '' plain 'x$y'");
    assert_eq!(shell_join(&[]), "");
    assert_eq!(shell_quote(""), "''");
    assert_eq!(shell_quote("/usr/bin:./a_b-c"), "/usr/bin:./a_b-c");
}

#[test]
fn create_target_output_reads_back() {
    let target = parse_create_target("@12\t%34", "create tmux window").expect("valid");
    assert_eq!(target.window_id().as_str(), "@12");
    assert_eq!(target.pane_id().as_str(), "%34");
}

#[test]
fn create_target_errors_name_the_fault() {
    let missing = parse_create_target("@1", "create tmux session").unwrap_err();
    assert_eq!(details(&missing), ("create tmux session", String::from("missing pane id")));
    let extra = parse_create_target("@1\t%2\t%3", "create tmux window").unwrap_err();
    assert_eq!(
        details(&extra),
        ("create tmux window", String::from("expected two tab-separated fields, got \"@1\\t%2\\t%3\""))
    );
    let bad_window = parse_create_target("x\t%2", "create tmux window").unwrap_err();
    assert_eq!(
        details(&bad_window),
        ("parse tmux identifiers", String::from("invalid window id: \"x\""))
    );
    let bad_both = parse_create_target("x\ty", "create tmux window").unwrap_err();
    assert_eq!(
        details(&bad_both),
        ("parse tmux identifiers", String::from("invalid pane id: \"y\""))
    );
    let empty = parse_tmux_id("", '@', "window id").unwrap_err();
    assert_eq!(details(&empty), ("parse tmux identifiers", String::from("missing window id")));
    assert_eq!(WindowId::parse("@007").expect("digits").as_str(), "@007");
    assert!(WindowId::parse("@").is_ok());
    assert!(PaneId::parse("@1").is_err());
    assert!(PaneId::parse("%1a").is_err());
}

#[test]
fn sticky_window_lines_parse() {
    let window = StickyWindow::parse("@4\t+1\t1\t%9\t0\tbash").expect("valid");
    assert_eq!(window.window_id().as_str(), "@4");
    assert_eq!(window.window_index(), 1);
    assert!(window.is_reusable("bash"));
    assert!(!window.is_reusable("zsh"));
    let busy = StickyWindow::parse("@4\t1\t2\t%9\t0\tbash").expect("valid");
    assert!(!busy.is_reusable("bash"));
    let dead = StickyWindow::parse("@4\t1\t1\t%9\t1\tbash").expect("valid");
    assert!(!dead.is_reusable("bash"));
    let target = window.into_target();
    assert_eq!(target.pane_id().as_str(), "%9");
}

#[test]
fn sticky_window_errors_name_the_fault() {
    let cases = [
        ("@4", "missing window index in \"@4\""),
        ("@4\tx", "invalid window index \"x\" in \"@4\\tx\""),
        ("@4\t1", "missing window panes in \"@4\\t1\""),
        ("@4\t1\t-1", "invalid window panes \"-1\" in \"@4\\t1\\t-1\""),
        ("@4\t1\t1", "missing pane id in \"@4\\t1\\t1\""),
        ("@4\t1\t1\t%9", "missing pane dead flag in \"@4\\t1\\t1\\t%9\""),
        ("@4\t1\t1\t%9\t2", "invalid pane dead flag \"2\" in \"@4\\t1\\t1\\t%9\\t2\""),
        ("@4\t1\t1\t%9\t0", "missing pane current command in \"@4\\t1\\t1\\t%9\\t0\""),
        ("@4\t1\t1\t%9\t0\tbash\tx", "too many sticky tmux window fields in \"@4\\t1\\t1\\t%9\\t0\\tbash\\tx\""),
        ("@4\t99999999999999999999\t1\t%9\t0\tbash", "invalid window index \"99999999999999999999\" in \"@4\\t99999999999999999999\\t1\\t%9\\t0\\tbash\""),
        ("@4\t+\t1\t%9\t0\tbash", "invalid window index \"+\" in \"@4\\t+\\t1\\t%9\\t0\\tbash\""),
    ];
    for (line, message) in cases {
        let error = StickyWindow::parse(line).unwrap_err();
        assert_eq!(details(&error), ("parse sticky tmux window", String::from(message)), "{line:?}");
    }
    let bad_id = StickyWindow::parse("4\t1\t1\t%9\t0\tbash").unwrap_err();
    assert_eq!(details(&bad_id), ("parse tmux identifiers", String::from("invalid window id: \"4\"")));
}

#[test]
fn failure_details_prefer_stderr_then_stdout_then_status() {
    let both = ProcessOutput::new(Some(1), String::from(" out "), String::from("\n err \n"));
    assert_eq!(both.failure_details(), "err");
    let only_out = ProcessOutput::new(Some(1), String::from(" out\t"), String::from("  "));
    assert_eq!(only_out.failure_details(), "out");
    let silent = ProcessOutput::new(Some(3), String::new(), String::new());
    assert_eq!(silent.failure_details(), "tmux exited with status 3");
    let negative = ProcessOutput::new(Some(-12), String::new(), String::new());
    assert_eq!(negative.failure_details(), "tmux exited with status -12");
    let killed = ProcessOutput::new(None, String::new(), String::new());
    assert_eq!(killed.failure_details(), "tmux terminated by signal");
    assert!(!killed.is_success());
    assert!(ProcessOutput::new(Some(0), String::new(), String::new()).is_success());
}

#[test]
fn trimmed_stdout_drops_only_trailing_line_breaks() {
    let output = ProcessOutput::new(Some(0), String::from(" a\tb \r\n\n"), String::new());
    assert_eq!(output.trimmed_stdout(), " a\tb ");
}

#[test]
fn decimal_text_of_integers() {
    let text = |n: i32| decimal_i32(n).into_iter().collect::<String>();
    assert_eq!(text(0), "0");
    assert_eq!(text(1234), "1234");
    assert_eq!(text(-7), "-7");
    assert_eq!(text(i32::MIN), "-2147483648");
    assert_eq!(text(i32::MAX), "2147483647");
}

#[test]
fn window_names_come_from_the_executable_file_name() {
    assert_eq!(derive_window_name("/usr/bin/printf"), "printf");
    assert_eq!(derive_window_name("bin/tool/"), "tool");
    assert_eq!(derive_window_name("./run"), "run");
    assert_eq!(derive_window_name("a/."), "a");
    assert_eq!(derive_window_name("foo/.."), "foo/..");
    assert_eq!(derive_window_name("/"), "/");
    assert_eq!(derive_window_name(" "), "cmd");
    assert_eq!(derive_window_name("/ /"), "cmd");
}

#[test]
fn command_specs_validate_their_payload() {
    let empty_executable = CommandSpec::new(strings(&["", "x"]), String::from("/tmp")).unwrap_err();
    assert!(matches!(empty_executable, IntmuxError::InvalidCommand("command executable must not be empty")));
    let empty = CommandSpec::new(Vec::new(), String::from("/tmp")).unwrap_err();
    assert!(matches!(empty, IntmuxError::InvalidCommand("command must contain at least one argument")));
    let shell = CommandSpec::shell(String::from("echo 123 > out"), String::from("/work")).expect("valid");
    assert_eq!(shell.command_line(), "echo 123 > out");
    assert_eq!(shell.cwd(), "/work");
    let empty_shell = CommandSpec::shell(String::new(), String::from("/work")).unwrap_err();
    assert!(matches!(empty_shell, IntmuxError::InvalidCommand("shell command must not be empty")));
    let argv = CommandSpec::new(strings(&["touch", "a file"]), String::from("/w")).expect("valid");
    assert_eq!(argv.command_line(), "touch 'a file'");
}

#[test]
fn run_options_compose() {
    let defaults = RunOptions::new();
    assert_eq!(defaults.session_name(), "intmux");
    assert_eq!(defaults.socket_name(), None);
    assert!(!defaults.reuse_window());
    assert_eq!(RunOptions::default(), defaults);
    let options = RunOptions::with_socket_name(String::from("sock"))
        .expect("valid")
        .with_reuse_window()
        .with_session_name(String::from("team space"))
        .expect("valid");
    assert_eq!(options.socket_name(), Some("sock"));
    assert_eq!(options.session_name(), "team space");
    assert!(options.reuse_window());
    assert_eq!(
        RunOptions::new().with_session_name(String::new()),
        Err(ConfigError::EmptySessionName)
    );
    assert_eq!(ConfigError::EmptySocketName.message(), "tmux socket name cannot be empty");
    assert_eq!(
        ConfigError::SocketNameContainsSeparator.message(),
        "tmux socket name must not contain '/'"
    );
}

#[test]
fn shell_keys_stay_apart_from_single_argument_keys() {
    let line = "echo 123 > out";
    let shell = compute_shell_reuse_key("/work", line);
    let argv = compute_reuse_key("/work", &strings(&[line]));
    assert_eq!(argv, "5d475094f5163d4d038a4264bb9a19025d082c5daa6181e8d59f6accad2359c9");
    assert_eq!(shell, "e7d36af2f002a8381a75f6a809af126abc3f8f0c3a0acffd9cdca4834738be15");
    assert_ne!(shell, argv);
    let spec = CommandSpec::new(strings(&[line]), String::from("/work")).expect("valid");
    assert_eq!(ReuseKey::from_command_spec(&spec).as_str(), argv);
}

#[test]
fn reuse_keys_are_hex_sha256_of_the_framed_command() {
    let key = compute_reuse_key("/one", &strings(&["touch", "target-file"]));
    assert_eq!(key, "ef3baec086391ae667dda336d3a7d13c92edc8142db8699be6e6af12df8f0b4f");
    let shell = CommandSpec::shell(String::from("echo 123 > out"), String::from("/work")).expect("valid");
    assert_eq!(
        ReuseKey::from_command_spec(&shell).as_str(),
        "e7d36af2f002a8381a75f6a809af126abc3f8f0c3a0acffd9cdca4834738be15"
    );
    let joined = compute_reuse_key("/w", &strings(&["a b"]));
    let split = compute_reuse_key("/w", &strings(&["a", "b"]));
    assert_ne!(joined, split);
    assert_eq!(hex_encode(&[0x00, 0x0f, 0xa5, 0xff]), "000fa5ff");
    assert_eq!(hex_nibble(11), 'b');
}

#[test]
fn pane_status_shows_a_live_shell() {
    assert!(pane_live("0\tbash"));
    assert!(pane_live("0\tsh\textra"));
    assert!(!pane_live("1\tbash"));
    assert!(!pane_live("0\t  "));
    assert!(!pane_live("0"));
    assert!(!pane_live(""));
    assert!(!pane_live("00\tbash"));
}

#[test]
fn launch_reports_a_missing_tmux() {
    let spec = CommandSpec::new(strings(&["ls"]), String::from("/work")).expect("valid");
    let run = drive(
        spec,
        RunOptions::default(),
        vec![Err(io::Error::new(io::ErrorKind::NotFound, "no tmux"))],
    );
    assert!(matches!(run.result, Err(IntmuxError::TmuxNotFound)));
    assert_eq!(run.calls.len(), 1);
}

#[test]
fn launch_reports_io_failures_with_their_context() {
    let spec = CommandSpec::new(strings(&["ls"]), String::from("/work")).expect("valid");
    let run = drive(
        spec,
        RunOptions::default(),
        vec![
            Ok(success("")),
            Err(io::Error::new(io::ErrorKind::PermissionDenied, "denied")),
        ],
    );
    match run.result {
        Err(IntmuxError::TmuxIo { context, source }) => {
            assert_eq!(context, "create tmux window");
            assert_eq!(source.kind(), io::ErrorKind::PermissionDenied);
        }
        other => panic!("unexpected result {other:?}"),
    }
}

#[test]
fn launch_rejects_unexpected_probe_status() {
    let spec = CommandSpec::new(strings(&["ls"]), String::from("/work")).expect("valid");
    let run = drive(spec, RunOptions::default(), vec![Ok(failure(2, " server exited \n"))]);
    let error = run.result.unwrap_err();
    assert_eq!(details(&error), ("probe tmux session", String::from("server exited")));
}

#[test]
fn launch_stops_when_a_checked_command_fails() {
    let spec = CommandSpec::new(strings(&["ls"]), String::from("/work")).expect("valid");
    let run = drive(
        spec,
        RunOptions::default(),
        vec![
            Ok(failure(1, "no session")),
            Ok(success("@1\t%2")),
            Ok(failure(1, "bad window")),
        ],
    );
    let error = run.result.unwrap_err();
    assert_eq!(details(&error), ("configure tmux window", String::from("bad window")));
    assert_eq!(run.calls.len(), 3);
}

#[test]
fn launch_rejects_bad_creation_output() {
    let spec = CommandSpec::new(strings(&["ls"]), String::from("/work")).expect("valid");
    let run = drive(spec, RunOptions::default(), vec![Ok(failure(1, "")), Ok(success("oops\n"))]);
    let error = run.result.unwrap_err();
    assert_eq!(details(&error), ("create tmux session", String::from("missing pane id")));
}

#[test]
fn launch_gives_up_after_twenty_polls() {
    let spec = CommandSpec::new(strings(&["ls"]), String::from("/work")).expect("valid");
    let mut outputs = vec![Ok(success("")), Ok(success("@1\t%2")), Ok(success(""))];
    for _ in 0..20 {
        outputs.push(Ok(success("1\t")));
    }
    let run = drive(spec, RunOptions::default(), outputs);
    let error = run.result.unwrap_err();
    assert_eq!(
        details(&error),
        ("wait for tmux shell", String::from("pane %2 did not become a live shell in time"))
    );
    let polls = run.calls.iter().filter(|call| call[0] == "display-message").count();
    assert_eq!(polls, 20);
}

#[test]
fn reuse_with_no_tagged_window_creates_one() {
    let spec = CommandSpec::new(strings(&["ls"]), String::from("/work")).expect("valid");
    let key = compute_reuse_key("/work", &strings(&["ls"]));
    let run = drive(
        spec,
        RunOptions::new().with_reuse_window(),
        vec![
            Ok(success("")),
            Ok(success("\n")),
            Ok(success("@3\t%5")),
            Ok(success("")),
            Ok(success("")),
            Ok(success("0\tbash")),
            Ok(success("")),
            Ok(success("")),
        ],
    );
    assert!(run.result.is_ok());
    assert_eq!(run.calls[2][0], "new-window");
    assert_eq!(run.calls[4], strings(&["set-window-option", "-t", "@3", "@intmux.reuse-key-sha256", &key]));
    assert_eq!(run.calls.len(), 8);
}

#[test]
fn reuse_clears_every_tag_in_index_order_when_creating() {
    let spec = CommandSpec::new(strings(&["ls"]), String::from("/work")).expect("valid");
    let run = drive(
        spec,
        RunOptions::new().with_reuse_window(),
        vec![
            Ok(success("")),
            Ok(success("@3\t3\t1\t%3\t0\tbash\r\n@1\t1\t1\t%1\t1\tbash\n@2\t2\t1\t%2\t0\tbash")),
            Ok(success("/usr/bin/bash")),
            Ok(success("")),
            Ok(success("")),
            Ok(success("")),
            Ok(success("@9\t%9")),
            Ok(success("")),
            Ok(success("")),
            Ok(success("0\tbash")),
            Ok(success("")),
            Ok(success("")),
        ],
    );
    assert!(run.result.is_ok());
    assert_eq!(run.calls[3][3], "@1");
    assert_eq!(run.calls[4][3], "@2");
    assert_eq!(run.calls[5][3], "@3");
    assert_eq!(run.calls[6][0], "new-window");
}

#[test]
fn reuse_reports_a_bad_listing_line() {
    let spec = CommandSpec::new(strings(&["ls"]), String::from("/work")).expect("valid");
    let run = drive(
        spec,
        RunOptions::new().with_reuse_window(),
        vec![Ok(success("")), Ok(success("@1\t1\t1\t%1\t0\tbash\ngarbage"))],
    );
    let error = run.result.unwrap_err();
    assert_eq!(details(&error), ("parse tmux identifiers", String::from("invalid window id: \"garbage\"")));
}

#[test]
fn reuse_reports_an_invalid_default_shell() {
    let spec = CommandSpec::new(strings(&["ls"]), String::from("/work")).expect("valid");
    let run = drive(
        spec,
        RunOptions::new().with_reuse_window(),
        vec![Ok(success("")), Ok(success("@1\t1\t1\t%1\t0\tbash")), Ok(success("/\n"))],
    );
    let error = run.result.unwrap_err();
    assert_eq!(
        details(&error),
        ("read tmux default shell", String::from("invalid default shell path: \"/\""))
    );
}

#[test]
fn reuse_resets_the_shell_with_a_quoted_directory() {
    let spec = CommandSpec::shell(String::from("make test"), String::from("/my work")).expect("valid");
    let run = drive(
        spec,
        RunOptions::new().with_reuse_window(),
        vec![
            Ok(success("")),
            Ok(success("@1\t1\t1\t%1\t0\tzsh")),
            Ok(success("/bin/zsh")),
            Ok(success("")),
            Ok(success("")),
            Ok(success("")),
            Ok(success("")),
            Ok(success("")),
            Ok(success("")),
            Ok(success("")),
        ],
    );
    assert!(run.result.is_ok());
    assert_eq!(run.calls[6], strings(&["send-keys", "-t", "%1", "-l", "cd -- '/my work'"]));
    assert_eq!(run.calls[8], strings(&["send-keys", "-t", "%1", "-l", "make test"]));
    assert_eq!(run.calls.len(), 10);
}


#[test]
fn sending_stops_when_typing_fails() {
    let spec = CommandSpec::new(strings(&["ls"]), String::from("/work")).expect("valid");
    let run = drive(
        spec,
        RunOptions::default(),
        vec![
            Ok(failure(1, "")),
            Ok(success("@1\t%2")),
            Ok(success("")),
            Ok(success("0\tbash")),
            Ok(failure(1, "pane gone")),
        ],
    );
    let error = run.result.unwrap_err();
    assert_eq!(details(&error), ("send command to tmux shell", String::from("pane gone")));
    assert_eq!(run.calls.len(), 5);
    assert_eq!(run.calls[4], strings(&["send-keys", "-t", "%2", "-l", "ls"]));
}

#[test]
fn clearing_stale_tags_stops_at_the_first_failure() {
    let spec = CommandSpec::new(strings(&["ls"]), String::from("/work")).expect("valid");
    let run = drive(
        spec,
        RunOptions::new().with_reuse_window(),
        vec![
            Ok(success("")),
            Ok(success("@2\t2\t1\t%2\t0\tbash\n@1\t1\t2\t%1\t0\tbash")),
            Ok(success("/bin/bash")),
            Ok(failure(1, "no window @1")),
        ],
    );
    let error = run.result.unwrap_err();
    assert_eq!(details(&error), ("clear tmux window option", String::from("no window @1")));
    assert_eq!(run.calls.len(), 4);
    assert_eq!(
        run.calls[3],
        strings(&["set-window-option", "-u", "-t", "@1", "@intmux.reuse-key-sha256"])
    );
}

#[test]
fn every_run_selects_the_socket_once() {
    let spec = CommandSpec::new(strings(&["ls"]), String::from("/work")).expect("valid");
    let options = RunOptions::with_socket_name(String::from("sock")).expect("valid");
    let run = drive(
        spec,
        options,
        vec![
            Ok(success("")),
            Ok(success("@1\t%2")),
            Ok(success("")),
            Ok(success("0\tbash")),
            Ok(success("")),
            Ok(success("")),
        ],
    );
    assert!(run.result.is_ok());
    assert_eq!(run.calls.len(), 6);
    for call in &run.calls {
        assert_eq!(call[0], "-L");
        assert_eq!(call[1], "sock");
        assert!(!call[2].starts_with('-'));
    }
}

#[test]
fn a_window_line_parses_back() {
    let line = format!("{}\t{}\t{}\t{}\t{}\t{}", "@4", 7, 1, "%9", 0, "zsh");
    let window = StickyWindow::parse(&line).expect("valid line");
    assert_eq!(window.window_id().as_str(), "@4");
    assert_eq!(window.window_index(), 7);
    assert!(window.is_reusable("zsh"));
    let target = window.into_target();
    assert_eq!(target.window_id().as_str(), "@4");
    assert_eq!(target.pane_id().as_str(), "%9");
    let dead = format!("{}\t{}\t{}\t{}\t{}\t{}", "@4", 7, 1, "%9", 1, "zsh");
    assert!(!StickyWindow::parse(&dead).expect("valid line").is_reusable("zsh"));
}
