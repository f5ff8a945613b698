# intmux

`intmux` launches commands into a tmux session without attaching to it or
stealing focus. This crate is the verified core of the tool, written in Verus;
the command-line program around it lives in `app/`.

## Layout

- `src/text.rs` — character-level helpers: trimming, splitting, lines, decimal text.
- `src/error.rs` — `ConfigError` and `IntmuxError`.
- `src/model.rs` — `RunOptions`, socket and session names, `CommandSpec`, window names.
- `src/quote.rs` — quoting arguments for the pane's shell; proofs that the
  shell reads the quoted command line back as the original arguments.
- `src/target.rs` — tmux window and pane identifiers and the creation output.
- `src/process.rs` — what one run of `tmux` produced.
- `src/reuse.rs` — the SHA-256 reuse key that tags a window.
- `src/sticky.rs` — parsing tagged windows and choosing the one to reuse.
- `src/launch.rs` — the launch protocol as a state machine: which `tmux`
  commands run, in which order, and what their results decide.
- `src/protocol.rs` — laws of the protocol over whole runs: the exact
  commands of a launch, polling, window reuse, and where failures stop it.
- `app/` — argument parsing (clap), the working directory, running `tmux`,
  and the error types with their messages.

The application drives a `Launch`: it runs each `Action::Run` with `tmux`,
hands the outcome to `Launch::advance`, sleeps for `Action::Sleep` before
`Launch::resume`, and stops at `Action::Finish`. Each action comes with a
launch that expects it, so the loop always meets the contracts of `advance`
and `resume`.
