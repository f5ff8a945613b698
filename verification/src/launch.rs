//! The launch protocol: which `tmux` commands run, in which order, and what
//! their results decide.
//!
//! A [`Launch`] is a state machine. The caller runs each [`Action::Run`] with
//! `tmux`, hands the outcome to [`Launch::advance`], waits out each
//! [`Action::Sleep`] before calling [`Launch::resume`], and stops at
//! [`Action::Finish`].

use vstd::prelude::*;

use crate::error::{ErrorView, IntmuxError};
use crate::model::{CommandSpec, CommandSpecView, RunOptions, RunOptionsView};
use crate::process::{OutputView, ProcessOutput};
use crate::quote::{shell_quote, shell_quoted};
use crate::reuse::{command_key_text, ReuseKey};
use crate::sticky::{
    default_shell_name, default_shell_result, resolution_for, resolve_reuse, sort_by_window_index,
    sorted_by_index, sticky_result, sticky_views, window_id_views, ResolutionView, ReuseResolution,
    StickyView, StickyWindow,
};
use crate::target::{create_target_result, parse_create_target, CreateTarget, TargetView, WindowId};
use crate::text::{
    chars_eq, chars_of, lines_chars, lines_of, split_on, string_from_chars, trim_chars, trimmed,
    views_of,
};

verus! {

// ---------------------------------------------------------------------------
// Values exchanged with the caller.

/// How one run of `tmux` ended.
pub enum RunOutcome {
    /// `tmux` ran; its exit status and output.
    Exited(ProcessOutput),
    /// `tmux` could not be started; `not_found` tells that the executable
    /// was missing.
    Failed { not_found: bool, source: std::io::Error },
}

/// The abstract value of a [`RunOutcome`].
pub enum OutcomeView {
    /// See [`RunOutcome::Exited`].
    Exited(OutputView),
    /// See [`RunOutcome::Failed`].
    Failed { not_found: bool, source: std::io::Error },
}

impl View for RunOutcome {
    type V = OutcomeView;

    open spec fn view(&self) -> OutcomeView {
        match self {
            RunOutcome::Exited(out) => OutcomeView::Exited(out@),
            RunOutcome::Failed { not_found, source } => OutcomeView::Failed {
                not_found: *not_found,
                source: *source,
            },
        }
    }
}

/// What the caller does next.
pub enum Action {
    /// Run `tmux` with these arguments and report the outcome to `advance`.
    Run(Vec<String>),
    /// Wait this many milliseconds, then call `resume`.
    Sleep(u64),
    /// The launch is over, with this result.
    Finish(Result<(), IntmuxError>),
}

/// The abstract value of an [`Action`].
pub enum ActionView {
    /// See [`Action::Run`].
    Run(Seq<Seq<char>>),
    /// See [`Action::Sleep`].
    Sleep(u64),
    /// See [`Action::Finish`].
    Finish(Result<(), ErrorView>),
}

/// The views of a vector of strings.
pub open spec fn strings_view(v: Seq<String>) -> Seq<Seq<char>> {
    v.map_values(|s: String| s@)
}

impl View for Action {
    type V = ActionView;

    open spec fn view(&self) -> ActionView {
        match self {
            Action::Run(args) => ActionView::Run(strings_view(args@)),
            Action::Sleep(ms) => ActionView::Sleep(*ms),
            Action::Finish(r) => ActionView::Finish(
                match r {
                    Ok(()) => Ok(()),
                    Err(e) => Err(e@),
                },
            ),
        }
    }
}

// ---------------------------------------------------------------------------
// The tmux commands.

/// One `tmux` command with the action that names it in errors.
pub struct TmuxCall {
    context: &'static str,
    args: Vec<String>,
}

/// The abstract value of a [`TmuxCall`].
pub struct CallView {
    /// The action that names the command in errors.
    pub context: Seq<char>,
    /// The arguments, without the socket selection.
    pub args: Seq<Seq<char>>,
}

impl View for TmuxCall {
    type V = CallView;

    closed spec fn view(&self) -> CallView {
        CallView { context: self.context@, args: strings_view(self.args@) }
    }
}

/// The full `tmux` argument list: `-L <socket>` first when a socket is set.
pub open spec fn tmux_args(options: RunOptionsView, args: Seq<Seq<char>>) -> Seq<Seq<char>> {
    match options.socket_name {
        Some(socket) => seq!["-L"@, socket] + args,
        None => args,
    }
}

/// The option that tags a window for reuse.
pub open spec fn reuse_option() -> Seq<char> {
    "@intmux.reuse-key-sha256"@
}

/// `has-session`: does the session exist?
pub open spec fn probe_call(session: Seq<char>) -> CallView {
    CallView { context: "probe tmux session"@, args: seq!["has-session"@, "-t"@, session] }
}

/// The `list-windows` filter that selects windows tagged with `key`.
pub open spec fn reuse_filter(key: Seq<char>) -> Seq<char> {
    "#{==:#{@intmux.reuse-key-sha256},"@ + key + "}"@
}

/// `list-windows`: the session's windows tagged with `key`.
pub open spec fn list_call(session: Seq<char>, key: Seq<char>) -> CallView {
    CallView {
        context: "list matching tmux windows"@,
        args: seq![
            "list-windows"@,
            "-t"@,
            session,
            "-f"@,
            reuse_filter(key),
            "-F"@,
            "#{window_id}\t#{window_index}\t#{window_panes}\t#{pane_id}\t#{pane_dead}\t#{pane_current_command}"@,
        ],
    }
}

/// `show-options`: the default shell's path.
pub open spec fn default_shell_call() -> CallView {
    CallView {
        context: "read tmux default shell"@,
        args: seq!["show-options"@, "-v"@, "-g"@, "default-shell"@],
    }
}

/// Clear a window's reuse tag.
pub open spec fn unset_call(window_id: Seq<char>) -> CallView {
    CallView {
        context: "clear tmux window option"@,
        args: seq!["set-window-option"@, "-u"@, "-t"@, window_id, reuse_option()],
    }
}

/// Set a window option.
pub open spec fn set_call(window_id: Seq<char>, option: Seq<char>, value: Seq<char>) -> CallView {
    CallView {
        context: "configure tmux window"@,
        args: seq!["set-window-option"@, "-t"@, window_id, option, value],
    }
}

/// Send a key to a pane.
pub open spec fn key_call(pane_id: Seq<char>, key: Seq<char>, context: Seq<char>) -> CallView {
    CallView { context, args: seq!["send-keys"@, "-t"@, pane_id, key] }
}

/// Type text into a pane, literally.
pub open spec fn literal_call(pane_id: Seq<char>, text: Seq<char>, context: Seq<char>) -> CallView {
    CallView { context, args: seq!["send-keys"@, "-t"@, pane_id, "-l"@, text] }
}

/// Create a detached window (in the existing session) or a new session,
/// printing the new window and pane.
pub open spec fn create_call(
    session_exists: bool,
    session: Seq<char>,
    spec: CommandSpecView,
) -> CallView {
    if session_exists {
        CallView {
            context: "create tmux window"@,
            args: seq![
                "new-window"@,
                "-d"@,
                "-P"@,
                "-F"@,
                "#{window_id}\t#{pane_id}"@,
                "-t"@,
                session,
                "-n"@,
                spec.window_name,
                "-c"@,
                spec.cwd,
            ],
        }
    } else {
        CallView {
            context: "create tmux session"@,
            args: seq![
                "new-session"@,
                "-d"@,
                "-P"@,
                "-F"@,
                "#{window_id}\t#{pane_id}"@,
                "-s"@,
                session,
                "-n"@,
                spec.window_name,
                "-c"@,
                spec.cwd,
            ],
        }
    }
}

/// Ask whether a pane is alive and what it runs.
pub open spec fn poll_call(pane_id: Seq<char>) -> CallView {
    CallView {
        context: "wait for tmux shell"@,
        args: seq![
            "display-message"@,
            "-p"@,
            "-t"@,
            pane_id,
            "#{pane_dead}\t#{pane_current_command}"@,
        ],
    }
}

/// Type the command line into a pane and press Enter.
pub open spec fn send_calls(pane_id: Seq<char>, spec: CommandSpecView) -> Seq<CallView> {
    seq![
        literal_call(pane_id, spec.payload.command_line(), "send command to tmux shell"@),
        key_call(pane_id, "C-m"@, "execute command in tmux shell"@),
    ]
}

/// The calls end by typing the command line into a pane and pressing Enter.
pub open spec fn ends_by_typing(calls: Seq<CallView>, spec: CommandSpecView) -> bool {
    &&& calls.len() >= 2
    &&& calls.last().args.len() >= 3
    &&& calls.subrange(calls.len() - 2, calls.len() as int) == send_calls(calls.last().args[2], spec)
}

/// Clear the tag of each window.
pub open spec fn unset_calls(window_ids: Seq<Seq<char>>) -> Seq<CallView> {
    window_ids.map_values(|w: Seq<char>| unset_call(w))
}

/// Prepare a reused window: no automatic renaming, the reuse tag, and a
/// reset shell (interrupt, then change to the working directory).
pub open spec fn reset_calls(target: TargetView, key: Seq<char>, spec: CommandSpecView) -> Seq<
    CallView,
> {
    seq![
        set_call(target.window_id, "automatic-rename"@, "off"@),
        set_call(target.window_id, reuse_option(), key),
        key_call(target.pane_id, "C-c"@, "reset tmux shell"@),
        literal_call(
            target.pane_id,
            "cd -- "@ + shell_quoted(spec.cwd),
            "send tmux shell cd command"@,
        ),
        key_call(target.pane_id, "C-m"@, "execute tmux shell cd command"@),
    ]
}

/// Reuse a window: clear the stale tags, prepare the window and type the
/// command.
pub open spec fn reuse_calls(
    target: TargetView,
    stale: Seq<Seq<char>>,
    key: Seq<char>,
    spec: CommandSpecView,
) -> Seq<CallView> {
    unset_calls(stale) + reset_calls(target, key, spec) + send_calls(target.pane_id, spec)
}

/// Configure a new window: no automatic renaming, and the reuse tag when
/// there is a key.
pub open spec fn configure_calls(window_id: Seq<char>, key: Option<Seq<char>>) -> Seq<CallView> {
    seq![set_call(window_id, "automatic-rename"@, "off"@)] + match key {
        Some(k) => seq![set_call(window_id, reuse_option(), k)],
        None => Seq::empty(),
    }
}

/// The call's first argument names a `tmux` command: it is not an option.
pub open spec fn names_a_command(c: CallView) -> bool {
    c.args.len() > 0 && c.args[0].len() > 0 && c.args[0][0] != '-'
}

/// Every call names a `tmux` command first.
pub open spec fn all_name_commands(calls: Seq<CallView>) -> bool {
    forall|i: int| 0 <= i < calls.len() ==> names_a_command(#[trigger] calls[i])
}

/// Every call of the protocol names its `tmux` command first.
pub proof fn calls_name_their_command(
    session: Seq<char>,
    key: Seq<char>,
    spec: CommandSpecView,
    target: TargetView,
    stale: Seq<Seq<char>>,
    window_id: Seq<char>,
    reuse_key: Option<Seq<char>>,
)
    ensures
        names_a_command(probe_call(session)),
        names_a_command(list_call(session, key)),
        names_a_command(default_shell_call()),
        names_a_command(create_call(true, session, spec)),
        names_a_command(create_call(false, session, spec)),
        names_a_command(poll_call(target.pane_id)),
        all_name_commands(unset_calls(stale)),
        all_name_commands(reuse_calls(target, stale, key, spec)),
        all_name_commands(configure_calls(window_id, reuse_key)),
        all_name_commands(send_calls(target.pane_id, spec)),
{
    reveal_strlit("has-session");
    reveal_strlit("list-windows");
    reveal_strlit("show-options");
    reveal_strlit("new-window");
    reveal_strlit("new-session");
    reveal_strlit("display-message");
    reveal_strlit("set-window-option");
    reveal_strlit("send-keys");
    assert(forall|w: Seq<char>, o: Seq<char>, v: Seq<char>| names_a_command(
        #[trigger] set_call(w, o, v),
    ));
    assert(forall|w: Seq<char>| names_a_command(#[trigger] unset_call(w)));
    assert(forall|p: Seq<char>, k: Seq<char>, c: Seq<char>| names_a_command(
        #[trigger] key_call(p, k, c),
    ));
    assert(forall|p: Seq<char>, t: Seq<char>, c: Seq<char>| names_a_command(
        #[trigger] literal_call(p, t, c),
    ));
    let u = unset_calls(stale);
    assert forall|i: int| 0 <= i < u.len() implies names_a_command(#[trigger] u[i]) by {
        assert(u[i] == unset_call(stale[i]));
    }
    let r = reset_calls(target, key, spec);
    let send = send_calls(target.pane_id, spec);
    let all = reuse_calls(target, stale, key, spec);
    assert forall|i: int| 0 <= i < all.len() implies names_a_command(#[trigger] all[i]) by {
        if i < u.len() {
            assert(all[i] == u[i]);
        } else if i < u.len() + r.len() {
            assert(all[i] == r[i - u.len()]);
        } else {
            assert(all[i] == send[i - u.len() - r.len()]);
        }
    }
    let c = configure_calls(window_id, reuse_key);
    assert forall|i: int| 0 <= i < c.len() implies names_a_command(#[trigger] c[i]) by {
        if i == 0 {
            assert(c[0] == set_call(window_id, "automatic-rename"@, "off"@));
        } else {
            assert(c[1] == set_call(window_id, reuse_option(), reuse_key->Some_0));
        }
    }
    assert forall|i: int| 0 <= i < send.len() implies names_a_command(#[trigger] send[i]) by {}
}

// ---------------------------------------------------------------------------
// Reading results.

/// The index of the first `c` in `s`, or its length when there is none.
pub open spec fn first_index_of(s: Seq<char>, c: char) -> int
    decreases s.len(),
{
    if s.len() == 0 {
        0
    } else if s[0] == c {
        0
    } else {
        1 + first_index_of(s.drop_first(), c)
    }
}

/// Whether a `#{pane_dead}\t#{pane_current_command}` status shows a live
/// shell: the text before the first tab is `0` and the rest is not blank.
pub open spec fn pane_is_live(status: Seq<char>) -> bool {
    let k = first_index_of(status, '\t');
    let command = if k < status.len() {
        status.skip(k + 1)
    } else {
        Seq::<char>::empty()
    };
    status.take(k) == "0"@ && trimmed(command).len() > 0
}

/// The windows of a listing, in order, or the error of its first bad line.
pub open spec fn parse_lines(lines: Seq<Seq<char>>) -> Result<Seq<StickyView>, ErrorView>
    decreases lines.len(),
{
    if lines.len() == 0 {
        Ok(Seq::empty())
    } else {
        match parse_lines(lines.drop_last()) {
            Err(e) => Err(e),
            Ok(ws) => match sticky_result(lines.last()) {
                Err(e) => Err(e),
                Ok(w) => Ok(ws.push(w)),
            },
        }
    }
}

/// The error of a run that exited with a failure status.
pub open spec fn command_error(context: Seq<char>, out: OutputView) -> ErrorView {
    ErrorView::TmuxCommand { context, details: out.failure_details() }
}

/// The delay between pane polls, in milliseconds.
pub open spec fn poll_delay() -> u64 {
    25
}

/// How many times a new pane is polled before the launch gives up.
pub open spec fn max_polls() -> nat {
    20
}

// ---------------------------------------------------------------------------
// The protocol.

/// What a launch does after the call it is waiting for.
pub enum Then {
    /// Finish successfully.
    Finish,
    /// Create a window (or the session).
    Create { session_exists: bool },
    /// Wait for the pane's shell, then type the command.
    WaitForPane { pane_id: String },
}

/// The abstract value of a [`Then`].
pub enum ThenView {
    /// See [`Then::Finish`].
    Finish,
    /// See [`Then::Create`].
    Create { session_exists: bool },
    /// See [`Then::WaitForPane`].
    WaitForPane { pane_id: Seq<char> },
}

impl View for Then {
    type V = ThenView;

    open spec fn view(&self) -> ThenView {
        match self {
            Then::Finish => ThenView::Finish,
            Then::Create { session_exists } => ThenView::Create { session_exists: *session_exists },
            Then::WaitForPane { pane_id } => ThenView::WaitForPane { pane_id: pane_id@ },
        }
    }
}

/// Where a launch stands.
pub enum Phase {
    /// `has-session` is running.
    Probe,
    /// The tagged windows are being listed.
    ListMatches,
    /// The default shell is being read; the tagged windows, sorted by index.
    DefaultShell(Vec<StickyWindow>),
    /// `calls[next]` is running; `then` follows the last call.
    Steps { calls: Vec<TmuxCall>, next: usize, then: Then },
    /// A window or the session is being created.
    Create { session_exists: bool },
    /// Poll number `attempt` (from zero) of the pane is running.
    Poll { pane_id: String, attempt: usize },
    /// Pausing after poll number `attempt`, which found the pane `live` or not.
    Pause { pane_id: String, attempt: usize, live: bool },
    /// The launch is over.
    Done,
}

/// The abstract value of a [`Phase`].
pub enum PhaseView {
    /// See [`Phase::Probe`].
    Probe,
    /// See [`Phase::ListMatches`].
    ListMatches,
    /// See [`Phase::DefaultShell`].
    DefaultShell(Seq<StickyView>),
    /// See [`Phase::Steps`].
    Steps { calls: Seq<CallView>, next: nat, then: ThenView },
    /// See [`Phase::Create`].
    Create { session_exists: bool },
    /// See [`Phase::Poll`].
    Poll { pane_id: Seq<char>, attempt: nat },
    /// See [`Phase::Pause`].
    Pause { pane_id: Seq<char>, attempt: nat, live: bool },
    /// See [`Phase::Done`].
    Done,
}

/// Whether `action` is the one that leads into `phase`: a run into a phase
/// that waits for a run, a sleep into a pause, a finish into the end.
pub open spec fn phase_fits(phase: PhaseView, action: ActionView) -> bool {
    match action {
        ActionView::Run(_) => !(phase is Pause) && !(phase is Done),
        ActionView::Sleep(_) => phase is Pause,
        ActionView::Finish(_) => phase is Done,
    }
}

/// The views of a vector of calls.
pub open spec fn calls_view(v: Seq<TmuxCall>) -> Seq<CallView> {
    v.map_values(|c: TmuxCall| c@)
}

impl View for Phase {
    type V = PhaseView;

    open spec fn view(&self) -> PhaseView {
        match self {
            Phase::Probe => PhaseView::Probe,
            Phase::ListMatches => PhaseView::ListMatches,
            Phase::DefaultShell(ws) => PhaseView::DefaultShell(sticky_views(ws@)),
            Phase::Steps { calls, next, then } => PhaseView::Steps {
                calls: calls_view(calls@),
                next: *next as nat,
                then: then@,
            },
            Phase::Create { session_exists } => PhaseView::Create {
                session_exists: *session_exists,
            },
            Phase::Poll { pane_id, attempt } => PhaseView::Poll {
                pane_id: pane_id@,
                attempt: *attempt as nat,
            },
            Phase::Pause { pane_id, attempt, live } => PhaseView::Pause {
                pane_id: pane_id@,
                attempt: *attempt as nat,
                live: *live,
            },
            Phase::Done => PhaseView::Done,
        }
    }
}

/// One launch of a command into tmux.
pub struct Launch {
    spec: CommandSpec,
    options: RunOptions,
    reuse_key: Option<ReuseKey>,
    phase: Phase,
}

/// The abstract value of a [`Launch`].
pub struct LaunchView {
    /// The command.
    pub spec: CommandSpecView,
    /// The options.
    pub options: RunOptionsView,
    /// The reuse key, when window reuse is on.
    pub reuse_key: Option<Seq<char>>,
    /// Where the launch stands.
    pub phase: PhaseView,
}

impl View for Launch {
    type V = LaunchView;

    closed spec fn view(&self) -> LaunchView {
        LaunchView {
            spec: self.spec@,
            options: self.options@,
            reuse_key: match self.reuse_key {
                Some(k) => Some(k@),
                None => None,
            },
            phase: self.phase@,
        }
    }
}

impl LaunchView {
    /// The action that runs `call`.
    pub open spec fn run(self, call: CallView) -> ActionView {
        ActionView::Run(tmux_args(self.options, call.args))
    }

    /// Stop with an error.
    pub open spec fn fail(self, e: ErrorView) -> (PhaseView, ActionView) {
        (PhaseView::Done, ActionView::Finish(Err(e)))
    }

    /// Go on with `then`.
    pub open spec fn continue_with(self, then: ThenView) -> (PhaseView, ActionView) {
        match then {
            ThenView::Finish => (PhaseView::Done, ActionView::Finish(Ok(()))),
            ThenView::Create { session_exists } => (
                PhaseView::Create { session_exists },
                self.run(create_call(session_exists, self.options.session_name, self.spec)),
            ),
            ThenView::WaitForPane { pane_id } => (
                PhaseView::Poll { pane_id, attempt: 0 },
                self.run(poll_call(pane_id)),
            ),
        }
    }

    /// Run `calls` one after another, then go on with `then`.
    pub open spec fn enter_steps(self, calls: Seq<CallView>, then: ThenView) -> (
        PhaseView,
        ActionView,
    ) {
        if calls.len() > 0 {
            (PhaseView::Steps { calls, next: 0, then }, self.run(calls[0]))
        } else {
            self.continue_with(then)
        }
    }

    /// The launch's state is consistent: the tagged windows being resolved
    /// are not empty and come with a reuse key, the running step exists, the
    /// steps that end a launch end by typing the command, every step names a
    /// `tmux` command, and the poll count is within its limit.
    pub open spec fn wf(self) -> bool {
        match self.phase {
            PhaseView::ListMatches => self.reuse_key is Some,
            PhaseView::DefaultShell(windows) => windows.len() > 0 && self.reuse_key is Some,
            PhaseView::Steps { calls, next, then } => {
                &&& next < calls.len()
                &&& then is Finish ==> ends_by_typing(calls, self.spec)
                &&& all_name_commands(calls)
            },
            PhaseView::Poll { attempt, .. } => attempt < max_polls(),
            PhaseView::Pause { attempt, .. } => attempt < max_polls(),
            _ => true,
        }
    }

    /// Whether the launch waits for a `tmux` run.
    pub open spec fn awaits_run(self) -> bool {
        match self.phase {
            PhaseView::Pause { .. } | PhaseView::Done => false,
            _ => true,
        }
    }

    /// The action is one that this launch expects next: after a run it
    /// awaits that run's outcome, after a sleep it awaits the end of the
    /// pause, and after a finish it is over.
    pub open spec fn expects(self, action: ActionView) -> bool {
        phase_fits(self.phase, action)
    }

    /// The command, the options and the reuse key are those of `other`.
    pub open spec fn same_command(self, other: LaunchView) -> bool {
        self.spec == other.spec && self.options == other.options && self.reuse_key
            == other.reuse_key
    }

    /// Whether the launch waits out a pause.
    pub open spec fn awaits_pause(self) -> bool {
        self.phase is Pause
    }

    /// The action that names the running call in errors.
    pub open spec fn running_context(self) -> Seq<char> {
        match self.phase {
            PhaseView::Probe => "probe tmux session"@,
            PhaseView::ListMatches => "list matching tmux windows"@,
            PhaseView::DefaultShell(_) => "read tmux default shell"@,
            PhaseView::Steps { calls, next, then } => calls[next as int].context,
            PhaseView::Create { session_exists } => create_call(
                session_exists,
                self.options.session_name,
                self.spec,
            ).context,
            PhaseView::Poll { .. } => "wait for tmux shell"@,
            _ => Seq::empty(),
        }
    }

    /// The next phase and action after the running call ended with `outcome`.
    pub open spec fn after_run(self, outcome: OutcomeView) -> (PhaseView, ActionView) {
        match outcome {
            OutcomeView::Failed { not_found, source } => if not_found {
                self.fail(ErrorView::TmuxNotFound)
            } else {
                self.fail(ErrorView::TmuxIo { context: self.running_context(), source })
            },
            OutcomeView::Exited(out) => match self.phase {
                PhaseView::Probe => self.after_probe(out),
                _ => if !out.succeeded() {
                    self.fail(command_error(self.running_context(), out))
                } else {
                    self.after_success(out)
                },
            },
        }
    }

    /// After `has-session`: 0 means the session exists, 1 that it does not.
    pub open spec fn after_probe(self, out: OutputView) -> (PhaseView, ActionView) {
        if out.status_code == Some(0i32) {
            match self.reuse_key {
                Some(key) => (
                    PhaseView::ListMatches,
                    self.run(list_call(self.options.session_name, key)),
                ),
                None => self.continue_with(ThenView::Create { session_exists: true }),
            }
        } else if out.status_code == Some(1i32) {
            self.continue_with(ThenView::Create { session_exists: false })
        } else {
            self.fail(command_error("probe tmux session"@, out))
        }
    }

    /// After a successful run of any call but `has-session`.
    pub open spec fn after_success(self, out: OutputView) -> (PhaseView, ActionView) {
        match self.phase {
            PhaseView::ListMatches => {
                let listing = out.trimmed_stdout();
                if listing.len() == 0 {
                    self.continue_with(ThenView::Create { session_exists: true })
                } else {
                    match parse_lines(lines_of(listing)) {
                        Err(e) => self.fail(e),
                        Ok(windows) => (
                            PhaseView::DefaultShell(sorted_by_index(windows)),
                            self.run(default_shell_call()),
                        ),
                    }
                }
            },
            PhaseView::DefaultShell(sorted) => match default_shell_result(out.trimmed_stdout()) {
                Err(e) => self.fail(e),
                Ok(shell) => match resolution_for(sorted, shell) {
                    ResolutionView::Reuse(target, stale) => self.enter_steps(
                        reuse_calls(target, stale, self.reuse_key->Some_0, self.spec),
                        ThenView::Finish,
                    ),
                    ResolutionView::Create(stale) => self.enter_steps(
                        unset_calls(stale),
                        ThenView::Create { session_exists: true },
                    ),
                },
            },
            PhaseView::Steps { calls, next, then } => if next + 1 < calls.len() {
                (PhaseView::Steps { calls, next: next + 1, then }, self.run(calls[next + 1int]))
            } else {
                self.continue_with(then)
            },
            PhaseView::Create { session_exists } => match create_target_result(
                out.trimmed_stdout(),
                create_call(session_exists, self.options.session_name, self.spec).context,
            ) {
                Err(e) => self.fail(e),
                Ok(target) => self.enter_steps(
                    configure_calls(target.window_id, self.reuse_key),
                    ThenView::WaitForPane { pane_id: target.pane_id },
                ),
            },
            PhaseView::Poll { pane_id, attempt } => (
                PhaseView::Pause { pane_id, attempt, live: pane_is_live(out.trimmed_stdout()) },
                ActionView::Sleep(poll_delay()),
            ),
            // `has-session` is handled by `after_probe`; no other phase runs a call.
            _ => (self.phase, ActionView::Finish(Ok(()))),
        }
    }

    /// After the pause that follows a poll: type the command into a live
    /// pane, poll again, or give up after the last poll.
    pub open spec fn after_pause(self) -> (PhaseView, ActionView) {
        match self.phase {
            PhaseView::Pause { pane_id, attempt, live } => if live {
                self.enter_steps(send_calls(pane_id, self.spec), ThenView::Finish)
            } else if attempt + 1 < max_polls() {
                (PhaseView::Poll { pane_id, attempt: attempt + 1 }, self.run(poll_call(pane_id)))
            } else {
                self.fail(
                    ErrorView::UnexpectedTmuxOutput {
                        context: "wait for tmux shell"@,
                        details: "pane "@ + pane_id + " did not become a live shell in time"@,
                    },
                )
            },
            // Only a pause is resumed.
            _ => (self.phase, ActionView::Finish(Ok(()))),
        }
    }
}

// ---------------------------------------------------------------------------
// Building the calls.

fn push_word(v: &mut Vec<String>, w: &str)
    ensures
        strings_view(final(v)@) == strings_view(old(v)@).push(w@),
{
    v.push(String::from_str(w));
    assert(strings_view(v@) =~= strings_view(old(v)@).push(w@));
}

fn push_string(v: &mut Vec<String>, w: String)
    ensures
        strings_view(final(v)@) == strings_view(old(v)@).push(w@),
{
    v.push(w);
    assert(strings_view(v@) =~= strings_view(old(v)@).push(w@));
}

fn push_call(v: &mut Vec<TmuxCall>, c: TmuxCall)
    ensures
        calls_view(final(v)@) == calls_view(old(v)@).push(c@),
{
    v.push(c);
    assert(calls_view(v@) =~= calls_view(old(v)@).push(c@));
}

fn probe_call_exec(session: &str) -> (c: TmuxCall)
    ensures
        c@ == probe_call(session@),
{
    let mut args: Vec<String> = Vec::new();
    push_word(&mut args, "has-session");
    push_word(&mut args, "-t");
    push_word(&mut args, session);
    assert(strings_view(args@) =~= seq!["has-session"@, "-t"@, session@]);
    TmuxCall { context: "probe tmux session", args }
}

fn list_call_exec(session: &str, key: &str) -> (c: TmuxCall)
    ensures
        c@ == list_call(session@, key@),
{
    let mut filter = String::from_str("#{==:#{@intmux.reuse-key-sha256},");
    filter.append(key);
    filter.append("}");
    let mut args: Vec<String> = Vec::new();
    push_word(&mut args, "list-windows");
    push_word(&mut args, "-t");
    push_word(&mut args, session);
    push_word(&mut args, "-f");
    push_string(&mut args, filter);
    push_word(&mut args, "-F");
    push_word(
        &mut args,
        "#{window_id}\t#{window_index}\t#{window_panes}\t#{pane_id}\t#{pane_dead}\t#{pane_current_command}",
    );
    assert(strings_view(args@) =~= list_call(session@, key@).args);
    TmuxCall { context: "list matching tmux windows", args }
}

fn default_shell_call_exec() -> (c: TmuxCall)
    ensures
        c@ == default_shell_call(),
{
    let mut args: Vec<String> = Vec::new();
    push_word(&mut args, "show-options");
    push_word(&mut args, "-v");
    push_word(&mut args, "-g");
    push_word(&mut args, "default-shell");
    assert(strings_view(args@) =~= default_shell_call().args);
    TmuxCall { context: "read tmux default shell", args }
}

fn unset_call_exec(window_id: &str) -> (c: TmuxCall)
    ensures
        c@ == unset_call(window_id@),
{
    let mut args: Vec<String> = Vec::new();
    push_word(&mut args, "set-window-option");
    push_word(&mut args, "-u");
    push_word(&mut args, "-t");
    push_word(&mut args, window_id);
    push_word(&mut args, "@intmux.reuse-key-sha256");
    assert(strings_view(args@) =~= unset_call(window_id@).args);
    TmuxCall { context: "clear tmux window option", args }
}

fn set_call_exec(window_id: &str, option: &str, value: &str) -> (c: TmuxCall)
    ensures
        c@ == set_call(window_id@, option@, value@),
{
    let mut args: Vec<String> = Vec::new();
    push_word(&mut args, "set-window-option");
    push_word(&mut args, "-t");
    push_word(&mut args, window_id);
    push_word(&mut args, option);
    push_word(&mut args, value);
    assert(strings_view(args@) =~= set_call(window_id@, option@, value@).args);
    TmuxCall { context: "configure tmux window", args }
}

fn key_call_exec(pane_id: &str, key: &str, context: &'static str) -> (c: TmuxCall)
    ensures
        c@ == key_call(pane_id@, key@, context@),
{
    let mut args: Vec<String> = Vec::new();
    push_word(&mut args, "send-keys");
    push_word(&mut args, "-t");
    push_word(&mut args, pane_id);
    push_word(&mut args, key);
    assert(strings_view(args@) =~= key_call(pane_id@, key@, context@).args);
    TmuxCall { context, args }
}

fn literal_call_exec(pane_id: &str, text: &str, context: &'static str) -> (c: TmuxCall)
    ensures
        c@ == literal_call(pane_id@, text@, context@),
{
    let mut args: Vec<String> = Vec::new();
    push_word(&mut args, "send-keys");
    push_word(&mut args, "-t");
    push_word(&mut args, pane_id);
    push_word(&mut args, "-l");
    push_word(&mut args, text);
    assert(strings_view(args@) =~= literal_call(pane_id@, text@, context@).args);
    TmuxCall { context, args }
}

fn create_call_exec(session_exists: bool, session: &str, spec: &CommandSpec) -> (c: TmuxCall)
    ensures
        c@ == create_call(session_exists, session@, spec@),
{
    let mut args: Vec<String> = Vec::new();
    push_word(&mut args, if session_exists { "new-window" } else { "new-session" });
    push_word(&mut args, "-d");
    push_word(&mut args, "-P");
    push_word(&mut args, "-F");
    push_word(&mut args, "#{window_id}\t#{pane_id}");
    push_word(&mut args, if session_exists { "-t" } else { "-s" });
    push_word(&mut args, session);
    push_word(&mut args, "-n");
    push_word(&mut args, spec.window_name());
    push_word(&mut args, "-c");
    push_word(&mut args, spec.cwd());
    assert(strings_view(args@) =~= create_call(session_exists, session@, spec@).args);
    if session_exists {
        TmuxCall { context: "create tmux window", args }
    } else {
        TmuxCall { context: "create tmux session", args }
    }
}

fn poll_call_exec(pane_id: &str) -> (c: TmuxCall)
    ensures
        c@ == poll_call(pane_id@),
{
    let mut args: Vec<String> = Vec::new();
    push_word(&mut args, "display-message");
    push_word(&mut args, "-p");
    push_word(&mut args, "-t");
    push_word(&mut args, pane_id);
    push_word(&mut args, "#{pane_dead}\t#{pane_current_command}");
    assert(strings_view(args@) =~= poll_call(pane_id@).args);
    TmuxCall { context: "wait for tmux shell", args }
}

fn push_send_calls(calls: &mut Vec<TmuxCall>, pane_id: &str, spec: &CommandSpec)
    ensures
        calls_view(final(calls)@) == calls_view(old(calls)@) + send_calls(pane_id@, spec@),
{
    let line = spec.command_line();
    push_call(calls, literal_call_exec(pane_id, line.as_str(), "send command to tmux shell"));
    push_call(calls, key_call_exec(pane_id, "C-m", "execute command in tmux shell"));
    assert(calls_view(calls@) =~= calls_view(old(calls)@) + send_calls(pane_id@, spec@));
}

fn unset_calls_exec(window_ids: &Vec<WindowId>) -> (r: Vec<TmuxCall>)
    ensures
        calls_view(r@) == unset_calls(window_id_views(window_ids@)),
{
    let ghost ids = window_id_views(window_ids@);
    let mut r: Vec<TmuxCall> = Vec::new();
    for i in 0..window_ids.len()
        invariant
            ids == window_id_views(window_ids@),
            calls_view(r@) == unset_calls(ids.take(i as int)),
    {
        push_call(&mut r, unset_call_exec(window_ids[i].as_str()));
        assert(ids.take(i + 1) =~= ids.take(i as int).push(window_ids@[i as int]@));
        assert(unset_calls(ids.take(i + 1)) =~= unset_calls(ids.take(i as int)).push(
            unset_call(window_ids@[i as int]@),
        ));
    }
    assert(ids.take(window_ids@.len() as int) =~= ids);
    r
}

fn reuse_calls_exec(
    target: &CreateTarget,
    stale: &Vec<WindowId>,
    key: &str,
    spec: &CommandSpec,
) -> (r: Vec<TmuxCall>)
    ensures
        calls_view(r@) == reuse_calls(target@, window_id_views(stale@), key@, spec@),
{
    let window = target.window_id().as_str();
    let pane = target.pane_id().as_str();
    let mut calls = unset_calls_exec(stale);
    let ghost base = calls_view(calls@);
    push_call(&mut calls, set_call_exec(window, "automatic-rename", "off"));
    push_call(&mut calls, set_call_exec(window, "@intmux.reuse-key-sha256", key));
    push_call(&mut calls, key_call_exec(pane, "C-c", "reset tmux shell"));
    let mut cd = String::from_str("cd -- ");
    let quoted = shell_quote(spec.cwd());
    cd.append(quoted.as_str());
    push_call(&mut calls, literal_call_exec(pane, cd.as_str(), "send tmux shell cd command"));
    push_call(&mut calls, key_call_exec(pane, "C-m", "execute tmux shell cd command"));
    let ghost middle = calls_view(calls@);
    push_send_calls(&mut calls, pane, spec);
    assert(middle =~= base + seq![
        set_call(target@.window_id, "automatic-rename"@, "off"@),
        set_call(target@.window_id, reuse_option(), key@),
        key_call(target@.pane_id, "C-c"@, "reset tmux shell"@),
        literal_call(
            target@.pane_id,
            "cd -- "@ + shell_quoted(spec@.cwd),
            "send tmux shell cd command"@,
        ),
        key_call(target@.pane_id, "C-m"@, "execute tmux shell cd command"@),
    ]);
    calls
}

fn configure_calls_exec(window_id: &str, key: &Option<ReuseKey>) -> (r: Vec<TmuxCall>)
    ensures
        calls_view(r@) == configure_calls(
            window_id@,
            match key {
                Some(k) => Some(k@),
                None => None,
            },
        ),
{
    let mut calls: Vec<TmuxCall> = Vec::new();
    push_call(&mut calls, set_call_exec(window_id, "automatic-rename", "off"));
    match key {
        Some(k) => {
            push_call(&mut calls, set_call_exec(window_id, "@intmux.reuse-key-sha256", k.as_str()));
        },
        None => {},
    }
    assert(calls_view(calls@) =~= configure_calls(
        window_id@,
        match key {
            Some(k) => Some(k@),
            None => None,
        },
    ));
    calls
}

// ---------------------------------------------------------------------------
// Reading results.

/// Whether a pane status line shows a live shell.
pub fn pane_live(status: &str) -> (r: bool)
    ensures
        r == pane_is_live(status@),
{
    let text = chars_of(status);
    let n = text.len();
    let mut k: usize = 0;
    assert(text@.skip(0) =~= text@);
    while k < n && text[k] != '\t'
        invariant
            n == text@.len(),
            k <= n,
            first_index_of(text@, '\t') == k + first_index_of(text@.skip(k as int), '\t'),
        decreases n - k,
    {
        assert(text@.skip(k as int).drop_first() =~= text@.skip(k + 1));
        k = k + 1;
    }
    if k < n {
        assert(text@.skip(k as int)[0] == '\t');
    } else {
        assert(text@.skip(k as int).len() == 0);
    }
    let dead = crate::text::sub_chars(&text, 0, k);
    let command = if k < n {
        crate::text::sub_chars(&text, k + 1, n)
    } else {
        Vec::new()
    };
    assert(text@.take(k as int) =~= dead@);
    assert(k < n ==> text@.skip(k + 1) =~= command@);
    let zero: [char; 1] = ['0'];
    proof {
        reveal_strlit("0");
    }
    assert(zero@ =~= "0"@);
    let is_zero = chars_eq(&dead, &zero);
    let blank = trim_chars(&command).len() == 0;
    is_zero && !blank
}

/// Parses every line of a tagged-window listing, stopping at the first bad one.
pub fn parse_listing(lines: &Vec<Vec<char>>) -> (r: Result<Vec<StickyWindow>, IntmuxError>)
    ensures
        match parse_lines(views_of(lines@)) {
            Ok(ws) => r is Ok && sticky_views(r->Ok_0@) == ws,
            Err(e) => r is Err && r->Err_0@ == e,
        },
{
    let ghost ls = views_of(lines@);
    let mut windows: Vec<StickyWindow> = Vec::new();
    assert(ls.take(0) =~= Seq::<Seq<char>>::empty());
    assert(sticky_views(windows@) =~= Seq::<StickyView>::empty());
    for i in 0..lines.len()
        invariant
            ls == views_of(lines@),
            parse_lines(ls.take(i as int)) == Ok::<Seq<StickyView>, ErrorView>(
                sticky_views(windows@),
            ),
    {
        let line = string_from_chars(&lines[i]);
        let ghost t = ls.take(i + 1);
        assert(t.drop_last() =~= ls.take(i as int));
        assert(t.last() == line@);
        match StickyWindow::parse(line.as_str()) {
            Ok(w) => {
                let ghost before = sticky_views(windows@);
                windows.push(w);
                assert(sticky_views(windows@) =~= before.push(w@));
            },
            Err(e) => {
                proof {
                    lemma_parse_lines_error(ls, i as int);
                }
                return Err(e);
            },
        }
    }
    assert(ls.take(lines@.len() as int) =~= ls);
    Ok(windows)
}

proof fn lemma_parse_lines_error(ls: Seq<Seq<char>>, i: int)
    requires
        0 <= i < ls.len(),
        parse_lines(ls.take(i)) is Ok,
        sticky_result(ls[i]) is Err,
    ensures
        parse_lines(ls) == Err::<Seq<StickyView>, ErrorView>(sticky_result(ls[i])->Err_0),
    decreases ls.len() - i,
{
    let t = ls.take(i + 1);
    assert(t.drop_last() =~= ls.take(i));
    assert(t.last() == ls[i]);
    if i + 1 == ls.len() {
        assert(t =~= ls);
    } else {
        lemma_parse_lines_error_extends(ls, i + 1, sticky_result(ls[i])->Err_0);
    }
}

proof fn lemma_parse_lines_error_extends(ls: Seq<Seq<char>>, n: int, e: ErrorView)
    requires
        0 <= n <= ls.len(),
        parse_lines(ls.take(n)) == Err::<Seq<StickyView>, ErrorView>(e),
    ensures
        parse_lines(ls) == Err::<Seq<StickyView>, ErrorView>(e),
    decreases ls.len() - n,
{
    if n == ls.len() {
        assert(ls.take(n) =~= ls);
    } else {
        let t = ls.take(n + 1);
        assert(t.drop_last() =~= ls.take(n));
        lemma_parse_lines_error_extends(ls, n + 1, e);
    }
}

// ---------------------------------------------------------------------------
// Lemmas on listings.

proof fn lemma_split_single(s: Seq<char>, sep: char)
    requires
        split_on(s, sep).len() == 1,
    ensures
        split_on(s, sep)[0] == s,
    decreases s.len(),
{
    if s.len() == 0 {
    } else {
        crate::text::lemma_split_on_nonempty(s.drop_last(), sep);
        let prev = split_on(s.drop_last(), sep);
        if s.last() == sep {
        } else {
            lemma_split_single(s.drop_last(), sep);
            assert(s.drop_last().push(s.last()) =~= s);
        }
    }
}

pub(crate) proof fn lemma_lines_nonempty(s: Seq<char>)
    requires
        s.len() > 0,
    ensures
        lines_of(s).len() > 0,
{
    crate::text::lemma_split_on_nonempty(s, '\n');
    let parts = split_on_lines(s);
    if parts.len() == 1 {
        lemma_split_single(s, '\n');
    }
}

spec fn split_on_lines(s: Seq<char>) -> Seq<Seq<char>> {
    crate::text::split_on(s, '\n')
}

pub(crate) proof fn lemma_parse_lines_len(lines: Seq<Seq<char>>)
    requires
        parse_lines(lines) is Ok,
    ensures
        parse_lines(lines)->Ok_0.len() == lines.len(),
    decreases lines.len(),
{
    if lines.len() > 0 {
        lemma_parse_lines_len(lines.drop_last());
    }
}

proof fn lemma_insert_len(sorted: Seq<StickyView>, w: StickyView)
    ensures
        crate::sticky::insert_by_index(sorted, w).len() == sorted.len() + 1,
    decreases sorted.len(),
{
    if sorted.len() > 0 {
        lemma_insert_len(sorted.drop_last(), w);
    }
}

proof fn lemma_sorted_len(s: Seq<StickyView>)
    ensures
        sorted_by_index(s).len() == s.len(),
    decreases s.len(),
{
    if s.len() > 0 {
        lemma_sorted_len(s.drop_last());
        lemma_insert_len(sorted_by_index(s.drop_last()), s.last());
    }
}

proof fn lemma_ends_by_typing(prefix: Seq<CallView>, pane_id: Seq<char>, spec: CommandSpecView)
    ensures
        ends_by_typing(prefix + send_calls(pane_id, spec), spec),
{
    let all = prefix + send_calls(pane_id, spec);
    assert(all.last() == key_call(pane_id, "C-m"@, "execute command in tmux shell"@));
    assert(all.subrange(all.len() - 2, all.len() as int) =~= send_calls(pane_id, spec));
}

proof fn lemma_continue_fits(l: LaunchView, then: ThenView)
    ensures
        phase_fits(l.continue_with(then).0, l.continue_with(then).1),
{
}

proof fn lemma_enter_fits(l: LaunchView, calls: Seq<CallView>, then: ThenView)
    ensures
        phase_fits(l.enter_steps(calls, then).0, l.enter_steps(calls, then).1),
{
    lemma_continue_fits(l, then);
}

pub(crate) proof fn lemma_after_run_fits(l: LaunchView, outcome: OutcomeView)
    requires
        l.awaits_run(),
    ensures
        phase_fits(l.after_run(outcome).0, l.after_run(outcome).1),
{
    lemma_continue_fits(l, ThenView::Create { session_exists: true });
    lemma_continue_fits(l, ThenView::Create { session_exists: false });
    match l.phase {
        PhaseView::DefaultShell(sorted) => {
            match outcome {
                OutcomeView::Exited(out) => match default_shell_result(out.trimmed_stdout()) {
                    Ok(shell) => match resolution_for(sorted, shell) {
                        ResolutionView::Reuse(target, stale) => lemma_enter_fits(
                            l,
                            reuse_calls(target, stale, l.reuse_key->Some_0, l.spec),
                            ThenView::Finish,
                        ),
                        ResolutionView::Create(stale) => lemma_enter_fits(
                            l,
                            unset_calls(stale),
                            ThenView::Create { session_exists: true },
                        ),
                    },
                    Err(_) => {},
                },
                _ => {},
            }
        },
        PhaseView::Steps { calls, next, then } => lemma_continue_fits(l, then),
        PhaseView::Create { session_exists } => {
            match outcome {
                OutcomeView::Exited(out) => match create_target_result(
                    out.trimmed_stdout(),
                    create_call(session_exists, l.options.session_name, l.spec).context,
                ) {
                    Ok(target) => lemma_enter_fits(
                        l,
                        configure_calls(target.window_id, l.reuse_key),
                        ThenView::WaitForPane { pane_id: target.pane_id },
                    ),
                    Err(_) => {},
                },
                _ => {},
            }
        },
        _ => {},
    }
}

pub(crate) proof fn lemma_after_pause_fits(l: LaunchView)
    requires
        l.awaits_pause(),
    ensures
        phase_fits(l.after_pause().0, l.after_pause().1),
{
    match l.phase {
        PhaseView::Pause { pane_id, attempt, live } => lemma_enter_fits(
            l,
            send_calls(pane_id, l.spec),
            ThenView::Finish,
        ),
        _ => {},
    }
}

// ---------------------------------------------------------------------------
// Running the protocol.

impl Launch {
    /// Starts a launch: the first action probes for the session.
    pub fn begin(spec: CommandSpec, options: RunOptions) -> (r: (Launch, Action))
        ensures
            r.0@.spec == spec@,
            r.0@.options == options@,
            r.0@.reuse_key == (if options@.reuse_window {
                Some(command_key_text(spec@.cwd, spec@.payload))
            } else {
                None
            }),
            r.0@.phase == PhaseView::Probe,
            r.0@.wf(),
            r.0@.expects(r.1@),
            r.1@ == r.0@.run(probe_call(options@.session_name)),
    {
        let reuse_key = if options.reuse_window() {
            Some(ReuseKey::from_command_spec(&spec))
        } else {
            None
        };
        let launch = Launch { spec, options, reuse_key, phase: Phase::Probe };
        let call = probe_call_exec(launch.options.session_name());
        let action = launch.run_action(&call);
        (launch, action)
    }

    /// Whether the launch is over.
    pub fn is_done(&self) -> (r: bool)
        ensures
            r == (self@.phase is Done),
    {
        match self.phase {
            Phase::Done => true,
            _ => false,
        }
    }

    fn run_action(&self, call: &TmuxCall) -> (a: Action)
        ensures
            a@ == self@.run(call@),
    {
        let mut args: Vec<String> = Vec::new();
        match self.options.socket_name() {
            Some(socket) => {
                push_word(&mut args, "-L");
                push_word(&mut args, socket);
            },
            None => {},
        }
        let ghost prefix = strings_view(args@);
        let mut i: usize = 0;
        while i < call.args.len()
            invariant
                i <= call.args@.len(),
                strings_view(args@) == prefix + strings_view(call.args@).take(i as int),
            decreases call.args.len() - i,
        {
            push_string(&mut args, call.args[i].clone());
            assert(strings_view(call.args@).take(i + 1) =~= strings_view(call.args@).take(
                i as int,
            ).push(call.args@[i as int]@));
            i = i + 1;
        }
        assert(strings_view(call.args@).take(call.args@.len() as int) =~= strings_view(
            call.args@,
        ));
        assert(strings_view(args@) =~= tmux_args(self@.options, call@.args));
        Action::Run(args)
    }

    fn fail(&mut self, e: IntmuxError) -> (a: Action)
        ensures
            final(self)@.same_command(old(self)@),
            (final(self)@.phase, a@) == old(self)@.fail(e@),
    {
        self.phase = Phase::Done;
        Action::Finish(Err(e))
    }

    fn continue_with(&mut self, then: Then) -> (a: Action)
        ensures
            final(self)@.same_command(old(self)@),
            final(self)@.wf(),
            (final(self)@.phase, a@) == old(self)@.continue_with(then@),
    {
        match then {
            Then::Finish => {
                self.phase = Phase::Done;
                Action::Finish(Ok(()))
            },
            Then::Create { session_exists } => {
                let call = create_call_exec(session_exists, self.options.session_name(), &self.spec);
                self.phase = Phase::Create { session_exists };
                self.run_action(&call)
            },
            Then::WaitForPane { pane_id } => {
                let call = poll_call_exec(pane_id.as_str());
                self.phase = Phase::Poll { pane_id, attempt: 0 };
                self.run_action(&call)
            },
        }
    }

    fn enter_steps(&mut self, calls: Vec<TmuxCall>, then: Then) -> (a: Action)
        requires
            then@ is Finish ==> ends_by_typing(calls_view(calls@), old(self)@.spec),
            all_name_commands(calls_view(calls@)),
        ensures
            final(self)@.same_command(old(self)@),
            final(self)@.wf(),
            (final(self)@.phase, a@) == old(self)@.enter_steps(calls_view(calls@), then@),
    {
        if calls.len() > 0 {
            let action = self.run_action(&calls[0]);
            assert(calls_view(calls@)[0] == calls@[0]@);
            self.phase = Phase::Steps { calls, next: 0, then };
            action
        } else {
            self.continue_with(then)
        }
    }

    fn running_context(&self) -> (r: &'static str)
        requires
            self@.wf(),
            self@.awaits_run(),
        ensures
            r@ == self@.running_context(),
    {
        match &self.phase {
            Phase::Probe => "probe tmux session",
            Phase::ListMatches => "list matching tmux windows",
            Phase::DefaultShell(_) => "read tmux default shell",
            Phase::Steps { calls, next, then } => {
                assert(calls_view(calls@)[*next as int] == calls@[*next as int]@);
                calls[*next].context
            },
            Phase::Create { session_exists } => {
                let call = create_call_exec(*session_exists, self.options.session_name(), &self.spec);
                call.context
            },
            Phase::Poll { .. } => "wait for tmux shell",
            _ => "",
        }
    }

    /// Hands over the outcome of the `tmux` run that the last action asked
    /// for, and returns what to do next.
    pub fn advance(&mut self, outcome: RunOutcome) -> (a: Action)
        requires
            old(self)@.wf(),
            old(self)@.awaits_run(),
        ensures
            final(self)@.same_command(old(self)@),
            final(self)@.wf(),
            final(self)@.expects(a@),
            (final(self)@.phase, a@) == old(self)@.after_run(outcome@),
    {
        proof {
            lemma_after_run_fits(self@, outcome@);
        }
        let context = self.running_context();
        let out = match outcome {
            RunOutcome::Failed { not_found, source } => {
                if not_found {
                    return self.fail(IntmuxError::TmuxNotFound);
                } else {
                    return self.fail(IntmuxError::TmuxIo { context, source });
                }
            },
            RunOutcome::Exited(out) => out,
        };
        let ghost start = self@;
        let mut phase = Phase::Done;
        std::mem::swap(&mut phase, &mut self.phase);
        assert(self@.same_command(start));
        match phase {
            Phase::Probe => {
                match out.status_code {
                    Some(0) => match &self.reuse_key {
                        Some(key) => {
                            let call = list_call_exec(self.options.session_name(), key.as_str());
                            self.phase = Phase::ListMatches;
                            self.run_action(&call)
                        },
                        None => self.continue_with(Then::Create { session_exists: true }),
                    },
                    Some(1) => self.continue_with(Then::Create { session_exists: false }),
                    _ => {
                        let details = out.failure_details();
                        self.fail(IntmuxError::TmuxCommand { context: "probe tmux session", details })
                    },
                }
            },
            _ => {
                if !out.is_success() {
                    let details = out.failure_details();
                    return self.fail(IntmuxError::TmuxCommand { context, details });
                }
                self.after_success(phase, out, Ghost(start))
            },
        }
    }

    fn after_success(&mut self, phase: Phase, out: ProcessOutput, Ghost(start): Ghost<LaunchView>) -> (a: Action)
        requires
            start.wf(),
            start.awaits_run(),
            !(start.phase is Probe),
            start.phase == phase@,
            old(self)@.same_command(start),
            out@.succeeded(),
        ensures
            final(self)@.same_command(start),
            final(self)@.wf(),
            (final(self)@.phase, a@) == start.after_success(out@),
    {
        match phase {
            Phase::ListMatches => {
                let listing = chars_of(out.trimmed_stdout().as_str());
                if listing.len() == 0 {
                    return self.continue_with(Then::Create { session_exists: true });
                }
                let lines = lines_chars(&listing);
                match parse_listing(&lines) {
                    Err(e) => self.fail(e),
                    Ok(windows) => {
                        proof {
                            lemma_lines_nonempty(listing@);
                            lemma_parse_lines_len(lines_of(listing@));
                            lemma_sorted_len(sticky_views(windows@));
                        }
                        let sorted = sort_by_window_index(windows);
                        let call = default_shell_call_exec();
                        let action = self.run_action(&call);
                        self.phase = Phase::DefaultShell(sorted);
                        action
                    },
                }
            },
            Phase::DefaultShell(sorted) => {
                let trimmed_out = out.trimmed_stdout();
                match default_shell_name(trimmed_out.as_str()) {
                    Err(e) => self.fail(e),
                    Ok(shell) => {
                        let key = match &self.reuse_key {
                            Some(k) => k.as_str(),
                            None => "",
                        };
                        match resolve_reuse(sorted, shell.as_str()) {
                            ReuseResolution::Reuse(target, stale) => {
                                let calls = reuse_calls_exec(&target, &stale, key, &self.spec);
                                proof {
                                    let t = target@;
                                    let k = key@;
                                    let sp = self@.spec;
                                    let prefix = unset_calls(window_id_views(stale@))
                                        + reset_calls(t, k, sp);
                                    assert(reuse_calls(t, window_id_views(stale@), k, sp) == prefix
                                        + send_calls(t.pane_id, sp));
                                    lemma_ends_by_typing(prefix, t.pane_id, sp);
                                    calls_name_their_command(
                                        self@.options.session_name,
                                        k,
                                        sp,
                                        t,
                                        window_id_views(stale@),
                                        t.window_id,
                                        None,
                                    );
                                }
                                self.enter_steps(calls, Then::Finish)
                            },
                            ReuseResolution::Create(stale) => {
                                let calls = unset_calls_exec(&stale);
                                proof {
                                    calls_name_their_command(
                                        self@.options.session_name,
                                        key@,
                                        self@.spec,
                                        TargetView { window_id: Seq::empty(), pane_id: Seq::empty() },
                                        window_id_views(stale@),
                                        Seq::empty(),
                                        None,
                                    );
                                }
                                self.enter_steps(calls, Then::Create { session_exists: true })
                            },
                        }
                    },
                }
            },
            Phase::Steps { calls, next, then } => {
                assert(calls_view(calls@).len() == calls@.len());
                assert(start.phase == (PhaseView::Steps { calls: calls_view(calls@), next: next as nat, then: then@ }));
                assert(next < calls.len());
                if next + 1 < calls.len() {
                    let action = self.run_action(&calls[next + 1]);
                    assert(calls_view(calls@)[next + 1] == calls@[next + 1]@);
                    self.phase = Phase::Steps { calls, next: next + 1, then };
                    action
                } else {
                    self.continue_with(then)
                }
            },
            Phase::Create { session_exists } => {
                let call = create_call_exec(session_exists, self.options.session_name(), &self.spec);
                let trimmed_out = out.trimmed_stdout();
                match parse_create_target(trimmed_out.as_str(), call.context) {
                    Err(e) => self.fail(e),
                    Ok(target) => {
                        let calls = configure_calls_exec(target.window_id().as_str(), &self.reuse_key);
                        proof {
                            calls_name_their_command(
                                self@.options.session_name,
                                Seq::empty(),
                                self@.spec,
                                target@,
                                Seq::empty(),
                                target@.window_id,
                                self@.reuse_key,
                            );
                        }
                        let pane_id = String::from_str(target.pane_id().as_str());
                        self.enter_steps(calls, Then::WaitForPane { pane_id })
                    },
                }
            },
            Phase::Poll { pane_id, attempt } => {
                let trimmed_out = out.trimmed_stdout();
                let live = pane_live(trimmed_out.as_str());
                self.phase = Phase::Pause { pane_id, attempt, live };
                Action::Sleep(25)
            },
            other => {
                self.phase = other;
                Action::Finish(Ok(()))
            },
        }
    }

    /// Returns what to do after the pause that the last action asked for.
    pub fn resume(&mut self) -> (a: Action)
        requires
            old(self)@.wf(),
            old(self)@.awaits_pause(),
        ensures
            final(self)@.same_command(old(self)@),
            final(self)@.wf(),
            final(self)@.expects(a@),
            (final(self)@.phase, a@) == old(self)@.after_pause(),
    {
        proof {
            lemma_after_pause_fits(self@);
        }
        let ghost start = self@;
        let mut phase = Phase::Done;
        std::mem::swap(&mut phase, &mut self.phase);
        match phase {
            Phase::Pause { pane_id, attempt, live } => {
                if live {
                    let mut calls: Vec<TmuxCall> = Vec::new();
                    push_send_calls(&mut calls, pane_id.as_str(), &self.spec);
                    assert(calls_view(calls@) =~= send_calls(pane_id@, self@.spec));
                    proof {
                        calls_name_their_command(
                            self@.options.session_name,
                            Seq::empty(),
                            self@.spec,
                            TargetView { window_id: Seq::empty(), pane_id: pane_id@ },
                            Seq::empty(),
                            Seq::empty(),
                            None,
                        );
                        lemma_ends_by_typing(Seq::empty(), pane_id@, self@.spec);
                        assert(Seq::<CallView>::empty() + send_calls(pane_id@, self@.spec)
                            =~= send_calls(pane_id@, self@.spec));
                    }
                    self.enter_steps(calls, Then::Finish)
                } else if attempt + 1 < 20 {
                    let call = poll_call_exec(pane_id.as_str());
                    self.phase = Phase::Poll { pane_id, attempt: attempt + 1 };
                    self.run_action(&call)
                } else {
                    let mut details = String::from_str("pane ");
                    details.append(pane_id.as_str());
                    details.append(" did not become a live shell in time");
                    self.fail(
                        IntmuxError::UnexpectedTmuxOutput { context: "wait for tmux shell", details },
                    )
                }
            },
            _ => {
                self.phase = phase;
                Action::Finish(Ok(()))
            },
        }
    }
}

// ---------------------------------------------------------------------------
// Laws.

/// The arguments select the socket once: with a socket name, `-L` and the
/// name come first and the next argument names a command; without one, the
/// first argument names a command.
pub open spec fn selects_socket_once(args: Seq<Seq<char>>, socket: Option<Seq<char>>) -> bool {
    match socket {
        Some(name) => {
            &&& args.len() >= 3
            &&& args[0] == "-L"@
            &&& args[1] == name
            &&& args[2].len() > 0
            &&& args[2][0] != '-'
        },
        None => args.len() > 0 && args[0].len() > 0 && args[0][0] != '-',
    }
}

proof fn lemma_run_selects_socket(l: LaunchView, call: CallView)
    requires
        names_a_command(call),
    ensures
        l.run(call) is Run,
        selects_socket_once(l.run(call)->Run_0, l.options.socket_name),
{
    match l.options.socket_name {
        Some(socket) => {
            let args = seq!["-L"@, socket] + call.args;
            assert(args[0] == "-L"@);
            assert(args[1] == socket);
            assert(args[2] == call.args[0]);
        },
        None => {},
    }
}

/// Every `tmux` command of a launch goes to the chosen socket, selected
/// once: the probe that starts a launch, and each run that follows a run or
/// a pause, start with `-L` and the socket's name when one is set, followed
/// by the command's name, and with the command's name otherwise.
pub proof fn every_run_selects_the_socket(l: LaunchView, outcome: OutcomeView)
    requires
        l.wf(),
    ensures
        selects_socket_once(
            l.run(probe_call(l.options.session_name))->Run_0,
            l.options.socket_name,
        ),
        l.awaits_run() && l.after_run(outcome).1 is Run ==> selects_socket_once(
            l.after_run(outcome).1->Run_0,
            l.options.socket_name,
        ),
        l.awaits_pause() && l.after_pause().1 is Run ==> selects_socket_once(
            l.after_pause().1->Run_0,
            l.options.socket_name,
        ),
{
    let s = l.spec;
    let session = l.options.session_name;
    let key = match l.reuse_key {
        Some(k) => k,
        None => Seq::empty(),
    };
    let nowhere = TargetView { window_id: Seq::empty(), pane_id: Seq::empty() };
    calls_name_their_command(session, key, s, nowhere, Seq::empty(), Seq::empty(), None);
    lemma_run_selects_socket(l, probe_call(session));
    lemma_run_selects_socket(l, default_shell_call());
    lemma_run_selects_socket(l, create_call(true, session, s));
    lemma_run_selects_socket(l, create_call(false, session, s));
    lemma_run_selects_socket(l, list_call(session, key));
    match l.phase {
        PhaseView::Steps { calls, next, then } => {
            if next + 1 < calls.len() {
                lemma_run_selects_socket(l, calls[next + 1int]);
            }
            match then {
                ThenView::WaitForPane { pane_id } => {
                    let t = TargetView { window_id: Seq::empty(), pane_id };
                    calls_name_their_command(session, key, s, t, Seq::empty(), Seq::empty(), None);
                    lemma_run_selects_socket(l, poll_call(pane_id));
                },
                _ => {},
            }
        },
        PhaseView::Pause { pane_id, attempt, live } => {
            let t = TargetView { window_id: Seq::empty(), pane_id };
            calls_name_their_command(session, key, s, t, Seq::empty(), Seq::empty(), None);
            lemma_run_selects_socket(l, poll_call(pane_id));
            lemma_run_selects_socket(l, send_calls(pane_id, s)[0]);
        },
        PhaseView::DefaultShell(sorted) => {
            match outcome {
                OutcomeView::Exited(out) => {
                    match default_shell_result(out.trimmed_stdout()) {
                        Ok(shell) => match resolution_for(sorted, shell) {
                            ResolutionView::Reuse(target, stale) => {
                                calls_name_their_command(
                                    session,
                                    key,
                                    s,
                                    target,
                                    stale,
                                    Seq::empty(),
                                    None,
                                );
                                let calls = reuse_calls(target, stale, key, s);
                                if calls.len() > 0 {
                                    lemma_run_selects_socket(l, calls[0]);
                                }
                            },
                            ResolutionView::Create(stale) => {
                                calls_name_their_command(
                                    session,
                                    key,
                                    s,
                                    nowhere,
                                    stale,
                                    Seq::empty(),
                                    None,
                                );
                                let calls = unset_calls(stale);
                                if calls.len() > 0 {
                                    lemma_run_selects_socket(l, calls[0]);
                                }
                            },
                        },
                        Err(_) => {},
                    }
                },
                _ => {},
            }
        },
        PhaseView::Create { session_exists } => {
            match outcome {
                OutcomeView::Exited(out) => {
                    match create_target_result(
                        out.trimmed_stdout(),
                        create_call(session_exists, session, s).context,
                    ) {
                        Ok(target) => {
                            calls_name_their_command(
                                session,
                                key,
                                s,
                                target,
                                Seq::empty(),
                                target.window_id,
                                l.reuse_key,
                            );
                            lemma_run_selects_socket(
                                l,
                                configure_calls(target.window_id, l.reuse_key)[0],
                            );
                        },
                        Err(_) => {},
                    }
                },
                _ => {},
            }
        },
        _ => {},
    }
}

/// A launch polls a new pane at most `max_polls` times: after a poll that
/// did not find a live shell, it polls again only while fewer polls have
/// run, and otherwise gives up with an error naming the pane.
pub proof fn polling_is_bounded(l: LaunchView)
    requires
        l.wf(),
        l.phase is Pause,
        !l.phase->Pause_live,
    ensures
        l.phase->Pause_attempt + 1 < max_polls() ==> l.after_pause().0 == (PhaseView::Poll {
            pane_id: l.phase->Pause_pane_id,
            attempt: l.phase->Pause_attempt + 1,
        }),
        l.phase->Pause_attempt + 1 >= max_polls() ==> l.after_pause() == (
            PhaseView::Done,
            ActionView::Finish(
                Err(
                    ErrorView::UnexpectedTmuxOutput {
                        context: "wait for tmux shell"@,
                        details: "pane "@ + l.phase->Pause_pane_id
                            + " did not become a live shell in time"@,
                    },
                ),
            ),
        ),
{
}

/// A launch succeeds only by typing the command: when a run ends the launch
/// without an error, that run was the last of the final steps, which typed
/// the command line into the target pane and pressed Enter, and it
/// succeeded. A pause never ends a launch successfully.
pub proof fn success_means_the_command_was_typed(l: LaunchView, outcome: OutcomeView)
    requires
        l.wf(),
    ensures
        l.awaits_run() && l.after_run(outcome).1 == ActionView::Finish(Ok(())) ==> {
            &&& outcome matches OutcomeView::Exited(out) && out.succeeded()
            &&& l.phase matches PhaseView::Steps { calls, next, then } && {
                &&& then is Finish
                &&& next + 1 == calls.len()
                &&& ends_by_typing(calls, l.spec)
            }
        },
        l.awaits_pause() ==> l.after_pause().1 != ActionView::Finish(Ok(())),
{
    let s = l.spec;
    match l.phase {
        PhaseView::DefaultShell(sorted) => {
            match outcome {
                OutcomeView::Exited(out) => {
                    match default_shell_result(out.trimmed_stdout()) {
                        Ok(shell) => match resolution_for(sorted, shell) {
                            ResolutionView::Reuse(target, stale) => {
                                let calls = reuse_calls(target, stale, l.reuse_key->Some_0, s);
                                assert(calls.len() > 0);
                            },
                            _ => {},
                        },
                        Err(_) => {},
                    }
                },
                _ => {},
            }
        },
        PhaseView::Create { session_exists } => {
            match outcome {
                OutcomeView::Exited(out) => {
                    match create_target_result(
                        out.trimmed_stdout(),
                        create_call(session_exists, l.options.session_name, s).context,
                    ) {
                        Ok(target) => {
                            assert(configure_calls(target.window_id, l.reuse_key).len() > 0);
                        },
                        Err(_) => {},
                    }
                },
                _ => {},
            }
        },
        PhaseView::Pause { pane_id, attempt, live } => {
            assert(send_calls(pane_id, s).len() > 0);
        },
        _ => {},
    }
}

} // verus!
