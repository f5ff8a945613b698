//! Laws of the launch protocol over whole runs: which `tmux` commands a
//! launch issues, in which order, and where it stops.
//!
//! [`play`] drives a launch's view the way a caller drives a [`Launch`]:
//! every run takes the next outcome and every pause is waited out. The
//! contracts of `Launch::begin`, `Launch::advance` and `Launch::resume` say
//! that the launch moves exactly as `after_run` and `after_pause` say, so what
//! is proved here of `play` holds of every launch driven with those outcomes.
//!
//! [`Launch`]: crate::launch::Launch

use vstd::prelude::*;

use crate::error::ErrorView;
use crate::launch::{
    command_error, configure_calls, create_call, default_shell_call, lemma_after_run_fits,
    lemma_lines_nonempty, lemma_parse_lines_len, reuse_option, list_call, max_polls, pane_is_live,
    parse_lines, poll_call, poll_delay, probe_call, reset_calls, reuse_calls, send_calls, set_call, tmux_args,
    unset_call, unset_calls, ActionView, CallView, LaunchView, OutcomeView, PhaseView, ThenView,
};
use crate::sticky::{
    default_shell_result, index_ordered, is_reusable, resolution_for, sort_keeps_windows_in_index_order,
    sorted_by_index, ResolutionView, StickyView,
};
use crate::target::TargetView;
use crate::text::lines_of;
use crate::model::CommandSpecView;
use crate::process::OutputView;
use crate::target::create_target_result;

verus! {

/// The launch with the same command, standing in `phase`.
pub open spec fn in_phase(l: LaunchView, phase: PhaseView) -> LaunchView {
    LaunchView { spec: l.spec, options: l.options, reuse_key: l.reuse_key, phase }
}

/// Orders the steps of [`play`]: a pause is waited out before the run that
/// follows it.
pub open spec fn pause_rank(a: ActionView) -> int {
    if a is Sleep {
        1
    } else {
        0
    }
}

/// Plays a launch that stands at action `a`: each run takes the next of
/// `outcomes` and each pause is waited out, until the outcomes run out or the
/// launch finishes. Gives the full argument lists of the runs that took an
/// outcome, in order, then the launch and the action it ends at.
pub open spec fn play(l: LaunchView, a: ActionView, outcomes: Seq<OutcomeView>) -> (
    Seq<Seq<Seq<char>>>,
    LaunchView,
    ActionView,
)
    decreases outcomes.len(), pause_rank(a),
{
    match a {
        ActionView::Run(args) => if outcomes.len() == 0 {
            (Seq::empty(), l, a)
        } else {
            let next = l.after_run(outcomes[0]);
            let rest = play(in_phase(l, next.0), next.1, outcomes.drop_first());
            (seq![args] + rest.0, rest.1, rest.2)
        },
        ActionView::Sleep(_) => {
            let next = l.after_pause();
            if next.1 is Sleep {
                (Seq::empty(), l, a)
            } else {
                play(in_phase(l, next.0), next.1, outcomes)
            }
        },
        ActionView::Finish(_) => (Seq::empty(), l, a),
    }
}

/// The outcomes of runs that exited with these outputs.
pub open spec fn exited(outs: Seq<OutputView>) -> Seq<OutcomeView> {
    outs.map_values(|o: OutputView| OutcomeView::Exited(o))
}

/// The full argument lists of these calls.
pub open spec fn runs(l: LaunchView, calls: Seq<CallView>) -> Seq<Seq<Seq<char>>> {
    calls.map_values(|c: CallView| tmux_args(l.options, c.args))
}

/// Every output is a success.
pub open spec fn all_succeeded(outs: Seq<OutputView>) -> bool {
    forall|i: int| 0 <= i < outs.len() ==> (#[trigger] outs[i]).succeeded()
}

/// Playing on more outcomes goes on from where playing on fewer stopped.
pub proof fn lemma_play_append(
    l: LaunchView,
    a: ActionView,
    first: Seq<OutcomeView>,
    second: Seq<OutcomeView>,
)
    ensures
        ({
            let p = play(l, a, first);
            let q = play(p.1, p.2, second);
            play(l, a, first + second) == (p.0 + q.0, q.1, q.2)
        }),
    decreases first.len(), pause_rank(a),
{
    match a {
        ActionView::Run(args) => {
            if first.len() == 0 {
                assert(first + second =~= second);
                assert(Seq::<Seq<Seq<char>>>::empty() + play(l, a, second).0 =~= play(
                    l,
                    a,
                    second,
                ).0);
            } else {
                let all = first + second;
                assert(all[0] == first[0]);
                assert(all.drop_first() =~= first.drop_first() + second);
                let next = l.after_run(first[0]);
                lemma_play_append(in_phase(l, next.0), next.1, first.drop_first(), second);
                let p = play(in_phase(l, next.0), next.1, first.drop_first());
                let q = play(p.1, p.2, second);
                assert(seq![args] + (p.0 + q.0) =~= (seq![args] + p.0) + q.0);
            }
        },
        ActionView::Sleep(_) => {
            let next = l.after_pause();
            if !(next.1 is Sleep) {
                lemma_play_append(in_phase(l, next.0), next.1, first, second);
            } else {
                assert(Seq::<Seq<Seq<char>>>::empty() + play(l, a, second).0 =~= play(
                    l,
                    a,
                    second,
                ).0);
            }
        },
        ActionView::Finish(_) => {
            assert(Seq::<Seq<Seq<char>>>::empty() + Seq::<Seq<Seq<char>>>::empty()
                =~= Seq::<Seq<Seq<char>>>::empty());
        },
    }
}

/// A finished launch issues no further command, whatever comes.
pub proof fn a_finished_launch_stays_finished(
    l: LaunchView,
    r: Result<(), ErrorView>,
    outcomes: Seq<OutcomeView>,
)
    ensures
        play(l, ActionView::Finish(r), outcomes) == (
            Seq::<Seq<Seq<char>>>::empty(),
            l,
            ActionView::Finish(r),
        ),
{
}

/// The steps a launch runs one after another: when every step succeeds,
/// exactly the remaining calls run, in order, and the launch goes on with
/// what follows them; when a step fails, the calls up to it ran and the
/// launch ends with that step's error, running nothing more.
pub proof fn steps_run_in_order_until_one_fails(
    l: LaunchView,
    calls: Seq<CallView>,
    next: nat,
    then: ThenView,
    outs: Seq<OutputView>,
    rest: Seq<OutcomeView>,
)
    requires
        l.phase == (PhaseView::Steps { calls, next, then }),
        next < calls.len(),
        outs.len() <= calls.len() - next,
        forall|i: int| 0 <= i < outs.len() - 1 ==> (#[trigger] outs[i]).succeeded(),
    ensures
        outs.len() == calls.len() - next && all_succeeded(outs) ==> play(
            l,
            l.run(calls[next as int]),
            exited(outs),
        ) == (
            runs(l, calls.skip(next as int)),
            in_phase(l, l.continue_with(then).0),
            l.continue_with(then).1,
        ),
        outs.len() > 0 && !outs.last().succeeded() ==> play(
            l,
            l.run(calls[next as int]),
            exited(outs) + rest,
        ) == (
            runs(l, calls.subrange(next as int, next + outs.len() as int)),
            in_phase(l, PhaseView::Done),
            ActionView::Finish(
                Err(command_error(calls[next + outs.len() - 1].context, outs.last())),
            ),
        ),
    decreases calls.len() - next,
{
    if outs.len() == 0 {
        return;
    }
    let o = outs[0];
    let here = calls[next as int];
    let a = l.run(here);
    let tail = outs.drop_first();
    assert(exited(outs)[0] == OutcomeView::Exited(o));
    assert(exited(outs).drop_first() =~= exited(tail));
    assert((exited(outs) + rest)[0] == OutcomeView::Exited(o));
    assert((exited(outs) + rest).drop_first() =~= exited(tail) + rest);
    if !o.succeeded() {
        // the first step fails: it is the last of `outs`
        assert(outs.len() == 1);
        let done = l.after_run(OutcomeView::Exited(o));
        assert(done == (
            PhaseView::Done,
            ActionView::Finish(Err(command_error(here.context, o))),
        ));
        let all = exited(outs) + rest;
        assert(play(in_phase(l, done.0), done.1, all.drop_first()) == (
            Seq::<Seq<Seq<char>>>::empty(),
            in_phase(l, done.0),
            done.1,
        ));
        assert(play(l, a, all).0 == seq![tmux_args(l.options, here.args)] + Seq::<
            Seq<Seq<char>>,
        >::empty());
        assert(calls.subrange(next as int, next + 1int) =~= seq![here]);
        assert(runs(l, seq![here]) =~= seq![tmux_args(l.options, here.args)]);
        assert(seq![tmux_args(l.options, here.args)] + Seq::<Seq<Seq<char>>>::empty() =~= seq![
            tmux_args(l.options, here.args),
        ]);
        return;
    }
    if next + 1 < calls.len() {
        let l2 = in_phase(l, PhaseView::Steps { calls, next: next + 1, then });
        assert(l.after_run(OutcomeView::Exited(o)) == (
            l2.phase,
            l.run(calls[next + 1int]),
        ));
        assert(l2.run(calls[next + 1int]) == l.run(calls[next + 1int]));
        assert forall|i: int| 0 <= i < tail.len() - 1 implies (#[trigger] tail[i]).succeeded() by {
            assert(tail[i] == outs[i + 1]);
        }
        steps_run_in_order_until_one_fails(l2, calls, (next + 1) as nat, then, tail, rest);
        assert(in_phase(l, l2.phase) == l2);
        assert(play(l, a, exited(outs)) == (
            seq![tmux_args(l.options, here.args)] + play(l2, l2.run(calls[next + 1int]), exited(tail)).0,
            play(l2, l2.run(calls[next + 1int]), exited(tail)).1,
            play(l2, l2.run(calls[next + 1int]), exited(tail)).2,
        ));
        assert(play(l, a, exited(outs) + rest) == (
            seq![tmux_args(l.options, here.args)] + play(l2, l2.run(calls[next + 1int]), exited(tail) + rest).0,
            play(l2, l2.run(calls[next + 1int]), exited(tail) + rest).1,
            play(l2, l2.run(calls[next + 1int]), exited(tail) + rest).2,
        ));
        assert(in_phase(l2, PhaseView::Done) == in_phase(l, PhaseView::Done));
        assert(l2.continue_with(then) == l.continue_with(then));
        if outs.len() == calls.len() - next && all_succeeded(outs) {
            assert(all_succeeded(tail)) by {
                assert forall|i: int| 0 <= i < tail.len() implies (#[trigger] tail[i]).succeeded() by {
                    assert(tail[i] == outs[i + 1]);
                }
            }
            assert(runs(l, calls.skip(next as int)) =~= seq![tmux_args(l.options, here.args)]
                + runs(l2, calls.skip(next + 1int)));
        }
        if outs.len() > 0 && !outs.last().succeeded() {
            assert(tail.len() > 0);
            assert(tail.last() == outs.last());
            assert(runs(l, calls.subrange(next as int, next + outs.len() as int)) =~= seq![
                tmux_args(l.options, here.args),
            ] + runs(l2, calls.subrange(next + 1int, next + 1int + tail.len())));
        }
    } else {
        // the last step succeeded
        assert(outs.len() == 1);
        assert(l.after_run(OutcomeView::Exited(o)) == l.continue_with(then));
        assert(all_succeeded(outs));
        assert(outs.last() == o);
        let c = l.continue_with(then);
        assert(exited(outs).drop_first() =~= Seq::<OutcomeView>::empty());
        assert(calls.skip(next as int) =~= seq![here]);
        assert(runs(l, seq![here]) =~= seq![tmux_args(l.options, here.args)]);
        match c.1 {
            ActionView::Sleep(_) => {
                assert(false);
            },
            _ => {},
        }
        assert(play(in_phase(l, c.0), c.1, Seq::<OutcomeView>::empty()) == (
            Seq::<Seq<Seq<char>>>::empty(),
            in_phase(l, c.0),
            c.1,
        ));
        assert(play(l, a, exited(outs)).0 == seq![tmux_args(l.options, here.args)] + Seq::<
            Seq<Seq<char>>,
        >::empty());
        assert(seq![tmux_args(l.options, here.args)] + Seq::<Seq<Seq<char>>>::empty() =~= seq![
            tmux_args(l.options, here.args),
        ]);
    }
}


/// Sending the command is exactly two calls: after the pause that found a
/// live shell, the command line is typed literally into the pane, then Enter
/// is pressed, and the launch succeeds. When typing fails, the launch ends
/// with that error and Enter is never pressed.
pub proof fn sending_is_typing_then_enter(
    l: LaunchView,
    typed: OutputView,
    entered: OutputView,
    rest: Seq<OutcomeView>,
)
    requires
        l.phase matches PhaseView::Pause { live, .. } && live,
    ensures
        ({
            let pane = l.phase->Pause_pane_id;
            typed.succeeded() && entered.succeeded() ==> play(
                l,
                ActionView::Sleep(poll_delay()),
                exited(seq![typed, entered]),
            ) == (
                runs(l, send_calls(pane, l.spec)),
                in_phase(l, PhaseView::Done),
                ActionView::Finish(Ok(())),
            )
        }),
        ({
            let pane = l.phase->Pause_pane_id;
            !typed.succeeded() ==> play(
                l,
                ActionView::Sleep(poll_delay()),
                exited(seq![typed]) + rest,
            ) == (
                runs(l, seq![send_calls(pane, l.spec)[0]]),
                in_phase(l, PhaseView::Done),
                ActionView::Finish(
                    Err(
                        ErrorView::TmuxCommand {
                            context: "send command to tmux shell"@,
                            details: typed.failure_details(),
                        },
                    ),
                ),
            )
        }),
{
    let pane = l.phase->Pause_pane_id;
    let calls = send_calls(pane, l.spec);
    let steps = in_phase(l, PhaseView::Steps { calls, next: 0, then: ThenView::Finish });
    assert(l.after_pause() == (steps.phase, l.run(calls[0])));
    assert(steps.run(calls[0]) == l.run(calls[0]));
    if typed.succeeded() {
        assert(seq![typed, entered][0] == typed);
        steps_run_in_order_until_one_fails(
            steps,
            calls,
            0,
            ThenView::Finish,
            seq![typed, entered],
            rest,
        );
    }
    steps_run_in_order_until_one_fails(steps, calls, 0, ThenView::Finish, seq![typed], rest);
    assert(calls.skip(0) =~= calls);
    assert(calls.subrange(0, 1) =~= seq![calls[0]]);
    assert(runs(steps, calls) =~= runs(l, calls));
    assert(runs(steps, seq![calls[0]]) =~= runs(l, seq![calls[0]]));
    assert(in_phase(steps, PhaseView::Done) == in_phase(l, PhaseView::Done));
    assert(seq![typed, entered].last() == entered);
    assert(seq![typed].last() == typed);
}

/// Clearing stale tags is one call per window, in the windows' order: each
/// window's tag is unset by its own call, and the first call that fails ends
/// the launch with its error, so no later window is touched.
pub proof fn clearing_stale_tags_is_one_call_per_window(
    l: LaunchView,
    stale: Seq<Seq<char>>,
    then: ThenView,
    outs: Seq<OutputView>,
    rest: Seq<OutcomeView>,
)
    requires
        stale.len() > 0,
        l.phase == (PhaseView::Steps { calls: unset_calls(stale), next: 0, then }),
        outs.len() <= stale.len(),
        forall|i: int| 0 <= i < outs.len() - 1 ==> (#[trigger] outs[i]).succeeded(),
    ensures
        unset_calls(stale).len() == stale.len(),
        forall|i: int| 0 <= i < stale.len() ==> #[trigger] unset_calls(stale)[i] == unset_call(stale[i]),
        outs.len() == stale.len() && all_succeeded(outs) ==> play(
            l,
            l.run(unset_call(stale[0])),
            exited(outs),
        ) == (
            runs(l, unset_calls(stale)),
            in_phase(l, l.continue_with(then).0),
            l.continue_with(then).1,
        ),
        outs.len() > 0 && !outs.last().succeeded() ==> play(
            l,
            l.run(unset_call(stale[0])),
            exited(outs) + rest,
        ) == (
            runs(l, unset_calls(stale).take(outs.len() as int)),
            in_phase(l, PhaseView::Done),
            ActionView::Finish(Err(command_error("clear tmux window option"@, outs.last()))),
        ),
{
    let calls = unset_calls(stale);
    steps_run_in_order_until_one_fails(l, calls, 0, then, outs, rest);
    assert(calls.skip(0) =~= calls);
    assert(calls.subrange(0, outs.len() as int) =~= calls.take(outs.len() as int));
}

/// Reusing a window runs one call per stale window, then exactly five calls
/// that prepare the window (no automatic renaming, the reuse tag, an
/// interrupt, a `cd` to the working directory and Enter), then the two that
/// type the command; when all of them succeed, the launch succeeds.
pub proof fn reusing_a_window_is_five_calls_then_the_command(
    l: LaunchView,
    out: OutputView,
    outs: Seq<OutputView>,
)
    requires
        l.wf(),
        l.phase is DefaultShell,
        out.succeeded(),
        default_shell_result(out.trimmed_stdout()) is Ok,
        resolution_for(l.phase->DefaultShell_0, default_shell_result(out.trimmed_stdout())->Ok_0) is Reuse,
    ensures
        ({
            let resolution = resolution_for(
                l.phase->DefaultShell_0,
                default_shell_result(out.trimmed_stdout())->Ok_0,
            );
            let target = resolution->Reuse_0;
            let stale = resolution->Reuse_1;
            let key = l.reuse_key->Some_0;
            let calls = reuse_calls(target, stale, key, l.spec);
            let steps = PhaseView::Steps { calls, next: 0, then: ThenView::Finish };
            &&& reset_calls(target, key, l.spec).len() == 5
            &&& calls == unset_calls(stale) + reset_calls(target, key, l.spec) + send_calls(
                target.pane_id,
                l.spec,
            )
            &&& l.after_run(OutcomeView::Exited(out)) == (steps, l.run(calls[0]))
            &&& outs.len() == calls.len() && all_succeeded(outs) ==> play(
                in_phase(l, steps),
                l.run(calls[0]),
                exited(outs),
            ) == (runs(l, calls), in_phase(l, PhaseView::Done), ActionView::Finish(Ok(())))
        }),
{
    let resolution = resolution_for(
        l.phase->DefaultShell_0,
        default_shell_result(out.trimmed_stdout())->Ok_0,
    );
    let target = resolution->Reuse_0;
    let stale = resolution->Reuse_1;
    let key = l.reuse_key->Some_0;
    let calls = reuse_calls(target, stale, key, l.spec);
    let steps = in_phase(l, PhaseView::Steps { calls, next: 0, then: ThenView::Finish });
    assert(calls.len() > 0);
    if outs.len() == calls.len() && all_succeeded(outs) {
        steps_run_in_order_until_one_fails(steps, calls, 0, ThenView::Finish, outs, Seq::empty());
        assert(calls.skip(0) =~= calls);
        assert(runs(steps, calls) =~= runs(l, calls));
        assert(steps.run(calls[0]) == l.run(calls[0]));
    }
}

/// The probe's status decides how the command's window comes to be: status 1
/// (no such session) creates the session with `new-session`, whatever the
/// reuse option; status 0 adds a window to the session with `new-window`, or,
/// with window reuse, first lists the tagged windows; any other status ends
/// the launch. Sessions and windows are always created detached.
pub proof fn the_probe_decides_how_to_create(l: LaunchView, out: OutputView)
    requires
        l.phase is Probe,
    ensures
        ({
            let session = l.options.session_name;
            let r = l.after_run(OutcomeView::Exited(out));
            &&& out.status_code == Some(1i32) ==> r == (
                PhaseView::Create { session_exists: false },
                l.run(create_call(false, session, l.spec)),
            )
            &&& out.status_code == Some(0i32) && l.reuse_key is None ==> r == (
                PhaseView::Create { session_exists: true },
                l.run(create_call(true, session, l.spec)),
            )
            &&& out.status_code == Some(0i32) && l.reuse_key is Some ==> r == (
                PhaseView::ListMatches,
                l.run(list_call(session, l.reuse_key->Some_0)),
            )
            &&& out.status_code != Some(0i32) && out.status_code != Some(1i32) ==> r == (
                PhaseView::Done,
                ActionView::Finish(Err(command_error("probe tmux session"@, out))),
            )
        }),
        create_call(false, l.options.session_name, l.spec).args.subrange(0, 2) == seq![
            "new-session"@,
            "-d"@,
        ],
        create_call(false, l.options.session_name, l.spec).args.subrange(5, 7) == seq![
            "-s"@,
            l.options.session_name,
        ],
        create_call(true, l.options.session_name, l.spec).args.subrange(0, 2) == seq![
            "new-window"@,
            "-d"@,
        ],
        create_call(true, l.options.session_name, l.spec).args.subrange(5, 7) == seq![
            "-t"@,
            l.options.session_name,
        ],
{
    let session = l.options.session_name;
    assert(create_call(false, session, l.spec).args.subrange(0, 2) =~= seq!["new-session"@, "-d"@]);
    assert(create_call(false, session, l.spec).args.subrange(5, 7) =~= seq!["-s"@, session]);
    assert(create_call(true, session, l.spec).args.subrange(0, 2) =~= seq!["new-window"@, "-d"@]);
    assert(create_call(true, session, l.spec).args.subrange(5, 7) =~= seq!["-t"@, session]);
}

/// When no window carries the key, the launch goes straight from the listing
/// to creating a window in the session, without reading the default shell.
pub proof fn an_empty_listing_creates_a_window(l: LaunchView, out: OutputView)
    requires
        l.phase is ListMatches,
        out.succeeded(),
        out.trimmed_stdout().len() == 0,
    ensures
        l.after_run(OutcomeView::Exited(out)) == (
            PhaseView::Create { session_exists: true },
            l.run(create_call(true, l.options.session_name, l.spec)),
        ),
{
}


/// Any failure ends the launch at once, and nothing runs after it: a `tmux`
/// that cannot be started (a missing executable has an error of its own), a
/// failure status, a probe status other than 0 or 1, or output that cannot
/// be read. Whenever a run ends the launch with an error, that run is the
/// last.
pub proof fn a_failure_ends_the_launch(
    l: LaunchView,
    outcome: OutcomeView,
    args: Seq<Seq<char>>,
    rest: Seq<OutcomeView>,
)
    requires
        l.wf(),
        l.awaits_run(),
    ensures
        outcome matches OutcomeView::Failed { not_found, source } ==> l.after_run(outcome)
            == l.fail(
            if not_found {
                ErrorView::TmuxNotFound
            } else {
                ErrorView::TmuxIo { context: l.running_context(), source }
            },
        ),
        outcome matches OutcomeView::Exited(out) ==> {
            &&& !(l.phase is Probe) && !out.succeeded() ==> l.after_run(outcome) == l.fail(
                command_error(l.running_context(), out),
            )
            &&& l.phase is Probe && out.status_code != Some(0i32) && out.status_code != Some(1i32)
                ==> l.after_run(outcome) == l.fail(command_error("probe tmux session"@, out))
            &&& l.phase is ListMatches && out.succeeded() && out.trimmed_stdout().len() > 0
                && parse_lines(lines_of(out.trimmed_stdout())) is Err ==> l.after_run(outcome)
                == l.fail(parse_lines(lines_of(out.trimmed_stdout()))->Err_0)
            &&& l.phase is DefaultShell && out.succeeded() && default_shell_result(
                out.trimmed_stdout(),
            ) is Err ==> l.after_run(outcome) == l.fail(
                default_shell_result(out.trimmed_stdout())->Err_0,
            )
            &&& l.phase is Create && out.succeeded() && create_target_result(
                out.trimmed_stdout(),
                create_call(l.phase->session_exists, l.options.session_name, l.spec).context,
            ) is Err ==> l.after_run(outcome) == l.fail(
                create_target_result(
                    out.trimmed_stdout(),
                    create_call(l.phase->session_exists, l.options.session_name, l.spec).context,
                )->Err_0,
            )
        },
        l.after_run(outcome).1 matches ActionView::Finish(Err(e)) ==> play(
            l,
            ActionView::Run(args),
            seq![outcome] + rest,
        ) == (seq![args], in_phase(l, PhaseView::Done), ActionView::Finish(Err(e))),
{
    lemma_after_run_fits(l, outcome);
    let all = seq![outcome] + rest;
    assert(all[0] == outcome);
    assert(all.drop_first() =~= rest);
    let next = l.after_run(outcome);
    if next.1 is Finish {
        assert(next.0 is Done);
        assert(play(in_phase(l, next.0), next.1, rest) == (
            Seq::<Seq<Seq<char>>>::empty(),
            in_phase(l, next.0),
            next.1,
        ));
        assert(seq![args] + Seq::<Seq<Seq<char>>>::empty() =~= seq![args]);
    }
}

/// `c`, `n` times.
pub open spec fn repeated(c: CallView, n: nat) -> Seq<CallView> {
    Seq::new(n, |i: int| c)
}

proof fn lemma_polls_until_live(l: LaunchView, polls: Seq<OutputView>)
    requires
        l.phase is Poll,
        l.phase->Poll_attempt + polls.len() <= max_polls(),
        polls.len() > 0,
        all_succeeded(polls),
        forall|i: int| 0 <= i < polls.len() - 1 ==> !pane_is_live((#[trigger] polls[i]).trimmed_stdout()),
        pane_is_live(polls.last().trimmed_stdout()),
    ensures
        ({
            let pane = l.phase->Poll_pane_id;
            let send = send_calls(pane, l.spec);
            play(l, l.run(poll_call(pane)), exited(polls)) == (
                runs(l, repeated(poll_call(pane), polls.len())),
                in_phase(l, PhaseView::Steps { calls: send, next: 0, then: ThenView::Finish }),
                l.run(send[0]),
            )
        }),
    decreases polls.len(),
{
    let pane = l.phase->Poll_pane_id;
    let j = l.phase->Poll_attempt;
    let send = send_calls(pane, l.spec);
    let p0 = polls[0];
    let live = pane_is_live(p0.trimmed_stdout());
    let paused = in_phase(l, PhaseView::Pause { pane_id: pane, attempt: j, live });
    assert(p0.succeeded());
    assert(l.after_run(OutcomeView::Exited(p0)) == (paused.phase, ActionView::Sleep(poll_delay())));
    let outs = exited(polls);
    assert(outs[0] == OutcomeView::Exited(p0));
    let tail = polls.drop_first();
    assert(outs.drop_first() =~= exited(tail));
    let one = runs(l, repeated(poll_call(pane), 1));
    assert(one =~= seq![tmux_args(l.options, poll_call(pane).args)]);
    if polls.len() == 1 {
        assert(polls.last() == p0);
        let steps = in_phase(l, PhaseView::Steps { calls: send, next: 0, then: ThenView::Finish });
        assert(paused.after_pause() == (steps.phase, l.run(send[0])));
        assert(in_phase(paused, steps.phase) == steps);
        assert(exited(tail) =~= Seq::<OutcomeView>::empty());
        assert(play(steps, l.run(send[0]), exited(tail)) == (
            Seq::<Seq<Seq<char>>>::empty(),
            steps,
            l.run(send[0]),
        ));
        assert(play(paused, ActionView::Sleep(poll_delay()), exited(tail)) == play(
            steps,
            l.run(send[0]),
            exited(tail),
        ));
        assert(one + Seq::<Seq<Seq<char>>>::empty() =~= one);
    } else {
        assert(!live);
        let polled = in_phase(l, PhaseView::Poll { pane_id: pane, attempt: j + 1 });
        assert(paused.after_pause() == (polled.phase, l.run(poll_call(pane))));
        assert(in_phase(paused, polled.phase) == polled);
        assert(all_succeeded(tail)) by {
            assert forall|i: int| 0 <= i < tail.len() implies (#[trigger] tail[i]).succeeded() by {
                assert(tail[i] == polls[i + 1]);
            }
        }
        assert forall|i: int| 0 <= i < tail.len() - 1 implies !pane_is_live(
            (#[trigger] tail[i]).trimmed_stdout(),
        ) by {
            assert(tail[i] == polls[i + 1]);
        }
        assert(tail.last() == polls.last());
        lemma_polls_until_live(polled, tail);
        assert(polled.run(poll_call(pane)) == l.run(poll_call(pane)));
        assert(in_phase(polled, PhaseView::Steps { calls: send, next: 0, then: ThenView::Finish })
            == in_phase(l, PhaseView::Steps { calls: send, next: 0, then: ThenView::Finish }));
        assert(play(paused, ActionView::Sleep(poll_delay()), exited(tail)) == play(
            polled,
            l.run(poll_call(pane)),
            exited(tail),
        ));
        assert(runs(l, repeated(poll_call(pane), polls.len())) =~= one + runs(
            polled,
            repeated(poll_call(pane), tail.len()),
        ));
    }
}

proof fn lemma_polls_give_up(l: LaunchView, polls: Seq<OutputView>, rest: Seq<OutcomeView>)
    requires
        l.phase is Poll,
        l.phase->Poll_attempt + polls.len() == max_polls(),
        polls.len() > 0,
        all_succeeded(polls),
        forall|i: int| 0 <= i < polls.len() ==> !pane_is_live((#[trigger] polls[i]).trimmed_stdout()),
    ensures
        ({
            let pane = l.phase->Poll_pane_id;
            play(l, l.run(poll_call(pane)), exited(polls) + rest) == (
                runs(l, repeated(poll_call(pane), polls.len())),
                in_phase(l, PhaseView::Done),
                ActionView::Finish(
                    Err(
                        ErrorView::UnexpectedTmuxOutput {
                            context: "wait for tmux shell"@,
                            details: "pane "@ + pane + " did not become a live shell in time"@,
                        },
                    ),
                ),
            )
        }),
    decreases polls.len(),
{
    let pane = l.phase->Poll_pane_id;
    let j = l.phase->Poll_attempt;
    let p0 = polls[0];
    assert(!pane_is_live(p0.trimmed_stdout()));
    let paused = in_phase(l, PhaseView::Pause { pane_id: pane, attempt: j, live: false });
    assert(p0.succeeded());
    assert(l.after_run(OutcomeView::Exited(p0)) == (paused.phase, ActionView::Sleep(poll_delay())));
    let outs = exited(polls) + rest;
    assert(outs[0] == OutcomeView::Exited(p0));
    let tail = polls.drop_first();
    assert(outs.drop_first() =~= exited(tail) + rest);
    let one = runs(l, repeated(poll_call(pane), 1));
    assert(one =~= seq![tmux_args(l.options, poll_call(pane).args)]);
    let err = ActionView::Finish(
        Err(
            ErrorView::UnexpectedTmuxOutput {
                context: "wait for tmux shell"@,
                details: "pane "@ + pane + " did not become a live shell in time"@,
            },
        ),
    );
    if polls.len() == 1 {
        assert(paused.after_pause() == (PhaseView::Done, err));
        assert(play(in_phase(paused, PhaseView::Done), err, exited(tail) + rest) == (
            Seq::<Seq<Seq<char>>>::empty(),
            in_phase(l, PhaseView::Done),
            err,
        ));
        assert(in_phase(paused, PhaseView::Done) == in_phase(l, PhaseView::Done));
        assert(play(paused, ActionView::Sleep(poll_delay()), exited(tail) + rest) == play(
            in_phase(paused, PhaseView::Done),
            err,
            exited(tail) + rest,
        ));
        assert(one + Seq::<Seq<Seq<char>>>::empty() =~= one);
    } else {
        let polled = in_phase(l, PhaseView::Poll { pane_id: pane, attempt: j + 1 });
        assert(paused.after_pause() == (polled.phase, l.run(poll_call(pane))));
        assert(in_phase(paused, polled.phase) == polled);
        assert(play(paused, ActionView::Sleep(poll_delay()), exited(tail) + rest) == play(
            polled,
            l.run(poll_call(pane)),
            exited(tail) + rest,
        ));
        assert(all_succeeded(tail)) by {
            assert forall|i: int| 0 <= i < tail.len() implies (#[trigger] tail[i]).succeeded() by {
                assert(tail[i] == polls[i + 1]);
            }
        }
        assert forall|i: int| 0 <= i < tail.len() implies !pane_is_live(
            (#[trigger] tail[i]).trimmed_stdout(),
        ) by {
            assert(tail[i] == polls[i + 1]);
        }
        lemma_polls_give_up(polled, tail, rest);
        assert(polled.run(poll_call(pane)) == l.run(poll_call(pane)));
        assert(in_phase(polled, PhaseView::Done) == in_phase(l, PhaseView::Done));
        assert(runs(l, repeated(poll_call(pane), polls.len())) =~= one + runs(
            polled,
            repeated(poll_call(pane), tail.len()),
        ));
    }
}

/// Polling waits for a live shell, and for no more than `max_polls` polls: a
/// new pane is polled until the first reply that shows a live shell, after
/// which the command is typed into it; when none of `max_polls` replies
/// shows one, the launch gives up with an error naming the pane, having
/// polled exactly `max_polls` times.
pub proof fn polling_waits_for_a_live_shell(
    l: LaunchView,
    polls: Seq<OutputView>,
    rest: Seq<OutcomeView>,
)
    requires
        l.phase matches PhaseView::Poll { attempt, .. } && attempt == 0,
        0 < polls.len() <= max_polls(),
        all_succeeded(polls),
        forall|i: int| 0 <= i < polls.len() - 1 ==> !pane_is_live((#[trigger] polls[i]).trimmed_stdout()),
    ensures
        ({
            let pane = l.phase->Poll_pane_id;
            let send = send_calls(pane, l.spec);
            pane_is_live(polls.last().trimmed_stdout()) ==> play(
                l,
                l.run(poll_call(pane)),
                exited(polls),
            ) == (
                runs(l, repeated(poll_call(pane), polls.len())),
                in_phase(l, PhaseView::Steps { calls: send, next: 0, then: ThenView::Finish }),
                l.run(send[0]),
            )
        }),
        ({
            let pane = l.phase->Poll_pane_id;
            polls.len() == max_polls() && !pane_is_live(polls.last().trimmed_stdout()) ==> play(
                l,
                l.run(poll_call(pane)),
                exited(polls) + rest,
            ) == (
                runs(l, repeated(poll_call(pane), max_polls())),
                in_phase(l, PhaseView::Done),
                ActionView::Finish(
                    Err(
                        ErrorView::UnexpectedTmuxOutput {
                            context: "wait for tmux shell"@,
                            details: "pane "@ + pane + " did not become a live shell in time"@,
                        },
                    ),
                ),
            )
        }),
{
    if pane_is_live(polls.last().trimmed_stdout()) {
        lemma_polls_until_live(l, polls);
    }
    if polls.len() == max_polls() && !pane_is_live(polls.last().trimmed_stdout()) {
        assert forall|i: int| 0 <= i < polls.len() implies !pane_is_live(
            (#[trigger] polls[i]).trimmed_stdout(),
        ) by {
            if i == polls.len() - 1 {
                assert(polls[i] == polls.last());
            }
        }
        lemma_polls_give_up(l, polls, rest);
    }
}


proof fn lemma_runs_append(l: LaunchView, a: Seq<CallView>, b: Seq<CallView>)
    ensures
        runs(l, a + b) == runs(l, a) + runs(l, b),
{
    assert(runs(l, a + b) =~= runs(l, a) + runs(l, b));
}

/// Without window reuse, a launch that succeeds runs exactly these commands:
/// the probe; `new-session` or `new-window`, as the probe found; turning off
/// automatic renaming of the new window; the polls of its pane up to the
/// first live reply; typing the command line; Enter. It never lists windows,
/// reads the default shell or touches a reuse tag.
pub proof fn a_launch_without_reuse(
    l: LaunchView,
    probe: OutputView,
    created: OutputView,
    renamed: OutputView,
    polls: Seq<OutputView>,
    typed: OutputView,
    entered: OutputView,
)
    requires
        l.phase is Probe,
        l.reuse_key is None,
        probe.status_code == Some(0i32) || probe.status_code == Some(1i32),
        created.succeeded(),
        create_target_result(
            created.trimmed_stdout(),
            create_call(probe.status_code == Some(0i32), l.options.session_name, l.spec).context,
        ) is Ok,
        renamed.succeeded(),
        0 < polls.len() <= max_polls(),
        all_succeeded(polls),
        forall|i: int| 0 <= i < polls.len() - 1 ==> !pane_is_live((#[trigger] polls[i]).trimmed_stdout()),
        pane_is_live(polls.last().trimmed_stdout()),
        typed.succeeded(),
        entered.succeeded(),
    ensures
        ({
            let session = l.options.session_name;
            let session_exists = probe.status_code == Some(0i32);
            let target = create_target_result(
                created.trimmed_stdout(),
                create_call(session_exists, session, l.spec).context,
            )->Ok_0;
            let outcomes = seq![
                OutcomeView::Exited(probe),
                OutcomeView::Exited(created),
                OutcomeView::Exited(renamed),
            ] + exited(polls) + exited(seq![typed, entered]);
            play(l, l.run(probe_call(session)), outcomes) == (
                runs(
                    l,
                    seq![
                        probe_call(session),
                        create_call(session_exists, session, l.spec),
                        set_call(target.window_id, "automatic-rename"@, "off"@),
                    ] + repeated(poll_call(target.pane_id), polls.len()) + send_calls(
                        target.pane_id,
                        l.spec,
                    ),
                ),
                in_phase(l, PhaseView::Done),
                ActionView::Finish(Ok(())),
            )
        }),
{
    let session = l.options.session_name;
    let session_exists = probe.status_code == Some(0i32);
    let create = create_call(session_exists, session, l.spec);
    let target = create_target_result(created.trimmed_stdout(), create.context)->Ok_0;
    let window = target.window_id;
    let pane = target.pane_id;
    let rename = set_call(window, "automatic-rename"@, "off"@);
    let send = send_calls(pane, l.spec);
    let a0 = l.run(probe_call(session));
    // the probe
    let l1 = in_phase(l, PhaseView::Create { session_exists });
    assert(l.after_run(OutcomeView::Exited(probe)) == (l1.phase, l.run(create)));
    // the creation
    let configure = configure_calls(window, None);
    assert(configure =~= seq![rename]);
    let l2 = in_phase(
        l,
        PhaseView::Steps { calls: configure, next: 0, then: ThenView::WaitForPane { pane_id: pane } },
    );
    assert(l1.after_run(OutcomeView::Exited(created)) == (l2.phase, l.run(rename)));
    // the renaming
    let l3 = in_phase(l, PhaseView::Poll { pane_id: pane, attempt: 0 });
    assert(l2.after_run(OutcomeView::Exited(renamed)) == (l3.phase, l.run(poll_call(pane))));
    let first = seq![
        OutcomeView::Exited(probe),
        OutcomeView::Exited(created),
        OutcomeView::Exited(renamed),
    ];
    let f1 = first.drop_first();
    let f2 = f1.drop_first();
    let f3 = f2.drop_first();
    assert(f1 =~= seq![OutcomeView::Exited(created), OutcomeView::Exited(renamed)]);
    assert(f2 =~= seq![OutcomeView::Exited(renamed)]);
    assert(f3 =~= Seq::<OutcomeView>::empty());
    assert(in_phase(l1, l2.phase) == l2);
    assert(in_phase(l2, l3.phase) == l3);
    assert(in_phase(l, l1.phase) == l1);
    assert(play(l3, l.run(poll_call(pane)), f3) == (
        Seq::<Seq<Seq<char>>>::empty(),
        l3,
        l.run(poll_call(pane)),
    ));
    let r3 = play(l2, l.run(rename), f2);
    assert(r3 == (seq![tmux_args(l.options, rename.args)] + Seq::<Seq<Seq<char>>>::empty(), l3, l.run(
        poll_call(pane),
    )));
    let r2 = play(l1, l.run(create), f1);
    assert(r2 == (seq![tmux_args(l.options, create.args)] + r3.0, l3, l.run(poll_call(pane))));
    let r1 = play(l, a0, first);
    assert(r1 == (seq![tmux_args(l.options, probe_call(session).args)] + r2.0, l3, l.run(
        poll_call(pane),
    )));
    let head = seq![probe_call(session), create, rename];
    assert(r1.0 =~= runs(l, head));
    // the polls
    lemma_polls_until_live(l3, polls);
    let l4 = in_phase(l, PhaseView::Steps { calls: send, next: 0, then: ThenView::Finish });
    assert(in_phase(l3, PhaseView::Steps { calls: send, next: 0, then: ThenView::Finish }) == l4);
    assert(l3.run(poll_call(pane)) == l.run(poll_call(pane)));
    let polled = play(l3, l.run(poll_call(pane)), exited(polls));
    assert(polled == (runs(l, repeated(poll_call(pane), polls.len())), l4, l.run(send[0])));
    // typing and Enter
    steps_run_in_order_until_one_fails(
        l4,
        send,
        0,
        ThenView::Finish,
        seq![typed, entered],
        Seq::empty(),
    );
    assert(all_succeeded(seq![typed, entered]));
    assert(send.skip(0) =~= send);
    assert(l4.run(send[0]) == l.run(send[0]));
    assert(in_phase(l4, PhaseView::Done) == in_phase(l, PhaseView::Done));
    let typing = play(l4, l.run(send[0]), exited(seq![typed, entered]));
    assert(typing == (runs(l, send), in_phase(l, PhaseView::Done), ActionView::Finish(Ok(()))));
    // putting the pieces together
    lemma_play_append(l3, l.run(poll_call(pane)), exited(polls), exited(seq![typed, entered]));
    lemma_play_append(l, a0, first, exited(polls) + exited(seq![typed, entered]));
    assert(first + exited(polls) + exited(seq![typed, entered]) =~= first + (exited(polls) + exited(
        seq![typed, entered],
    )));
    lemma_runs_append(l, head, repeated(poll_call(pane), polls.len()));
    lemma_runs_append(l, head + repeated(poll_call(pane), polls.len()), send);
    assert(runs(l, head) + runs(l, repeated(poll_call(pane), polls.len())) + runs(l, send) =~= runs(
        l,
        head,
    ) + (runs(l, repeated(poll_call(pane), polls.len())) + runs(l, send)));
}


/// The identifiers of these windows, in order.
pub open spec fn window_ids(windows: Seq<StickyView>) -> Seq<Seq<char>> {
    windows.map_values(|w: StickyView| w.window_id)
}

/// Window reuse resolves on two calls, `list-windows` and then `show-options`
/// for the default shell. The listed windows are all kept, stably ordered by
/// index; the one with the lowest index is reused when it is a single live
/// pane at the default shell, and every other window, in index order, is to
/// lose its tag; otherwise all of them are, and a window is created.
pub proof fn reuse_resolves_on_the_lowest_index(
    l: LaunchView,
    listing: OutputView,
    shell_out: OutputView,
)
    requires
        l.phase is ListMatches,
        l.reuse_key is Some,
        listing.succeeded(),
        listing.trimmed_stdout().len() > 0,
        parse_lines(lines_of(listing.trimmed_stdout())) is Ok,
    ensures
        ({
            let windows = parse_lines(lines_of(listing.trimmed_stdout()))->Ok_0;
            let sorted = sorted_by_index(windows);
            &&& windows.len() > 0
            &&& sorted.to_multiset() == windows.to_multiset()
            &&& index_ordered(sorted)
            &&& l.after_run(OutcomeView::Exited(listing)) == (
                PhaseView::DefaultShell(sorted),
                l.run(default_shell_call()),
            )
        }),
        ({
            let windows = parse_lines(lines_of(listing.trimmed_stdout()))->Ok_0;
            let sorted = sorted_by_index(windows);
            let shell = default_shell_result(shell_out.trimmed_stdout())->Ok_0;
            let resolved = in_phase(l, PhaseView::DefaultShell(sorted));
            let next = resolved.after_run(OutcomeView::Exited(shell_out));
            shell_out.succeeded() && default_shell_result(shell_out.trimmed_stdout()) is Ok ==> {
                &&& resolution_for(sorted, shell) == if is_reusable(sorted[0], shell) {
                    ResolutionView::Reuse(
                        TargetView { window_id: sorted[0].window_id, pane_id: sorted[0].pane_id },
                        window_ids(sorted.drop_first()),
                    )
                } else {
                    ResolutionView::Create(window_ids(sorted))
                }
                &&& play(
                    l,
                    l.run(list_call(l.options.session_name, l.reuse_key->Some_0)),
                    exited(seq![listing, shell_out]),
                ) == (
                    runs(
                        l,
                        seq![
                            list_call(l.options.session_name, l.reuse_key->Some_0),
                            default_shell_call(),
                        ],
                    ),
                    in_phase(l, next.0),
                    next.1,
                )
            }
        }),
{
    let windows = parse_lines(lines_of(listing.trimmed_stdout()))->Ok_0;
    lemma_lines_nonempty(listing.trimmed_stdout());
    lemma_parse_lines_len(lines_of(listing.trimmed_stdout()));
    sort_keeps_windows_in_index_order(windows);
    let sorted = sorted_by_index(windows);
    assert(sorted.len() > 0) by {
        broadcast use vstd::seq_lib::group_to_multiset_ensures;
        assert(windows.to_multiset().len() == windows.len());
        assert(sorted.to_multiset().len() == sorted.len());
    }
    if shell_out.succeeded() && default_shell_result(shell_out.trimmed_stdout()) is Ok {
        let shell = default_shell_result(shell_out.trimmed_stdout())->Ok_0;
        assert(sorted.drop_first().map_values(|w: StickyView| w.window_id) =~= window_ids(
            sorted.drop_first(),
        ));
        assert(seq![sorted[0].window_id] + window_ids(sorted.drop_first()) =~= window_ids(sorted));
        let resolved = in_phase(l, PhaseView::DefaultShell(sorted));
        let next = resolved.after_run(OutcomeView::Exited(shell_out));
        let key = l.reuse_key->Some_0;
        lemma_after_run_fits(resolved, OutcomeView::Exited(shell_out));
        assert(!(next.1 is Sleep)) by {
            match resolution_for(sorted, shell) {
                ResolutionView::Reuse(target, stale) => {
                    assert(reuse_calls(target, stale, key, l.spec).len() > 0);
                },
                ResolutionView::Create(stale) => {
                    assert(stale.len() > 0);
                },
            }
        }
        let outs = exited(seq![listing, shell_out]);
        assert(outs[0] == OutcomeView::Exited(listing));
        assert(outs.drop_first() =~= seq![OutcomeView::Exited(shell_out)]);
        assert(outs.drop_first()[0] == OutcomeView::Exited(shell_out));
        assert(outs.drop_first().drop_first() =~= Seq::<OutcomeView>::empty());
        assert(in_phase(l, resolved.phase) == resolved);
        assert(in_phase(resolved, next.0) == in_phase(l, next.0));
        assert(resolved.run(default_shell_call()) == l.run(default_shell_call()));
        assert(play(in_phase(l, next.0), next.1, Seq::<OutcomeView>::empty()) == (
            Seq::<Seq<Seq<char>>>::empty(),
            in_phase(l, next.0),
            next.1,
        ));
        assert(l.after_run(OutcomeView::Exited(listing)) == (
            resolved.phase,
            l.run(default_shell_call()),
        ));
        let p2 = play(resolved, l.run(default_shell_call()), outs.drop_first());
        assert(p2 == (
            seq![tmux_args(l.options, default_shell_call().args)] + Seq::<Seq<Seq<char>>>::empty(),
            in_phase(l, next.0),
            next.1,
        ));
        assert(play(l, l.run(list_call(l.options.session_name, key)), outs) == (
            seq![tmux_args(l.options, list_call(l.options.session_name, key).args)] + p2.0,
            p2.1,
            p2.2,
        ));
        assert(runs(l, seq![list_call(l.options.session_name, key), default_shell_call()])
            =~= seq![
            tmux_args(l.options, list_call(l.options.session_name, key).args),
        ] + (seq![tmux_args(l.options, default_shell_call().args)] + Seq::<
            Seq<Seq<char>>,
        >::empty()));
    }
}

/// Once window reuse has resolved, only the final window keeps the tag: a
/// reused window is tagged with the key, and the tag of every other listed
/// window is cleared first; when a window is created instead, the tag of
/// every listed window is cleared before it is.
pub proof fn only_the_final_window_keeps_the_tag(l: LaunchView, shell_out: OutputView)
    requires
        l.wf(),
        l.phase is DefaultShell,
        shell_out.succeeded(),
        default_shell_result(shell_out.trimmed_stdout()) is Ok,
    ensures
        ({
            let sorted = l.phase->DefaultShell_0;
            let key = l.reuse_key->Some_0;
            let shell = default_shell_result(shell_out.trimmed_stdout())->Ok_0;
            let next = l.after_run(OutcomeView::Exited(shell_out));
            match resolution_for(sorted, shell) {
                ResolutionView::Reuse(target, stale) => {
                    &&& next.0 matches PhaseView::Steps { calls, then, .. } && {
                        &&& then is Finish
                        &&& calls.contains(set_call(target.window_id, reuse_option(), key))
                        &&& forall|i: int|
                            0 <= i < sorted.len() && sorted[i].window_id != target.window_id
                                ==> calls.contains(unset_call(#[trigger] sorted[i].window_id))
                    }
                },
                ResolutionView::Create(stale) => {
                    &&& next.0 == (PhaseView::Steps {
                        calls: unset_calls(stale),
                        next: 0,
                        then: ThenView::Create { session_exists: true },
                    })
                    &&& forall|i: int|
                        0 <= i < sorted.len() ==> unset_calls(stale).contains(
                            unset_call(#[trigger] sorted[i].window_id),
                        )
                },
            }
        }),
{
    let sorted = l.phase->DefaultShell_0;
    let key = l.reuse_key->Some_0;
    let shell = default_shell_result(shell_out.trimmed_stdout())->Ok_0;
    match resolution_for(sorted, shell) {
        ResolutionView::Reuse(target, stale) => {
            let calls = reuse_calls(target, stale, key, l.spec);
            let u = unset_calls(stale);
            assert(calls[u.len() + 1int] == set_call(target.window_id, reuse_option(), key));
            assert forall|i: int|
                0 <= i < sorted.len() && sorted[i].window_id != target.window_id implies calls.contains(
                unset_call(#[trigger] sorted[i].window_id),
            ) by {
                assert(i > 0);
                assert(stale[i - 1] == sorted[i].window_id);
                assert(calls[i - 1] == u[i - 1]);
            }
        },
        ResolutionView::Create(stale) => {
            assert forall|i: int| 0 <= i < sorted.len() implies unset_calls(stale).contains(
                unset_call(#[trigger] sorted[i].window_id),
            ) by {
                if i == 0 {
                    assert(stale[0] == sorted[0].window_id);
                } else {
                    assert(stale[i] == sorted.drop_first()[i - 1].window_id);
                }
                assert(unset_calls(stale)[i] == unset_call(stale[i]));
            }
        },
    }
}

/// A window created under window reuse is tagged with the key: right after
/// it is created, its automatic renaming is turned off and it gets the tag,
/// before its pane is polled.
pub proof fn a_created_window_is_tagged(l: LaunchView, created: OutputView)
    requires
        l.phase is Create,
        l.reuse_key is Some,
        created.succeeded(),
        create_target_result(
            created.trimmed_stdout(),
            create_call(l.phase->session_exists, l.options.session_name, l.spec).context,
        ) is Ok,
    ensures
        ({
            let target = create_target_result(
                created.trimmed_stdout(),
                create_call(l.phase->session_exists, l.options.session_name, l.spec).context,
            )->Ok_0;
            let calls = seq![
                set_call(target.window_id, "automatic-rename"@, "off"@),
                set_call(target.window_id, reuse_option(), l.reuse_key->Some_0),
            ];
            l.after_run(OutcomeView::Exited(created)) == (
                PhaseView::Steps {
                    calls,
                    next: 0,
                    then: ThenView::WaitForPane { pane_id: target.pane_id },
                },
                l.run(calls[0]),
            )
        }),
{
    let target = create_target_result(
        created.trimmed_stdout(),
        create_call(l.phase->session_exists, l.options.session_name, l.spec).context,
    )->Ok_0;
    assert(configure_calls(target.window_id, l.reuse_key) =~= seq![
        set_call(target.window_id, "automatic-rename"@, "off"@),
        set_call(target.window_id, reuse_option(), l.reuse_key->Some_0),
    ]);
}


/// Every creation, of a session or of a window, names the window after the
/// command and starts its shell in the command's working directory: the
/// call ends with `-n`, the window name, `-c` and the directory.
pub proof fn every_creation_starts_in_the_working_directory(
    session_exists: bool,
    session: Seq<char>,
    spec: CommandSpecView,
)
    ensures
        create_call(session_exists, session, spec).args.len() == 11,
        create_call(session_exists, session, spec).args.subrange(7, 11) == seq![
            "-n"@,
            spec.window_name,
            "-c"@,
            spec.cwd,
        ],
{
    assert(create_call(session_exists, session, spec).args.subrange(7, 11) =~= seq![
        "-n"@,
        spec.window_name,
        "-c"@,
        spec.cwd,
    ]);
}

} // verus!
