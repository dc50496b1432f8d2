//! What holds of every run that switches ports together.

use vstd::prelude::*;

use crate::error::ErrorView;
use crate::port;
use crate::port::SocketView;
use crate::span::Span;
use crate::switching::{Mode, ReportView, Stage, Step, SwitchingView, Which};

verus! {

/// How far a run has come after a list of reports.
pub open spec fn ran(run: SwitchingView, reports: Seq<ReportView>) -> SwitchingView
    decreases reports.len(),
{
    if reports.len() == 0 {
        run
    } else {
        ran(run, reports.drop_last()).after(reports.last())
    }
}

/// The step that was due when report `i` came.
pub open spec fn taken(run: SwitchingView, reports: Seq<ReportView>, i: int) -> Step {
    ran(run, reports.take(i)).step()
}

/// Whether every report is about the step that was due.
pub open spec fn faithful(run: SwitchingView, reports: Seq<ReportView>) -> bool {
    forall|i: int|
        0 <= i < reports.len() ==> ran(run, #[trigger] reports.take(i)).awaits(reports[i])
}

/// Whether a step was taken and gave a report.
pub open spec fn happened(
    run: SwitchingView,
    reports: Seq<ReportView>,
    step: Step,
    report: ReportView,
) -> bool {
    exists|i: int|
        0 <= i < reports.len() && #[trigger] taken(run, reports, i) == step && reports[i] == report
}

/// Whether a step was taken.
pub open spec fn done(run: SwitchingView, reports: Seq<ReportView>, step: Step) -> bool {
    exists|i: int| 0 <= i < reports.len() && #[trigger] taken(run, reports, i) == step
}

/// The step that cuts a port.
pub open spec fn cut_of(port: Which) -> Step {
    Step::Switch { port, on: false }
}

/// The step that restores a port.
pub open spec fn restore_of(port: Which) -> Step {
    Step::Switch { port, on: true }
}

/// Whether a port is among those that a run switches.
pub open spec fn switches(run: SwitchingView, port: Which) -> bool {
    match port {
        Which::Primary => true,
        Which::Held(i) => i < run.held,
    }
}

/// What a report says went wrong.
pub open spec fn failure_in(run: SwitchingView, report: ReportView) -> Option<ErrorView> {
    match report {
        ReportView::Switched(Err(e)) => Some(e),
        ReportView::Gone(Ok(false)) => Some(
            ErrorView::PowerOffIneffective { port: run.primary },
        ),
        ReportView::Gone(Err(e)) => Some(e),
        _ => None,
    }
}

/// The first thing that went wrong.
pub open spec fn first_failure(run: SwitchingView, reports: Seq<ReportView>) -> Option<ErrorView>
    decreases reports.len(),
{
    if reports.len() == 0 {
        None
    } else {
        match first_failure(run, reports.drop_last()) {
            Some(e) => Some(e),
            None => failure_in(run, reports.last()),
        }
    }
}

/// How many steps a run takes at most.
pub open spec fn left(run: SwitchingView) -> int {
    match run.stage {
        Stage::Look(i) => run.held + 4 + 2 * (run.held - i),
        Stage::CutHeld(i) => run.held + 3 + 2 * (run.held - i),
        Stage::CutPrimary => run.held + 4,
        Stage::Wait => run.held + 3,
        Stage::Check => run.held + 2,
        Stage::RestorePrimary => run.held + 1,
        Stage::RestoreHeld(i) => if run.mode == Mode::Blink {
            i + 1
        } else {
            run.held - i
        },
        Stage::Finished => 0,
    }
}

proof fn lemma_after(run: SwitchingView, report: ReportView)
    requires
        run.wf(),
    ensures
        run.after(report).wf(),
        run.after(report).mode == run.mode,
        run.after(report).held == run.held,
        run.after(report).off_time == run.off_time,
        run.after(report).primary == run.primary,
        left(run) >= 0,
        run.awaits(report) ==> left(run.after(report)) < left(run),
{
}

pub(crate) proof fn lemma_ran(run: SwitchingView, reports: Seq<ReportView>)
    requires
        run.wf(),
    ensures
        ran(run, reports).wf(),
        ran(run, reports).mode == run.mode,
        ran(run, reports).held == run.held,
        ran(run, reports).off_time == run.off_time,
        ran(run, reports).primary == run.primary,
    decreases reports.len(),
{
    if reports.len() > 0 {
        lemma_ran(run, reports.drop_last());
        lemma_after(ran(run, reports.drop_last()), reports.last());
    }
}

pub(crate) proof fn lemma_faithful(run: SwitchingView, reports: Seq<ReportView>)
    requires
        faithful(run, reports),
        reports.len() > 0,
    ensures
        faithful(run, reports.drop_last()),
        ran(run, reports.drop_last()).awaits(reports.last()),
        forall|i: int|
            0 <= i < reports.len() - 1 ==> #[trigger] taken(run, reports, i) == taken(
                run,
                reports.drop_last(),
                i,
            ),
        taken(run, reports, reports.len() - 1) == ran(run, reports.drop_last()).step(),
{
    let fewer = reports.drop_last();
    assert(reports.take(reports.len() - 1) =~= fewer);
    assert(ran(run, reports.take(reports.len() - 1)).awaits(reports[reports.len() - 1]));
    assert forall|i: int| 0 <= i < fewer.len() implies ran(run, #[trigger] fewer.take(i)).awaits(
        fewer[i],
    ) by {
        assert(reports.take(i) =~= fewer.take(i));
    }
    assert forall|i: int| 0 <= i < reports.len() - 1 implies #[trigger] taken(run, reports, i)
        == taken(run, fewer, i) by {
        assert(reports.take(i) =~= fewer.take(i));
    }
}

/// A run comes to its end: however its steps turn out, it takes no more of them
/// than it has left, and each report brings it nearer to the end.
pub proof fn law_a_run_ends(
    mode: Mode,
    held: usize,
    off_time: Span,
    primary: Seq<char>,
    reports: Seq<ReportView>,
)
    requires
        faithful(SwitchingView::started(mode, held, off_time, primary), reports),
    ensures
        ({
            let run = SwitchingView::started(mode, held, off_time, primary);
            &&& 0 <= left(ran(run, reports)) <= left(run) - reports.len()
            &&& left(run) <= 3 * held + 4
            &&& left(ran(run, reports)) == 0 <==> ran(run, reports).step() == Step::Finished
        }),
    decreases reports.len(),
{
    let run = SwitchingView::started(mode, held, off_time, primary);
    lemma_ran(run, reports);
    if reports.len() > 0 {
        lemma_faithful(run, reports);
        law_a_run_ends(mode, held, off_time, primary, reports.drop_last());
        lemma_ran(run, reports.drop_last());
        lemma_after(ran(run, reports.drop_last()), reports.last());
    }
}

/// The outcome of a run is the first thing that went wrong in it.
pub proof fn law_the_first_failure_is_reported(
    mode: Mode,
    held: usize,
    off_time: Span,
    primary: Seq<char>,
    reports: Seq<ReportView>,
)
    requires
        faithful(SwitchingView::started(mode, held, off_time, primary), reports),
    ensures
        ({
            let run = SwitchingView::started(mode, held, off_time, primary);
            ran(run, reports).failure == first_failure(run, reports)
        }),
    decreases reports.len(),
{
    let run = SwitchingView::started(mode, held, off_time, primary);
    if reports.len() > 0 {
        lemma_faithful(run, reports);
        law_the_first_failure_is_reported(mode, held, off_time, primary, reports.drop_last());
        lemma_ran(run, reports.drop_last());
    }
}

/// Where a step stands in the order of a run.
spec fn rank(step: Step) -> int {
    match step {
        Step::Look(_) => 0,
        Step::Switch { port: Which::Held(_), on: false } => 0,
        Step::Switch { port: Which::Primary, on: false } => 1,
        Step::Wait(_) => 2,
        Step::Check => 3,
        Step::Switch { port: Which::Primary, on: true } => 4,
        Step::Switch { port: Which::Held(_), on: true } => 5,
        Step::Finished => 6,
    }
}

proof fn lemma_rank(run: SwitchingView, reports: Seq<ReportView>, a: int, b: int)
    requires
        0 <= a <= b <= reports.len(),
    ensures
        rank(ran(run, reports.take(a)).step()) <= rank(ran(run, reports.take(b)).step()),
    decreases b,
{
    if a < b {
        lemma_rank(run, reports, a, b - 1);
        assert(reports.take(b).drop_last() =~= reports.take(b - 1));
    }
}

/// Whether a port's turn to be restored is over.
spec fn past(run: SwitchingView, port: Which) -> bool {
    match (run.stage, port) {
        (Stage::RestoreHeld(_), Which::Primary) => true,
        (Stage::RestoreHeld(n), Which::Held(j)) => if run.mode == Mode::Blink {
            j > n
        } else {
            j < n
        },
        (Stage::Finished, _) => run.mode != Mode::Off,
        _ => false,
    }
}

/// Every port restored so far.
spec fn restored(run: SwitchingView, reports: Seq<ReportView>) -> bool {
    forall|port: Which|
        past(ran(run, reports), port) && switches(run, port) ==> done(
            run,
            reports,
            #[trigger] restore_of(port),
        )
}

proof fn lemma_done(run: SwitchingView, reports: Seq<ReportView>)
    requires
        faithful(run, reports),
        reports.len() > 0,
    ensures
        forall|step: Step|
            done(run, reports.drop_last(), step) ==> #[trigger] done(run, reports, step),
        done(run, reports, ran(run, reports.drop_last()).step()),
{
    lemma_faithful(run, reports);
    let fewer = reports.drop_last();
    assert forall|step: Step| done(run, fewer, step) implies #[trigger] done(run, reports, step) by {
        let i = choose|i: int| 0 <= i < fewer.len() && #[trigger] taken(run, fewer, i) == step;
        assert(taken(run, reports, i) == step);
    }
    assert(taken(run, reports, reports.len() - 1) == ran(run, fewer).step());
}

proof fn lemma_restored(run: SwitchingView, reports: Seq<ReportView>)
    requires
        run.wf(),
        run.stage !is RestoreHeld,
        run.stage !is Finished,
        faithful(run, reports),
    ensures
        restored(run, reports),
    decreases reports.len(),
{
    if reports.len() > 0 {
        let fewer = reports.drop_last();
        lemma_faithful(run, reports);
        lemma_restored(run, fewer);
        lemma_ran(run, fewer);
        lemma_done(run, reports);
        let before = ran(run, fewer);
        let now = ran(run, reports);
        assert forall|port: Which| past(now, port) && switches(run, port) implies done(
            run,
            reports,
            #[trigger] restore_of(port),
        ) by {
            if past(before, port) {
                assert(done(run, fewer, restore_of(port)));
            } else {
                assert(before.step() == restore_of(port));
            }
        }
    }
}

/// Power is restored however a cycle goes: once it is over, every port that it
/// switches was switched on, after the last time that any port was switched off.
pub proof fn law_no_port_is_left_off(
    mode: Mode,
    held: usize,
    off_time: Span,
    primary: Seq<char>,
    reports: Seq<ReportView>,
    port: Which,
)
    requires
        mode != Mode::Off,
        faithful(SwitchingView::started(mode, held, off_time, primary), reports),
        ran(SwitchingView::started(mode, held, off_time, primary), reports).step()
            == Step::Finished,
        switches(SwitchingView::started(mode, held, off_time, primary), port),
    ensures
        ({
            let run = SwitchingView::started(mode, held, off_time, primary);
            exists|b: int|
                {
                    &&& 0 <= b < reports.len()
                    &&& #[trigger] taken(run, reports, b) == (Step::Switch { port, on: true })
                    &&& forall|a: int, other: Which|
                        0 <= a < reports.len() && #[trigger] taken(run, reports, a)
                            == #[trigger] cut_of(other) ==> a < b
                }
        }),
{
    let run = SwitchingView::started(mode, held, off_time, primary);
    lemma_restored(run, reports);
    lemma_ran(run, reports);
    assert(done(run, reports, restore_of(port)));
    let b = choose|b: int|
        0 <= b < reports.len() && #[trigger] taken(run, reports, b) == restore_of(port);
    assert forall|a: int, other: Which|
        0 <= a < reports.len() && #[trigger] taken(run, reports, a) == #[trigger] cut_of(
            other,
        ) implies a < b by {
        if b <= a {
            lemma_rank(run, reports, b, a);
        }
    }
}

/// The other half of the receptacle is held down for as long as the primary is
/// off: every held-down port that is cut is cut before the primary, and is
/// restored after it.
pub proof fn law_the_other_half_is_held_down_throughout(
    mode: Mode,
    held: usize,
    off_time: Span,
    primary: Seq<char>,
    reports: Seq<ReportView>,
    a: int,
    b: int,
    i: usize,
)
    requires
        faithful(SwitchingView::started(mode, held, off_time, primary), reports),
        0 <= a < reports.len(),
        0 <= b < reports.len(),
    ensures
        ({
            let run = SwitchingView::started(mode, held, off_time, primary);
            &&& taken(run, reports, a) == cut_of(Which::Held(i)) && taken(run, reports, b)
                == cut_of(Which::Primary) ==> a < b
            &&& taken(run, reports, a) == restore_of(Which::Primary) && taken(run, reports, b)
                == restore_of(Which::Held(i)) ==> a < b
        }),
{
    let run = SwitchingView::started(mode, held, off_time, primary);
    if b <= a {
        lemma_rank(run, reports, b, a);
    }
}

/// Where a port stands in the order in which ports are cut.
pub open spec fn turn(held: usize, port: Which) -> int {
    match port {
        Which::Held(i) => i as int,
        Which::Primary => held as int,
    }
}

proof fn lemma_left(run: SwitchingView, reports: Seq<ReportView>, a: int, b: int)
    requires
        run.wf(),
        faithful(run, reports),
        0 <= a < b <= reports.len(),
    ensures
        ran(run, reports.take(a)).wf(),
        ran(run, reports.take(b)).wf(),
        ran(run, reports.take(a)).mode == run.mode,
        ran(run, reports.take(a)).held == run.held,
        ran(run, reports.take(b)).mode == run.mode,
        ran(run, reports.take(b)).held == run.held,
        left(ran(run, reports.take(b))) < left(ran(run, reports.take(a))),
    decreases b,
{
    if a < b - 1 {
        lemma_left(run, reports, a, b - 1);
    }
    let before = reports.take(b - 1);
    assert(reports.take(b).drop_last() =~= before);
    lemma_ran(run, reports.take(a));
    lemma_ran(run, before);
    lemma_ran(run, reports.take(b));
    assert(ran(run, before).awaits(reports[b - 1]));
    lemma_after(ran(run, before), reports[b - 1]);
}

/// Ports are cut in order: the held-down ports first to last, then the primary,
/// each at most once.
pub proof fn law_ports_are_cut_in_order(
    mode: Mode,
    held: usize,
    off_time: Span,
    primary: Seq<char>,
    reports: Seq<ReportView>,
    a: int,
    b: int,
    first: Which,
    second: Which,
)
    requires
        faithful(SwitchingView::started(mode, held, off_time, primary), reports),
        0 <= a < b < reports.len(),
        taken(SwitchingView::started(mode, held, off_time, primary), reports, a) == cut_of(first),
        taken(SwitchingView::started(mode, held, off_time, primary), reports, b) == cut_of(second),
    ensures
        turn(held, first) < turn(held, second),
{
    lemma_left(SwitchingView::started(mode, held, off_time, primary), reports, a, b);
}

/// What a blink cuts first, it restores last: its ports are restored in the
/// reverse of the order in which they are cut, each at most once.
pub proof fn law_a_blink_restores_in_reverse(
    held: usize,
    off_time: Span,
    primary: Seq<char>,
    reports: Seq<ReportView>,
    a: int,
    b: int,
    first: Which,
    second: Which,
)
    requires
        faithful(SwitchingView::started(Mode::Blink, held, off_time, primary), reports),
        0 <= a < b < reports.len(),
        taken(SwitchingView::started(Mode::Blink, held, off_time, primary), reports, a)
            == restore_of(first),
        taken(SwitchingView::started(Mode::Blink, held, off_time, primary), reports, b)
            == restore_of(second),
    ensures
        turn(held, second) < turn(held, first),
{
    lemma_left(SwitchingView::started(Mode::Blink, held, off_time, primary), reports, a, b);
}

/// Whether every report on a look is what [`looked`](crate::switching::looked)
/// gives for the two sockets seen: that of the held-down port, and the primary's.
pub open spec fn seen_so(reports: Seq<ReportView>, seen: Seq<(SocketView, SocketView)>) -> bool {
    &&& seen.len() == reports.len()
    &&& forall|i: int|
        0 <= i < reports.len() ==> ((#[trigger] reports[i]) matches ReportView::Holdable(yes)
            ==> yes == port::holdable(seen[i].0, seen[i].1))
}

/// A held-down port is looked at again just before it is cut, and cut only where
/// it can be held down: it is empty, or it and the primary both hold a hub.
pub proof fn law_a_held_port_is_looked_at_just_before_it_is_cut(
    mode: Mode,
    held: usize,
    off_time: Span,
    primary: Seq<char>,
    reports: Seq<ReportView>,
    seen: Seq<(SocketView, SocketView)>,
    b: int,
    i: usize,
)
    requires
        mode != Mode::Blink,
        faithful(SwitchingView::started(mode, held, off_time, primary), reports),
        seen_so(reports, seen),
        0 <= b < reports.len(),
        taken(SwitchingView::started(mode, held, off_time, primary), reports, b) == cut_of(
            Which::Held(i),
        ),
    ensures
        b > 0,
        taken(SwitchingView::started(mode, held, off_time, primary), reports, b - 1) == Step::Look(
            i,
        ),
        reports[b - 1] == ReportView::Holdable(true),
        port::holdable(seen[b - 1].0, seen[b - 1].1),
{
    let run = SwitchingView::started(mode, held, off_time, primary);
    if b > 0 {
        let before = reports.take(b - 1);
        assert(reports.take(b).drop_last() =~= before);
        lemma_ran(run, before);
        assert(ran(run, before).awaits(reports[b - 1]));
    }
}

/// A held-down port that can no longer be held down without stranding anything
/// is not cut: once a look finds it so, the run passes it over for good. One that
/// can be is cut next.
pub proof fn law_a_port_that_cannot_be_held_down_is_not_cut(
    mode: Mode,
    held: usize,
    off_time: Span,
    primary: Seq<char>,
    reports: Seq<ReportView>,
    seen: Seq<(SocketView, SocketView)>,
    a: int,
    i: usize,
)
    requires
        mode != Mode::Blink,
        faithful(SwitchingView::started(mode, held, off_time, primary), reports),
        seen_so(reports, seen),
        0 <= a < reports.len(),
        taken(SwitchingView::started(mode, held, off_time, primary), reports, a) == Step::Look(i),
    ensures
        ({
            let run = SwitchingView::started(mode, held, off_time, primary);
            if port::holdable(seen[a].0, seen[a].1) {
                ran(run, reports.take(a + 1)).step() == cut_of(Which::Held(i))
            } else {
                !done(run, reports, cut_of(Which::Held(i)))
            }
        }),
{
    let run = SwitchingView::started(mode, held, off_time, primary);
    let cut = cut_of(Which::Held(i));
    assert(reports.take(a + 1).drop_last() =~= reports.take(a));
    assert(ran(run, reports.take(a)).awaits(reports[a]));
    if !port::holdable(seen[a].0, seen[a].1) && done(run, reports, cut) {
        let b = choose|b: int| 0 <= b < reports.len() && #[trigger] taken(run, reports, b) == cut;
        law_a_held_port_is_looked_at_just_before_it_is_cut(
            mode,
            held,
            off_time,
            primary,
            reports,
            seen,
            b,
            i,
        );
        // A port is looked at once.
        if a < b - 1 {
            lemma_left(run, reports, a, b - 1);
        }
        if b - 1 < a {
            lemma_left(run, reports, b - 1, a);
        }
    }
}

proof fn lemma_happened(run: SwitchingView, reports: Seq<ReportView>)
    requires
        faithful(run, reports),
        reports.len() > 0,
    ensures
        forall|step: Step, report: ReportView|
            happened(run, reports.drop_last(), step, report) ==> #[trigger] happened(
                run,
                reports,
                step,
                report,
            ),
        happened(run, reports, ran(run, reports.drop_last()).step(), reports.last()),
{
    lemma_faithful(run, reports);
    let fewer = reports.drop_last();
    assert forall|step: Step, report: ReportView|
        happened(run, fewer, step, report) implies #[trigger] happened(
        run,
        reports,
        step,
        report,
    ) by {
        let i = choose|i: int|
            0 <= i < fewer.len() && #[trigger] taken(run, fewer, i) == step && fewer[i] == report;
        assert(taken(run, reports, i) == step && reports[i] == report);
    }
    assert(taken(run, reports, reports.len() - 1) == ran(run, fewer).step());
}

/// What was reported on the way to the stage reached, where nothing went wrong.
spec fn passed(run: SwitchingView, reports: Seq<ReportView>) -> bool {
    let now = ran(run, reports);
    now.failure is None ==> {
        &&& (rank(now.step()) >= 2 ==> happened(
            run,
            reports,
            cut_of(Which::Primary),
            ReportView::Switched(Ok(())),
        ))
        &&& (rank(now.step()) >= 3 ==> happened(
            run,
            reports,
            Step::Wait(run.off_time),
            ReportView::Waited,
        ))
        &&& (rank(now.step()) >= 4 ==> happened(
            run,
            reports,
            Step::Check,
            ReportView::Gone(Ok(true)),
        ))
    }
}

proof fn lemma_passed(run: SwitchingView, reports: Seq<ReportView>)
    requires
        run.wf(),
        run.mode == Mode::Cycle,
        rank(run.step()) <= 1,
        faithful(run, reports),
    ensures
        passed(run, reports),
    decreases reports.len(),
{
    if reports.len() > 0 {
        lemma_faithful(run, reports);
        lemma_passed(run, reports.drop_last());
        lemma_ran(run, reports.drop_last());
        lemma_happened(run, reports);
        let before = ran(run, reports.drop_last());
        let report = reports.last();
        if before.stage is CutPrimary && report is Switched && report->Switched_0 is Ok {
            assert(report->Switched_0->Ok_0 == ());
            assert(happened(run, reports, cut_of(Which::Primary), report));
        }
        assert(before.stage is Wait ==> happened(
            run,
            reports,
            Step::Wait(run.off_time),
            ReportView::Waited,
        ));
        assert(before.stage is Check && report == ReportView::Gone(Ok(true)) ==> happened(
            run,
            reports,
            Step::Check,
            ReportView::Gone(Ok(true)),
        ));
    }
}

/// A cycle that succeeds has cut the primary, waited for the whole off time,
/// and seen that the device left the bus.
pub proof fn law_success_means_the_device_left(
    held: usize,
    off_time: Span,
    primary: Seq<char>,
    reports: Seq<ReportView>,
)
    requires
        faithful(SwitchingView::started(Mode::Cycle, held, off_time, primary), reports),
        ran(SwitchingView::started(Mode::Cycle, held, off_time, primary), reports).step()
            == Step::Finished,
        ran(SwitchingView::started(Mode::Cycle, held, off_time, primary), reports).failure is None,
    ensures
        ({
            let run = SwitchingView::started(Mode::Cycle, held, off_time, primary);
            &&& happened(run, reports, cut_of(Which::Primary), ReportView::Switched(Ok(())))
            &&& happened(run, reports, Step::Wait(off_time), ReportView::Waited)
            &&& happened(run, reports, Step::Check, ReportView::Gone(Ok(true)))
        }),
{
    let run = SwitchingView::started(Mode::Cycle, held, off_time, primary);
    lemma_passed(run, reports);
}

} // verus!
