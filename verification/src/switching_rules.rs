//! In which order ports are switched.

use vstd::prelude::*;

use crate::error::ErrorView;
use crate::span::Span;
use crate::switching::{Mode, ReportView, Step, SwitchingView, Which};
use crate::switching_laws;
use crate::switching_laws::{cut_of, faithful, ran, restore_of};

verus! {

/// Whether a report is a good one: the port can be held down, it was switched,
/// the time has passed, the device left.
pub open spec fn good(report: ReportView) -> bool {
    match report {
        ReportView::Holdable(yes) => yes,
        ReportView::Switched(result) => result is Ok,
        ReportView::Waited => true,
        ReportView::Gone(gone) => gone matches Ok(yes) && yes,
    }
}

/// Step `n` of switching ports on: the primary first, then the others first to
/// last.
pub open spec fn step_on(held: usize, n: int) -> Step {
    if n == 0 {
        Step::Switch { port: Which::Primary, on: true }
    } else if n <= held {
        Step::Switch { port: Which::Held((n - 1) as usize), on: true }
    } else {
        Step::Finished
    }
}

/// Step `n` of switching ports off where all goes well: each of the others is
/// looked at and cut, first to last, and then the primary.
pub open spec fn step_off(held: usize, n: int) -> Step {
    if n < 2 * held {
        if n % 2 == 0 {
            Step::Look((n / 2) as usize)
        } else {
            Step::Switch { port: Which::Held((n / 2) as usize), on: false }
        }
    } else if n == 2 * held {
        Step::Switch { port: Which::Primary, on: false }
    } else {
        Step::Finished
    }
}

/// Step `n` of a cycle where all goes well: off, wait, see that the device left,
/// and on again.
pub open spec fn step_cycle(held: usize, off_time: Span, n: int) -> Step {
    let cut = 2 * held + 1;
    if n < cut {
        step_off(held, n)
    } else if n == cut {
        Step::Wait(off_time)
    } else if n == cut + 1 {
        Step::Check
    } else {
        step_on(held, n - cut - 2)
    }
}

/// Step `n` of a blink where all goes well: the others are cut first to last, then
/// the primary; after the wait the primary is restored, then the others last to
/// first.
pub open spec fn step_blink(held: usize, off_time: Span, n: int) -> Step {
    if n < held {
        Step::Switch { port: Which::Held(n as usize), on: false }
    } else if n == held {
        Step::Switch { port: Which::Primary, on: false }
    } else if n == held + 1 {
        Step::Wait(off_time)
    } else if n == held + 2 {
        Step::Switch { port: Which::Primary, on: true }
    } else if n <= 2 * held + 2 {
        Step::Switch { port: Which::Held((2 * held + 2 - n) as usize), on: true }
    } else {
        Step::Finished
    }
}

/// Switching on restores the primary and then every other port, first to last,
/// whatever comes of each, and does nothing else.
pub proof fn law_switching_on_restores_every_port_in_order(
    held: usize,
    off_time: Span,
    primary: Seq<char>,
    reports: Seq<ReportView>,
)
    requires
        faithful(SwitchingView::started(Mode::On, held, off_time, primary), reports),
    ensures
        ran(SwitchingView::started(Mode::On, held, off_time, primary), reports).step() == step_on(
            held,
            reports.len() as int,
        ),
    decreases reports.len(),
{
    let run = SwitchingView::started(Mode::On, held, off_time, primary);
    switching_laws::lemma_ran(run, reports);
    if reports.len() > 0 {
        switching_laws::lemma_faithful(run, reports);
        switching_laws::lemma_ran(run, reports.drop_last());
        law_switching_on_restores_every_port_in_order(
            held,
            off_time,
            primary,
            reports.drop_last(),
        );
    }
}

proof fn lemma_what_switching_off_is_made_of(run: SwitchingView, n: int, report: ReportView)
    requires
        run.wf(),
        run.mode == Mode::Off,
        run.awaits(report),
        good(report),
        n >= 0,
        run.step() == step_off(run.held, n),
    ensures
        run.after(report).step() == step_off(run.held, n + 1),
{
}

/// What switching off is made of where all goes well, from the first step to the
/// last.
pub proof fn law_what_switching_off_is_made_of(
    held: usize,
    off_time: Span,
    primary: Seq<char>,
    reports: Seq<ReportView>,
)
    requires
        forall|i: int| 0 <= i < reports.len() ==> good(#[trigger] reports[i]),
        faithful(SwitchingView::started(Mode::Off, held, off_time, primary), reports),
    ensures
        ran(SwitchingView::started(Mode::Off, held, off_time, primary), reports).step()
            == step_off(held, reports.len() as int),
    decreases reports.len(),
{
    let run = SwitchingView::started(Mode::Off, held, off_time, primary);
    if reports.len() > 0 {
        let fewer = reports.drop_last();
        assert forall|i: int| 0 <= i < fewer.len() implies good(#[trigger] fewer[i]) by {
            assert(fewer[i] == reports[i]);
        }
        assert(good(reports[reports.len() - 1]));
        switching_laws::lemma_faithful(run, reports);
        law_what_switching_off_is_made_of(held, off_time, primary, fewer);
        switching_laws::lemma_ran(run, fewer);
        lemma_what_switching_off_is_made_of(ran(run, fewer), fewer.len() as int, reports.last());
    }
}

proof fn lemma_what_a_cycle_is_made_of(run: SwitchingView, n: int, report: ReportView)
    requires
        run.wf(),
        run.mode == Mode::Cycle,
        run.awaits(report),
        good(report),
        n >= 0,
        run.step() == step_cycle(run.held, run.off_time, n),
    ensures
        run.after(report).step() == step_cycle(run.held, run.off_time, n + 1),
{
}

/// What a cycle is made of where all goes well, from the first step to the last.
pub proof fn law_what_a_cycle_is_made_of(
    held: usize,
    off_time: Span,
    primary: Seq<char>,
    reports: Seq<ReportView>,
)
    requires
        forall|i: int| 0 <= i < reports.len() ==> good(#[trigger] reports[i]),
        faithful(SwitchingView::started(Mode::Cycle, held, off_time, primary), reports),
    ensures
        ran(SwitchingView::started(Mode::Cycle, held, off_time, primary), reports).step()
            == step_cycle(held, off_time, reports.len() as int),
    decreases reports.len(),
{
    let run = SwitchingView::started(Mode::Cycle, held, off_time, primary);
    if reports.len() > 0 {
        let fewer = reports.drop_last();
        assert forall|i: int| 0 <= i < fewer.len() implies good(#[trigger] fewer[i]) by {
            assert(fewer[i] == reports[i]);
        }
        assert(good(reports[reports.len() - 1]));
        switching_laws::lemma_faithful(run, reports);
        law_what_a_cycle_is_made_of(held, off_time, primary, fewer);
        switching_laws::lemma_ran(run, fewer);
        lemma_what_a_cycle_is_made_of(ran(run, fewer), fewer.len() as int, reports.last());
    }
}

proof fn lemma_what_a_blink_is_made_of(run: SwitchingView, n: int, report: ReportView)
    requires
        run.wf(),
        run.mode == Mode::Blink,
        run.awaits(report),
        good(report),
        n >= 0,
        run.step() == step_blink(run.held, run.off_time, n),
    ensures
        run.after(report).step() == step_blink(run.held, run.off_time, n + 1),
{
}

/// What a blink is made of where all goes well, from the first step to the last.
pub proof fn law_what_a_blink_is_made_of(
    held: usize,
    off_time: Span,
    primary: Seq<char>,
    reports: Seq<ReportView>,
)
    requires
        forall|i: int| 0 <= i < reports.len() ==> good(#[trigger] reports[i]),
        faithful(SwitchingView::started(Mode::Blink, held, off_time, primary), reports),
    ensures
        ran(SwitchingView::started(Mode::Blink, held, off_time, primary), reports).step()
            == step_blink(held, off_time, reports.len() as int),
    decreases reports.len(),
{
    let run = SwitchingView::started(Mode::Blink, held, off_time, primary);
    if reports.len() > 0 {
        let fewer = reports.drop_last();
        assert forall|i: int| 0 <= i < fewer.len() implies good(#[trigger] fewer[i]) by {
            assert(fewer[i] == reports[i]);
        }
        assert(good(reports[reports.len() - 1]));
        switching_laws::lemma_faithful(run, reports);
        law_what_a_blink_is_made_of(held, off_time, primary, fewer);
        switching_laws::lemma_ran(run, fewer);
        lemma_what_a_blink_is_made_of(ran(run, fewer), fewer.len() as int, reports.last());
    }
}

/// The cut that is due once `i` of the other ports are dealt with: the next of
/// them, which all but a blink look at first, or else the primary.
pub open spec fn next_cut(run: SwitchingView, i: int) -> Step {
    if i < run.held {
        if run.mode == Mode::Blink {
            Step::Switch { port: Which::Held(i as usize), on: false }
        } else {
            Step::Look(i as usize)
        }
    } else {
        Step::Switch { port: Which::Primary, on: false }
    }
}

/// What follows where something does not go well. A port that cannot be held down
/// is passed over. A cut that fails is the last one: switching off ends there, and
/// anything else restores every port. Whatever a check finds, every port is
/// restored, and one that cannot be restored does not keep the others from it.
pub proof fn law_what_follows_a_failure(
    run: SwitchingView,
    i: usize,
    port: Which,
    error: ErrorView,
    gone: Result<bool, ErrorView>,
    result: Result<(), ErrorView>,
)
    requires
        run.wf(),
    ensures
        run.step() == Step::Look(i) ==> {
            &&& run.after(ReportView::Holdable(false)).step() == next_cut(run, i + 1)
            &&& run.after(ReportView::Holdable(true)).step() == cut_of(Which::Held(i))
        },
        run.step() == cut_of(port) ==> {
            let next = run.after(ReportView::Switched(Err(error)));
            &&& next.step() == (if run.mode == Mode::Off {
                Step::Finished
            } else {
                restore_of(Which::Primary)
            })
            &&& next.failure == (if run.failure is Some {
                run.failure
            } else {
                Some(error)
            })
        },
        run.step() == cut_of(Which::Held(i)) ==> run.after(ReportView::Switched(Ok(()))).step()
            == next_cut(run, i + 1),
        run.step() == Step::Check ==> run.after(ReportView::Gone(gone)).step() == restore_of(
            Which::Primary,
        ),
        run.step() == restore_of(port) ==> run.after(ReportView::Switched(result)).step()
            == run.after(ReportView::Switched(Ok(()))).step(),
{
}

/// Switching off never restores a port, and only a cycle checks whether the device
/// left.
pub proof fn law_switching_off_leaves_ports_off(
    mode: Mode,
    held: usize,
    off_time: Span,
    primary: Seq<char>,
    reports: Seq<ReportView>,
    port: Which,
)
    ensures
        ({
            let run = SwitchingView::started(mode, held, off_time, primary);
            let step = ran(run, reports).step();
            &&& mode == Mode::Off ==> step != restore_of(port)
            &&& mode == Mode::On ==> step != cut_of(port)
            &&& step == Step::Check ==> mode == Mode::Cycle
            &&& step is Wait ==> step == Step::Wait(off_time) && (mode == Mode::Cycle || mode
                == Mode::Blink)
            &&& step is Look ==> mode == Mode::Off || mode == Mode::Cycle
        }),
{
    let run = SwitchingView::started(mode, held, off_time, primary);
    switching_laws::lemma_ran(run, reports);
}

} // verus!
