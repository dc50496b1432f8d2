//! Switching the ports of one receptacle together, one step at a time.
//!
//! A [`Switching`] says what to do next; the caller does it and reports what
//! came of it. The port that feeds the device is the primary; the ports held
//! down alongside it are numbered.

use vstd::prelude::*;

use crate::error::{Error, ErrorView};
use crate::port;
use crate::port::Socket;
use crate::span::Span;

verus! {

/// What a run of steps is for.
#[derive(Debug, Clone, Copy, PartialEq, Eq, Structural)]
pub enum Mode {
    /// Switch the ports off.
    Off,
    /// Switch the ports on.
    On,
    /// Switch the ports off, wait, see that the device is gone, and switch the
    /// ports on.
    Cycle,
    /// Switch the ports off, wait, and switch them on in reverse order, whatever
    /// is plugged in.
    Blink,
}

/// One of the ports that are switched together.
#[derive(Debug, Clone, Copy, PartialEq, Eq, Structural)]
pub enum Which {
    /// The port that feeds the device.
    Primary,
    /// A port held down alongside it.
    Held(usize),
}

/// What to do next.
#[derive(Debug, Clone, Copy, PartialEq, Eq, Structural)]
pub enum Step {
    /// See whether the held-down port can still be held down without stranding
    /// anything; [`looked`] gives the report.
    Look(usize),
    /// Switch a port.
    Switch {
        /// The port.
        port: Which,
        /// Whether to switch it on.
        on: bool,
    },
    /// Wait.
    Wait(Span),
    /// See whether the device has left the bus.
    Check,
    /// Nothing: the run is over.
    Finished,
}

/// What came of a step.
#[derive(Debug)]
pub enum Report {
    /// Whether the port can be held down.
    Holdable(bool),
    /// What came of switching the port.
    Switched(Result<(), Error>),
    /// The wait is over.
    Waited,
    /// Whether the device has left the bus.
    Gone(Result<bool, Error>),
}

/// What a [`Report`] holds.
pub enum ReportView {
    /// Whether the port can be held down.
    Holdable(bool),
    /// What came of switching the port.
    Switched(Result<(), ErrorView>),
    /// The wait is over.
    Waited,
    /// Whether the device has left the bus.
    Gone(Result<bool, ErrorView>),
}

impl View for Report {
    type V = ReportView;

    open spec fn view(&self) -> ReportView {
        match *self {
            Report::Holdable(yes) => ReportView::Holdable(yes),
            Report::Switched(r) => ReportView::Switched(
                match r {
                    Ok(()) => Ok(()),
                    Err(e) => Err(e@),
                },
            ),
            Report::Waited => ReportView::Waited,
            Report::Gone(r) => ReportView::Gone(
                match r {
                    Ok(gone) => Ok(gone),
                    Err(e) => Err(e@),
                },
            ),
        }
    }
}

/// The report on a look at a held-down port, from what is plugged into it and
/// into the primary by now.
pub fn looked(held: &Socket, primary: &Socket) -> (report: Report)
    ensures
        report@ == ReportView::Holdable(port::holdable(held@, primary@)),
{
    Report::Holdable(held.is_holdable_for(primary))
}

/// How far a run has come.
#[derive(Debug, Clone, Copy, PartialEq, Eq, Structural)]
pub enum Stage {
    /// About to look at a held-down port.
    Look(usize),
    /// About to cut a held-down port.
    CutHeld(usize),
    /// About to cut the primary.
    CutPrimary,
    /// About to wait.
    Wait,
    /// About to see whether the device is gone.
    Check,
    /// About to restore the primary.
    RestorePrimary,
    /// About to restore a held-down port.
    RestoreHeld(usize),
    /// Over.
    Finished,
}

/// What a [`Switching`] holds.
pub struct SwitchingView {
    /// What the run is for.
    pub mode: Mode,
    /// How many ports are held down.
    pub held: usize,
    /// How long the ports stay off.
    pub off_time: Span,
    /// The primary, in words.
    pub primary: Seq<char>,
    /// How far the run has come.
    pub stage: Stage,
    /// The first failure.
    pub failure: Option<ErrorView>,
}

impl SwitchingView {
    /// The run begins.
    pub open spec fn started(
        mode: Mode,
        held: usize,
        off_time: Span,
        primary: Seq<char>,
    ) -> SwitchingView {
        let fresh = SwitchingView {
            mode,
            held,
            off_time,
            primary,
            stage: Stage::RestorePrimary,
            failure: None,
        };
        if mode == Mode::On {
            fresh
        } else {
            fresh.cutting(0)
        }
    }

    /// Next is the cut of the held-down port `i`, or of the primary after the
    /// last one.
    pub open spec fn cutting(self, i: int) -> SwitchingView {
        SwitchingView {
            stage: if i >= self.held {
                Stage::CutPrimary
            } else if self.mode == Mode::Blink {
                Stage::CutHeld(i as usize)
            } else {
                Stage::Look(i as usize)
            },
            ..self
        }
    }

    /// Next, with `done` of the held-down ports restored, is the restore of
    /// another one, or nothing after all of them. A blink undoes its cuts in
    /// reverse order; otherwise the ports are restored first to last.
    pub open spec fn restoring(self, done: int) -> SwitchingView {
        SwitchingView {
            stage: if done >= self.held {
                Stage::Finished
            } else if self.mode == Mode::Blink {
                Stage::RestoreHeld((self.held - 1 - done) as usize)
            } else {
                Stage::RestoreHeld(done as usize)
            },
            ..self
        }
    }

    /// The cut is over: restore, unless the ports are to stay off.
    pub open spec fn done_cutting(self) -> SwitchingView {
        SwitchingView {
            stage: if self.mode == Mode::Off {
                Stage::Finished
            } else {
                Stage::RestorePrimary
            },
            ..self
        }
    }

    /// A failure is kept unless there was one before.
    pub open spec fn noting(self, result: Result<(), ErrorView>) -> SwitchingView {
        SwitchingView {
            failure: match (self.failure, result) {
                (None, Err(e)) => Some(e),
                (failure, _) => failure,
            },
            ..self
        }
    }

    /// What to do next.
    pub open spec fn step(self) -> Step {
        match self.stage {
            Stage::Look(i) => Step::Look(i),
            Stage::CutHeld(i) => Step::Switch { port: Which::Held(i), on: false },
            Stage::CutPrimary => Step::Switch { port: Which::Primary, on: false },
            Stage::Wait => Step::Wait(self.off_time),
            Stage::Check => Step::Check,
            Stage::RestorePrimary => Step::Switch { port: Which::Primary, on: true },
            Stage::RestoreHeld(i) => Step::Switch { port: Which::Held(i), on: true },
            Stage::Finished => Step::Finished,
        }
    }

    /// Whether a report is about the step that is due.
    pub open spec fn awaits(self, report: ReportView) -> bool {
        match (self.step(), report) {
            (Step::Look(_), ReportView::Holdable(_)) => true,
            (Step::Switch { .. }, ReportView::Switched(_)) => true,
            (Step::Wait(_), ReportView::Waited) => true,
            (Step::Check, ReportView::Gone(_)) => true,
            _ => false,
        }
    }

    /// How the run goes on. A port that can no longer be held down is passed
    /// over. Cutting stops at the first failure, since the cut is already void.
    /// Restoring tries every port regardless.
    pub open spec fn after(self, report: ReportView) -> SwitchingView {
        match (self.stage, report) {
            (Stage::Look(i), ReportView::Holdable(yes)) => if yes {
                SwitchingView { stage: Stage::CutHeld(i), ..self }
            } else {
                self.cutting(i + 1)
            },
            (Stage::CutHeld(i), ReportView::Switched(result)) => match result {
                Ok(()) => self.cutting(i + 1),
                Err(_) => self.noting(result).done_cutting(),
            },
            (Stage::CutPrimary, ReportView::Switched(result)) => if result is Ok && self.mode
                != Mode::Off {
                SwitchingView { stage: Stage::Wait, ..self }
            } else {
                self.noting(result).done_cutting()
            },
            (Stage::Wait, ReportView::Waited) => SwitchingView {
                stage: if self.mode == Mode::Cycle {
                    Stage::Check
                } else {
                    Stage::RestorePrimary
                },
                ..self
            },
            (Stage::Check, ReportView::Gone(gone)) => {
                let result = match gone {
                    Ok(true) => Ok(()),
                    Ok(false) => Err(ErrorView::PowerOffIneffective { port: self.primary }),
                    Err(e) => Err(e),
                };
                self.noting(result).done_cutting()
            },
            (Stage::RestorePrimary, ReportView::Switched(result)) => self.noting(
                result,
            ).restoring(0),
            (Stage::RestoreHeld(i), ReportView::Switched(result)) => self.noting(
                result,
            ).restoring(
                if self.mode == Mode::Blink {
                    self.held - i
                } else {
                    i + 1
                },
            ),
            _ => self,
        }
    }

    /// Whether the ports that the stage names are there.
    pub open spec fn wf(self) -> bool {
        match self.stage {
            Stage::Look(i) => i < self.held && self.mode != Mode::On && self.mode != Mode::Blink,
            Stage::CutHeld(i) => i < self.held && self.mode != Mode::On,
            Stage::RestoreHeld(i) => i < self.held && self.mode != Mode::Off,
            Stage::CutPrimary => self.mode != Mode::On,
            Stage::Wait => self.mode != Mode::On && self.mode != Mode::Off,
            Stage::Check => self.mode == Mode::Cycle,
            Stage::RestorePrimary => self.mode != Mode::Off,
            Stage::Finished => true,
        }
    }
}

/// A run of steps that switches the ports of one receptacle together.
#[derive(Debug)]
pub struct Switching {
    mode: Mode,
    held: usize,
    off_time: Span,
    primary: String,
    stage: Stage,
    failure: Option<Error>,
}

impl View for Switching {
    type V = SwitchingView;

    closed spec fn view(&self) -> SwitchingView {
        SwitchingView {
            mode: self.mode,
            held: self.held,
            off_time: self.off_time,
            primary: self.primary@,
            stage: self.stage,
            failure: match self.failure {
                Some(e) => Some(e@),
                None => None,
            },
        }
    }
}

impl Switching {
    #[verifier::type_invariant]
    closed spec fn inv(self) -> bool {
        self@.wf()
    }

    /// Begin a run over the primary, `primary` in words, and `held` ports held
    /// down alongside it.
    pub fn start(mode: Mode, held: usize, off_time: Span, primary: String) -> (run: Self)
        ensures
            run@ == SwitchingView::started(mode, held, off_time, primary@),
    {
        let stage: Stage = match mode {
            Mode::On => Stage::RestorePrimary,
            _ => Switching::cutting(mode, held, 0),
        };
        Switching { mode, held, off_time, primary, stage, failure: None }
    }

    fn cutting(mode: Mode, held: usize, i: usize) -> (stage: Stage)
        ensures
            stage == (if i >= held {
                Stage::CutPrimary
            } else if mode == Mode::Blink {
                Stage::CutHeld(i)
            } else {
                Stage::Look(i)
            }),
    {
        if i >= held {
            Stage::CutPrimary
        } else {
            match mode {
                Mode::Blink => Stage::CutHeld(i),
                _ => Stage::Look(i),
            }
        }
    }

    /// What to do next.
    pub fn step(&self) -> (step: Step)
        ensures
            step == self@.step(),
    {
        match self.stage {
            Stage::Look(i) => Step::Look(i),
            Stage::CutHeld(i) => Step::Switch { port: Which::Held(i), on: false },
            Stage::CutPrimary => Step::Switch { port: Which::Primary, on: false },
            Stage::Wait => Step::Wait(self.off_time),
            Stage::Check => Step::Check,
            Stage::RestorePrimary => Step::Switch { port: Which::Primary, on: true },
            Stage::RestoreHeld(i) => Step::Switch { port: Which::Held(i), on: true },
            Stage::Finished => Step::Finished,
        }
    }

    /// What came of the step that was due. A report about anything else changes
    /// nothing.
    pub fn report(self, report: Report) -> (next: Self)
        ensures
            next@ == self@.after(report@),
    {
        proof {
            use_type_invariant(&self);
        }
        let Switching { mode, held, off_time, primary, stage, failure } = self;
        let (next, found): (Stage, Option<Error>) = match (stage, report) {
            (Stage::Look(i), Report::Holdable(yes)) => {
                if yes {
                    (Stage::CutHeld(i), None)
                } else {
                    (Switching::cutting(mode, held, i + 1), None)
                }
            },
            (Stage::CutHeld(i), Report::Switched(result)) => match result {
                Ok(()) => (Switching::cutting(mode, held, i + 1), None),
                Err(e) => (Switching::done_cutting(mode), Some(e)),
            },
            (Stage::CutPrimary, Report::Switched(result)) => match result {
                Ok(()) => match mode {
                    Mode::Off => (Stage::Finished, None),
                    _ => (Stage::Wait, None),
                },
                Err(e) => (Switching::done_cutting(mode), Some(e)),
            },
            (Stage::Wait, Report::Waited) => match mode {
                Mode::Cycle => (Stage::Check, None),
                _ => (Stage::RestorePrimary, None),
            },
            (Stage::Check, Report::Gone(gone)) => match gone {
                Ok(true) => (Switching::done_cutting(mode), None),
                Ok(false) => (
                    Switching::done_cutting(mode),
                    Some(Error::PowerOffIneffective { port: primary.clone() }),
                ),
                Err(e) => (Switching::done_cutting(mode), Some(e)),
            },
            (Stage::RestorePrimary, Report::Switched(result)) => (
                Switching::restoring(mode, held, 0),
                match result {
                    Ok(()) => None,
                    Err(e) => Some(e),
                },
            ),
            (Stage::RestoreHeld(i), Report::Switched(result)) => (
                Switching::restoring(
                    mode,
                    held,
                    match mode {
                        Mode::Blink => held - i,
                        _ => i + 1,
                    },
                ),
                match result {
                    Ok(()) => None,
                    Err(e) => Some(e),
                },
            ),
            (stage, _) => (stage, None),
        };
        let failure: Option<Error> = match failure {
            Some(e) => Some(e),
            None => found,
        };
        Switching { mode, held, off_time, primary, stage: next, failure }
    }

    fn done_cutting(mode: Mode) -> (stage: Stage)
        ensures
            stage == (if mode == Mode::Off {
                Stage::Finished
            } else {
                Stage::RestorePrimary
            }),
    {
        match mode {
            Mode::Off => Stage::Finished,
            _ => Stage::RestorePrimary,
        }
    }

    fn restoring(mode: Mode, held: usize, done: usize) -> (stage: Stage)
        ensures
            stage == (if done >= held {
                Stage::Finished
            } else if mode == Mode::Blink {
                Stage::RestoreHeld((held - 1 - done) as usize)
            } else {
                Stage::RestoreHeld(done)
            }),
    {
        if done >= held {
            Stage::Finished
        } else {
            match mode {
                Mode::Blink => Stage::RestoreHeld(held - 1 - done),
                _ => Stage::RestoreHeld(done),
            }
        }
    }

    /// What came of the run: its first failure, if any.
    pub fn outcome(self) -> (outcome: Result<(), Error>)
        ensures
            match self@.failure {
                None => outcome is Ok,
                Some(e) => outcome is Err && outcome->Err_0@ == e,
            },
    {
        match self.failure {
            None => Ok(()),
            Some(e) => Err(e),
        }
    }
}

} // verus!
