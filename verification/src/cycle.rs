//! Power-cycling a device from beginning to end: find its ports, cycle them, and
//! wait for the device to re-enumerate.

use vstd::prelude::*;

use crate::device;
use crate::device::{wait_for_device, Device, DeviceId, DeviceIdView, WaitStep};
use crate::error::{Error, ErrorView};
use crate::pairs::HubPairs;
use crate::port::{Socket, SocketView};
use crate::power;
use crate::power::{HubAnswer, HubAnswerView, PowerPorts, PowerPortsView, Search, SearchView};
use crate::power_laws;
use crate::power_laws::Still;
use crate::span::Span;
use crate::switching::{Mode, Report, ReportView, Step, Switching, SwitchingView, Which};
use crate::switching_laws;
use crate::usb::UsbError;

verus! {

/// A cycle whose ports are still searched for.
pub struct Seeking<'a> {
    search: Search<'a>,
    device: DeviceId,
    off_time: Span,
    back_timeout: Span,
}

/// What a [`Seeking`] holds.
pub struct SeekingView {
    /// The search.
    pub search: SearchView,
    /// The device.
    pub device: DeviceIdView,
    /// How long to leave it off.
    pub off_time: Span,
    /// How long to wait for it to come back.
    pub back_timeout: Span,
}

impl<'a> View for Seeking<'a> {
    type V = SeekingView;

    closed spec fn view(&self) -> SeekingView {
        SeekingView {
            search: self.search@,
            device: self.device@,
            off_time: self.off_time,
            back_timeout: self.back_timeout,
        }
    }
}

/// A cycle that switches the ports it found.
#[derive(Debug)]
pub struct Cycling {
    ports: PowerPorts,
    run: Switching,
    device: DeviceId,
    back_timeout: Span,
}

/// What a [`Cycling`] holds.
pub struct CyclingView {
    /// The ports.
    pub ports: PowerPortsView,
    /// The steps that switch them.
    pub run: SwitchingView,
    /// The device.
    pub device: DeviceIdView,
    /// How long to wait for it to come back.
    pub back_timeout: Span,
}

impl View for Cycling {
    type V = CyclingView;

    closed spec fn view(&self) -> CyclingView {
        CyclingView {
            ports: self.ports@,
            run: self.run@,
            device: self.device@,
            back_timeout: self.back_timeout,
        }
    }
}

/// A cycle that waits for the device to come back.
#[derive(Debug)]
pub struct Waiting {
    device: DeviceId,
    back_timeout: Span,
}

/// What a [`Waiting`] holds.
pub struct WaitingView {
    /// The device.
    pub device: DeviceIdView,
    /// How long to wait for it.
    pub back_timeout: Span,
}

impl View for Waiting {
    type V = WaitingView;

    closed spec fn view(&self) -> WaitingView {
        WaitingView { device: self.device@, back_timeout: self.back_timeout }
    }
}

/// How far a cycle has come. The steps must happen in this order: the device
/// cannot be looked up while its VBUS is off.
pub enum PowerCycle<'a> {
    /// The ports are searched for.
    Seek(Seeking<'a>),
    /// The ports are switched.
    Switch(Cycling),
    /// The device is waited for.
    Wait(Waiting),
    /// It failed.
    Failed(Error),
}

/// What a [`PowerCycle`] holds.
pub enum PowerCycleView {
    /// The ports are searched for.
    Seek(SeekingView),
    /// The ports are switched.
    Switch(CyclingView),
    /// The device is waited for.
    Wait(WaitingView),
    /// It failed.
    Failed(ErrorView),
}

impl<'a> View for PowerCycle<'a> {
    type V = PowerCycleView;

    open spec fn view(&self) -> PowerCycleView {
        match *self {
            PowerCycle::Seek(c) => PowerCycleView::Seek(c@),
            PowerCycle::Switch(c) => PowerCycleView::Switch(c@),
            PowerCycle::Wait(c) => PowerCycleView::Wait(c@),
            PowerCycle::Failed(e) => PowerCycleView::Failed(e@),
        }
    }
}

impl SeekingView {
    /// Go on with a search: once it is over, the ports are switched, or the
    /// cycle has failed.
    pub open spec fn with(self, search: SearchView) -> PowerCycleView {
        match search {
            SearchView::Done(Ok(ports)) => PowerCycleView::Switch(
                CyclingView {
                    ports,
                    run: SwitchingView::started(
                        Mode::Cycle,
                        ports.held.len() as usize,
                        ports.settled(self.off_time),
                        ports.primary.text(),
                    ),
                    device: self.device,
                    back_timeout: self.back_timeout,
                },
            ),
            SearchView::Done(Err(e)) => PowerCycleView::Failed(e),
            _ => PowerCycleView::Seek(SeekingView { search, ..self }),
        }
    }

    /// A hub was opened. Changes nothing where the search did not ask for one.
    pub open spec fn opened(self, answer: HubAnswerView) -> PowerCycleView {
        match self.search {
            SearchView::OpenHub(q) => self.with(q.answered(answer)),
            search => self.with(search),
        }
    }

    /// Two ports were looked at. Changes nothing where the search did not ask
    /// for that.
    pub open spec fn looked(self, peer: SocketView, primary: SocketView) -> PowerCycleView {
        match self.search {
            SearchView::LookAt(q) => self.with(q.answered(peer, primary)),
            search => self.with(search),
        }
    }
}

impl CyclingView {
    /// A step was taken. Once the last one was, the device is waited for, unless
    /// something went wrong.
    pub open spec fn reported(self, report: ReportView) -> PowerCycleView {
        let run = self.run.after(report);
        if run.step() != Step::Finished {
            PowerCycleView::Switch(CyclingView { run, ..self })
        } else {
            match run.failure {
                Some(e) => PowerCycleView::Failed(e),
                None => PowerCycleView::Wait(
                    WaitingView { device: self.device, back_timeout: self.back_timeout },
                ),
            }
        }
    }
}

/// Find the port(s) associated with the given device, power-cycle them and wait
/// up to `back_timeout` for it to re-enumerate.
///
/// The device is identified by a [`DeviceId`], where a `None` serial matches on
/// vendor and product alone. `pairs` declares which hubs share receptacles where
/// the bus cannot tell - [`HubPairs::none`] on a board that needs nothing
/// declared. `bus` is what enumerating the bus gave.
///
/// Fails with anything that [`PowerPorts::find`], [`PowerPorts::cycle`] or
/// [`wait_for_device`] can give.
pub fn power_cycle<'a>(
    device: &DeviceId,
    pairs: &HubPairs,
    off_time: Span,
    back_timeout: Span,
    bus: &'a Result<Vec<Device>, UsbError>,
) -> (cycle: PowerCycle<'a>)
    requires
        power::within_tiers(power::bus_view(*bus)),
        off_time.wf(),
        back_timeout.wf(),
    ensures
        cycle@ == (SeekingView {
            search: power::started(device@, 0, pairs@, power::bus_view(*bus)),
            device: device@,
            off_time,
            back_timeout,
        }).with(power::started(device@, 0, pairs@, power::bus_view(*bus))),
{
    let search: Search<'a> = PowerPorts::find(device, pairs, bus);
    Seeking::with(search, device.copy(), off_time, back_timeout)
}

impl<'a> Seeking<'a> {
    #[verifier::type_invariant]
    closed spec fn inv(self) -> bool {
        self.off_time.wf() && self.back_timeout.wf()
    }

    /// Go on with a search.
    fn with(search: Search<'a>, device: DeviceId, off_time: Span, back_timeout: Span) -> (cycle:
        PowerCycle<'a>)
        requires
            off_time.wf(),
            back_timeout.wf(),
        ensures
            forall|s: SeekingView|
                s.device == device@ && s.off_time == off_time && s.back_timeout == back_timeout
                    ==> cycle@ == #[trigger] s.with(search@),
    {
        match search {
            Search::Done(Ok(ports)) => {
                let run: Switching = ports.cycle(off_time);
                PowerCycle::Switch(Cycling { ports, run, device, back_timeout })
            },
            Search::Done(Err(e)) => PowerCycle::Failed(e),
            search => PowerCycle::Seek(Seeking { search, device, off_time, back_timeout }),
        }
    }

    /// What the search asks for.
    pub fn search(&self) -> (search: &Search<'a>)
        ensures
            search@ == self@.search,
    {
        &self.search
    }

    /// What came of opening the hub that the search asks for.
    pub fn opened(self, answer: &HubAnswer) -> (cycle: PowerCycle<'a>)
        ensures
            cycle@ == self@.opened(answer@),
    {
        proof {
            use_type_invariant(&self);
        }
        let Seeking { search, device, off_time, back_timeout } = self;
        let search: Search<'a> = match search {
            Search::OpenHub(question) => question.answer(answer),
            search => search,
        };
        Seeking::with(search, device, off_time, back_timeout)
    }

    /// What is plugged into the ports that the search asks for.
    pub fn looked(self, peer: &Socket, primary: &Socket) -> (cycle: PowerCycle<'a>)
        ensures
            cycle@ == self@.looked(peer@, primary@),
    {
        proof {
            use_type_invariant(&self);
        }
        let Seeking { search, device, off_time, back_timeout } = self;
        let search: Search<'a> = match search {
            Search::LookAt(question) => question.answer(peer, primary),
            search => search,
        };
        Seeking::with(search, device, off_time, back_timeout)
    }
}

impl Cycling {
    #[verifier::type_invariant]
    closed spec fn inv(self) -> bool {
        self.back_timeout.wf()
    }

    /// The ports.
    pub fn ports(&self) -> (ports: &PowerPorts)
        ensures
            ports@ == self@.ports,
    {
        &self.ports
    }

    /// The step to take.
    pub fn step(&self) -> (step: Step)
        ensures
            step == self@.run.step(),
    {
        self.run.step()
    }

    /// What came of the step.
    pub fn report<'a>(self, report: Report) -> (cycle: PowerCycle<'a>)
        ensures
            cycle@ == self@.reported(report@),
    {
        proof {
            use_type_invariant(&self);
        }
        let Cycling { ports, run, device, back_timeout } = self;
        let run: Switching = run.report(report);
        match run.step() {
            Step::Finished => match run.outcome() {
                Err(e) => PowerCycle::Failed(e),
                Ok(()) => PowerCycle::Wait(Waiting { device, back_timeout }),
            },
            _ => PowerCycle::Switch(Cycling { ports, run, device, back_timeout }),
        }
    }
}

impl Waiting {
    #[verifier::type_invariant]
    closed spec fn inv(self) -> bool {
        self.back_timeout.wf()
    }

    /// What to do once `bus` was enumerated and `waited` has passed since the
    /// wait began.
    pub fn look(&self, bus: &Result<Vec<Device>, UsbError>, waited: Span) -> (step: WaitStep)
        requires
            waited.wf(),
        ensures
            match step {
                WaitStep::Back(i) => {
                    &&& bus is Ok
                    &&& i < bus->Ok_0@.len()
                    &&& device::carries(bus->Ok_0@[i as int]@, self@.device)
                    &&& forall|j: int|
                        0 <= j < i ==> !device::carries(
                            (#[trigger] bus->Ok_0@[j])@,
                            self@.device,
                        )
                },
                _ => match *bus {
                    Ok(devices) => forall|j: int|
                        0 <= j < devices@.len() ==> !device::carries(
                            (#[trigger] devices@[j])@,
                            self@.device,
                        ),
                    Err(_) => true,
                },
            },
            match step {
                WaitStep::Back(_) => true,
                WaitStep::GiveUp(e) => {
                    &&& waited.in_nanos() >= self@.back_timeout.in_nanos()
                    &&& e@ == (ErrorView::NotBack { device: self@.device })
                },
                WaitStep::Again(span) => {
                    &&& waited.in_nanos() < self@.back_timeout.in_nanos()
                    &&& span.wf()
                    &&& span.in_nanos() == 50_000_000
                },
            },
    {
        proof {
            use_type_invariant(self);
        }
        wait_for_device(&self.device, bus, waited, self.back_timeout)
    }
}

// ---------------------------------------------------------------------------
// Laws
// ---------------------------------------------------------------------------

/// How far a cycle has come after reports on the steps that switch its ports.
pub open spec fn switched(cycling: CyclingView, reports: Seq<ReportView>) -> PowerCycleView
    decreases reports.len(),
{
    if reports.len() == 0 {
        PowerCycleView::Switch(cycling)
    } else {
        match switched(cycling, reports.drop_last()) {
            PowerCycleView::Switch(c) => c.reported(reports.last()),
            c => c,
        }
    }
}

proof fn lemma_switched(cycling: CyclingView, reports: Seq<ReportView>)
    requires
        switching_laws::faithful(cycling.run, reports),
        cycling.run.step() != Step::Finished,
    ensures
        ({
            let run = switching_laws::ran(cycling.run, reports);
            match switched(cycling, reports) {
                PowerCycleView::Switch(c) => c == (CyclingView { run, ..cycling }) && run.step()
                    != Step::Finished,
                PowerCycleView::Wait(_) => run.step() == Step::Finished && run.failure is None,
                PowerCycleView::Failed(e) => run.step() == Step::Finished && run.failure == Some(
                    e,
                ),
                _ => false,
            }
        }),
    decreases reports.len(),
{
    if reports.len() > 0 {
        let fewer = reports.drop_last();
        assert(reports.take(reports.len() - 1) =~= fewer);
        assert(switching_laws::ran(cycling.run, fewer).awaits(reports[reports.len() - 1]));
        assert forall|i: int| 0 <= i < fewer.len() implies switching_laws::ran(
            cycling.run,
            #[trigger] fewer.take(i),
        ).awaits(fewer[i]) by {
            assert(reports.take(i) =~= fewer.take(i));
        }
        lemma_switched(cycling, fewer);
    }
}

/// However the switching of its ports turns out, a cycle that is done with it
/// has restored every one of them. Where it then waits for the device, the
/// device was seen to leave the bus; where it failed, the error is the first
/// thing that went wrong.
pub proof fn law_a_cycle_restores_power(
    seeking: SeekingView,
    ports: PowerPortsView,
    reports: Seq<ReportView>,
    port: Which,
)
    requires
        ({
            let begun = seeking.with(SearchView::Done(Ok(ports)));
            let run = begun->Switch_0.run;
            &&& switching_laws::faithful(run, reports)
            &&& switching_laws::switches(run, port)
            &&& switched(begun->Switch_0, reports) !is Switch
        }),
    ensures
        ({
            let cycling = seeking.with(SearchView::Done(Ok(ports)))->Switch_0;
            let run = cycling.run;
            let after = switched(cycling, reports);
            &&& after is Wait || after is Failed
            &&& exists|b: int|
                {
                    &&& 0 <= b < reports.len()
                    &&& #[trigger] switching_laws::taken(run, reports, b)
                        == switching_laws::restore_of(port)
                    &&& forall|a: int, other: Which|
                        0 <= a < reports.len() && #[trigger] switching_laws::taken(run, reports, a)
                            == #[trigger] switching_laws::cut_of(other) ==> a < b
                }
            &&& after is Wait ==> switching_laws::happened(
                run,
                reports,
                Step::Check,
                ReportView::Gone(Ok(true)),
            )
            &&& after is Failed ==> switching_laws::first_failure(run, reports) == Some(
                after->Failed_0,
            )
        }),
{
    let cycling = seeking.with(SearchView::Done(Ok(ports)))->Switch_0;
    let held = ports.held.len() as usize;
    let off_time = ports.settled(seeking.off_time);
    lemma_switched(cycling, reports);
    switching_laws::law_no_port_is_left_off(
        Mode::Cycle,
        held,
        off_time,
        ports.primary.text(),
        reports,
        port,
    );
    switching_laws::law_the_first_failure_is_reported(
        Mode::Cycle,
        held,
        off_time,
        ports.primary.text(),
        reports,
    );
    if switching_laws::ran(cycling.run, reports).failure is None {
        switching_laws::law_success_means_the_device_left(
            held,
            off_time,
            ports.primary.text(),
            reports,
        );
    }
}

/// Where a power cycle stands once a bus that stands still has answered every
/// question of its search.
pub open spec fn sought(seeking: SeekingView, bus: Still) -> PowerCycleView
    decreases power_laws::questions_left(seeking.search),
{
    let next = match seeking.search {
        SearchView::OpenHub(q) => seeking.opened((bus.hub)(q.location)),
        SearchView::LookAt(q) => seeking.looked(
            (bus.socket)(q.peer.child_location()),
            (bus.socket)(q.primary.child_location()),
        ),
        SearchView::Done(_) => seeking.with(seeking.search),
    };
    match next {
        PowerCycleView::Seek(more) => if power_laws::questions_left(more.search)
            < power_laws::questions_left(seeking.search) {
            sought(more, bus)
        } else {
            next
        },
        _ => next,
    }
}

/// A power cycle switches what its search finds, and fails as its search fails.
/// What is found is cut for as long as was asked for, or as long as a `SuperSpeed`
/// port needs.
pub proof fn law_a_power_cycle_switches_what_is_found(seeking: SeekingView, bus: Still)
    ensures
        match power_laws::concluded(seeking.search, bus) {
            Err(e) => sought(seeking, bus) == PowerCycleView::Failed(e),
            Ok(ports) => sought(seeking, bus) matches PowerCycleView::Switch(c) && {
                &&& c.ports == ports
                &&& c.device == seeking.device
                &&& c.back_timeout == seeking.back_timeout
                &&& c.run.mode == Mode::Cycle
                &&& c.run.held == ports.held.len() as usize
                &&& c.run.off_time == ports.settled(seeking.off_time)
                &&& c.run.primary == ports.primary.text()
                &&& c.run.failure is None
            },
        },
    decreases power_laws::questions_left(seeking.search),
{
    power_laws::law_a_search_ends(seeking.search);
    match seeking.search {
        SearchView::OpenHub(q) => {
            let search = q.answered((bus.hub)(q.location));
            assert(power_laws::questions_left(search) < power_laws::questions_left(seeking.search));
            law_a_power_cycle_switches_what_is_found(SeekingView { search, ..seeking }, bus);
        },
        SearchView::LookAt(q) => {
            let search = q.answered(
                (bus.socket)(q.peer.child_location()),
                (bus.socket)(q.primary.child_location()),
            );
            assert(power_laws::questions_left(search) < power_laws::questions_left(seeking.search));
            law_a_power_cycle_switches_what_is_found(SeekingView { search, ..seeking }, bus);
        },
        SearchView::Done(_) => {},
    }
}

/// Once the ports are restored, a power cycle waits for the device that was asked
/// for, as long as was asked for, unless something went wrong; until then it goes
/// on switching the same ports.
pub proof fn law_a_power_cycle_waits_for_its_device(cycling: CyclingView, report: ReportView)
    ensures
        ({
            let run = cycling.run.after(report);
            let next = cycling.reported(report);
            &&& run.step() != Step::Finished ==> next == PowerCycleView::Switch(
                CyclingView {
                    ports: cycling.ports,
                    run,
                    device: cycling.device,
                    back_timeout: cycling.back_timeout,
                },
            )
            &&& run.step() == Step::Finished && run.failure is None ==> next
                == PowerCycleView::Wait(
                WaitingView { device: cycling.device, back_timeout: cycling.back_timeout },
            )
            &&& run.step() == Step::Finished && run.failure is Some ==> next
                == PowerCycleView::Failed(run.failure->0)
        }),
{
}

} // verus!
