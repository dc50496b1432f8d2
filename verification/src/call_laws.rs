//! What calls give back, told of the calls themselves.

use vstd::prelude::*;

use crate::command::timing;
use crate::cycle::{power_cycle, PowerCycle, PowerCycleView, SeekingView, Waiting};
use crate::device;
use crate::device::{find_device, wait_for_device, Device, DeviceId, WaitStep};
use crate::device_laws;
use crate::error::{Error, ErrorView};
use crate::pairs::{HubPairs, HubPairsView};
use crate::port::{HubPort, SysfsOutcome};
use crate::power::{PowerPorts, Search, SearchView};
use crate::probe::Cutting;
use crate::span;
use crate::span::Span;
use crate::switching::{Mode, Switching, Which};
use crate::usb::{hub_descriptor_request, port_power_request, ControlRequest, UsbError};

verus! {

// ---------------------------------------------------------------------------
// Requests
// ---------------------------------------------------------------------------

/// The requests that switch a port on and off differ in nothing but the request
/// itself: one sets and the other clears the feature `PORT_POWER` of that port.
pub proof fn law_a_port_is_switched_by_its_number(
    port: u8,
    on: ControlRequest,
    off: ControlRequest,
)
    requires
        call_ensures(port_power_request, (port, true), on),
        call_ensures(port_power_request, (port, false), off),
    ensures
        on.request == 3,
        off.request == 1,
        on.index == port,
        on.value == 8,
        on.request_type == 0x23,
        off == (ControlRequest { request: 1, ..on }),
{
}

/// The hub descriptor of a `SuperSpeed` hub has a type of its own; it is asked for
/// like that of any other hub.
pub proof fn law_a_hub_descriptor_is_asked_for_by_its_type(
    fast: ControlRequest,
    slow: ControlRequest,
)
    requires
        call_ensures(hub_descriptor_request, (true,), fast),
        call_ensures(hub_descriptor_request, (false,), slow),
    ensures
        fast.value == 0x2a * 256,
        slow.value == 0x29 * 256,
        fast.request_type == 0xa0,
        fast.request == 6,
        fast.index == 0,
        slow == (ControlRequest { value: 0x2900, ..fast }),
{
}

/// A port goes off where its `disable` attribute holds one, and on where it holds
/// zero. Where that route did not switch it, whether it failed or is not there, a
/// request to the same port follows, and only there.
pub proof fn law_the_second_route_follows_the_first(
    port: &HubPort,
    on: bool,
    value: &'static str,
    sysfs: &SysfsOutcome,
    request: Option<ControlRequest>,
    direct: ControlRequest,
)
    requires
        call_ensures(HubPort::disable_value, (on,), value),
        call_ensures(HubPort::fallback, (port, on, sysfs), request),
        call_ensures(port_power_request, (port@.port, on), direct),
    ensures
        on ==> value@ == "0"@,
        !on ==> value@ == "1"@,
        *sysfs is Written <==> request is None,
        request is Some ==> request == Some(direct),
{
}

// ---------------------------------------------------------------------------
// Waiting
// ---------------------------------------------------------------------------

/// A device that is on the bus is found, and it is the first that carries the
/// identity. One that is not is told apart from a bus that cannot be listed.
pub proof fn law_a_device_on_the_bus_is_found(
    id: &DeviceId,
    bus: &Result<Vec<Device>, UsbError>,
    found: Result<usize, Error>,
)
    requires
        call_ensures(find_device, (id, bus), found),
    ensures
        found is Ok <==> *bus is Ok && exists|i: int|
            0 <= i < bus->Ok_0@.len() && device::carries((#[trigger] bus->Ok_0@[i])@, id@),
        found matches Ok(i) ==> i < bus->Ok_0@.len() && device::carries(
            bus->Ok_0@[i as int]@,
            id@,
        ),
        found matches Ok(i) ==> forall|j: int|
            0 <= j < i ==> !device::carries((#[trigger] bus->Ok_0@[j])@, id@),
        found matches Err(e) ==> e@ == (match *bus {
            Ok(_) => ErrorView::NotFound { device: id@ },
            Err(e) => ErrorView::Usb(e),
        }),
{
}

/// How a wait goes on. A device that is on the bus is back, however long that
/// took. Otherwise it is looked for again 50 ms later as long as the time is not
/// over, and given up once it is.
pub proof fn law_how_a_wait_goes_on(
    id: &DeviceId,
    bus: &Result<Vec<Device>, UsbError>,
    waited: Span,
    timeout: Span,
    step: WaitStep,
)
    requires
        waited.wf(),
        timeout.wf(),
        call_ensures(wait_for_device, (id, bus, waited, timeout), step),
    ensures
        ({
            let there = *bus is Ok && exists|i: int|
                0 <= i < bus->Ok_0@.len() && device::carries((#[trigger] bus->Ok_0@[i])@, id@);
            let spent = waited.secs * 1_000_000_000 + waited.nanos;
            let allowed = timeout.secs * 1_000_000_000 + timeout.nanos;
            &&& step is Back <==> there
            &&& step is Again <==> !there && spent < allowed
            &&& step is GiveUp <==> !there && spent >= allowed
            &&& step matches WaitStep::Back(i) ==> device::carries(bus->Ok_0@[i as int]@, id@)
            &&& step matches WaitStep::Again(span) ==> span.secs * 1_000_000_000 + span.nanos
                == 50_000_000
            &&& step matches WaitStep::GiveUp(e) ==> e@ == (ErrorView::NotBack { device: id@ })
        }),
{
}

/// A power cycle that waits does so for its own device, and no longer than it was
/// told to.
pub proof fn law_a_power_cycle_waits_like_any_other(
    waiting: &Waiting,
    bus: &Result<Vec<Device>, UsbError>,
    waited: Span,
    step: WaitStep,
)
    requires
        waited.wf(),
        waiting@.back_timeout.wf(),
        call_ensures(Waiting::look, (waiting, bus, waited), step),
    ensures
        ({
            let there = *bus is Ok && exists|i: int|
                0 <= i < bus->Ok_0@.len() && device::carries(
                    (#[trigger] bus->Ok_0@[i])@,
                    waiting@.device,
                );
            let spent = waited.secs * 1_000_000_000 + waited.nanos;
            let allowed = waiting@.back_timeout.secs * 1_000_000_000 + waiting@.back_timeout.nanos;
            &&& step is Back <==> there
            &&& step is Again <==> !there && spent < allowed
            &&& step is GiveUp <==> !there && spent >= allowed
            &&& step matches WaitStep::GiveUp(e) ==> e@ == (ErrorView::NotBack {
                device: waiting@.device,
            })
        }),
{
}

/// A power cycle is about the device itself, not a hub above it, and keeps to both
/// times that it was given.
pub proof fn law_a_power_cycle_is_about_the_device<'a>(
    id: &DeviceId,
    pairs: &HubPairs,
    off_time: Span,
    back_timeout: Span,
    bus: &'a Result<Vec<Device>, UsbError>,
    cycle: PowerCycle<'a>,
    search: Search<'a>,
)
    requires
        call_ensures(power_cycle, (id, pairs, off_time, back_timeout, bus), cycle),
        call_ensures(PowerPorts::find_above, (id, 0u8, pairs, bus), search),
    ensures
        search@ !is Done ==> cycle@ == PowerCycleView::Seek(
            SeekingView { search: search@, device: id@, off_time, back_timeout },
        ),
        search@ matches SearchView::Done(Err(e)) ==> cycle@ == PowerCycleView::Failed(e),
{
}

/// The parts of a cycle are timed from one to the next, and the whole from its
/// beginning.
pub proof fn law_parts_are_timed_from_one_to_the_next(
    found: Span,
    cycled: Span,
    back: Span,
    now: Span,
    off_time: Span,
    s: String,
)
    requires
        call_ensures(timing, (found, cycled, back, now, off_time), s),
    ensures
        ({
            let switching = cycled.minus(found);
            let waiting = back.minus(cycled);
            s@ == "find "@ + span::duration_debug(found.secs, found.nanos) + ", cycle "@
                + span::duration_debug(switching.secs, switching.nanos) + " (off "@
                + span::duration_debug(off_time.secs, off_time.nanos) + "), re-enumerate "@
                + span::duration_debug(waiting.secs, waiting.nanos) + ", total "@
                + span::duration_debug(now.secs, now.nanos)
        }),
{
}

// ---------------------------------------------------------------------------
// Spans
// ---------------------------------------------------------------------------

/// How spans compare, in nanoseconds.
pub proof fn law_spans_compare_as_their_lengths(
    millis: u64,
    a: Span,
    b: Span,
    made: Span,
    shorter: bool,
    longer: Span,
)
    requires
        call_ensures(Span::from_millis, (millis,), made),
        call_ensures(Span::is_shorter, (a, b), shorter),
        call_ensures(Span::longer, (a, b), longer),
    ensures
        made.nanos < 1_000_000_000,
        made.secs * 1_000_000_000 + made.nanos == millis * 1_000_000,
        shorter <==> a.secs * 1_000_000_000 + a.nanos < b.secs * 1_000_000_000 + b.nanos,
        longer == a || longer == b,
        longer.secs * 1_000_000_000 + longer.nanos >= a.secs * 1_000_000_000 + a.nanos,
        longer.secs * 1_000_000_000 + longer.nanos >= b.secs * 1_000_000_000 + b.nanos,
{
}

// ---------------------------------------------------------------------------
// Switching
// ---------------------------------------------------------------------------

/// What is switched are the ports that were found: the primary, and every port held
/// down with it. Switching off and on takes no time of its own, and a cycle keeps
/// the ports off for as long as asked for at least.
pub proof fn law_found_ports_are_what_is_switched(
    ports: &PowerPorts,
    on: bool,
    off_time: Span,
    run: Switching,
    cycle: Switching,
)
    requires
        off_time.wf(),
        ports@.held.len() <= usize::MAX,
        call_ensures(PowerPorts::set_power, (ports, on), run),
        call_ensures(PowerPorts::cycle, (ports, off_time), cycle),
    ensures
        run@.mode == (if on {
            Mode::On
        } else {
            Mode::Off
        }),
        run@.held == ports@.held.len(),
        run@.primary == ports@.primary.text(),
        run@.failure is None,
        cycle@.mode == Mode::Cycle,
        cycle@.held == ports@.held.len(),
        cycle@.primary == ports@.primary.text(),
        cycle@.failure is None,
        cycle@.off_time.in_nanos() >= off_time.in_nanos(),
        ports@.held.len() > 0 || device_laws::version_number(ports@.primary.hub.version)
            >= 0x030000 ==> cycle@.off_time.in_nanos() >= 200_000_000,
{
}

/// A port that a step names is one of those found.
pub proof fn law_a_step_names_a_found_port(
    ports: &PowerPorts,
    i: usize,
    primary: Option<&HubPort>,
    held: Option<&HubPort>,
)
    requires
        call_ensures(PowerPorts::port, (ports, Which::Primary), primary),
        call_ensures(PowerPorts::port, (ports, Which::Held(i)), held),
    ensures
        primary is Some && primary->0@ == ports@.primary,
        held is Some <==> i < ports@.held.len(),
        held is Some ==> held->0@ == ports@.held[i as int],
{
}

/// A port that a step of a probe names is one that its plan cuts: the probed port
/// is the last of them.
pub proof fn law_a_probe_names_a_port_of_its_plan(
    cutting: &Cutting,
    i: usize,
    primary: Option<&HubPort>,
    held: Option<&HubPort>,
)
    requires
        call_ensures(Cutting::port, (cutting, Which::Primary), primary),
        call_ensures(Cutting::port, (cutting, Which::Held(i)), held),
    ensures
        ({
            let ports = cutting@.plan.steps[cutting@.plan.i].ports;
            &&& primary is Some && primary->0@ == ports[ports.len() - 1]
            &&& held is Some <==> i < ports.len() - 1
            &&& held is Some ==> held->0@ == ports[i as int]
        }),
{
}

/// The outcome of a run is what went wrong in it, and it succeeds where nothing
/// did.
pub proof fn law_the_outcome_is_what_went_wrong(run: Switching, outcome: Result<(), Error>)
    requires
        call_ensures(Switching::outcome, (run,), outcome),
    ensures
        outcome is Ok <==> run@.failure is None,
        outcome matches Err(e) ==> run@.failure == Some(e@),
{
}

// ---------------------------------------------------------------------------
// Declarations
// ---------------------------------------------------------------------------

/// Declarations build up: a pair and a hub that has no other half come behind what
/// was declared before, and neither takes anything away.
pub proof fn law_declarations_build_up(
    none: HubPairs,
    before: HubPairs,
    a: &str,
    b: &str,
    pair: HubPairs,
    alone: HubPairs,
)
    requires
        call_ensures(HubPairs::none, (), none),
        call_ensures(HubPairs::pair, (before, a, b), pair),
        call_ensures(HubPairs::alone, (before, a), alone),
    ensures
        none@ == (HubPairsView { pairs: Seq::empty(), alone: Seq::empty() }),
        pair@ == (HubPairsView {
            pairs: before@.pairs + seq![(a@, b@)],
            alone: before@.alone,
        }),
        alone@ == (HubPairsView { pairs: before@.pairs, alone: before@.alone + seq![a@] }),
{
    assert(pair@.pairs =~= before@.pairs + seq![(a@, b@)]);
    assert(alone@.alone =~= before@.alone + seq![a@]);
}

/// A file that cannot be read is named, with the reason.
pub proof fn law_an_unreadable_file_is_named(
    path: &str,
    reason: String,
    loaded: Result<HubPairs, Error>,
)
    requires
        call_ensures(HubPairs::load, (path, Err::<String, String>(reason)), loaded),
    ensures
        loaded matches Err(e) && e@ == (ErrorView::PairsUnreadable {
            path: path@,
            source: reason@,
        }),
{
}

} // verus!
