//! What a probe makes of the bus and of what it is told.

use vstd::prelude::*;
use vstd::seq_lib::*;

use crate::device::DeviceView;
use crate::device_laws;
use crate::error::ErrorView;
use crate::hub;
use crate::hub::HubView;
use crate::pairing;
use crate::pairing::{PairingView, VerdictView};
use crate::pairs::HubPairsView;
use crate::port;
use crate::port::{HubPortView, SocketView};
use crate::power::HubAnswerView;
use crate::power_laws::Still;
use crate::probe;
use crate::probe::{
    Answer, AskingView, CutView, CuttingView, EndedView, LookingView, OpeningView, PlanView,
    ProbeView, SurveyView,
};
use crate::probe_laws;
use crate::span;
use crate::span::Span;
use crate::switching::{Mode, ReportView, Stage, Step};
use crate::sysfs;
use crate::text;
use crate::text_laws;
use crate::usb::UsbError;

verus! {

// ---------------------------------------------------------------------------
// Asking the bus
// ---------------------------------------------------------------------------

/// How much of the bus a probe has still to be told of.
pub open spec fn to_be_told(p: ProbeView) -> nat {
    match p {
        ProbeView::OpenHub(q) => q.hubs.len() + 3,
        ProbeView::LookAt(q) => q.hubs.len() + 2,
        ProbeView::Survey(q) => q.candidates.len() + 1,
        _ => 0,
    }
}

/// Where a probe stands once a bus that stands still has told it everything.
pub open spec fn told_all(p: ProbeView, bus: Still) -> ProbeView
    decreases to_be_told(p),
    via told_all_decreases
{
    match p {
        ProbeView::OpenHub(q) => told_all(q.answered((bus.hub)(q.hub)), bus),
        ProbeView::LookAt(q) => told_all(
            q.answered((bus.socket)(q.probed.child_location())),
            bus,
        ),
        ProbeView::Survey(q) => if q.candidates.len() > 0 {
            let dev = q.candidates[0];
            told_all(
                q.answered(
                    (bus.hub)(dev.location()),
                    (bus.socket)(
                        sysfs::location_below(dev.location(), dev.bus, q.probed.port),
                    ),
                    (bus.socket)(q.probed.child_location()),
                ),
                bus,
            )
        } else {
            q.next()
        },
        _ => p,
    }
}

#[via_fn]
proof fn told_all_decreases(p: ProbeView, bus: Still) {
    match p {
        ProbeView::LookAt(q) => {
            lemma_filter_len(
                q.hubs,
                |d: DeviceView| probe::may_pair(d, q.pairing, q.probed.hub),
            );
        },
        _ => {},
    }
}

proof fn lemma_filter_len(list: Seq<DeviceView>, keep: spec_fn(DeviceView) -> bool)
    ensures
        list.filter(keep).len() <= list.len(),
    decreases list.len(),
{
    reveal(Seq::filter);
    if list.len() > 0 {
        lemma_filter_len(list.drop_last(), keep);
    }
}

proof fn lemma_filtered(list: Seq<DeviceView>, keep: spec_fn(DeviceView) -> bool, d: DeviceView)
    ensures
        list.filter(keep).contains(d) <==> list.contains(d) && keep(d),
    decreases list.len(),
{
    reveal(Seq::filter);
    if list.len() > 0 {
        let fewer = list.drop_last();
        lemma_filtered(fewer, keep, d);
        let kept = list.filter(keep);
        let less = fewer.filter(keep);
        assert(list[list.len() - 1] == list.last());
        if list.contains(d) {
            let i = choose|i: int| 0 <= i < list.len() && list[i] == d;
            if i < fewer.len() {
                assert(fewer[i] == d);
            }
        }
        if fewer.contains(d) {
            let i = choose|i: int| 0 <= i < fewer.len() && fewer[i] == d;
            assert(list[i] == d);
        }
        if keep(list.last()) {
            assert(kept == less.push(list.last()));
            assert(kept[kept.len() - 1] == list.last());
            if kept.contains(d) {
                let i = choose|i: int| 0 <= i < kept.len() && kept[i] == d;
                if i < less.len() {
                    assert(less[i] == d);
                }
            }
            if less.contains(d) {
                let i = choose|i: int| 0 <= i < less.len() && less[i] == d;
                assert(kept[i] == d);
            }
        }
    }
}

/// The pairing of the hubs among devices.
pub open spec fn pairing_of(devices: Seq<DeviceView>, pairs: HubPairsView) -> PairingView {
    pairing::paired(pairing::nodes_of(hub::hubs_among(devices)), pairs)
}

/// What a hub on the bus opens to.
pub open spec fn opens_to(dev: DeviceView, bus: Still) -> Result<HubView, ErrorView> {
    hub::opened(dev, (bus.hub)(dev.location()).reply)
}

/// Whether a device may be the other half of the hub of the probed port: it is
/// another hub, a root hub or not, whose own other half is not known, of the
/// opposite speed; it opens, switches power per port and has a port of the probed
/// number, which can be held down alongside the probed one.
pub open spec fn may_be_other_half(
    dev: DeviceView,
    probed: HubPortView,
    pairing: PairingView,
    bus: Still,
) -> bool {
    &&& dev.location() != probed.hub.location
    &&& pairing.verdict(dev.location()) is Unpaired || pairing.verdict(dev.location()) is Usb2Hub
    &&& dev.descriptor matches Ok(desc) && (device_laws::version_number(desc.version) >= 0x030000)
        != (device_laws::version_number(probed.hub.version) >= 0x030000)
    &&& opens_to(dev, bus) matches Ok(hub) && hub.per_port_power && probed.port <= hub.nports
    &&& (bus.hub)(dev.location()).config is Ok
    &&& port::holdable(
        (bus.socket)(sysfs::location_below(dev.location(), dev.bus, probed.port)),
        (bus.socket)(
            sysfs::location_below(probed.hub.location, probed.hub.bus, probed.port),
        ),
    )
}

/// The port of a device that has the probed number.
pub open spec fn port_like(dev: DeviceView, probed: HubPortView, bus: Still) -> HubPortView {
    HubPortView {
        hub: opens_to(dev, bus)->Ok_0,
        port: probed.port,
        dir: opens_to(dev, bus)->Ok_0.port_dir(
            probed.port,
            (bus.hub)(dev.location()).config->Ok_0,
        ),
    }
}

/// The ports that a survey of hubs accepts.
spec fn all_accepted(
    candidates: Seq<DeviceView>,
    probed: HubPortView,
    bus: Still,
) -> Seq<HubPortView>
    decreases candidates.len(),
{
    if candidates.len() == 0 {
        Seq::empty()
    } else {
        let dev = candidates[0];
        let rest = all_accepted(candidates.drop_first(), probed, bus);
        match probe::accepted(
            dev,
            (bus.hub)(dev.location()),
            (bus.socket)(sysfs::location_below(dev.location(), dev.bus, probed.port)),
            (bus.socket)(probed.child_location()),
            probed,
        ) {
            Some(port) => seq![port] + rest,
            None => rest,
        }
    }
}

proof fn lemma_surveyed(s: SurveyView, bus: Still)
    ensures
        told_all(s.next(), bus) matches ProbeView::Ask(a) && {
            &&& a.plan == (PlanView {
                steps: probe::planned(
                    s.probed,
                    s.accepted + all_accepted(s.candidates, s.probed, bus),
                ),
                probed: s.probed,
                off_time: s.off_time,
                i: 0,
            })
            &&& !a.restored
            &&& a.say == probe::plan_text(
                a.plan.steps,
                s.probed,
                span::duration_debug(s.off_time.secs, s.off_time.nanos),
            )
        },
    decreases s.candidates.len(),
{
    if s.candidates.len() > 0 {
        let dev = s.candidates[0];
        let rest = all_accepted(s.candidates.drop_first(), s.probed, bus);
        let more = match probe::accepted(
            dev,
            (bus.hub)(dev.location()),
            (bus.socket)(sysfs::location_below(dev.location(), dev.bus, s.probed.port)),
            (bus.socket)(s.probed.child_location()),
            s.probed,
        ) {
            Some(port) => s.accepted.push(port),
            None => s.accepted,
        };
        let next = SurveyView { candidates: s.candidates.drop_first(), accepted: more, ..s };
        assert(told_all(s.next(), bus) == told_all(next.next(), bus));
        lemma_surveyed(next, bus);
        assert(more + rest =~= s.accepted + all_accepted(s.candidates, s.probed, bus));
    } else {
        assert(s.accepted + all_accepted(s.candidates, s.probed, bus) =~= s.accepted);
    }
}

proof fn lemma_accepted(
    candidates: Seq<DeviceView>,
    probed: HubPortView,
    bus: Still,
    port: HubPortView,
)
    ensures
        all_accepted(candidates, probed, bus).contains(port) <==> exists|i: int|
            0 <= i < candidates.len() && probe::accepted(
                #[trigger] candidates[i],
                (bus.hub)(candidates[i].location()),
                (bus.socket)(
                    sysfs::location_below(
                        candidates[i].location(),
                        candidates[i].bus,
                        probed.port,
                    ),
                ),
                (bus.socket)(probed.child_location()),
                probed,
            ) == Some(port),
    decreases candidates.len(),
{
    if candidates.len() > 0 {
        let rest = candidates.drop_first();
        lemma_accepted(rest, probed, bus, port);
        let less = all_accepted(rest, probed, bus);
        let all = all_accepted(candidates, probed, bus);
        if less.contains(port) {
            let k = choose|k: int| 0 <= k < less.len() && less[k] == port;
            assert(all[k + (all.len() - less.len())] == port);
            let i = choose|i: int|
                0 <= i < rest.len() && probe::accepted(
                    #[trigger] rest[i],
                    (bus.hub)(rest[i].location()),
                    (bus.socket)(
                        sysfs::location_below(rest[i].location(), rest[i].bus, probed.port),
                    ),
                    (bus.socket)(probed.child_location()),
                    probed,
                ) == Some(port);
            assert(candidates[i + 1] == rest[i]);
        }
        if all.contains(port) && !less.contains(port) {
            let k = choose|k: int| 0 <= k < all.len() && all[k] == port;
            if k > 0 && all.len() > less.len() {
                assert(less[k - 1] == port);
            }
            if all.len() == less.len() {
                assert(all == less);
            }
            assert(candidates[0] == candidates[0]);
        }
        if exists|i: int|
            0 <= i < candidates.len() && probe::accepted(
                #[trigger] candidates[i],
                (bus.hub)(candidates[i].location()),
                (bus.socket)(
                    sysfs::location_below(
                        candidates[i].location(),
                        candidates[i].bus,
                        probed.port,
                    ),
                ),
                (bus.socket)(probed.child_location()),
                probed,
            ) == Some(port) {
            let i = choose|i: int|
                0 <= i < candidates.len() && probe::accepted(
                    #[trigger] candidates[i],
                    (bus.hub)(candidates[i].location()),
                    (bus.socket)(
                        sysfs::location_below(
                            candidates[i].location(),
                            candidates[i].bus,
                            probed.port,
                        ),
                    ),
                    (bus.socket)(probed.child_location()),
                    probed,
                ) == Some(port);
            if i > 0 {
                assert(rest[i - 1] == candidates[i]);
            } else {
                assert(all[0] == port);
            }
        }
    }
}

proof fn lemma_ranked_keeps(hub: HubView, candidates: Seq<HubPortView>, port: HubPortView)
    ensures
        probe::ranked(hub, candidates).contains(port) <==> candidates.contains(port),
{
    broadcast use group_to_multiset_ensures;

    let probed = HubPortView { hub, port: port.port, dir: port.dir };
    probe_laws::law_the_plan_is_most_likely_first(probed, candidates);
    let order = probe::ranked(hub, candidates);
    assert(order.to_multiset() == candidates.to_multiset());
    assert(order.contains(port) <==> order.to_multiset().count(port) > 0);
    assert(candidates.contains(port) <==> candidates.to_multiset().count(port) > 0);
}

/// The probed port, where it can be probed: the hub is there, its other half is
/// not known, it opens, has that port and switches it alone, and something is
/// plugged into it.
pub open spec fn can_be_probed(
    devices: Seq<DeviceView>,
    pairs: HubPairsView,
    bus: Still,
    dev: DeviceView,
    port: u8,
) -> bool {
    &&& hub::first_at(hub::hubs_among(devices), dev.location()) == Some(dev)
    &&& pairing_of(devices, pairs).verdict(dev.location()) !is Paired
    &&& opens_to(dev, bus) matches Ok(hub) && port <= hub.nports && hub.per_port_power
    &&& (bus.hub)(dev.location()).config is Ok
    &&& (bus.socket)(sysfs::location_below(dev.location(), dev.bus, port)).occupied
}

/// Where a probe of a port that can be probed stands.
proof fn lemma_asked(
    devices: Seq<DeviceView>,
    pairs: HubPairsView,
    bus: Still,
    dev: DeviceView,
    port: u8,
    off_time: Span,
)
    requires
        can_be_probed(devices, pairs, bus, dev, port),
    ensures
        ({
            let p = probe::started(dev.location(), port, off_time, pairs, Ok(devices));
            let hub = opens_to(dev, bus)->Ok_0;
            let probed = HubPortView {
                hub,
                port,
                dir: hub.port_dir(port, (bus.hub)(dev.location()).config->Ok_0),
            };
            let pairing = pairing_of(devices, pairs);
            let candidates = hub::hubs_among(devices).filter(
                |d: DeviceView| probe::may_pair(d, pairing, hub),
            );
            let accepted = all_accepted(candidates, probed, bus);
            told_all(p, bus) matches ProbeView::Ask(a) && {
                &&& a.plan == (PlanView {
                    steps: probe::planned(probed, accepted),
                    probed,
                    off_time,
                    i: 0,
                })
                &&& !a.restored
                &&& a.say == probe::plan_text(
                    a.plan.steps,
                    probed,
                    span::duration_debug(off_time.secs, off_time.nanos),
                )
            }
        }),
{
    let p = probe::started(dev.location(), port, off_time, pairs, Ok(devices));
    let hub = opens_to(dev, bus)->Ok_0;
    device_laws::law_an_opened_hub_is_the_device(dev, (bus.hub)(dev.location()).reply);
    let probed = HubPortView {
        hub,
        port,
        dir: hub.port_dir(port, (bus.hub)(dev.location()).config->Ok_0),
    };
    let pairing = pairing_of(devices, pairs);
    let hubs = hub::hubs_among(devices);
    let candidates = hubs.filter(|d: DeviceView| probe::may_pair(d, pairing, hub));
    let survey = SurveyView { probed, off_time, candidates, accepted: Seq::empty() };
    let looking = LookingView { probed, off_time, hubs, pairing };
    assert(p is OpenHub);
    assert(p->OpenHub_0.answered((bus.hub)(dev.location())) == ProbeView::LookAt(looking));
    let second = ProbeView::LookAt(looking);
    assert(told_all(p, bus) == told_all(second, bus));
    let third = looking.answered((bus.socket)(probed.child_location()));
    assert(third == survey.next());
    assert(told_all(second, bus) == told_all(third, bus));
    lemma_surveyed(survey, bus);
    assert(Seq::<HubPortView>::empty() + all_accepted(candidates, probed, bus) =~= all_accepted(
        candidates,
        probed,
        bus,
    ));
}

/// The ports of the survey on the probed port, from the hubs on the bus.
spec fn surveyed(
    devices: Seq<DeviceView>,
    pairs: HubPairsView,
    probed: HubPortView,
    bus: Still,
) -> Seq<HubPortView> {
    let pairing = pairing_of(devices, pairs);
    all_accepted(
        hub::hubs_among(devices).filter(
            |d: DeviceView| probe::may_pair(d, pairing, probed.hub),
        ),
        probed,
        bus,
    )
}

proof fn lemma_speeds(dev: DeviceView, hub: HubView)
    ensures
        dev.descriptor matches Ok(desc) ==> (crate::version::at_least(
            desc.version,
            crate::version::usb_ss(),
        ) <==> device_laws::version_number(desc.version) >= 0x030000),
        hub.super_speed() <==> device_laws::version_number(hub.version) >= 0x030000,
{
}

/// Whether a device is accepted as the other half.
proof fn lemma_is_other_half(
    dev: DeviceView,
    probed: HubPortView,
    pairing: PairingView,
    bus: Still,
    port: HubPortView,
)
    ensures
        probe::may_pair(dev, pairing, probed.hub) && probe::accepted(
            dev,
            (bus.hub)(dev.location()),
            (bus.socket)(sysfs::location_below(dev.location(), dev.bus, probed.port)),
            (bus.socket)(probed.child_location()),
            probed,
        ) == Some(port) <==> may_be_other_half(dev, probed, pairing, bus) && port == port_like(
            dev,
            probed,
            bus,
        ),
{
    lemma_speeds(dev, probed.hub);
}

proof fn lemma_complete(
    devices: Seq<DeviceView>,
    pairs: HubPairsView,
    probed: HubPortView,
    bus: Still,
    other: DeviceView,
)
    requires
        hub::hubs_among(devices).contains(other),
        may_be_other_half(other, probed, pairing_of(devices, pairs), bus),
    ensures
        surveyed(devices, pairs, probed, bus).contains(port_like(other, probed, bus)),
{
    let pairing = pairing_of(devices, pairs);
    let hubs = hub::hubs_among(devices);
    let keep = |d: DeviceView| probe::may_pair(d, pairing, probed.hub);
    let candidates = hubs.filter(keep);
    let new = port_like(other, probed, bus);
    lemma_is_other_half(other, probed, pairing, bus, new);
    lemma_filtered(hubs, keep, other);
    let k = choose|k: int| 0 <= k < candidates.len() && candidates[k] == other;
    assert(candidates[k] == other);
    lemma_accepted(candidates, probed, bus, new);
}

proof fn lemma_exact(
    devices: Seq<DeviceView>,
    pairs: HubPairsView,
    probed: HubPortView,
    bus: Still,
    port: HubPortView,
) -> (d: DeviceView)
    requires
        surveyed(devices, pairs, probed, bus).contains(port),
    ensures
        hub::hubs_among(devices).contains(d),
        may_be_other_half(d, probed, pairing_of(devices, pairs), bus),
        port == port_like(d, probed, bus),
{
    let pairing = pairing_of(devices, pairs);
    let hubs = hub::hubs_among(devices);
    let keep = |d: DeviceView| probe::may_pair(d, pairing, probed.hub);
    let candidates = hubs.filter(keep);
    lemma_accepted(candidates, probed, bus, port);
    let k = choose|k: int|
        0 <= k < candidates.len() && probe::accepted(
            #[trigger] candidates[k],
            (bus.hub)(candidates[k].location()),
            (bus.socket)(
                sysfs::location_below(candidates[k].location(), candidates[k].bus, probed.port),
            ),
            (bus.socket)(probed.child_location()),
            probed,
        ) == Some(port);
    let d = candidates[k];
    assert(candidates.contains(d));
    lemma_filtered(hubs, keep, d);
    lemma_is_other_half(d, probed, pairing, bus, port);
    d
}

/// Where the steps of a plan come from.
proof fn lemma_steps(probed: HubPortView, accepted: Seq<HubPortView>, port: HubPortView, i: int)
    ensures
        ({
            let steps = probe::planned(probed, accepted);
            &&& steps.len() > 0
            &&& steps[0].ports == seq![probed]
            &&& accepted.contains(port) ==> exists|k: int|
                0 < k < steps.len() && (#[trigger] steps[k]).ports == seq![port, probed]
            &&& 0 < i < steps.len() ==> {
                let other = probe::ranked(probed.hub, accepted)[i - 1];
                accepted.contains(other) && steps[i].ports == seq![other, probed]
            }
        }),
{
    probe_laws::law_the_plan_is_most_likely_first(probed, accepted);
    let steps = probe::planned(probed, accepted);
    let order = probe::ranked(probed.hub, accepted);
    if accepted.contains(port) {
        lemma_ranked_keeps(probed.hub, accepted, port);
        let j = choose|j: int| 0 <= j < order.len() && order[j] == port;
        assert(steps[j + 1] == probe::together(probed, order[j]));
        assert(steps[j + 1].ports =~= seq![port, probed]);
    }
    if 0 < i < steps.len() {
        let other = order[i - 1];
        assert(steps[(i - 1) + 1] == probe::together(probed, other));
        assert(steps[i].ports =~= seq![other, probed]);
        assert(order.contains(other));
        lemma_ranked_keeps(probed.hub, accepted, other);
    }
}

/// The plan is complete: it cuts the probed port alone first, and then together
/// with the port of the same number of every hub on the bus that may be the other
/// half, root hubs included; and with no other port.
pub proof fn law_the_plan_has_every_hub_that_may_be_the_other_half(
    devices: Seq<DeviceView>,
    pairs: HubPairsView,
    bus: Still,
    dev: DeviceView,
    port: u8,
    off_time: Span,
    other: DeviceView,
    i: int,
)
    requires
        can_be_probed(devices, pairs, bus, dev, port),
    ensures
        ({
            let p = probe::started(dev.location(), port, off_time, pairs, Ok(devices));
            let hub = opens_to(dev, bus)->Ok_0;
            let pairing = pairing_of(devices, pairs);
            told_all(p, bus) matches ProbeView::Ask(a) && {
                let steps = a.plan.steps;
                let probed = a.plan.probed;
                &&& probed.hub == hub && probed.port == port
                &&& a.plan.off_time == off_time
                &&& a.plan.i == 0
                &&& !a.restored
                &&& steps.len() > 0
                &&& steps[0].ports == seq![probed]
                &&& devices.contains(other) && other.descriptor is Ok
                    && other.descriptor->Ok_0.class == 9 && may_be_other_half(
                    other,
                    probed,
                    pairing,
                    bus,
                ) ==> exists|k: int|
                    0 < k < steps.len() && (#[trigger] steps[k]).ports == seq![
                        port_like(other, probed, bus),
                        probed,
                    ]
                &&& 0 < i < steps.len() ==> exists|d: DeviceView|
                    devices.contains(d) && d.descriptor is Ok && d.descriptor->Ok_0.class == 9
                        && #[trigger] may_be_other_half(d, probed, pairing, bus) && steps[i].ports
                        == seq![port_like(d, probed, bus), probed]
            }
        }),
{
    lemma_asked(devices, pairs, bus, dev, port, off_time);
    let p = probe::started(dev.location(), port, off_time, pairs, Ok(devices));
    let plan = told_all(p, bus)->Ask_0.plan;
    let probed = plan.probed;
    let pairing = pairing_of(devices, pairs);
    let accepted = surveyed(devices, pairs, probed, bus);
    assert(plan.steps == probe::planned(probed, accepted));
    let new = port_like(other, probed, bus);
    device_laws::law_what_is_among_the_hubs(devices, other);
    lemma_steps(probed, accepted, new, i);
    if hub::hubs_among(devices).contains(other) && may_be_other_half(other, probed, pairing, bus) {
        lemma_complete(devices, pairs, probed, bus, other);
    }
    if 0 < i < plan.steps.len() {
        let d = lemma_exact(
            devices,
            pairs,
            probed,
            bus,
            probe::ranked(probed.hub, accepted)[i - 1],
        );
        device_laws::law_what_is_among_the_hubs(devices, d);
        assert(may_be_other_half(d, probed, pairing, bus));
    }
}

/// A bus that cannot be listed is a failure, and so is a hub that is not on it; a
/// hub whose other half is known is not probed, and the other half is named.
/// Otherwise the hub is opened.
pub proof fn law_which_hub_is_probed(
    devices: Seq<DeviceView>,
    pairs: HubPairsView,
    location: Seq<char>,
    port: u8,
    off_time: Span,
    error: UsbError,
)
    ensures
        probe::started(location, port, off_time, pairs, Err(error)) == ProbeView::Done(
            EndedView { say: Seq::empty(), outcome: Err(ErrorView::Usb(error)) },
        ),
        ({
            let start = probe::started(location, port, off_time, pairs, Ok(devices));
            match pairing_of(devices, pairs).verdict(location) {
                VerdictView::Paired { other, .. } => start matches ProbeView::Done(ended)
                    && nothing_found(ended) && text_laws::holds(
                    ended.say,
                    location + " is already paired with "@ + other,
                ),
                _ => match hub::first_at(hub::hubs_among(devices), location) {
                    None => start == ProbeView::Done(
                        EndedView {
                            say: Seq::empty(),
                            outcome: Err(ErrorView::HubMissing { location }),
                        },
                    ),
                    Some(_) => start == ProbeView::OpenHub(
                        OpeningView {
                            hub: location,
                            port,
                            off_time,
                            hubs: hub::hubs_among(devices),
                            pairing: pairing_of(devices, pairs),
                        },
                    ),
                },
            }
        }),
{
    match pairing_of(devices, pairs).verdict(location) {
        VerdictView::Paired { other, .. } => {
            let rest =
                " - nothing to probe. To probe it again, drop the declaration that pairs them.\n"@;
            let said = location + " is already paired with "@ + other;
            assert(said + rest =~= Seq::<char>::empty() + said + rest);
            text_laws::lemma_holds(Seq::empty(), said, rest);
        },
        _ => {},
    }
}

/// A probe that ended without a failure and without a line to declare.
pub open spec fn nothing_found(ended: EndedView) -> bool {
    ended.outcome matches Ok(found) && found is None
}

/// Which opened hub can be probed: it has the port, switches it alone and its
/// configuration is known. A hub without the port, and one that switches all its
/// ports at once, are named and left alone; one that does not open, or whose
/// configuration cannot be read, is a failure.
pub proof fn law_which_opened_hub_is_probed(
    opening: OpeningView,
    dev: DeviceView,
    answer: HubAnswerView,
)
    requires
        hub::first_at(opening.hubs, opening.hub) == Some(dev),
    ensures
        ({
            let next = opening.answered(answer);
            match hub::opened(dev, answer.reply) {
                Err(e) => next == ProbeView::Done(
                    EndedView { say: Seq::empty(), outcome: Err(e) },
                ),
                Ok(hub) => {
                    &&& opening.port > hub.nports ==> (next matches ProbeView::Done(ended)
                        && nothing_found(ended) && ended.say == opening.hub + " has "@ + text::dec(
                        hub.nports as nat,
                    ) + " ports, no port "@ + text::dec(opening.port as nat) + "\n"@)
                    &&& opening.port <= hub.nports && !hub.per_port_power ==> (
                    next matches ProbeView::Done(ended) && nothing_found(ended)
                        && text_laws::holds(
                        ended.say,
                        opening.hub + " switches power in ganged mode"@,
                    ))
                    &&& opening.port <= hub.nports && hub.per_port_power ==> match answer.config {
                        Err(e) => next == ProbeView::Done(
                            EndedView { say: Seq::empty(), outcome: Err(ErrorView::Usb(e)) },
                        ),
                        Ok(config) => next == ProbeView::LookAt(
                            LookingView {
                                probed: HubPortView {
                                    hub,
                                    port: opening.port,
                                    dir: hub.port_dir(opening.port, config),
                                },
                                off_time: opening.off_time,
                                hubs: opening.hubs,
                                pairing: opening.pairing,
                            },
                        ),
                    }
                },
            }
        }),
{
    reveal_strlit(
        " switches power in ganged mode, so its ports cannot be cut one at a time and there is nothing to pair it for\n",
    );
    reveal_strlit(" switches power in ganged mode");
    let whole =
        opening.hub
        + " switches power in ganged mode, so its ports cannot be cut one at a time and there is nothing to pair it for\n"@;
    let part = opening.hub + " switches power in ganged mode"@;
    let rest = whole.skip(part.len() as int);
    assert(whole =~= Seq::<char>::empty() + part + rest);
    text_laws::lemma_holds(Seq::empty(), part, rest);
}

/// A port with nothing in it is not probed, and named.
pub proof fn law_an_empty_port_is_not_probed(looking: LookingView, socket: SocketView)
    ensures
        !socket.occupied <==> looking.answered(socket) is Done,
        !socket.occupied ==> {
            let ended = looking.answered(socket)->Done_0;
            nothing_found(ended) && text_laws::holds(
                ended.say,
                "nothing is plugged into "@ + (looking.probed.hub.location + " port "@ + text::dec(
                    looking.probed.port as nat,
                )),
            )
        },
{
    let said = "nothing is plugged into "@ + looking.probed.text();
    let tail = " - plug in a device with a power LED and watch it\n"@;
    assert(said + tail =~= Seq::<char>::empty() + said + tail);
    text_laws::lemma_holds(Seq::empty(), said, tail);
}

// ---------------------------------------------------------------------------
// The plan
// ---------------------------------------------------------------------------

/// A candidate ranks by its vendor first and by its size second.
pub open spec fn rank_of(hub: HubView, candidate: HubView) -> int {
    (if candidate.vid == hub.vid {
        0int
    } else {
        2
    }) + (if candidate.nports == hub.nports {
        0int
    } else {
        1
    })
}

/// How likely a hub is the other half, and in which order candidates come: by
/// rank, then the nearer to the root, then by location.
pub proof fn law_candidates_come_by_rank_and_depth(hub: HubView, a: HubPortView, b: HubPortView)
    ensures
        probe::likely(hub, a.hub).0 == rank_of(hub, a.hub),
        a.hub.vid == hub.vid && a.hub.nports == hub.nports ==> probe::likely(hub, a.hub).1
            == "same vendor and size"@,
        a.hub.vid == hub.vid && a.hub.nports != hub.nports ==> probe::likely(hub, a.hub).1
            == "same vendor"@,
        a.hub.vid != hub.vid && a.hub.nports == hub.nports ==> probe::likely(hub, a.hub).1
            == "same size"@,
        a.hub.vid != hub.vid && a.hub.nports != hub.nports ==> probe::likely(hub, a.hub).1
            == ""@,
        rank_of(hub, a.hub) < rank_of(hub, b.hub) ==> probe::comes_before(hub, a, b),
        rank_of(hub, a.hub) > rank_of(hub, b.hub) ==> !probe::comes_before(hub, a, b),
        rank_of(hub, a.hub) == rank_of(hub, b.hub) && a.hub.path.len() < b.hub.path.len()
            ==> probe::comes_before(hub, a, b),
        rank_of(hub, a.hub) == rank_of(hub, b.hub) && a.hub.path.len() > b.hub.path.len()
            ==> !probe::comes_before(hub, a, b),
        rank_of(hub, a.hub) == rank_of(hub, b.hub) && a.hub.path.len() == b.hub.path.len() ==> (
        probe::comes_before(hub, a, b) <==> text::sorts_before(a.hub.location, b.hub.location)),
{
}

/// A candidate that comes before all others is put first, and one that comes before
/// none of them last: candidates that rank alike stay in the order they came in.
pub proof fn law_candidates_alike_stay_in_order(
    hub: HubView,
    candidates: Seq<HubPortView>,
    port: HubPortView,
)
    ensures
        (forall|k: int|
            0 <= k < candidates.len() ==> !probe::comes_before(hub, port, #[trigger] candidates[k]))
            ==> probe::ranked(hub, candidates.push(port)) == probe::ranked(hub, candidates).push(
            port,
        ),
        (forall|k: int|
            0 <= k < candidates.len() ==> probe::comes_before(hub, port, #[trigger] candidates[k]))
            ==> probe::ranked(hub, candidates.push(port)) == seq![port] + probe::ranked(
            hub,
            candidates,
        ),
{
    assert(candidates.push(port).drop_last() =~= candidates);
    let order = probe::ranked(hub, candidates);
    if forall|k: int|
        0 <= k < candidates.len() ==> !probe::comes_before(hub, port, #[trigger] candidates[k]) {
        if order.len() > 0 {
            assert(order.contains(order[order.len() - 1]));
            lemma_ranked_keeps(hub, candidates, order.last());
            let k = choose|k: int| 0 <= k < candidates.len() && candidates[k] == order.last();
            assert(!probe::comes_before(hub, port, candidates[k]));
        }
    }
    if forall|k: int|
        0 <= k < candidates.len() ==> probe::comes_before(hub, port, #[trigger] candidates[k]) {
        assert forall|i: int| 0 <= i < order.len() implies probe::comes_before(
            hub,
            port,
            #[trigger] order[i],
        ) by {
            assert(order.contains(order[i]));
            lemma_ranked_keeps(hub, candidates, order[i]);
            let k = choose|k: int| 0 <= k < candidates.len() && candidates[k] == order[i];
            assert(probe::comes_before(hub, port, candidates[k]));
        }
        lemma_placed_first(hub, port, order);
    }
}

proof fn lemma_placed_first(hub: HubView, port: HubPortView, list: Seq<HubPortView>)
    requires
        forall|i: int| 0 <= i < list.len() ==> probe::comes_before(hub, port, #[trigger] list[i]),
    ensures
        probe::placed(hub, port, list) == seq![port] + list,
    decreases list.len(),
{
    if list.len() > 0 {
        let fewer = list.drop_last();
        assert forall|i: int| 0 <= i < fewer.len() implies probe::comes_before(
            hub,
            port,
            #[trigger] fewer[i],
        ) by {
            assert(fewer[i] == list[i]);
        }
        lemma_placed_first(hub, port, fewer);
        assert((seq![port] + fewer).push(list.last()) =~= seq![port] + list);
    } else {
        assert(list.push(port) =~= seq![port] + list);
    }
}

/// What a cut of the plan is: the candidate first and the probed port last, and
/// the line to declare names the half that is no `SuperSpeed` hub first; the
/// probed port alone is declared to have no other half.
pub proof fn law_what_a_cut_is(probed: HubPortView, candidate: HubPortView)
    ensures
        probe::alone(probed).ports == seq![probed],
        probe::alone(probed).line == probed.hub.location + " none"@,
        probe::together(probed, candidate).ports == seq![candidate, probed],
        probe::together(probed, candidate).why == probe::likely(probed.hub, candidate.hub).1,
        device_laws::version_number(probed.hub.version) >= 0x030000 ==> probe::together(
            probed,
            candidate,
        ).line == candidate.hub.location + " "@ + probed.hub.location,
        device_laws::version_number(probed.hub.version) < 0x030000 ==> probe::together(
            probed,
            candidate,
        ).line == probed.hub.location + " "@ + candidate.hub.location,
        probe::alone(probed).text() == probed.text(),
        probe::together(probed, candidate).text() == candidate.text() + " + "@ + probed.text(),
{
    let one = probe::alone(probed);
    let both = probe::together(probed, candidate);
    let name = |p: HubPortView| p.text();
    assert(one.ports.map_values(name) =~= seq![probed.text()]);
    assert(both.ports.map_values(name) =~= seq![candidate.text()].push(probed.text()));
    text_laws::law_separators_stand_between(seq![candidate.text()], probed.text(), " + "@);
    text_laws::law_separators_stand_between(seq![candidate.text()], candidate.text(), " + "@);
}

/// The plan in words has a line for every step, numbered from one, in order; it
/// says so where no hub may be the other half.
pub proof fn law_the_plan_is_written_out(
    steps: Seq<CutView>,
    probed: HubPortView,
    off_time: Seq<char>,
    i: int,
)
    ensures
        ({
            let said = probe::plan_text(steps, probed, off_time);
            &&& text_laws::holds(said, "probing "@ + probed.text())
            &&& text_laws::holds(said, "each step cuts for "@ + off_time + ", restores, then asks:"@)
            &&& 0 <= i < steps.len() ==> text_laws::holds(
                said,
                text::right_aligned(text::dec((i + 1) as nat), 2) + ". "@ + text::padded(
                    steps[i].text(),
                    40,
                ) + " => \""@ + steps[i].line + "\"  "@ + steps[i].why + "\n"@,
            )
            &&& steps.len() == 1 ==> text_laws::holds(
                said,
                "   (no "@ + (if device_laws::version_number(probed.hub.version) >= 0x030000 {
                    "USB 2.0"@
                } else {
                    "SuperSpeed"@
                }) + " hub that switches power per port has port "@ + text::dec(probed.port as nat)
                    + " free)\n"@,
            )
        }),
{
    let said = probe::plan_text(steps, probed, off_time);
    let n = steps.len() as int;
    let lines = probe::step_lines(steps, n);
    let head = "probing "@ + probed.text();
    let second = " - watch the power LED of the device on it\n"@;
    let third = "plan, most likely first; each step cuts for "@;
    let fourth = ", restores, then asks:\n"@;
    let note = if steps.len() == 1 {
        "   (no "@ + probed.hub.other_side() + " hub that switches power per port has port "@
            + text::dec(probed.port as nat) + " free)\n"@
    } else {
        Seq::empty()
    };
    let last =
        "Enter runs a step, n skips it, q quits. Ctrl-C during a cut would leave ports off - use q.\n\n"@;
    let top = head + second + third + off_time + fourth;
    assert(said =~= top + lines + (note + last));
    assert(said =~= (top + lines) + note + last);
    assert(said =~= Seq::<char>::empty() + head + (second + third + off_time + fourth + lines + note
        + last));
    reveal_strlit("plan, most likely first; each step cuts for ");
    reveal_strlit("plan, most likely first; ");
    reveal_strlit("each step cuts for ");
    reveal_strlit(", restores, then asks:\n");
    reveal_strlit(", restores, then asks:");
    reveal_strlit("\n");
    let time = "each step cuts for "@ + off_time + ", restores, then asks:"@;
    assert(said =~= (head + second + "plan, most likely first; "@) + time + ("\n"@ + lines + note
        + last));
    if 0 <= i < n {
        lemma_step_line(steps, n, i);
        let line = text::right_aligned(text::dec((i + 1) as nat), 2) + ". "@ + text::padded(
            steps[i].text(),
            40,
        ) + " => \""@ + steps[i].line + "\"  "@ + steps[i].why + "\n"@;
        text_laws::lemma_holds_part(top, lines, note + last, line);
    }
    if steps.len() == 1 {
        text_laws::lemma_holds(top + lines, note, last);
    }
}

proof fn lemma_step_line(steps: Seq<CutView>, n: int, i: int)
    requires
        0 <= i < n <= steps.len(),
    ensures
        text_laws::holds(
            probe::step_lines(steps, n),
            text::right_aligned(text::dec((i + 1) as nat), 2) + ". "@ + text::padded(
                steps[i].text(),
                40,
            ) + " => \""@ + steps[i].line + "\"  "@ + steps[i].why + "\n"@,
        ),
    decreases n,
{
    let line = text::right_aligned(text::dec((i + 1) as nat), 2) + ". "@ + text::padded(
        steps[i].text(),
        40,
    ) + " => \""@ + steps[i].line + "\"  "@ + steps[i].why + "\n"@;
    let before = probe::step_lines(steps, n - 1);
    if i == n - 1 {
        assert(probe::step_line(steps[i], i) =~= "   "@ + line);
        text_laws::lemma_holds_itself(line);
        text_laws::lemma_holds_behind("   "@, line, line);
        text_laws::lemma_holds_behind(before, "   "@ + line, line);
    } else {
        lemma_step_line(steps, n - 1, i);
        text_laws::lemma_holds_before(before, probe::step_line(steps[n - 1], n - 1), line);
    }
}

// ---------------------------------------------------------------------------
// Questions and answers
// ---------------------------------------------------------------------------

/// What an answer is, without regard to case and to the white space around it:
/// nothing is the default; `y` and `yes` are yes, `q` and `quit` quit, and
/// anything else is no.
pub proof fn law_what_an_answer_is(
    before: Seq<char>,
    core: Seq<char>,
    after: Seq<char>,
    default_yes: bool,
)
    requires
        forall|i: int| 0 <= i < before.len() ==> text::white(#[trigger] before[i]),
        forall|i: int| 0 <= i < after.len() ==> text::white(#[trigger] after[i]),
        core.len() > 0 ==> !text::white(core[0]) && !text::white(core.last()),
    ensures
        ({
            let answer = probe::answer_in(before + core + after, default_yes);
            let word = text::lowered(core);
            &&& answer == Answer::Yes <==> word == "y"@ || word == "yes"@ || (core.len() == 0
                && default_yes)
            &&& answer == Answer::Quit <==> word == "q"@ || word == "quit"@
            &&& core.len() == 0 && !default_yes ==> answer == Answer::No
        }),
{
    text_laws::law_trimming_takes_the_white_space_around(before, core, after);
    reveal_strlit("y");
    reveal_strlit("yes");
    reveal_strlit("q");
    reveal_strlit("quit");
    let word = text::lowered(core);
    assert(word.len() == core.len());
    assert("y"@[0] == 'y' && "yes"@[0] == 'y' && "q"@[0] == 'q' && "quit"@[0] == 'q');
}

/// What follows from an answer. To whether to cut: yes cuts, no goes on to the
/// next step or ends with nothing found after the last, quit ends with nothing
/// found. To whether the LED went dark: yes finds the line of the step and says
/// which ports it is about, the probed one alone in the first step; no goes on,
/// quit ends. An answer that cannot be read is a failure.
pub proof fn law_what_follows_from_an_answer(
    asking: AskingView,
    typed: Seq<char>,
    reason: Seq<char>,
)
    ensures
        asking.answered(Err(reason)) == ProbeView::Done(
            EndedView { say: Seq::empty(), outcome: Err(ErrorView::Io(reason)) },
        ),
        ({
            let next = asking.answered(Ok(typed));
            let plan = asking.plan;
            match probe::answer_in(typed, !asking.restored) {
                Answer::Yes => if asking.restored {
                    next matches ProbeView::Done(ended) && ended.outcome == Ok::<
                        Option<Seq<char>>,
                        ErrorView,
                    >(Some(plan.steps[plan.i].line)) && ended.say == "\n"@ + (if plan.i == 0 {
                        plan.probed.text() + " cuts VBUS by itself"@
                    } else {
                        plan.steps[plan.i].text() + " share a receptacle"@
                    }) + ". Declare this line in your hub pairs:\n\n    "@
                        + plan.steps[plan.i].line + "\n\n"@
                } else {
                    next matches ProbeView::Cut(c) && c.plan == plan && c.run == plan.run()
                },
                Answer::No => if plan.i + 1 < plan.steps.len() {
                    next == ProbeView::Ask(
                        AskingView {
                            say: Seq::empty(),
                            plan: PlanView { i: plan.i + 1, ..plan },
                            restored: false,
                        },
                    )
                } else {
                    next matches ProbeView::Done(ended) && ended.outcome == Ok::<
                        Option<Seq<char>>,
                        ErrorView,
                    >(None) && text_laws::holds(ended.say, "no step cut the power"@)
                },
                Answer::Quit => next == ProbeView::Done(
                    EndedView { say: "quit - every port is restored\n"@, outcome: Ok(None) },
                ),
            }
        }),
{
    let plan = asking.plan;
    let first =
        "\nno step cut the power. Either the other half is on a hub that switches power in ganged mode (then this receptacle cannot be cut at all), or its port "@;
    reveal_strlit(
        "\nno step cut the power. Either the other half is on a hub that switches power in ganged mode (then this receptacle cannot be cut at all), or its port ",
    );
    reveal_strlit("no step cut the power");
    let part = "no step cut the power"@;
    let said = first + text::dec(plan.probed.port as nat)
        + " is occupied, or the hub does not act on PORT_POWER (check with a meter)\n"@;
    let rest = said.skip(1 + part.len() as int);
    assert(said =~= seq!['\n'] + part + rest);
    text_laws::lemma_holds(seq!['\n'], part, rest);
}

/// A cut of the plan blinks its ports: all but the last are held down, for the
/// time that was asked for.
pub proof fn law_a_step_blinks_its_ports(plan: PlanView)
    requires
        1 <= plan.steps[plan.i].ports.len() <= 2,
    ensures
        plan.run().mode == Mode::Blink,
        plan.run().held == plan.steps[plan.i].ports.len() - 1,
        plan.run().off_time == plan.off_time,
        plan.run().failure is None,
        plan.run().stage == (if plan.steps[plan.i].ports.len() == 2 {
            Stage::CutHeld(0)
        } else {
            Stage::CutPrimary
        }),
{
}

/// Once a cut is over, a failure of it ends the probe; otherwise it asks about the
/// LED of the same step.
pub proof fn law_a_cut_that_is_over_is_asked_about(cutting: CuttingView, report: ReportView)
    ensures
        ({
            let run = cutting.run.after(report);
            let next = cutting.reported(report);
            &&& run.step() != Step::Finished ==> next == ProbeView::Cut(
                CuttingView { plan: cutting.plan, run },
            )
            &&& run.step() == Step::Finished && run.failure is None ==> next == ProbeView::Ask(
                AskingView { say: Seq::empty(), plan: cutting.plan, restored: true },
            )
            &&& run.step() == Step::Finished && run.failure is Some ==> next == ProbeView::Done(
                EndedView { say: Seq::empty(), outcome: Err(run.failure->0) },
            )
        }),
{
}

/// What is asked: before a cut, which step of how many and what it cuts; after
/// it, about the LED.
pub proof fn law_what_is_asked(asking: AskingView)
    ensures
        asking.restored ==> asking.prompt()
            == "   restored. LED went dark? [y=dark, Enter=lit, q=quit] "@,
        !asking.restored ==> asking.prompt() == "step "@ + text::dec((asking.plan.i + 1) as nat)
            + "/"@ + text::dec(asking.plan.steps.len()) + ": cut "@
            + asking.plan.steps[asking.plan.i].text() + " [Enter=cut, n=skip, q=quit] "@,
{
}

} // verus!
