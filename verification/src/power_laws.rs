//! What holds of every search for the ports that feed a device.

use vstd::prelude::*;

use crate::device;
use crate::device::{DeviceIdView, DeviceView};
use crate::error::ErrorView;
use crate::hub;
use crate::hub::HubView;
use crate::pairing;
use crate::pairing::VerdictView;
use crate::pairs::HubPairsView;
use crate::port;
use crate::port::{HubPortView, SocketView};
use crate::power;
use crate::power::{HubAnswerView, HubQuestionView, PowerPortsView, SearchView};
use crate::sysfs;
use crate::usb::UsbError;

verus! {

/// A bus that stands still: what opening the hub at a location gives, and what
/// is plugged in at a location.
pub struct Still {
    /// What opening the hub at a location gives.
    pub hub: spec_fn(Seq<char>) -> HubAnswerView,
    /// What is plugged in at a location.
    pub socket: spec_fn(Seq<char>) -> SocketView,
}

/// How many questions a search asks at most.
pub open spec fn questions_left(search: SearchView) -> nat {
    match search {
        SearchView::Done(_) => 0,
        SearchView::LookAt(_) => 1,
        SearchView::OpenHub(q) => if q.primary is Some {
            2
        } else if q.len > 0 {
            (3 + q.len) as nat
        } else {
            3
        },
    }
}

/// Every answer brings a search nearer to its end.
pub proof fn law_a_search_ends(search: SearchView)
    ensures
        match search {
            SearchView::Done(_) => true,
            SearchView::OpenHub(q) => forall|answer: HubAnswerView|
                questions_left(#[trigger] q.answered(answer)) < questions_left(search),
            SearchView::LookAt(q) => forall|peer: SocketView, primary: SocketView|
                questions_left(#[trigger] q.answered(peer, primary)) < questions_left(search),
        },
{
}

/// The outcome of a search on a bus that stands still.
pub open spec fn concluded(search: SearchView, bus: Still) -> Result<PowerPortsView, ErrorView>
    decreases questions_left(search),
{
    match search {
        SearchView::Done(outcome) => outcome,
        SearchView::OpenHub(q) => concluded(q.answered((bus.hub)(q.location)), bus),
        SearchView::LookAt(q) => concluded(
            q.answered(
                (bus.socket)(q.peer.child_location()),
                (bus.socket)(q.primary.child_location()),
            ),
            bus,
        ),
    }
}

/// The ports found for the hub `levels` above the device that carries an
/// identity.
pub open spec fn found_above(
    id: DeviceIdView,
    levels: u8,
    pairs: HubPairsView,
    devices: Seq<DeviceView>,
    bus: Still,
) -> Result<PowerPortsView, ErrorView> {
    concluded(power::started(id, levels, pairs, Ok(devices)), bus)
}

/// The hub at the end of a path, if it opens.
pub open spec fn hub_at(
    devices: Seq<DeviceView>,
    number: u8,
    path: Seq<u8>,
    bus: Still,
) -> Result<HubView, ErrorView> {
    let location = sysfs::location_of(number, path);
    hub::opened_at(hub::hubs_among(devices), location, (bus.hub)(location).reply)
}

/// Whether the hub at the end of a path opens, and switches power per port.
pub open spec fn switchable(
    devices: Seq<DeviceView>,
    number: u8,
    path: Seq<u8>,
    bus: Still,
) -> bool {
    hub_at(devices, number, path, bus) is Ok && hub_at(
        devices,
        number,
        path,
        bus,
    )->Ok_0.per_port_power
}

/// Whether the hub at the end of a path opens, and switches power in ganged
/// mode.
pub open spec fn ganged(devices: Seq<DeviceView>, number: u8, path: Seq<u8>, bus: Still) -> bool {
    hub_at(devices, number, path, bus) is Ok && !hub_at(
        devices,
        number,
        path,
        bus,
    )->Ok_0.per_port_power
}

/// Whether an error is one of those about which hub to cut at.
pub open spec fn about_the_target(error: ErrorView) -> bool {
    ||| error is NotFound
    ||| error is Ambiguous
    ||| error is NothingAbove
    ||| error is NoSwitchableHub
    ||| error is BehindHub
}

/// A question on the way up, among the hubs of a bus.
spec fn on_the_way(q: HubQuestionView, devices: Seq<DeviceView>) -> bool {
    q.primary is None && q.hubs == hub::hubs_among(devices)
}

/// Once the port to cut is known, no error is about the target any more.
proof fn lemma_feeding(q: HubQuestionView, primary: HubPortView, bus: Still)
    ensures
        concluded(q.feeding(primary), bus) matches Err(e) ==> !about_the_target(e),
        concluded(q.feeding(primary), bus) matches Ok(ports) ==> {
            &&& ports.primary == primary
            &&& ports.device == q.device
            &&& match q.pairing.verdict(primary.hub.location) {
                VerdictView::Paired { other, .. } => {
                    &&& ports.held.len() == 1
                    &&& ports.held[0].port == primary.port
                    &&& ports.held[0].hub.location == other
                    &&& ports.held[0].hub.per_port_power
                    &&& port::holdable(
                        (bus.socket)(ports.held[0].child_location()),
                        (bus.socket)(primary.child_location()),
                    )
                },
                VerdictView::DeclaredAlone | VerdictView::Usb2Hub => ports.held.len() == 0,
                _ => false,
            }
        },
{
    match q.pairing.verdict(primary.hub.location) {
        VerdictView::Paired { other, .. } => {
            lemma_first_at(q.hubs, other);
            let asked = HubQuestionView { primary: Some(primary), location: other, ..q };
            if hub::first_at(q.hubs, other) is Some {
                let next = asked.answered((bus.hub)(other));
                assert(concluded(SearchView::OpenHub(asked), bus) == concluded(next, bus));
                if let SearchView::LookAt(s) = next {
                    let last = s.answered(
                        (bus.socket)(s.peer.child_location()),
                        (bus.socket)(s.primary.child_location()),
                    );
                    assert(concluded(next, bus) == concluded(last, bus));
                }
            }
        },
        _ => {},
    }
}

proof fn lemma_first_at(hubs: Seq<DeviceView>, location: Seq<char>)
    ensures
        hub::first_at(hubs, location) matches Some(dev) ==> dev.location() == location,
    decreases hubs.len(),
{
    if hubs.len() > 0 {
        lemma_first_at(hubs.drop_first(), location);
    }
}

/// What a walk up can end in.
proof fn lemma_walk(q: HubQuestionView, len: int, devices: Seq<DeviceView>, bus: Still)
    requires
        on_the_way(q, devices),
        0 <= len <= q.path.len() <= 255,
    ensures
        match concluded(q.walking(len), bus) {
            Ok(ports) => len == q.path.len(),
            Err(ErrorView::NoSwitchableHub { .. }) => forall|j: int|
                1 <= j < len ==> ganged(devices, q.bus, #[trigger] q.path.take(j), bus),
            Err(ErrorView::BehindHub { device, hub, levels, .. }) => {
                let k = q.path.len() - levels;
                &&& levels > 0
                &&& 2 <= k <= len
                &&& device == sysfs::location_of(q.bus, q.path)
                &&& hub == sysfs::location_of(q.bus, q.path.take(k))
                &&& switchable(devices, q.bus, q.path.take(k - 1), bus)
                &&& forall|j: int|
                    k <= j < len ==> ganged(devices, q.bus, #[trigger] q.path.take(j), bus)
            },
            Err(e) => !about_the_target(e),
        },
    decreases len,
{
    if len >= 2 {
        let location = sysfs::location_of(q.bus, q.path.take(len - 1));
        let asked = HubQuestionView { len, location, ..q };
        if hub::first_at(q.hubs, location) is Some {
            let answer = (bus.hub)(location);
            assert(concluded(q.walking(len), bus) == concluded(asked.answered(answer), bus));
            match hub::opened_at(q.hubs, location, answer.reply) {
                Err(_) => {},
                Ok(hub) => {
                    if !hub.per_port_power {
                        assert(asked.answered(answer) == asked.walking(len - 1));
                        assert(asked.walking(len - 1) == q.walking(len - 1));
                        lemma_walk(q, len - 1, devices, bus);
                        assert(ganged(devices, q.bus, q.path.take(len - 1), bus));
                    } else if len < q.path.len() {
                    } else {
                        match port::port_of(hub, q.path[len - 1], answer.config) {
                            Ok(primary) => {
                                lemma_feeding(asked, primary, bus);
                            },
                            Err(_) => {},
                        }
                    }
                },
            }
        }
    }
}

/// A walk whose first hub switches power per port cuts there.
proof fn lemma_direct(q: HubQuestionView, devices: Seq<DeviceView>, bus: Still)
    requires
        on_the_way(q, devices),
        q.path.len() >= 2,
        switchable(devices, q.bus, q.path.drop_last(), bus),
    ensures
        ({
            let path = q.path;
            let number = q.bus;
            match concluded(q.walking(path.len() as int), bus) {
                Err(e) => !about_the_target(e),
                Ok(ports) => {
                    &&& ports.device == q.device
                    &&& ports.primary.hub == hub_at(devices, number, path.drop_last(), bus)->Ok_0
                    &&& ports.primary.port == path.last()
                    &&& ports.primary.hub.location == sysfs::location_of(number, path.drop_last())
                    &&& ports.primary.child_location() == sysfs::location_of(number, path)
                    &&& match q.pairing.verdict(ports.primary.hub.location) {
                        VerdictView::Paired { other, .. } => {
                            &&& ports.held.len() == 1
                            &&& ports.held[0].port == ports.primary.port
                            &&& ports.held[0].hub.location == other
                            &&& ports.held[0].hub.per_port_power
                            &&& port::holdable(
                                (bus.socket)(ports.held[0].child_location()),
                                (bus.socket)(ports.primary.child_location()),
                            )
                        },
                        VerdictView::DeclaredAlone | VerdictView::Usb2Hub => ports.held.len() == 0,
                        _ => false,
                    }
                },
            }
        }),
{
    let path = q.path;
    let len = path.len() as int;
    assert(path.take(len - 1) =~= path.drop_last());
    let location = sysfs::location_of(q.bus, path.take(len - 1));
    let asked = HubQuestionView { len, location, ..q };
    let answer = (bus.hub)(location);
    lemma_first_at(q.hubs, location);
    assert(concluded(q.walking(len), bus) == concluded(asked.answered(answer), bus));
    let hub = hub::opened_at(q.hubs, location, answer.reply)->Ok_0;
    let dev = hub::first_at(q.hubs, location)->0;
    sysfs::law_a_location_names_one_place(dev.bus, dev.ports(), q.bus, path.take(len - 1));
    sysfs::law_child_location_extends_the_path(q.bus, path.drop_last(), path.last());
    assert(path =~= path.drop_last().push(path.last()));
    match port::port_of(hub, path[len - 1], answer.config) {
        Ok(primary) => {
            lemma_feeding(asked, primary, bus);
        },
        Err(_) => {},
    }
}

/// The path down to the hub `levels` above the device at the end of a path.
pub open spec fn target(path: Seq<u8>, levels: int) -> Seq<u8> {
    path.take(path.len() - levels)
}

spec fn beginning(
    id: DeviceIdView,
    dev: DeviceView,
    levels: int,
    pairs: HubPairsView,
    devices: Seq<DeviceView>,
) -> HubQuestionView {
    let hubs = hub::hubs_among(devices);
    HubQuestionView {
        device: id,
        bus: dev.bus,
        path: target(dev.ports(), levels),
        len: target(dev.ports(), levels).len() as int,
        hubs,
        pairing: pairing::paired(pairing::nodes_of(hubs), pairs),
        primary: None,
        location: Seq::empty(),
    }
}

/// The one device that carries an identity.
pub open spec fn the_device(devices: Seq<DeviceView>, id: DeviceIdView) -> DeviceView {
    power::first_carrying(devices, id)->0
}

proof fn lemma_only_device(devices: Seq<DeviceView>, id: DeviceIdView)
    requires
        device::matching(devices, id) > 0,
        power::within_tiers(Ok(devices)),
    ensures
        power::first_carrying(devices, id) is Some,
        device::carries(the_device(devices, id), id),
        devices.contains(the_device(devices, id)),
        the_device(devices, id).ports().len() <= 255,
{
    device::lemma_matching(devices, id);
    lemma_first_carrying(devices, id);
    let i = choose|i: int| 0 <= i < devices.len() && devices[i] == the_device(devices, id);
    assert(Ok::<Seq<DeviceView>, UsbError>(devices)->Ok_0[i].ports().len() <= 255);
}

proof fn lemma_first_carrying(devices: Seq<DeviceView>, id: DeviceIdView)
    requires
        exists|i: int| 0 <= i < devices.len() && device::carries(#[trigger] devices[i], id),
    ensures
        power::first_carrying(devices, id) is Some,
        device::carries(the_device(devices, id), id),
        devices.contains(the_device(devices, id)),
    decreases devices.len(),
{
    let i = choose|i: int| 0 <= i < devices.len() && device::carries(#[trigger] devices[i], id);
    if device::carries(devices[0], id) {
        assert(devices.contains(devices[0]));
    } else {
        let rest = devices.drop_first();
        assert(rest[i - 1] == devices[i]);
        lemma_first_carrying(rest, id);
        let j = choose|j: int| 0 <= j < rest.len() && rest[j] == the_device(rest, id);
        assert(devices[j + 1] == the_device(devices, id));
    }
}

/// What a search that succeeds has found: exactly one device carries the
/// identity; the primary is the very port that feeds it, or the hub asked for
/// above it, on a hub that switches power per port; and the other half of the
/// receptacle, where there is one, is the port of the same number on the hub
/// paired with the primary's, which also switches power per port and holds
/// nothing that would be stranded.
pub proof fn law_found_ports_feed_the_target(
    id: DeviceIdView,
    levels: u8,
    pairs: HubPairsView,
    devices: Seq<DeviceView>,
    bus: Still,
)
    requires
        power::within_tiers(Ok(devices)),
        found_above(id, levels, pairs, devices, bus) is Ok,
    ensures
        ({
            let ports = found_above(id, levels, pairs, devices, bus)->Ok_0;
            let dev = the_device(devices, id);
            let path = target(dev.ports(), levels as int);
            let hubs = hub::hubs_among(devices);
            let pairing = pairing::paired(pairing::nodes_of(hubs), pairs);
            &&& device::matching(devices, id) == 1
            &&& dev.path is Ok
            &&& path.len() >= 2
            &&& ports.device == id
            &&& ports.primary.child_location() == sysfs::location_of(dev.bus, path)
            &&& ports.primary.port == path.last()
            &&& ports.primary.hub.location == sysfs::location_of(dev.bus, path.drop_last())
            &&& ports.primary.hub.per_port_power
            &&& match pairing.verdict(ports.primary.hub.location) {
                VerdictView::Paired { other, .. } => {
                    &&& ports.held.len() == 1
                    &&& ports.held[0].port == ports.primary.port
                    &&& ports.held[0].hub.location == other
                    &&& ports.held[0].hub.per_port_power
                    &&& port::holdable(
                        (bus.socket)(ports.held[0].child_location()),
                        (bus.socket)(ports.primary.child_location()),
                    )
                },
                VerdictView::DeclaredAlone | VerdictView::Usb2Hub => ports.held.len() == 0,
                _ => false,
            }
        }),
{
    lemma_only_device(devices, id);
    let dev = the_device(devices, id);
    let q = beginning(id, dev, levels as int, pairs, devices);
    let len = q.path.len() as int;
    lemma_walk(q, len, devices, bus);
    if len >= 2 {
        let location = sysfs::location_of(q.bus, q.path.take(len - 1));
        assert(q.path.take(len - 1) =~= q.path.drop_last());
        let asked = HubQuestionView { len, location, ..q };
        if hub::first_at(q.hubs, location) is Some {
            let answer = (bus.hub)(location);
            assert(concluded(q.walking(len), bus) == concluded(asked.answered(answer), bus));
            match hub::opened_at(q.hubs, location, answer.reply) {
                Ok(hub) => {
                    if hub.per_port_power {
                        lemma_direct(q, devices, bus);
                    } else {
                        assert(asked.answered(answer) == q.walking(len - 1));
                        lemma_walk(q, len - 1, devices, bus);
                    }
                },
                Err(_) => {},
            }
        }
    }
}

/// What a search that ends behind a hub has found: the hub that the error names
/// is `levels` above the target, neither it nor any hub between the two switches
/// power per port, and the hub above it does. Asking for that hub instead - as
/// many levels above the device as the error says, on top of those asked for -
/// gets past the choice of the target, and what it finds feeds that hub.
pub proof fn law_behind_hub_says_what_to_ask_for(
    id: DeviceIdView,
    levels: u8,
    pairs: HubPairsView,
    devices: Seq<DeviceView>,
    bus: Still,
)
    requires
        power::within_tiers(Ok(devices)),
        found_above(id, levels, pairs, devices, bus) is Err,
        found_above(id, levels, pairs, devices, bus)->Err_0 is BehindHub,
    ensures
        ({
            let error = found_above(id, levels, pairs, devices, bus)->Err_0;
            let up = error->BehindHub_levels;
            let dev = the_device(devices, id);
            let path = target(dev.ports(), levels as int);
            let k = path.len() - up;
            &&& up > 0
            &&& levels + up < dev.ports().len() <= 255
            &&& error->BehindHub_device == sysfs::location_of(dev.bus, path)
            &&& error->BehindHub_hub == sysfs::location_of(dev.bus, path.take(k))
            &&& switchable(devices, dev.bus, path.take(k - 1), bus)
            &&& forall|j: int|
                k <= j < path.len() ==> ganged(devices, dev.bus, #[trigger] path.take(j), bus)
            &&& match found_above(id, (levels + up) as u8, pairs, devices, bus) {
                Ok(ports) => ports.primary.child_location() == error->BehindHub_hub,
                Err(e) => !about_the_target(e),
            }
        }),
{
    lemma_only_device_of(id, levels, pairs, devices, bus);
    let dev = the_device(devices, id);
    let q = beginning(id, dev, levels as int, pairs, devices);
    lemma_walk(q, q.path.len() as int, devices, bus);
    let up = found_above(id, levels, pairs, devices, bus)->Err_0->BehindHub_levels;
    let k = q.path.len() - up;
    let nearer = beginning(id, dev, levels + up, pairs, devices);
    assert(nearer.path =~= q.path.take(k));
    assert(nearer.path.drop_last() =~= q.path.take(k - 1));
    lemma_direct(nearer, devices, bus);
}

/// A search that fails for want of a switchable hub has opened every hub between
/// the target and the root hub, and each switches power in ganged mode.
pub proof fn law_no_switchable_hub_means_every_hub_is_ganged(
    id: DeviceIdView,
    levels: u8,
    pairs: HubPairsView,
    devices: Seq<DeviceView>,
    bus: Still,
    j: int,
)
    requires
        power::within_tiers(Ok(devices)),
        found_above(id, levels, pairs, devices, bus) is Err,
        found_above(id, levels, pairs, devices, bus)->Err_0 is NoSwitchableHub,
        1 <= j < target(the_device(devices, id).ports(), levels as int).len(),
    ensures
        ({
            let dev = the_device(devices, id);
            let path = target(dev.ports(), levels as int);
            ganged(devices, dev.bus, path.take(j), bus)
        }),
{
    lemma_only_device_of(id, levels, pairs, devices, bus);
    let dev = the_device(devices, id);
    let q = beginning(id, dev, levels as int, pairs, devices);
    lemma_walk(q, q.path.len() as int, devices, bus);
}

/// A search that comes to walk begins at the one device.
proof fn lemma_only_device_of(
    id: DeviceIdView,
    levels: u8,
    pairs: HubPairsView,
    devices: Seq<DeviceView>,
    bus: Still,
)
    requires
        power::within_tiers(Ok(devices)),
        found_above(id, levels, pairs, devices, bus) is Err,
        found_above(id, levels, pairs, devices, bus)->Err_0 is BehindHub || found_above(
            id,
            levels,
            pairs,
            devices,
            bus,
        )->Err_0 is NoSwitchableHub,
    ensures
        device::matching(devices, id) == 1,
        the_device(devices, id).path is Ok,
        the_device(devices, id).ports().len() <= 255,
        levels == 0 || levels < the_device(devices, id).ports().len(),
{
    if device::matching(devices, id) > 0 {
        lemma_only_device(devices, id);
    }
}

} // verus!
