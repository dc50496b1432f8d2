//! What a search for the ports that feed a device comes to.

use vstd::prelude::*;

use crate::device;
use crate::device::{DeviceIdView, DeviceView};
use crate::device_laws;
use crate::error::ErrorView;
use crate::hub;
use crate::hub::HubView;
use crate::pairing;
use crate::pairing::{PairingView, VerdictView};
use crate::pairs::HubPairsView;
use crate::port;
use crate::port::HubPortView;
use crate::power;
use crate::power::{HubQuestionView, PowerPortsView, SearchView};
use crate::power_laws;
use crate::power_laws::{concluded, found_above, Still};
use crate::span::Span;
use crate::sysfs;
use crate::text;
use crate::text_laws;
use crate::usb::UsbError;

verus! {

// ---------------------------------------------------------------------------
// Which device
// ---------------------------------------------------------------------------

/// Whether the device at a place of a list is the only one that carries an
/// identity.
pub open spec fn only_one(devices: Seq<DeviceView>, id: DeviceIdView, i: int) -> bool {
    &&& 0 <= i < devices.len()
    &&& forall|k: int|
        0 <= k < devices.len() ==> (device::carries(#[trigger] devices[k], id) <==> k == i)
}

/// A bus that cannot be listed, an identity that no device carries and one that
/// two devices carry are failures, each told apart.
pub proof fn law_one_device_has_to_carry_the_identity(
    id: DeviceIdView,
    levels: u8,
    pairs: HubPairsView,
    devices: Seq<DeviceView>,
    bus: Still,
    error: UsbError,
    i: int,
    j: int,
)
    ensures
        concluded(power::started(id, levels, pairs, Err(error)), bus) == Err::<
            PowerPortsView,
            ErrorView,
        >(ErrorView::Usb(error)),
        (forall|k: int| 0 <= k < devices.len() ==> !device::carries(#[trigger] devices[k], id))
            ==> found_above(id, levels, pairs, devices, bus) == Err::<PowerPortsView, ErrorView>(
            ErrorView::NotFound { device: id },
        ),
        0 <= i < j < devices.len() && device::carries(devices[i], id) && device::carries(
            devices[j],
            id,
        ) ==> found_above(id, levels, pairs, devices, bus) == Err::<PowerPortsView, ErrorView>(
            ErrorView::Ambiguous { device: id, count: device::matching(devices, id) as usize },
        ),
{
    device::lemma_matching(devices, id);
    if 0 <= i < j < devices.len() && device::carries(devices[i], id) && device::carries(
        devices[j],
        id,
    ) {
        lemma_two(devices, id, i, j);
    }
}

proof fn lemma_some(devices: Seq<DeviceView>, id: DeviceIdView, i: int)
    requires
        0 <= i < devices.len(),
        device::carries(devices[i], id),
    ensures
        device::matching(devices, id) >= 1,
    decreases devices.len(),
{
    if i < devices.len() - 1 {
        lemma_some(devices.drop_last(), id, i);
    }
}

proof fn lemma_two(devices: Seq<DeviceView>, id: DeviceIdView, i: int, j: int)
    requires
        0 <= i < j < devices.len(),
        device::carries(devices[i], id),
        device::carries(devices[j], id),
    ensures
        device::matching(devices, id) >= 2,
    decreases devices.len(),
{
    if j < devices.len() - 1 {
        lemma_two(devices.drop_last(), id, i, j);
    } else {
        lemma_some(devices.drop_last(), id, i);
    }
}

proof fn lemma_none(devices: Seq<DeviceView>, id: DeviceIdView)
    requires
        forall|k: int| 0 <= k < devices.len() ==> !device::carries(#[trigger] devices[k], id),
    ensures
        device::matching(devices, id) == 0,
    decreases devices.len(),
{
    if devices.len() > 0 {
        let fewer = devices.drop_last();
        assert forall|k: int| 0 <= k < fewer.len() implies !device::carries(
            #[trigger] fewer[k],
            id,
        ) by {
            assert(fewer[k] == devices[k]);
        }
        lemma_none(fewer, id);
    }
}

proof fn lemma_one(devices: Seq<DeviceView>, id: DeviceIdView, i: int)
    requires
        only_one(devices, id, i),
    ensures
        device::matching(devices, id) == 1,
    decreases devices.len(),
{
    let fewer = devices.drop_last();
    if i < fewer.len() {
        assert(!device::carries(devices[devices.len() - 1], id));
        assert forall|k: int| 0 <= k < fewer.len() implies (device::carries(#[trigger] fewer[k], id)
            <==> k == i) by {
            assert(fewer[k] == devices[k]);
        }
        lemma_one(fewer, id, i);
    } else {
        assert forall|k: int| 0 <= k < fewer.len() implies !device::carries(
            #[trigger] fewer[k],
            id,
        ) by {
            assert(fewer[k] == devices[k]);
        }
        lemma_none(fewer, id);
    }
}

proof fn lemma_first(devices: Seq<DeviceView>, id: DeviceIdView, i: int)
    requires
        only_one(devices, id, i),
    ensures
        power::first_carrying(devices, id) == Some(devices[i]),
    decreases devices.len(),
{
    if i > 0 {
        assert(!device::carries(devices[0], id));
        let rest = devices.drop_first();
        assert forall|k: int| 0 <= k < rest.len() implies (device::carries(#[trigger] rest[k], id)
            <==> k == i - 1) by {
            assert(rest[k] == devices[k + 1]);
        }
        lemma_first(rest, id, i - 1);
    }
}

// ---------------------------------------------------------------------------
// Which port
// ---------------------------------------------------------------------------

/// The pairing of the hubs among devices.
pub open spec fn pairing_of(devices: Seq<DeviceView>, pairs: HubPairsView) -> PairingView {
    pairing::paired(pairing::nodes_of(hub::hubs_among(devices)), pairs)
}

/// Where the search for a device begins.
spec fn beginning(
    id: DeviceIdView,
    dev: DeviceView,
    path: Seq<u8>,
    pairs: HubPairsView,
    devices: Seq<DeviceView>,
) -> HubQuestionView {
    HubQuestionView {
        device: id,
        bus: dev.bus,
        path,
        len: path.len() as int,
        hubs: hub::hubs_among(devices),
        pairing: pairing_of(devices, pairs),
        primary: None,
        location: Seq::empty(),
    }
}

/// The walk has come up to what is `len` ports down, and every hub opened on the
/// way switches all its ports at once.
proof fn lemma_come_up(
    q: HubQuestionView,
    len: int,
    devices: Seq<DeviceView>,
    bus: Still,
)
    requires
        q.primary is None,
        q.hubs == hub::hubs_among(devices),
        1 <= len <= q.path.len(),
        forall|j: int|
            len <= j < q.path.len() ==> power_laws::ganged(
                devices,
                q.bus,
                #[trigger] q.path.take(j),
                bus,
            ),
    ensures
        concluded(q.walking(q.path.len() as int), bus) == concluded(q.walking(len), bus),
    decreases q.path.len() - len,
{
    if len < q.path.len() {
        lemma_come_up(q, len + 1, devices, bus);
        assert(power_laws::ganged(devices, q.bus, q.path.take(len), bus));
        let location = sysfs::location_of(q.bus, q.path.take(len));
        let asked = HubQuestionView { len: len + 1, location, ..q };
        let answer = (bus.hub)(location);
        assert(q.walking(len + 1) == SearchView::OpenHub(asked));
        assert(asked.answered(answer) == asked.walking(len));
        assert(asked.walking(len) == q.walking(len));
        assert(concluded(q.walking(len + 1), bus) == concluded(asked.answered(answer), bus));
    }
}

/// The port of a hub.
pub open spec fn port_on(hub: HubView, port: u8, config: u8) -> HubPortView {
    HubPortView { hub, port, dir: hub.port_dir(port, config) }
}

/// A device whose place on the bus is not known cannot be fed, and above a device
/// there are only as many levels as there are hubs.
pub proof fn law_the_target_has_to_exist(
    id: DeviceIdView,
    levels: u8,
    pairs: HubPairsView,
    devices: Seq<DeviceView>,
    bus: Still,
    i: int,
)
    requires
        only_one(devices, id, i),
    ensures
        devices[i].path is Err ==> found_above(id, levels, pairs, devices, bus) == Err::<
            PowerPortsView,
            ErrorView,
        >(ErrorView::Usb(devices[i].path->Err_0)),
        devices[i].path is Ok && levels > 0 && levels >= devices[i].path->Ok_0.len()
            ==> found_above(id, levels, pairs, devices, bus) == Err::<PowerPortsView, ErrorView>(
            ErrorView::NothingAbove {
                device: sysfs::location_of(devices[i].bus, devices[i].path->Ok_0),
                levels,
            },
        ),
{
    lemma_one(devices, id, i);
    lemma_first(devices, id, i);
}

/// Which hub a search cuts at. The walk goes up from the target past the hubs that
/// switch all their ports at once. Where it meets a hub that is not on the bus or
/// does not open, that is the failure. Where it meets one that switches per port
/// and does not feed the target itself, the failure names the hub that it feeds,
/// who that is, and how far up. Where it comes to the root hub, there is none.
pub proof fn law_the_nearest_switching_hub_decides(
    id: DeviceIdView,
    levels: u8,
    pairs: HubPairsView,
    devices: Seq<DeviceView>,
    bus: Still,
    i: int,
    k: int,
)
    requires
        only_one(devices, id, i),
        devices[i].path is Ok,
        levels == 0 || levels < devices[i].path->Ok_0.len(),
        ({
            let path = devices[i].path->Ok_0;
            let len = path.len() - levels;
            &&& 0 <= k < len || k == len == 0
            &&& forall|j: int|
                k < j < len ==> power_laws::ganged(
                    devices,
                    devices[i].bus,
                    #[trigger] path.take(j),
                    bus,
                )
        }),
    ensures
        ({
            let path = devices[i].path->Ok_0;
            let number = devices[i].bus;
            let len = path.len() - levels;
            let device = sysfs::location_of(number, path.take(len));
            let hubs = hub::hubs_among(devices);
            let above = sysfs::location_of(number, path.take(k));
            let below = sysfs::location_of(number, path.take(k + 1));
            let found = found_above(id, levels, pairs, devices, bus);
            &&& k == 0 ==> found == Err::<PowerPortsView, ErrorView>(
                ErrorView::NoSwitchableHub { device },
            )
            &&& k > 0 && hub::first_at(hubs, above) is None ==> found == Err::<
                PowerPortsView,
                ErrorView,
            >(ErrorView::HubMissing { location: above })
            &&& k > 0 && hub::first_at(hubs, above) is Some && hub::opened(
                hub::first_at(hubs, above)->0,
                (bus.hub)(above).reply,
            ) is Err ==> found == Err::<PowerPortsView, ErrorView>(
                hub::opened(hub::first_at(hubs, above)->0, (bus.hub)(above).reply)->Err_0,
            )
            &&& 0 < k < len - 1 && power_laws::switchable(devices, number, path.take(k), bus)
                ==> found == Err::<PowerPortsView, ErrorView>(
                ErrorView::BehindHub {
                    device,
                    hub: below,
                    hub_id: match hub::first_at(hubs, below) {
                        Some(dev) => match dev.descriptor {
                            Ok(desc) => Some(
                                DeviceIdView { vid: desc.vid, pid: desc.pid, serial: None },
                            ),
                            Err(_) => None,
                        },
                        None => None,
                    },
                    levels: (len - 1 - k) as u8,
                },
            )
        }),
{
    lemma_one(devices, id, i);
    lemma_first(devices, id, i);
    let dev = devices[i];
    let path = dev.path->Ok_0;
    let len = path.len() - levels;
    let target = path.take(len);
    let q = beginning(id, dev, target, pairs, devices);
    assert(found_above(id, levels, pairs, devices, bus) == concluded(q.walking(len), bus));
    if len > 0 {
        assert forall|j: int| k < j < len implies power_laws::ganged(
            devices,
            q.bus,
            #[trigger] q.path.take(j),
            bus,
        ) by {
            assert(target.take(j) =~= path.take(j));
        }
        lemma_come_up(q, k + 1, devices, bus);
        assert(target.take(k) =~= path.take(k));
        assert(target.take(k + 1) =~= path.take(k + 1));
        if k > 0 {
            let location = sysfs::location_of(q.bus, path.take(k));
            let asked = HubQuestionView { len: k + 1, location, ..q };
            if hub::first_at(q.hubs, location) is Some {
                let answer = (bus.hub)(location);
                assert(q.walking(k + 1) == SearchView::OpenHub(asked));
                assert(concluded(q.walking(k + 1), bus) == concluded(asked.answered(answer), bus));
            }
        }
    }
}

/// What is switched where the hub that feeds the target switches per port: its
/// port, and the port of the same number on the other half of it. Every way in
/// which that fails is told apart, and where none of them holds the search
/// succeeds.
pub proof fn law_what_is_switched(
    id: DeviceIdView,
    levels: u8,
    pairs: HubPairsView,
    devices: Seq<DeviceView>,
    bus: Still,
    i: int,
    hub: HubView,
)
    requires
        only_one(devices, id, i),
        devices[i].path is Ok,
        levels + 2 <= devices[i].path->Ok_0.len(),
        ({
            let path = devices[i].path->Ok_0;
            let len = path.len() - levels;
            power_laws::hub_at(devices, devices[i].bus, path.take(len - 1), bus) == Ok::<
                HubView,
                ErrorView,
            >(hub)
        }),
        hub.per_port_power,
    ensures
        ({
            let path = devices[i].path->Ok_0;
            let number = path[path.len() - levels - 1];
            let config = (bus.hub)(
                sysfs::location_of(devices[i].bus, path.take(path.len() - levels - 1)),
            ).config;
            let hubs = hub::hubs_among(devices);
            let name = hub.location + " port "@ + text::dec(number as nat);
            let found = found_above(id, levels, pairs, devices, bus);
            match config {
                Err(e) => found == Err::<PowerPortsView, ErrorView>(ErrorView::Usb(e)),
                Ok(config) => {
                    let primary = port_on(hub, number, config);
                    match pairing_of(devices, pairs).verdict(hub.location) {
                        VerdictView::DeclaredAlone => found == Ok::<PowerPortsView, ErrorView>(
                            PowerPortsView { primary, held: Seq::empty(), device: id },
                        ),
                        VerdictView::Usb2Hub => found == Ok::<PowerPortsView, ErrorView>(
                            PowerPortsView { primary, held: Seq::empty(), device: id },
                        ),
                        VerdictView::Paired { other, .. } => {
                            let dev = hub::first_at(hubs, other);
                            let answer = (bus.hub)(other);
                            let twin = hub::opened(dev->0, answer.reply);
                            let peer = port_on(twin->Ok_0, number, answer.config->Ok_0);
                            &&& dev is None ==> found == Err::<PowerPortsView, ErrorView>(
                                ErrorView::HubMissing { location: other },
                            )
                            &&& dev is Some && twin is Err ==> found == Err::<
                                PowerPortsView,
                                ErrorView,
                            >(twin->Err_0)
                            &&& dev is Some && twin is Ok && !twin->Ok_0.per_port_power
                                ==> found == Err::<PowerPortsView, ErrorView>(
                                ErrorView::PeerNotSwitchable {
                                    port: name,
                                    peer: other + " port "@ + text::dec(number as nat),
                                },
                            )
                            &&& dev is Some && twin is Ok && twin->Ok_0.per_port_power
                                && answer.config is Err ==> found == Err::<
                                PowerPortsView,
                                ErrorView,
                            >(ErrorView::Usb(answer.config->Err_0))
                            &&& dev is Some && twin is Ok && twin->Ok_0.per_port_power
                                && answer.config is Ok ==> if port::holdable(
                                (bus.socket)(
                                    sysfs::location_below(peer.hub.location, peer.hub.bus, number),
                                ),
                                (bus.socket)(
                                    sysfs::location_below(hub.location, hub.bus, number),
                                ),
                            ) {
                                found == Ok::<PowerPortsView, ErrorView>(
                                    PowerPortsView { primary, held: seq![peer], device: id },
                                )
                            } else {
                                found == Err::<PowerPortsView, ErrorView>(
                                    ErrorView::PeerNotFound {
                                        port: name,
                                        candidate: peer.hub.location + " port "@ + text::dec(
                                            number as nat,
                                        ),
                                    },
                                )
                            }
                        },
                        _ => found == Err::<PowerPortsView, ErrorView>(
                            ErrorView::HubUnpaired {
                                port: name,
                                hub: hub.location,
                                other_side: if device_laws::version_number(hub.version)
                                    >= 0x030000 {
                                    "USB 2.0"@
                                } else {
                                    "SuperSpeed"@
                                },
                            },
                        ),
                    }
                },
            }
        }),
{
    lemma_one(devices, id, i);
    lemma_first(devices, id, i);
    let dev = devices[i];
    let path = dev.path->Ok_0;
    let len = path.len() - levels;
    let target = path.take(len);
    let q = beginning(id, dev, target, pairs, devices);
    assert(found_above(id, levels, pairs, devices, bus) == concluded(q.walking(len), bus));
    assert(target.take(len - 1) =~= path.take(len - 1));
    let location = sysfs::location_of(q.bus, path.take(len - 1));
    let asked = HubQuestionView { len, location, ..q };
    let answer = (bus.hub)(location);
    assert(q.walking(len) == SearchView::OpenHub(asked));
    assert(concluded(q.walking(len), bus) == concluded(asked.answered(answer), bus));
    assert(target[len - 1] == path[len - 1]);
    if answer.config is Ok {
        let primary = port_on(hub, path[len - 1], answer.config->Ok_0);
        assert(asked.answered(answer) == asked.feeding(primary));
        lemma_fed(asked, primary, bus);
    }
}

proof fn lemma_fed(q: HubQuestionView, primary: HubPortView, bus: Still)
    ensures
        q.pairing.verdict(primary.hub.location) matches VerdictView::Paired { other, .. } ==> {
            let asked = HubQuestionView { primary: Some(primary), location: other, ..q };
            let answer = (bus.hub)(other);
            hub::first_at(q.hubs, other) is Some ==> {
                &&& concluded(q.feeding(primary), bus) == concluded(asked.answered(answer), bus)
                &&& asked.answered(answer) matches SearchView::LookAt(s) ==> concluded(
                    q.feeding(primary),
                    bus,
                ) == s.answered(
                    (bus.socket)(s.peer.child_location()),
                    (bus.socket)(s.primary.child_location()),
                )->Done_0
            }
        },
{
    if let VerdictView::Paired { other, .. } = q.pairing.verdict(primary.hub.location) {
        let asked = HubQuestionView { primary: Some(primary), location: other, ..q };
        if hub::first_at(q.hubs, other) is Some {
            let next = asked.answered((bus.hub)(other));
            assert(q.feeding(primary) == SearchView::OpenHub(asked));
            assert(concluded(SearchView::OpenHub(asked), bus) == concluded(next, bus));
            if let SearchView::LookAt(s) = next {
                let last = s.answered(
                    (bus.socket)(s.peer.child_location()),
                    (bus.socket)(s.primary.child_location()),
                );
                assert(concluded(next, bus) == concluded(last, bus));
            }
        }
    }
}

// ---------------------------------------------------------------------------
// What was found
// ---------------------------------------------------------------------------

/// How long the ports stay off: as long as asked for, and never less than the
/// 200 ms in which a `SuperSpeed` port goes off, where one is switched.
pub proof fn law_a_super_speed_port_is_given_time(ports: PowerPortsView, off_time: Span)
    ensures
        ({
            let asked = off_time.secs * 1_000_000_000 + off_time.nanos;
            let settled = ports.settled(off_time);
            let given = settled.secs * 1_000_000_000 + settled.nanos;
            let involved = ports.held.len() > 0 || device_laws::version_number(
                ports.primary.hub.version,
            ) >= 0x030000;
            &&& given >= asked
            &&& involved ==> given >= 200_000_000
            &&& !involved || asked >= 200_000_000 ==> settled == off_time
            &&& involved && asked < 200_000_000 ==> given == 200_000_000
        }),
{
}

/// What is said of found ports: the one that is cut, and each that is held down,
/// with their speeds; or that there is none.
pub proof fn law_found_ports_are_written_out(ports: PowerPortsView, i: int)
    ensures
        text_laws::holds(ports.text(), "cutting "@ + ports.primary.debug_text() + "\n"@),
        0 <= i < ports.held.len() ==> text_laws::holds(
            ports.text(),
            ports.held[i].debug_text(),
        ),
        ports.held.len() == 1 ==> ports.text() == "cutting "@ + ports.primary.debug_text() + "\n"@
            + "   holding down "@ + ports.held[0].debug_text(),
        ports.held.len() == 0 ==> ports.text() == "cutting "@ + ports.primary.debug_text() + "\n"@
            + "   nothing held down (receptacle has no other half)"@,
{
    let cutting = "cutting "@ + ports.primary.debug_text() + "\n"@;
    let rest = ports.text().skip(cutting.len() as int);
    assert(ports.text() =~= Seq::<char>::empty() + cutting + rest);
    text_laws::lemma_holds(Seq::empty(), cutting, rest);
    let names = ports.held.map_values(|p: HubPortView| p.debug_text());
    if 0 <= i < ports.held.len() {
        text_laws::law_a_list_holds_its_parts(names, ", "@, i);
        text_laws::lemma_holds_behind(
            cutting + "   holding down "@,
            text::joined(names, ", "@),
            names[i],
        );
    }
    if ports.held.len() == 1 {
        assert(names =~= seq![ports.held[0].debug_text()]);
        text_laws::law_separators_stand_between(names, names[0], ", "@);
    }
}

} // verus!
