//! What holds of all devices, hubs and ports: what is made of what the bus tells
//! of them.

use vstd::prelude::*;

use crate::device;
use crate::device::{Device, DeviceId, DeviceIdView, DeviceView};
use crate::error::ErrorView;
use crate::hub;
use crate::hub::{Hub, HubView};
use crate::pairing;
use crate::pairing::{Node, NodeView};
use crate::port;
use crate::port::{HubPortView, Socket, SocketView, SysfsOutcome};
use crate::power;
use crate::span::Span;
use crate::sysfs;
use crate::text;
use crate::text_laws;
use crate::usb::UsbError;
use crate::version;
use crate::version::Version;

verus! {

// ---------------------------------------------------------------------------
// Versions and spans
// ---------------------------------------------------------------------------

/// A version as one number, as in `0x0210` but with a byte for each part.
pub open spec fn version_number(v: Version) -> int {
    v.0 * 65536 + v.1 * 256 + v.2
}

/// Versions compare as numbers do.
pub proof fn law_versions_compare_as_numbers(a: Version, b: Version)
    ensures
        version::at_least(a, b) <==> version_number(a) >= version_number(b),
        version::version_order(a, b) is Less <==> version_number(a) < version_number(b),
        version::version_order(a, b) is Equal <==> version_number(a) == version_number(b),
        version::version_order(a, b) is Greater <==> version_number(a) > version_number(b),
{
}

/// A hub is a `SuperSpeed` hub from USB 3.0.0 on, and may have another half from
/// USB 2.1.0 on.
pub proof fn law_what_a_version_says(hub: HubView, node: NodeView)
    ensures
        hub.super_speed() <==> version_number(hub.version) >= 0x030000,
        node.super_speed() <==> version_number(node.version) >= 0x030000,
        node.may_have_other_half() <==> version_number(node.version) >= 0x020100,
        hub.super_speed() ==> hub.other_side() == "USB 2.0"@,
        !hub.super_speed() ==> hub.other_side() == "SuperSpeed"@,
{
}

/// What is left of a span and what was taken make up the span; nothing is left
/// of a shorter one.
pub proof fn law_what_is_left_of_a_span(a: Span, b: Span)
    requires
        a.nanos < 1_000_000_000,
        b.nanos < 1_000_000_000,
    ensures
        a.in_nanos() == a.secs * 1_000_000_000 + a.nanos,
        a.minus(b).nanos < 1_000_000_000,
        a.in_nanos() >= b.in_nanos() ==> a.minus(b).in_nanos() + b.in_nanos() == a.in_nanos(),
        a.in_nanos() < b.in_nanos() ==> a.minus(b).in_nanos() == 0,
{
    let n = (a.in_nanos() - b.in_nanos());
    if n >= 0 {
        let q = n / 1_000_000_000;
        let r = n % 1_000_000_000;
        assert(n == q * 1_000_000_000 + r);
        assert(0 <= q <= a.secs);
    }
}

// ---------------------------------------------------------------------------
// Locations and attributes
// ---------------------------------------------------------------------------

/// How a location is written: `usb` and the bus for a root hub; the bus, a dash
/// and the port on a root hub; and a dot and the port for each hub further down.
pub proof fn law_a_location_is_written_out(bus: u8, path: Seq<u8>, port: u8)
    ensures
        sysfs::location_of(bus, Seq::empty()) == "usb"@ + text::dec(bus as nat),
        sysfs::location_of(bus, seq![port]) == text::dec(bus as nat) + "-"@ + text::dec(
            port as nat,
        ),
        path.len() > 0 ==> sysfs::location_of(bus, path.push(port)) == sysfs::location_of(bus, path)
            + "."@ + text::dec(port as nat),
{
    if path.len() > 0 {
        assert(path.push(port).drop_last() =~= path);
        assert(sysfs::location_of(bus, path.push(port)) =~= sysfs::location_of(bus, path) + "."@
            + text::dec(port as nat));
    }
}

/// Where a device on a port of a hub is: below a root hub, named after the bus;
/// below any other, after the hub.
pub proof fn law_a_location_below_is_written_out(rest: Seq<char>, hub: Seq<char>, bus: u8, port: u8)
    ensures
        sysfs::location_below("usb"@ + rest, bus, port) == text::dec(bus as nat) + "-"@ + text::dec(
            port as nat,
        ),
        hub.len() < 3 || hub.take(3) != "usb"@ ==> sysfs::location_below(hub, bus, port) == hub
            + "."@ + text::dec(port as nat),
{
    reveal_strlit("usb");
    assert(("usb"@ + rest).take(3) =~= "usb"@);
}

/// Where the attribute of a device is.
pub proof fn law_an_attribute_is_below_its_device(location: Seq<char>, attribute: Seq<char>)
    ensures
        sysfs::path_of_attribute(location, attribute) == "/sys/bus/usb/devices/"@ + location + "/"@
            + attribute,
{
    reveal_strlit("/sys/bus/usb/devices");
    reveal_strlit("/sys/bus/usb/devices/");
    reveal_strlit("/");
    assert("/sys/bus/usb/devices"@ + "/"@ =~= "/sys/bus/usb/devices/"@);
}

/// An attribute reads without the white space around it, and as nothing where it
/// is unreadable. A byte in it is the number that is left, up to 255.
pub proof fn law_an_attribute_is_trimmed(
    before: Seq<char>,
    core: Seq<char>,
    after: Seq<char>,
    radix: nat,
)
    requires
        2 <= radix <= 16,
        forall|i: int| 0 <= i < before.len() ==> text::white(#[trigger] before[i]),
        forall|i: int| 0 <= i < after.len() ==> text::white(#[trigger] after[i]),
        core.len() > 0 ==> !text::white(core[0]) && !text::white(core.last()),
    ensures
        sysfs::attribute_text(Some(before + core + after)) == core,
        sysfs::attribute_text(None) == Seq::<char>::empty(),
        sysfs::byte(Seq::empty(), radix) is None,
        match text::number(core, radix, 255) {
            Some(n) => sysfs::byte(core, radix) == Some(n as u8),
            None => sysfs::byte(core, radix) is None,
        },
        sysfs::class_in(Some(before + core + after)) == sysfs::byte(core, 16),
        sysfs::class_in(None) is None,
{
    text_laws::law_trimming_takes_the_white_space_around(before, core, after);
    text_laws::law_what_is_no_number(core, radix, 255, 0);
}

/// A number of ports that sysfs writes reads back.
pub proof fn law_a_written_byte_reads_back(n: u8, after: Seq<char>)
    requires
        forall|i: int| 0 <= i < after.len() ==> text::white(#[trigger] after[i]),
    ensures
        sysfs::byte(sysfs::attribute_text(Some(text::dec(n as nat) + after)), 10) == Some(n),
{
    let core = text::dec(n as nat);
    text::lemma_dec(n as nat);
    assert('0' <= core[0] <= '9' && '0' <= core[core.len() - 1] <= '9');
    law_an_attribute_is_trimmed(Seq::empty(), core, after, 10);
    assert(Seq::<char>::empty() + core + after =~= core + after);
    text::law_decimal_reads_back(n as nat, 255);
}

// ---------------------------------------------------------------------------
// Devices
// ---------------------------------------------------------------------------

/// What is seen of a device is what it holds.
pub proof fn law_a_device_is_seen_as_it_is(dev: Device, id: DeviceId, socket: Socket)
    ensures
        dev@.bus == dev.bus,
        dev@.descriptor == dev.descriptor,
        dev.path matches Ok(path) ==> dev@.path == Ok::<Seq<u8>, UsbError>(path@),
        dev.path matches Err(e) ==> dev@.path == Err::<Seq<u8>, UsbError>(e),
        dev.serial matches Some(s) ==> dev@.serial == Some(s@),
        dev.serial is None ==> dev@.serial is None,
        dev.product matches Some(s) ==> dev@.product == Some(s@),
        dev.product is None ==> dev@.product is None,
        dev.max_child matches Some(s) ==> dev@.max_child == Some(s@),
        dev.max_child is None ==> dev@.max_child is None,
        dev.controller matches Some(s) ==> dev@.controller == Some(s@),
        dev.controller is None ==> dev@.controller is None,
        id@.vid == id.vid && id@.pid == id.pid,
        id.serial matches Some(s) ==> id@.serial == Some(s@),
        id.serial is None ==> id@.serial is None,
        socket@.occupied == socket.occupied,
        socket.class matches Some(s) ==> socket@.class == Some(s@),
        socket.class is None ==> socket@.class is None,
{
}

/// What is seen of a hub, opened or paired, is what it holds.
pub proof fn law_a_hub_is_seen_as_it_is(hub: Hub, node: Node)
    ensures
        hub@.path == hub.path@ && hub@.location == hub.location@ && hub@.bus == hub.bus,
        hub@.version == hub.version && hub@.vid == hub.vid && hub@.nports == hub.nports,
        hub@.per_port_power == hub.per_port_power,
        node@.path == node.path@ && node@.location == node.location@ && node@.bus == node.bus,
        node@.version == node.version && node@.vid == node.vid && node@.nports == node.nports,
        node.controller matches Some(s) ==> node@.controller == Some(s@),
        node.controller is None ==> node@.controller is None,
{
}

/// A device is at the end of its path, or at the root of its bus where the path
/// is not known.
pub proof fn law_a_device_is_at_the_end_of_its_path(dev: DeviceView)
    ensures
        dev.path matches Ok(path) ==> dev.ports() == path && dev.location() == sysfs::location_of(
            dev.bus,
            path,
        ),
        dev.path is Err ==> dev.ports().len() == 0 && dev.location() == "usb"@ + text::dec(
            dev.bus as nat,
        ),
{
}

/// A device carries an identity if its descriptor was read and has that vendor
/// and that product, and its serial is that one where one is asked for.
pub proof fn law_what_carries_an_identity(dev: DeviceView, vid: u16, pid: u16, serial: Seq<char>)
    ensures
        ({
            let same = dev.descriptor matches Ok(desc) && desc.vid == vid && desc.pid == pid;
            let read = match dev.serial {
                Some(content) => text::trimmed(content),
                None => Seq::empty(),
            };
            &&& device::has_ids(dev, vid, pid) <==> same
            &&& device::carries(dev, DeviceIdView { vid, pid, serial: None }) <==> same
            &&& device::carries(dev, DeviceIdView { vid, pid, serial: Some(serial) }) <==> same
                && read == serial
        }),
{
}

/// Every device that carries an identity counts once, and no other.
pub proof fn law_matching_devices_are_counted(
    devices: Seq<DeviceView>,
    dev: DeviceView,
    id: DeviceIdView,
)
    ensures
        device::matching(Seq::empty(), id) == 0,
        device::carries(dev, id) ==> device::matching(devices.push(dev), id) == device::matching(
            devices,
            id,
        ) + 1,
        !device::carries(dev, id) ==> device::matching(devices.push(dev), id) == device::matching(
            devices,
            id,
        ),
{
    assert(devices.push(dev).drop_last() =~= devices);
}

/// The first device that carries an identity.
pub proof fn law_the_first_that_carries_an_identity(
    before: Seq<DeviceView>,
    dev: DeviceView,
    after: Seq<DeviceView>,
    id: DeviceIdView,
)
    requires
        forall|i: int| 0 <= i < before.len() ==> !device::carries(#[trigger] before[i], id),
    ensures
        power::first_carrying(before, id) is None,
        device::carries(dev, id) ==> power::first_carrying(before + seq![dev] + after, id) == Some(
            dev,
        ),
    decreases before.len(),
{
    let all = before + seq![dev] + after;
    if before.len() > 0 {
        assert(all[0] == before[0]);
        assert(!device::carries(before[0], id));
        let rest = before.drop_first();
        assert forall|i: int| 0 <= i < rest.len() implies !device::carries(#[trigger] rest[i], id) by {
            assert(rest[i] == before[i + 1]);
        }
        law_the_first_that_carries_an_identity(rest, dev, after, id);
        assert(all.drop_first() =~= rest + seq![dev] + after);
    } else {
        assert(all[0] == dev);
    }
}

/// An identity is written as vendor and product, each as four digits, and the
/// serial where there is one.
pub proof fn law_an_identity_is_written_out(vid: u16, pid: u16, serial: Seq<char>)
    ensures
        device::id_text(DeviceIdView { vid, pid, serial: None }) == text::hex4(vid) + ":"@
            + text::hex4(pid),
        device::id_text(DeviceIdView { vid, pid, serial: Some(serial) }) == text::hex4(vid) + ":"@
            + text::hex4(pid) + ":"@ + serial,
{
}

/// A device is gone once nothing on the bus carries its identity, and not
/// before. A bus that could not be enumerated tells neither.
pub proof fn law_when_a_device_is_gone(
    devices: Seq<DeviceView>,
    id: DeviceIdView,
    i: int,
    error: UsbError,
)
    ensures
        power::gone(id, Err(error)) == Err::<bool, ErrorView>(ErrorView::Usb(error)),
        power::gone(id, Ok(Seq::empty())) == Ok::<bool, ErrorView>(true),
        power::gone(id, Ok(devices)) is Ok,
        0 <= i < devices.len() && device::carries(devices[i], id) ==> power::gone(id, Ok(devices))
            == Ok::<bool, ErrorView>(false),
        device::matching(devices, id) == 0 ==> power::gone(id, Ok(devices)) == Ok::<
            bool,
            ErrorView,
        >(true),
{
    device::lemma_matching(devices, id);
    let present = 0 <= i < devices.len() && device::carries(devices[i], id);
    if present {
        let bus = Ok::<Seq<DeviceView>, UsbError>(devices);
        assert(device::carries(bus->Ok_0[i], id));
        assert(power::gone(id, bus) == Ok::<bool, ErrorView>(false));
    }
}

// ---------------------------------------------------------------------------
// Hubs
// ---------------------------------------------------------------------------

/// Whether a hub switches power per port rests on two bits of its descriptor, and
/// on how many ports it has: with several, the bits must be 01; with one, ganged
/// switching, 00, is the same act.
pub proof fn law_two_bits_say_how_power_is_switched(a: Seq<u8>, b: Seq<u8>)
    ensures
        hub::hub_fields(a) is Some <==> a.len() >= 9,
        a.len() >= 9 ==> ({
            let (nports, per_port) = hub::hub_fields(a)->0;
            &&& nports == a[2]
            &&& nports != 1 ==> (per_port <==> a[3] & 3 == 1)
            &&& nports == 1 ==> (per_port <==> a[3] & 2 == 0)
        }),
        a.len() >= 9 && b.len() >= 9 && a[2] == b[2] && a[3] & 3 == b[3] & 3 ==> hub::hub_fields(a)
            == hub::hub_fields(b),
{
    let (x, y) = (a[3], b[3]);
    assert(x & 3 == x % 4) by (bit_vector);
    assert(y & 3 == y % 4) by (bit_vector);
    assert((x & 2 == 0) <==> (x % 4 == 0 || x % 4 == 1)) by (bit_vector);
}

/// A device is a hub by its class alone.
pub proof fn law_a_hub_is_known_by_its_class(dev: DeviceView)
    ensures
        hub::hub_class(dev) <==> (dev.descriptor matches Ok(desc) && desc.class == 9),
{
}

/// The hubs on a bus are the devices of that class, each of them, in the order
/// they came.
pub proof fn law_every_hub_is_among_the_hubs(devices: Seq<DeviceView>, dev: DeviceView)
    ensures
        hub::hubs_among(Seq::empty()) == Seq::<DeviceView>::empty(),
        hub::hubs_among(devices.push(dev)) == (if (dev.descriptor matches Ok(desc) && desc.class
            == 9) {
            hub::hubs_among(devices).push(dev)
        } else {
            hub::hubs_among(devices)
        }),
{
    reveal(Seq::filter);
    assert(hub::hubs_among(Seq::empty()) =~= Seq::<DeviceView>::empty());
    assert(devices.push(dev).drop_last() =~= devices);
}

/// A device is among the hubs of a bus where it is on the bus and a hub.
pub proof fn law_what_is_among_the_hubs(devices: Seq<DeviceView>, dev: DeviceView)
    ensures
        hub::hubs_among(devices).contains(dev) <==> devices.contains(dev) && (
        dev.descriptor matches Ok(desc) && desc.class == 9),
    decreases devices.len(),
{
    reveal(Seq::filter);
    if devices.len() > 0 {
        let fewer = devices.drop_last();
        law_what_is_among_the_hubs(fewer, dev);
        let all = hub::hubs_among(devices);
        let less = hub::hubs_among(fewer);
        assert(devices[devices.len() - 1] == devices.last());
        if devices.contains(dev) {
            let i = choose|i: int| 0 <= i < devices.len() && devices[i] == dev;
            if i < fewer.len() {
                assert(fewer[i] == dev);
            }
        }
        if fewer.contains(dev) {
            let i = choose|i: int| 0 <= i < fewer.len() && fewer[i] == dev;
            assert(devices[i] == dev);
        }
        if hub::hub_class(devices.last()) {
            assert(all == less.push(devices.last()));
            assert(all[all.len() - 1] == devices.last());
            if all.contains(dev) {
                let i = choose|i: int| 0 <= i < all.len() && all[i] == dev;
                if i < less.len() {
                    assert(less[i] == dev);
                }
            }
            if less.contains(dev) {
                let i = choose|i: int| 0 <= i < less.len() && less[i] == dev;
                assert(all[i] == dev);
            }
        }
    }
}

/// Looking up a location gives the first device there, and none only where there
/// is none.
pub proof fn law_the_first_at_a_location(
    before: Seq<DeviceView>,
    dev: DeviceView,
    after: Seq<DeviceView>,
    location: Seq<char>,
)
    requires
        forall|i: int|
            0 <= i < before.len() ==> sysfs::location_of(
                (#[trigger] before[i]).bus,
                before[i].ports(),
            ) != location,
    ensures
        hub::first_at(before, location) is None,
        sysfs::location_of(dev.bus, dev.ports()) == location ==> hub::first_at(
            before + seq![dev] + after,
            location,
        ) == Some(dev),
    decreases before.len(),
{
    let all = before + seq![dev] + after;
    if before.len() > 0 {
        assert(all[0] == before[0]);
        let rest = before.drop_first();
        assert forall|i: int| 0 <= i < rest.len() implies sysfs::location_of(
            (#[trigger] rest[i]).bus,
            rest[i].ports(),
        ) != location by {
            assert(rest[i] == before[i + 1]);
        }
        law_the_first_at_a_location(rest, dev, after, location);
        assert(all.drop_first() =~= rest + seq![dev] + after);
    } else {
        assert(all[0] == dev);
    }
}

/// A hub that opens is the device that was opened, with the ports and the
/// switching that its hub descriptor tells. It opens where both its descriptor
/// and its hub descriptor were read; else the error says which hub, and why.
pub proof fn law_an_opened_hub_is_the_device(dev: DeviceView, reply: Result<Seq<u8>, UsbError>)
    ensures
        hub::opened(dev, reply) is Ok <==> dev.descriptor is Ok && reply is Ok && reply->Ok_0.len()
            >= 9,
        hub::opened(dev, reply) matches Ok(hub) ==> {
            let bytes = reply->Ok_0;
            let desc = dev.descriptor->Ok_0;
            &&& hub.bus == dev.bus
            &&& hub.path == dev.ports()
            &&& hub.location == sysfs::location_of(dev.bus, dev.ports())
            &&& hub.version == desc.version
            &&& hub.vid == desc.vid
            &&& hub.nports == bytes[2]
            &&& hub.per_port_power <==> (if bytes[2] == 1 {
                bytes[3] & 2 == 0
            } else {
                bytes[3] & 3 == 1
            })
        },
        hub::opened(dev, reply) matches Err(e) ==> {
            let source = match (dev.descriptor, reply) {
                (Err(source), _) => source,
                (_, Err(source)) => source,
                _ => UsbError::Io,
            };
            e == (ErrorView::HubUnreadable {
                location: sysfs::location_of(dev.bus, dev.ports()),
                source,
            })
        },
{
    if reply is Ok {
        law_two_bits_say_how_power_is_switched(reply->Ok_0, reply->Ok_0);
    }
}

/// A hub that is looked up is opened where it is there, and missing where it is
/// not.
pub proof fn law_a_hub_is_opened_where_it_is(
    hubs: Seq<DeviceView>,
    location: Seq<char>,
    reply: Result<Seq<u8>, UsbError>,
)
    ensures
        match hub::first_at(hubs, location) {
            Some(dev) => hub::opened_at(hubs, location, reply) == hub::opened(dev, reply),
            None => hub::opened_at(hubs, location, reply) == Err::<HubView, ErrorView>(
                ErrorView::HubMissing { location },
            ),
        },
{
}

/// Where the sysfs directory of a port is. A root hub's interface is named after
/// its bus.
pub proof fn law_a_port_directory_is_written_out(hub: HubView, port: u8, config: u8)
    ensures
        hub.port_dir(port, config) == "/sys/bus/usb/devices/"@ + (if hub.path.len() == 0 {
            text::dec(hub.bus as nat) + "-0"@
        } else {
            hub.location
        }) + ":"@ + text::dec(config as nat) + ".0/"@ + hub.location + "-port"@ + text::dec(
            port as nat,
        ),
{
    reveal_strlit("/sys/bus/usb/devices");
    reveal_strlit("/sys/bus/usb/devices/");
    reveal_strlit("/");
    assert("/sys/bus/usb/devices"@ + "/"@ =~= "/sys/bus/usb/devices/"@);
}

// ---------------------------------------------------------------------------
// Ports
// ---------------------------------------------------------------------------

/// A port is that of the hub and of the number it was made for. Only an unread
/// configuration keeps it from being made.
pub proof fn law_a_port_belongs_to_its_hub(hub: HubView, port: u8, config: Result<u8, UsbError>)
    ensures
        match (config, port::port_of(hub, port, config)) {
            (Ok(n), Ok(made)) => made.hub == hub && made.port == port && made.dir == hub.port_dir(
                port,
                n,
            ),
            (Err(e), Err(error)) => error == ErrorView::Usb(e),
            _ => false,
        },
{
}

/// What is plugged into a port is one port further down than its hub.
pub proof fn law_what_is_plugged_in_is_below_the_hub(port: HubPortView)
    requires
        port.hub.location == sysfs::location_of(port.hub.bus, port.hub.path),
    ensures
        port.child_location() == sysfs::location_of(port.hub.bus, port.hub.path.push(port.port)),
{
    sysfs::law_child_location_extends_the_path(port.hub.bus, port.hub.path, port.port);
}

/// A port is written as its hub and its number, and with its speed as `SS` for a
/// `SuperSpeed` hub and `HS` for any other.
pub proof fn law_a_port_is_written_out(port: HubPortView)
    ensures
        port.text() == port.hub.location + " port "@ + text::dec(port.port as nat),
        version_number(port.hub.version) >= 0x030000 ==> port.debug_text() == port.text() + " ("@
            + "SS"@ + ")"@,
        version_number(port.hub.version) < 0x030000 ==> port.debug_text() == port.text() + " ("@
            + "HS"@ + ")"@,
{
}

/// A socket holds a hub where its class reads as nine, in hexadecimal.
pub proof fn law_a_plugged_in_hub_is_known_by_its_class(
    occupied: bool,
    before: Seq<char>,
    core: Seq<char>,
    after: Seq<char>,
)
    requires
        forall|i: int| 0 <= i < before.len() ==> text::white(#[trigger] before[i]),
        forall|i: int| 0 <= i < after.len() ==> text::white(#[trigger] after[i]),
        core.len() > 0 ==> !text::white(core[0]) && !text::white(core.last()),
    ensures
        (SocketView { occupied, class: Some(before + core + after) }).holds_hub() <==> text::number(
            core,
            16,
            255,
        ) == Some(9nat),
        !(SocketView { occupied, class: None }).holds_hub(),
{
    law_an_attribute_is_trimmed(before, core, after, 16);
}

/// A port can be held down alongside another if it is empty, whatever the other
/// holds; and if something is in it, only where both hold a hub.
pub proof fn law_what_can_be_held_down(held: SocketView, primary: SocketView)
    ensures
        !held.occupied ==> port::holdable(held, primary),
        held.occupied && held.holds_hub() && primary.holds_hub() ==> port::holdable(held, primary),
        held.occupied && !held.holds_hub() ==> !port::holdable(held, primary),
        held.occupied && !primary.holds_hub() ==> !port::holdable(held, primary),
{
}

/// A port is switched where either route switched it. Where neither did, the
/// error names the port, and why each route failed.
pub proof fn law_either_route_switches_a_port(
    port: HubPortView,
    sysfs: SysfsOutcome,
    usbfs: Result<(), UsbError>,
)
    ensures
        port::switched(port, sysfs, usbfs) is Ok <==> sysfs is Written || usbfs is Ok,
        port::switched(port, sysfs, usbfs) matches Err(e) ==> e == (ErrorView::SwitchFailed {
            port: port.hub.location + " port "@ + text::dec(port.port as nat),
            sysfs: match sysfs {
                SysfsOutcome::Failed(reason) => Some(reason@),
                _ => None,
            },
            usbfs: usbfs->Err_0,
        }),
{
}

// ---------------------------------------------------------------------------
// Hubs to be paired
// ---------------------------------------------------------------------------

/// What pairing knows of a hub is what its descriptor and sysfs tell: where it
/// is, its version, its vendor, how many ports it has, and, for a root hub, its
/// host controller.
pub proof fn law_pairing_knows_what_the_bus_tells(dev: DeviceView)
    ensures
        pairing::node_of(dev) is Some <==> dev.descriptor is Ok && dev.path is Ok,
        pairing::node_of(dev) matches Some(node) ==> {
            let desc = dev.descriptor->Ok_0;
            let path = dev.path->Ok_0;
            &&& node.bus == dev.bus
            &&& node.path == path
            &&& node.location == sysfs::location_of(dev.bus, path)
            &&& node.version == desc.version
            &&& node.vid == desc.vid
            &&& dev.max_child is None ==> node.nports is None
            &&& dev.max_child matches Some(content) ==> match text::number(
                text::trimmed(content),
                10,
                255,
            ) {
                Some(n) => node.nports == Some(n as u8),
                None => node.nports is None,
            }
            &&& path.len() == 0 ==> node.controller == dev.controller
            &&& path.len() > 0 ==> node.controller is None
        },
{
    text_laws::law_what_is_no_number(Seq::empty(), 10, 255, 0);
}

/// Pairing knows of every hub that can be read, in the order they came.
pub proof fn law_pairing_knows_of_every_hub(devices: Seq<DeviceView>, dev: DeviceView)
    ensures
        pairing::nodes_of(Seq::empty()) == Seq::<NodeView>::empty(),
        match pairing::node_of(dev) {
            Some(node) => pairing::nodes_of(devices.push(dev)) == pairing::nodes_of(devices).push(
                node,
            ),
            None => pairing::nodes_of(devices.push(dev)) == pairing::nodes_of(devices),
        },
{
    assert(devices.push(dev).drop_last() =~= devices);
}

/// Two hubs can be the halves of one where they are of opposite speed and of one
/// vendor, and have as many ports as far as that is known of both.
pub proof fn law_what_halves_have_in_common(a: NodeView, b: NodeView)
    ensures
        a.matches(b) == b.matches(a),
        a.matches(b) ==> a.vid == b.vid && (version_number(a.version) >= 0x030000) != (
        version_number(b.version) >= 0x030000),
        a.vid == b.vid && (version_number(a.version) >= 0x030000) != (version_number(b.version)
            >= 0x030000) ==> (a.matches(b) <==> a.nports is None || b.nports is None || a.nports
            == b.nports),
{
}

} // verus!
