//! The USB tree, annotated with what matters for power cycling.

use vstd::prelude::*;

use crate::device;
use crate::device::{device_location, read_serial, Device, DeviceView};
use crate::hub;
use crate::hub::{copy_path, is_hub, Hub, Hubs};
use crate::pairing;
use crate::pairing::{Pairing, PairingView};
use crate::pairs::{HubPairs, HubPairsView};
use crate::power;
use crate::sysfs;
use crate::sysfs::{child_location, read_sysfs};
use crate::text;
use crate::text::{join, put_dec, put_hex4, put_padded, quoted, same_text};
use crate::usb;
use crate::usb::{describe, UsbError};
use crate::version::Version;

verus! {

// ---------------------------------------------------------------------------
// Entries
// ---------------------------------------------------------------------------

/// One enumerated device.
#[derive(Debug)]
struct Entry {
    location: String,
    bus: u8,
    path: Vec<u8>,
    vid: u16,
    pid: u16,
    version: Version,
    product: String,
    serial: String,
    /// `(bNbrPorts, per-port power switching)` for a hub that could be
    /// opened, `None` for a device or an unreadable hub.
    hub: Option<(u8, bool)>,
    is_hub: bool,
}

/// What the tree shows of one device.
pub struct EntryView {
    /// Its sysfs location.
    pub location: Seq<char>,
    /// The bus it is on.
    pub bus: u8,
    /// The ports from the root hub down to it.
    pub path: Seq<u8>,
    /// Vendor ID.
    pub vid: u16,
    /// Product ID.
    pub pid: u16,
    /// The USB version it declares.
    pub version: Version,
    /// Its product string, empty if it publishes none.
    pub product: Seq<char>,
    /// Its serial, empty if it publishes none.
    pub serial: Seq<char>,
    /// The number of ports and whether power is switched per port, for a hub
    /// that could be opened.
    pub hub: Option<(u8, bool)>,
    /// Whether it is a hub.
    pub is_hub: bool,
}

impl View for Entry {
    type V = EntryView;

    closed spec fn view(&self) -> EntryView {
        EntryView {
            location: self.location@,
            bus: self.bus,
            path: self.path@,
            vid: self.vid,
            pid: self.pid,
            version: self.version,
            product: self.product@,
            serial: self.serial@,
            hub: self.hub,
            is_hub: self.is_hub,
        }
    }
}

/// What the entries of a list hold.
spec fn entry_views(entries: Seq<Entry>) -> Seq<EntryView> {
    entries.map_values(|e: Entry| e@)
}

/// What the tree shows of a device, given the reply to the request for its hub
/// descriptor: nothing where its descriptor or its ports are not known.
pub open spec fn entry_of(dev: DeviceView, reply: Result<Seq<u8>, UsbError>) -> Option<EntryView> {
    match (dev.descriptor, dev.path) {
        (Ok(desc), Ok(path)) => Some(
            EntryView {
                location: dev.location(),
                bus: dev.bus,
                path,
                vid: desc.vid,
                pid: desc.pid,
                version: desc.version,
                product: sysfs::attribute_text(dev.product),
                serial: sysfs::attribute_text(dev.serial),
                hub: if hub::hub_class(dev) {
                    match hub::opened(dev, reply) {
                        Ok(hub) => Some((hub.nports, hub.per_port_power)),
                        Err(_) => None,
                    }
                } else {
                    None
                },
                is_hub: hub::hub_class(dev),
            },
        ),
        _ => None,
    }
}

/// What the tree shows of the first `n` devices.
pub open spec fn entries_of(
    devices: Seq<DeviceView>,
    replies: Seq<Result<Seq<u8>, UsbError>>,
    n: int,
) -> Seq<EntryView>
    decreases n,
{
    if n <= 0 {
        Seq::empty()
    } else {
        match entry_of(devices[n - 1], replies[n - 1]) {
            Some(entry) => entries_of(devices, replies, n - 1).push(entry),
            None => entries_of(devices, replies, n - 1),
        }
    }
}

/// What the replies of a list hold.
pub open spec fn reply_views(replies: Seq<Result<Vec<u8>, UsbError>>) -> Seq<
    Result<Seq<u8>, UsbError>,
> {
    replies.map_values(|r: Result<Vec<u8>, UsbError>| hub::reply_view(r))
}

impl Entry {
    /// What the tree shows of `dev`.
    fn read(dev: &Device, reply: &Result<Vec<u8>, UsbError>) -> (entry: Option<Self>)
        ensures
            match entry {
                Some(entry) => entry_of(dev@, hub::reply_view(*reply)) == Some(entry@),
                None => entry_of(dev@, hub::reply_view(*reply)) is None,
            },
    {
        match (&dev.descriptor, &dev.path) {
            (Ok(desc), Ok(path)) => {
                let is_hub: bool = is_hub(dev);
                let fields: Option<(u8, bool)> = if is_hub {
                    match Hub::open(dev, reply) {
                        Ok(hub) => Some((hub.nports, hub.per_port_power)),
                        Err(_) => None,
                    }
                } else {
                    None
                };
                Some(
                    Entry {
                        location: device_location(dev),
                        bus: dev.bus,
                        path: copy_path(path),
                        vid: desc.vid,
                        pid: desc.pid,
                        version: desc.version,
                        product: read_sysfs(&dev.product),
                        serial: read_serial(dev),
                        hub: fields,
                        is_hub,
                    },
                )
            },
            _ => None,
        }
    }

    /// What the tree shows of each of the devices.
    fn read_all(devices: &Vec<Device>, replies: &Vec<Result<Vec<u8>, UsbError>>) -> (entries: Vec<
        Entry,
    >)
        requires
            devices.len() == replies.len(),
        ensures
            entry_views(entries@) == entries_of(
                device::device_views(devices@),
                reply_views(replies@),
                devices.len() as int,
            ),
    {
        let ghost all = device::device_views(devices@);
        let ghost answers = reply_views(replies@);
        let mut entries: Vec<Entry> = Vec::new();
        let mut i: usize = 0;
        assert(entry_views(entries@) =~= Seq::<EntryView>::empty());
        while i < devices.len()
            invariant
                i <= devices.len(),
                devices.len() == replies.len(),
                all == device::device_views(devices@),
                answers == reply_views(replies@),
                entry_views(entries@) == entries_of(all, answers, i as int),
            decreases devices.len() - i,
        {
            let ghost before = entries@;
            assert(all[i as int] == devices@[i as int]@);
            assert(answers[i as int] == hub::reply_view(replies@[i as int]));
            match Entry::read(&devices[i], &replies[i]) {
                Some(entry) => {
                    entries.push(entry);
                    assert(entry_views(entries@) =~= entry_views(before).push(entry@));
                },
                None => {},
            }
            i = i + 1;
        }
        entries
    }
}

/// The entry at a location, the last where there are several.
pub open spec fn entry_at(entries: Seq<EntryView>, location: Seq<char>) -> Option<EntryView>
    decreases entries.len(),
{
    if entries.len() == 0 {
        None
    } else if entries.last().location == location {
        Some(entries.last())
    } else {
        entry_at(entries.drop_last(), location)
    }
}

/// Whether each entry is where its location says.
pub open spec fn tidy(entries: Seq<EntryView>) -> bool {
    forall|i: int|
        0 <= i < entries.len() ==> (#[trigger] entries[i]).location == sysfs::location_of(
            entries[i].bus,
            entries[i].path,
        )
}

/// The length of the longest path.
pub open spec fn deepest(entries: Seq<EntryView>) -> nat
    decreases entries.len(),
{
    if entries.len() == 0 {
        0
    } else if entries.last().path.len() > deepest(entries.drop_last()) {
        entries.last().path.len()
    } else {
        deepest(entries.drop_last())
    }
}

proof fn lemma_entry_at(entries: Seq<EntryView>, location: Seq<char>)
    ensures
        match entry_at(entries, location) {
            Some(entry) => {
                &&& entry.location == location
                &&& entries.contains(entry)
                &&& entry.path.len() <= deepest(entries)
            },
            None => forall|i: int|
                0 <= i < entries.len() ==> (#[trigger] entries[i]).location != location,
        },
    decreases entries.len(),
{
    if entries.len() > 0 {
        let fewer = entries.drop_last();
        lemma_entry_at(fewer, location);
        match entry_at(fewer, location) {
            Some(entry) => {
                let i = choose|i: int| 0 <= i < fewer.len() && fewer[i] == entry;
                assert(entries[i] == entry);
            },
            None => {
                assert forall|i: int|
                    0 <= i < entries.len() && entries.last().location != location implies (
                #[trigger] entries[i]).location != location by {
                    if i < fewer.len() {
                        assert(entries[i] == fewer[i]);
                    }
                }
            },
        }
        assert(entries[entries.len() - 1] == entries.last());
    }
}

proof fn lemma_tidy(
    devices: Seq<DeviceView>,
    replies: Seq<Result<Seq<u8>, UsbError>>,
    n: int,
)
    ensures
        tidy(entries_of(devices, replies, n)),
    decreases n,
{
    if n > 0 {
        lemma_tidy(devices, replies, n - 1);
    }
}

/// The entry on a port of a hub.
pub open spec fn child_of(entries: Seq<EntryView>, hub: EntryView, port: u8) -> Option<EntryView> {
    entry_at(entries, sysfs::location_below(hub.location, hub.bus, port))
}

/// What is on a port of a hub is one port further down.
pub proof fn lemma_child_is_deeper(entries: Seq<EntryView>, hub: EntryView, port: u8)
    requires
        tidy(entries),
        hub.location == sysfs::location_of(hub.bus, hub.path),
    ensures
        child_of(entries, hub, port) matches Some(child) ==> {
            &&& child.location == sysfs::location_of(child.bus, child.path)
            &&& child.path == hub.path.push(port)
            &&& hub.path.len() < child.path.len() <= deepest(entries)
        },
{
    let location = sysfs::location_below(hub.location, hub.bus, port);
    lemma_entry_at(entries, location);
    if let Some(child) = child_of(entries, hub, port) {
        let i = choose|i: int| 0 <= i < entries.len() && entries[i] == child;
        assert(entries[i].location == sysfs::location_of(entries[i].bus, entries[i].path));
        sysfs::law_child_location_extends_the_path(hub.bus, hub.path, port);
        sysfs::law_a_location_names_one_place(
            child.bus,
            child.path,
            hub.bus,
            hub.path.push(port),
        );
    }
}

// ---------------------------------------------------------------------------
// Text
// ---------------------------------------------------------------------------

/// `vid:pid`, the product string in quotes and the serial, as far as they are
/// known.
pub open spec fn identity_line(
    vid: u16,
    pid: u16,
    product: Option<Seq<char>>,
    serial: Seq<char>,
) -> Seq<char> {
    text::hex4(vid) + ":"@ + text::hex4(pid) + (match product {
        None => Seq::empty(),
        Some(product) => "  "@ + product,
    }) + (if serial.len() == 0 {
        Seq::empty()
    } else {
        "  serial "@ + serial
    })
}

/// The identity of a device, as far as it is known.
pub open spec fn identity_text(entry: EntryView) -> Seq<char> {
    identity_line(
        entry.vid,
        entry.pid,
        if entry.product.len() == 0 {
            None
        } else {
            Some(text::str_debug(entry.product))
        },
        entry.serial,
    )
}

/// `vid:pid`, the product string in quotes and the serial, as far as they are
/// known.
pub fn identity(vid: u16, pid: u16, product: Option<&str>, serial: &str) -> (s: String)
    ensures
        s@ == identity_line(
            vid,
            pid,
            match product {
                Some(product) => Some(product@),
                None => None,
            },
            serial@,
        ),
{
    let mut s: String = String::new();
    put_hex4(&mut s, vid);
    s.append(":");
    put_hex4(&mut s, pid);
    let ghost ids = s@;
    assert(ids =~= text::hex4(vid) + ":"@ + text::hex4(pid));
    match product {
        Some(product) => {
            let mut part: String = "  ".to_owned();
            part.append(product);
            s.append(part.as_str());
        },
        None => {
            assert(ids + Seq::<char>::empty() =~= ids);
        },
    }
    let ghost known = s@;
    if serial.unicode_len() > 0 {
        let mut part: String = "  serial ".to_owned();
        part.append(serial);
        s.append(part.as_str());
    } else {
        assert(known + Seq::<char>::empty() =~= known);
    }
    s
}

/// The line of a hub.
pub open spec fn hub_line(hub: EntryView, pairing: PairingView) -> Seq<char> {
    text::padded(hub.location, 12) + " "@ + identity_text(hub) + "  USB "@ + text::dec(
        hub.version.0 as nat,
    ) + "."@ + text::dec(hub.version.1 as nat) + text::dec(hub.version.2 as nat) + "  "@ + (
    match hub.hub {
        Some((n, _)) => text::dec(n as nat) + " ports  "@,
        None => Seq::empty(),
    }) + text::padded(
        match hub.hub {
            Some((_, true)) => "ppps"@,
            Some((_, false)) => "ganged"@,
            None => "unreadable"@,
        },
        6,
    ) + "  "@ + pairing::verdict_text(pairing.verdict(hub.location)) + "\n"@
}

/// The port numbers below `n` at which something is on a hub, in order.
pub open spec fn taken_ports(entries: Seq<EntryView>, hub: EntryView, n: int) -> Seq<u8>
    decreases n,
{
    if n <= 0 {
        Seq::empty()
    } else if child_of(entries, hub, (n - 1) as u8) is Some {
        taken_ports(entries, hub, n - 1).push((n - 1) as u8)
    } else {
        taken_ports(entries, hub, n - 1)
    }
}

/// The ports of a hub to show: those that its descriptor says it has, or those
/// at which something is, where it could not be read.
pub open spec fn shown_ports(entries: Seq<EntryView>, hub: EntryView) -> Seq<u8> {
    match hub.hub {
        Some((n, _)) => Seq::new(n as nat, |i: int| (i + 1) as u8),
        None => taken_ports(entries, hub, 256),
    }
}

/// One hub and, indented below it, each of its ports.
pub open spec fn hub_text(
    entries: Seq<EntryView>,
    pairing: PairingView,
    hub: EntryView,
    prefix: Seq<char>,
) -> Seq<char>
    decreases deepest(entries) - hub.path.len(), 1int, 0int,
        when tidy(entries) && hub.location == sysfs::location_of(hub.bus, hub.path)
        && hub.path.len() <= deepest(entries)
{
    let ports = shown_ports(entries, hub);
    hub_line(hub, pairing) + ports_text(
        entries,
        pairing,
        hub,
        prefix,
        ports,
        ports.len() as int,
    )
}

/// The first `n` of the ports of a hub. A port shows the device on it, or the
/// hub on it with its own ports, or `-` when empty.
pub open spec fn ports_text(
    entries: Seq<EntryView>,
    pairing: PairingView,
    hub: EntryView,
    prefix: Seq<char>,
    ports: Seq<u8>,
    n: int,
) -> Seq<char>
    decreases deepest(entries) - hub.path.len(), 0int, n,
        when tidy(entries) && hub.location == sysfs::location_of(hub.bus, hub.path)
        && hub.path.len() <= deepest(entries)
    via ports_text_decreases
{
    if n <= 0 {
        Seq::empty()
    } else {
        let port = ports[n - 1];
        let (branch, below) = if port == ports.last() {
            ("└─ "@, "   "@)
        } else {
            ("├─ "@, "│  "@)
        };
        ports_text(entries, pairing, hub, prefix, ports, n - 1) + (prefix + branch + "port "@
            + text::dec(port as nat) + ": "@) + match child_of(entries, hub, port) {
            None => "-\n"@,
            Some(child) => if child.is_hub {
                hub_text(entries, pairing, child, prefix + below)
            } else {
                text::padded(child.location, 12) + " "@ + identity_text(child) + "\n"@
            },
        }
    }
}

#[via_fn]
proof fn ports_text_decreases(
    entries: Seq<EntryView>,
    pairing: PairingView,
    hub: EntryView,
    prefix: Seq<char>,
    ports: Seq<u8>,
    n: int,
) {
    if n > 0 {
        lemma_child_is_deeper(entries, hub, ports[n - 1]);
    }
}

/// The root hubs of the buses below `n`, by bus.
pub open spec fn roots_below(entries: Seq<EntryView>, n: int) -> Seq<EntryView>
    decreases n,
{
    if n <= 0 {
        Seq::empty()
    } else {
        roots_below(entries, n - 1) + entries.filter(
            |e: EntryView| e.path.len() == 0 && e.bus == n - 1,
        )
    }
}

/// Hubs one after the other.
pub open spec fn hubs_text(
    entries: Seq<EntryView>,
    pairing: PairingView,
    hubs: Seq<EntryView>,
) -> Seq<char>
    decreases hubs.len(),
{
    if hubs.len() == 0 {
        Seq::empty()
    } else {
        hubs_text(entries, pairing, hubs.drop_last()) + hub_text(
            entries,
            pairing,
            hubs.last(),
            Seq::empty(),
        )
    }
}

/// A note on each declared hub that is not there.
pub open spec fn absent_text(hubs: Seq<Seq<char>>) -> Seq<char>
    decreases hubs.len(),
{
    if hubs.len() == 0 {
        Seq::empty()
    } else {
        absent_text(hubs.drop_last()) + ("note: "@ + hubs.last()
            + " is declared as a pair but not on the bus\n"@)
    }
}

/// What to do about the hubs whose other half is not known.
pub open spec fn unpaired_text(hubs: Seq<Seq<char>>) -> Seq<char> {
    if hubs.len() == 0 {
        Seq::empty()
    } else {
        "\n"@ + text::joined(hubs, ", "@) + (if hubs.len() == 1 {
            " is"@
        } else {
            " are each"@
        })
            + " one half of a USB 3.x hub whose other half could not be identified. Both halves keep a receptacle\npowered, so a device on such a hub cannot be power-cycled until the pair is known. The bus cannot tell;\nprobe the hub with a device that has a power LED, and declare the pair it finds in your hub pairs.\n"@
    }
}

/// The USB tree, annotated for power cycling.
pub open spec fn tree_text(
    pairs: HubPairsView,
    bus: Result<Seq<DeviceView>, UsbError>,
    replies: Seq<Result<Seq<u8>, UsbError>>,
) -> Seq<char> {
    match bus {
        Err(e) => "bus could not be enumerated: "@ + usb::usb_error_message(e) + "\n"@,
        Ok(devices) => {
            let pairing = pairing::paired(pairing::nodes_of(hub::hubs_among(devices)), pairs);
            let entries = entries_of(devices, replies, devices.len() as int);
            hubs_text(entries, pairing, roots_below(entries, 256)) + absent_text(
                pairing.declared_absent,
            ) + unpaired_text(pairing.unpaired(pairing.nodes.len() as int))
        },
    }
}

// ---------------------------------------------------------------------------
// Writing it
// ---------------------------------------------------------------------------

impl Entry {
    /// The entry at `location`, the last where there are several.
    fn at<'e>(entries: &'e Vec<Entry>, location: &str) -> (entry: Option<&'e Entry>)
        ensures
            match entry {
                Some(entry) => entry_at(entry_views(entries@), location@) == Some(entry@),
                None => entry_at(entry_views(entries@), location@) is None,
            },
    {
        let ghost all = entry_views(entries@);
        let mut n: usize = entries.len();
        assert(all.take(n as int) =~= all);
        while n > 0
            invariant
                n <= entries.len(),
                all == entry_views(entries@),
                entry_at(all, location@) == entry_at(all.take(n as int), location@),
            decreases n,
        {
            let entry: &'e Entry = &entries[n - 1];
            assert(all.take(n as int).last() == entry@);
            if same_text(entry.location.as_str(), location) {
                return Some(entry);
            }
            assert(all.take(n as int).drop_last() =~= all.take(n - 1));
            n = n - 1;
        }
        None
    }

    /// The entry on port `port` of this hub.
    fn child<'e>(&self, entries: &'e Vec<Entry>, port: u8) -> (entry: Option<&'e Entry>)
        ensures
            match entry {
                Some(entry) => child_of(entry_views(entries@), self@, port) == Some(entry@),
                None => child_of(entry_views(entries@), self@, port) is None,
            },
    {
        let location: String = child_location(self.location.as_str(), self.bus, port);
        Entry::at(entries, location.as_str())
    }

    /// The ports of this hub to show.
    fn ports(&self, entries: &Vec<Entry>) -> (ports: Vec<u8>)
        ensures
            ports@ == shown_ports(entry_views(entries@), self@),
    {
        let ghost all = entry_views(entries@);
        let mut ports: Vec<u8> = Vec::new();
        match self.hub {
            Some((n, _)) => {
                let mut port: u8 = 0;
                while port < n
                    invariant
                        port <= n,
                        ports@ =~= Seq::new(port as nat, |i: int| (i + 1) as u8),
                    decreases n - port,
                {
                    port = port + 1;
                    ports.push(port);
                }
            },
            None => {
                let mut port: u16 = 0;
                while port < 256
                    invariant
                        port <= 256,
                        all == entry_views(entries@),
                        ports@ == taken_ports(all, self@, port as int),
                    decreases 256 - port,
                {
                    match self.child(entries, port as u8) {
                        Some(_) => {
                            ports.push(port as u8);
                        },
                        None => {},
                    }
                    port = port + 1;
                }
            },
        }
        ports
    }

    /// The identity of this device, as far as it is known.
    fn identity(&self) -> (s: String)
        ensures
            s@ == identity_text(self@),
    {
        if self.product.as_str().unicode_len() > 0 {
            let product: String = quoted(self.product.as_str());
            identity(self.vid, self.pid, Some(product.as_str()), self.serial.as_str())
        } else {
            identity(self.vid, self.pid, None, self.serial.as_str())
        }
    }

    /// The line of this hub.
    fn line(&self, pairing: &Pairing) -> (s: String)
        ensures
            s@ == hub_line(self@, pairing@),
    {
        let mut s: String = String::new();
        put_padded(&mut s, self.location.as_str(), 12);
        assert(s@ =~= text::padded(self@.location, 12));
        s.append(" ");
        s.append(self.identity().as_str());
        s.append("  USB ");
        put_dec(&mut s, self.version.0 as u64);
        s.append(".");
        put_dec(&mut s, self.version.1 as u64);
        put_dec(&mut s, self.version.2 as u64);
        s.append("  ");
        let ghost before = s@;
        match self.hub {
            Some((n, _)) => {
                let mut nports: String = text::dec_text(n as u64);
                nports.append(" ports  ");
                s.append(nports.as_str());
            },
            None => {
                assert(before + Seq::<char>::empty() =~= before);
            },
        }
        let switching: &'static str = match self.hub {
            Some((_, true)) => "ppps",
            Some((_, false)) => "ganged",
            None => "unreadable",
        };
        put_padded(&mut s, switching, 6);
        s.append("  ");
        s.append(pairing.verdict(self.location.as_str()).to_text().as_str());
        s.append("\n");
        s
    }
}

/// One hub and, indented below it, each of its ports.
fn write_hub(
    hub: &Entry,
    prefix: &str,
    entries: &Vec<Entry>,
    pairing: &Pairing,
    out: &mut String,
)
    requires
        tidy(entry_views(entries@)),
        hub@.location == sysfs::location_of(hub@.bus, hub@.path),
        hub@.path.len() <= deepest(entry_views(entries@)),
    ensures
        final(out)@ == old(out)@ + hub_text(entry_views(entries@), pairing@, hub@, prefix@),
    decreases deepest(entry_views(entries@)) - hub@.path.len(),
{
    let ghost all = entry_views(entries@);
    let ghost start = out@;
    out.append(hub.line(pairing).as_str());
    let ports: Vec<u8> = hub.ports(entries);
    let ghost head = out@;
    let mut i: usize = 0;
    assert(out@ =~= head + ports_text(all, pairing@, hub@, prefix@, ports@, 0));
    while i < ports.len()
        invariant
            i <= ports.len(),
            all == entry_views(entries@),
            tidy(all),
            hub@.location == sysfs::location_of(hub@.bus, hub@.path),
            hub@.path.len() <= deepest(all),
            out@ == head + ports_text(all, pairing@, hub@, prefix@, ports@, i as int),
        decreases ports.len() - i,
    {
        let port: u8 = ports[i];
        let ghost before = out@;
        let last: bool = port == ports[ports.len() - 1];
        let mut lead: String = prefix.to_owned();
        lead.append(
            if last {
                "└─ "
            } else {
                "├─ "
            },
        );
        lead.append("port ");
        put_dec(&mut lead, port as u64);
        lead.append(": ");
        out.append(lead.as_str());
        proof {
            lemma_child_is_deeper(all, hub@, port);
        }
        let ghost led = out@;
        let ghost shown: Seq<char>;
        match hub.child(entries, port) {
            None => {
                out.append("-\n");
                proof {
                    shown = "-\n"@;
                }
            },
            Some(child) => {
                if child.is_hub {
                    let mut below: String = prefix.to_owned();
                    below.append(
                        if last {
                            "   "
                        } else {
                            "│  "
                        },
                    );
                    write_hub(child, below.as_str(), entries, pairing, out);
                    proof {
                        shown = hub_text(all, pairing@, child@, below@);
                    }
                } else {
                    let mut line: String = String::new();
                    put_padded(&mut line, child.location.as_str(), 12);
                    assert(line@ =~= text::padded(child@.location, 12));
                    line.append(" ");
                    line.append(child.identity().as_str());
                    line.append("\n");
                    out.append(line.as_str());
                    proof {
                        shown = line@;
                    }
                }
            },
        }
        assert(out@ =~= led + shown);
        assert(ports_text(all, pairing@, hub@, prefix@, ports@, i + 1) == ports_text(
            all,
            pairing@,
            hub@,
            prefix@,
            ports@,
            i as int,
        ) + lead@ + shown);
        assert(out@ =~= head + ports_text(all, pairing@, hub@, prefix@, ports@, i + 1));
        i = i + 1;
    }
    assert(out@ =~= start + hub_text(all, pairing@, hub@, prefix@));
}

/// Every root hub with what is below it, by bus.
fn write_roots(entries: &Vec<Entry>, pairing: &Pairing, out: &mut String)
    requires
        tidy(entry_views(entries@)),
    ensures
        final(out)@ == old(out)@ + hubs_text(
            entry_views(entries@),
            pairing@,
            roots_below(entry_views(entries@), 256),
        ),
{
    let ghost all = entry_views(entries@);
    let ghost start = out@;
    let mut bus: u16 = 0;
    assert(out@ =~= start + hubs_text(all, pairing@, roots_below(all, 0)));
    while bus < 256
        invariant
            bus <= 256,
            all == entry_views(entries@),
            tidy(all),
            out@ == start + hubs_text(all, pairing@, roots_below(all, bus as int)),
        decreases 256 - bus,
    {
        let ghost earlier = roots_below(all, bus as int);
        let ghost keep = |e: EntryView| e.path.len() == 0 && e.bus == bus;
        let mut i: usize = 0;
        reveal(Seq::filter);
        assert(all.take(0).filter(keep) =~= Seq::<EntryView>::empty());
        assert(earlier + all.take(0).filter(keep) =~= earlier);
        while i < entries.len()
            invariant
                i <= entries.len(),
                all == entry_views(entries@),
                tidy(all),
                keep == (|e: EntryView| e.path.len() == 0 && e.bus == bus),
                out@ == start + hubs_text(
                    all,
                    pairing@,
                    earlier + all.take(i as int).filter(keep),
                ),
            decreases entries.len() - i,
        {
            reveal(Seq::filter);
            let entry: &Entry = &entries[i];
            let ghost sofar = earlier + all.take(i as int).filter(keep);
            assert(all.take(i + 1).drop_last() =~= all.take(i as int));
            assert(all.take(i + 1).last() == entry@);
            assert(all[i as int] == entry@);
            if entry.path.len() == 0 && entry.bus as u16 == bus {
                write_hub(entry, "", entries, pairing, out);
                proof {
                    reveal_strlit("");
                    assert(""@ =~= Seq::<char>::empty());
                    let more = earlier + all.take(i + 1).filter(keep);
                    assert(more =~= sofar.push(entry@));
                    assert(more.drop_last() =~= sofar);
                    assert(out@ =~= start + hubs_text(all, pairing@, more));
                }
            }
            i = i + 1;
        }
        assert(all.take(all.len() as int) =~= all);
        bus = bus + 1;
        assert(roots_below(all, bus as int) == earlier + all.filter(keep)) by {
            assert(keep =~= (|e: EntryView| e.path.len() == 0 && e.bus == bus - 1));
        }
    }
}

/// A note on each declared hub that is not there.
fn write_absent(hubs: &[String], out: &mut String)
    ensures
        final(out)@ == old(out)@ + absent_text(text::texts(hubs@)),
{
    let ghost all = text::texts(hubs@);
    let ghost start = out@;
    let mut i: usize = 0;
    assert(all.take(0) =~= Seq::<Seq<char>>::empty());
    assert(out@ =~= start + absent_text(all.take(0)));
    while i < hubs.len()
        invariant
            i <= hubs.len(),
            all == text::texts(hubs@),
            out@ == start + absent_text(all.take(i as int)),
        decreases hubs.len() - i,
    {
        assert(all.take(i + 1).drop_last() =~= all.take(i as int));
        assert(all.take(i + 1).last() == hubs@[i as int]@);
        let mut note: String = "note: ".to_owned();
        note.append(hubs[i].as_str());
        note.append(" is declared as a pair but not on the bus\n");
        out.append(note.as_str());
        assert(out@ =~= start + absent_text(all.take(i + 1)));
        i = i + 1;
    }
    assert(all.take(all.len() as int) =~= all);
}

/// What to do about the hubs whose other half is not known.
fn write_unpaired(hubs: &Vec<&str>, out: &mut String)
    ensures
        final(out)@ == old(out)@ + unpaired_text(hubs@.map_values(|s: &str| s@)),
{
    let ghost all = hubs@.map_values(|s: &str| s@);
    let ghost start = out@;
    if hubs.len() == 0 {
        assert(start + Seq::<char>::empty() =~= start);
        return;
    }
    let mut list: Vec<String> = Vec::new();
    let mut i: usize = 0;
    while i < hubs.len()
        invariant
            i <= hubs.len(),
            all == hubs@.map_values(|s: &str| s@),
            text::texts(list@) =~= all.take(i as int),
        decreases hubs.len() - i,
    {
        let ghost before = list@;
        list.push(hubs[i].to_owned());
        assert(text::texts(list@) =~= text::texts(before).push(all[i as int]));
        i = i + 1;
    }
    assert(all.take(all.len() as int) =~= all);
    let mut note: String = "\n".to_owned();
    note.append(join(&list, ", ").as_str());
    note.append(
        if hubs.len() == 1 {
            " is"
        } else {
            " are each"
        },
    );
    note.append(
        " one half of a USB 3.x hub whose other half could not be identified. Both halves keep a receptacle\npowered, so a device on such a hub cannot be power-cycled until the pair is known. The bus cannot tell;\nprobe the hub with a device that has a power LED, and declare the pair it finds in your hub pairs.\n",
    );
    out.append(note.as_str());
}

/// Why there is no tree.
fn unenumerated(error: UsbError) -> (s: String)
    ensures
        s@ == "bus could not be enumerated: "@ + usb::usb_error_message(error) + "\n"@,
{
    let mut s: String = "bus could not be enumerated: ".to_owned();
    s.append(describe(error).as_str());
    s.append("\n");
    s
}

/// The USB tree, annotated for power cycling. `bus` is what enumerating the bus
/// gave, `replies` for each of its devices the reply to the request for its hub
/// descriptor, which only counts for a hub.
///
/// Every bus from its root hub down; each hub with its version, identity,
/// port count, switching mode and other half; each port with the device on
/// it, or `-` when empty. Unpaired hubs are flagged, and what to do about them
/// follows the tree. `pairs` is what the machine declares; it decides the
/// "other half" column.
pub fn tree(
    pairs: &HubPairs,
    bus: &Result<Vec<Device>, UsbError>,
    replies: &Vec<Result<Vec<u8>, UsbError>>,
) -> (s: String)
    requires
        bus is Ok ==> bus->Ok_0.len() == replies.len(),
    ensures
        s@ == tree_text(pairs@, power::bus_view(*bus), reply_views(replies@)),
{
    let devices: &Vec<Device> = match bus {
        Ok(devices) => devices,
        Err(e) => {
            return unenumerated(*e);
        },
    };
    let hubs: Hubs<'_> = match Hubs::enumerate(bus) {
        Ok(hubs) => hubs,
        Err(e) => {
            return unenumerated(e);
        },
    };
    let pairing: Pairing = Pairing::compute(&hubs, pairs);
    let entries: Vec<Entry> = Entry::read_all(devices, replies);
    proof {
        lemma_tidy(
            device::device_views(devices@),
            reply_views(replies@),
            devices.len() as int,
        );
    }
    let mut s: String = String::new();
    write_roots(&entries, &pairing, &mut s);
    assert(s@ =~= hubs_text(
        entry_views(entries@),
        pairing@,
        roots_below(entry_views(entries@), 256),
    ));
    write_absent(pairing.declared_absent(), &mut s);
    write_unpaired(&pairing.unpaired(), &mut s);
    s
}

// ---------------------------------------------------------------------------
// Laws
// ---------------------------------------------------------------------------

/// An unreadable hub hides nothing: the ports shown of it are exactly those at
/// which something is, each once, in order.
pub proof fn law_an_unreadable_hub_hides_nothing(
    entries: Seq<EntryView>,
    hub: EntryView,
    port: u8,
)
    requires
        hub.hub is None,
    ensures
        shown_ports(entries, hub).contains(port) <==> child_of(entries, hub, port) is Some,
        forall|i: int, j: int|
            0 <= i < j < shown_ports(entries, hub).len() ==> #[trigger] shown_ports(entries, hub)[i]
                < #[trigger] shown_ports(entries, hub)[j],
{
    lemma_taken_ports(entries, hub, 256);
}

proof fn lemma_taken_ports(entries: Seq<EntryView>, hub: EntryView, n: int)
    requires
        n <= 256,
    ensures
        ({
            let ports = taken_ports(entries, hub, n);
            &&& forall|i: int| 0 <= i < ports.len() ==> #[trigger] ports[i] < n
            &&& forall|port: u8| #[trigger]
                ports.contains(port) <==> port < n && child_of(entries, hub, port) is Some
            &&& forall|i: int, j: int|
                0 <= i < j < ports.len() ==> #[trigger] ports[i] < #[trigger] ports[j]
        }),
    decreases n,
{
    if n > 0 {
        lemma_taken_ports(entries, hub, n - 1);
        let fewer = taken_ports(entries, hub, n - 1);
        let ports = taken_ports(entries, hub, n);
        let new = (n - 1) as u8;
        assert forall|port: u8| #[trigger] ports.contains(port) <==> port < n && child_of(
            entries,
            hub,
            port,
        ) is Some by {
            if ports.contains(port) {
                let i = choose|i: int| 0 <= i < ports.len() && ports[i] == port;
                if i < fewer.len() {
                    assert(fewer[i] == port);
                    assert(fewer.contains(port));
                }
            } else if fewer.contains(port) {
                let i = choose|i: int| 0 <= i < fewer.len() && fewer[i] == port;
                assert(ports[i] == port);
            } else if port == new && child_of(entries, hub, port) is Some {
                assert(ports[ports.len() - 1] == port);
            }
        }
    }
}

} // verus!
