//! What the tree and the scan show of the bus.

use vstd::prelude::*;

use crate::debug;
use crate::device;
use crate::device::{DeviceIdView, DeviceView};
use crate::error;
use crate::error::ErrorView;
use crate::hub;
use crate::pairing;
use crate::pairing::PairingView;
use crate::pairs::HubPairsView;
use crate::power::PowerPortsView;
use crate::sysfs;
use crate::text;
use crate::text_laws;
use crate::tree;
use crate::tree::EntryView;
use crate::usb;
use crate::usb::UsbError;

verus! {

// ---------------------------------------------------------------------------
// Entries
// ---------------------------------------------------------------------------

/// An entry holds what the bus tells of the device. There is none for a device
/// whose descriptor or whose place cannot be read. The ports of a hub are known
/// where it opens, and nothing but a device of the hub class is a hub.
pub proof fn law_an_entry_holds_what_is_known(dev: DeviceView, reply: Result<Seq<u8>, UsbError>)
    ensures
        tree::entry_of(dev, reply) is Some <==> dev.descriptor is Ok && dev.path is Ok,
        tree::entry_of(dev, reply) matches Some(entry) ==> {
            &&& entry.location == dev.location()
            &&& entry.bus == dev.bus
            &&& entry.path == dev.path->Ok_0
            &&& entry.vid == dev.descriptor->Ok_0.vid
            &&& entry.pid == dev.descriptor->Ok_0.pid
            &&& entry.version == dev.descriptor->Ok_0.version
            &&& entry.product == sysfs::attribute_text(dev.product)
            &&& entry.serial == sysfs::attribute_text(dev.serial)
            &&& entry.is_hub <==> dev.descriptor->Ok_0.class == 9
            &&& entry.hub is Some <==> entry.is_hub && hub::opened(dev, reply) is Ok
            &&& entry.hub is Some ==> entry.hub == Some(
                (
                    hub::opened(dev, reply)->Ok_0.nports,
                    hub::opened(dev, reply)->Ok_0.per_port_power,
                ),
            )
        },
{
}

/// Every readable device has an entry, in the order in which they are listed, and
/// there is no other entry.
pub proof fn law_every_readable_device_has_an_entry(
    devices: Seq<DeviceView>,
    replies: Seq<Result<Seq<u8>, UsbError>>,
    n: int,
    i: int,
    entry: EntryView,
)
    ensures
        0 <= i < n && tree::entry_of(devices[i], replies[i]) is Some ==> tree::entries_of(
            devices,
            replies,
            n,
        ).contains(tree::entry_of(devices[i], replies[i])->0),
        tree::entries_of(devices, replies, n).contains(entry) ==> exists|k: int|
            0 <= k < n && #[trigger] tree::entry_of(devices[k], replies[k]) == Some(entry),
        n >= 0 ==> tree::entries_of(devices, replies, n + 1) == (match tree::entry_of(
            devices[n],
            replies[n],
        ) {
            Some(next) => tree::entries_of(devices, replies, n).push(next),
            None => tree::entries_of(devices, replies, n),
        }),
    decreases n,
{
    if n > 0 {
        law_every_readable_device_has_an_entry(devices, replies, n - 1, i, entry);
        let all = tree::entries_of(devices, replies, n);
        let fewer = tree::entries_of(devices, replies, n - 1);
        let last = tree::entry_of(devices[n - 1], replies[n - 1]);
        if last is Some {
            assert(all[fewer.len() as int] == last->0);
            if all.contains(entry) {
                let k = choose|k: int| 0 <= k < all.len() && all[k] == entry;
                if k < fewer.len() {
                    assert(fewer[k] == entry);
                }
            }
            if 0 <= i < n - 1 && tree::entry_of(devices[i], replies[i]) is Some {
                let old = tree::entry_of(devices[i], replies[i])->0;
                let k = choose|k: int| 0 <= k < fewer.len() && fewer[k] == old;
                assert(all[k] == old);
            }
        }
    }
}

/// Of several entries at one location the last counts, and at a port is what is
/// at the location below the hub.
pub proof fn law_the_last_at_a_location(
    entries: Seq<EntryView>,
    location: Seq<char>,
    i: int,
    hub: EntryView,
    port: u8,
)
    ensures
        0 <= i < entries.len() && entries[i].location == location && (forall|k: int|
            i < k < entries.len() ==> (#[trigger] entries[k]).location != location)
            ==> tree::entry_at(entries, location) == Some(entries[i]),
        (forall|k: int| 0 <= k < entries.len() ==> (#[trigger] entries[k]).location != location)
            <==> tree::entry_at(entries, location) is None,
        tree::child_of(entries, hub, port) == tree::entry_at(
            entries,
            sysfs::location_below(hub.location, hub.bus, port),
        ),
    decreases entries.len(),
{
    if entries.len() > 0 {
        let fewer = entries.drop_last();
        assert(entries[entries.len() - 1] == entries.last());
        law_the_last_at_a_location(fewer, location, i, hub, port);
        if forall|k: int|
            0 <= k < entries.len() ==> (#[trigger] entries[k]).location != location {
            assert forall|k: int| 0 <= k < fewer.len() implies (#[trigger] fewer[k]).location
                != location by {
                assert(fewer[k] == entries[k]);
            }
        }
        if tree::entry_at(entries, location) is None {
            assert forall|k: int| 0 <= k < entries.len() implies (#[trigger] entries[k]).location
                != location by {
                if k < fewer.len() {
                    assert(fewer[k] == entries[k]);
                }
            }
        }
        if 0 <= i < fewer.len() && entries[i].location == location && (forall|k: int|
            i < k < entries.len() ==> (#[trigger] entries[k]).location != location) {
            assert(fewer[i] == entries[i]);
            assert forall|k: int| i < k < fewer.len() implies (#[trigger] fewer[k]).location
                != location by {
                assert(fewer[k] == entries[k]);
            }
        }
    }
}

/// Of a hub that was read every port is shown, from one on; of one that was not,
/// every port at which something is.
pub proof fn law_which_ports_are_shown(
    entries: Seq<EntryView>,
    hub: EntryView,
    port: u8,
    i: int,
)
    ensures
        hub.hub matches Some(known) ==> {
            let (n, _) = known;
            &&& tree::shown_ports(entries, hub).len() == n
            &&& 0 <= i < n ==> tree::shown_ports(entries, hub)[i] == i + 1
        },
        hub.hub is None ==> (tree::shown_ports(entries, hub).contains(port) <==> tree::child_of(
            entries,
            hub,
            port,
        ) is Some),
{
    if hub.hub is None {
        tree::law_an_unreadable_hub_hides_nothing(entries, hub, port);
    }
}

proof fn lemma_filtered(list: Seq<EntryView>, keep: spec_fn(EntryView) -> bool, e: EntryView)
    ensures
        list.filter(keep).contains(e) <==> list.contains(e) && keep(e),
    decreases list.len(),
{
    reveal(Seq::filter);
    if list.len() > 0 {
        let fewer = list.drop_last();
        lemma_filtered(fewer, keep, e);
        let kept = list.filter(keep);
        let less = fewer.filter(keep);
        assert(list[list.len() - 1] == list.last());
        if list.contains(e) {
            let i = choose|i: int| 0 <= i < list.len() && list[i] == e;
            if i < fewer.len() {
                assert(fewer[i] == e);
            }
        }
        if fewer.contains(e) {
            let i = choose|i: int| 0 <= i < fewer.len() && fewer[i] == e;
            assert(list[i] == e);
        }
        if keep(list.last()) {
            assert(kept == less.push(list.last()));
            assert(kept[kept.len() - 1] == list.last());
            if kept.contains(e) {
                let i = choose|i: int| 0 <= i < kept.len() && kept[i] == e;
                if i < less.len() {
                    assert(less[i] == e);
                }
            }
            if less.contains(e) {
                let i = choose|i: int| 0 <= i < less.len() && less[i] == e;
                assert(kept[i] == e);
            }
        }
    }
}

/// The root hubs are exactly the entries without a port path, by bus.
pub proof fn law_every_root_hub_is_shown(
    entries: Seq<EntryView>,
    n: int,
    entry: EntryView,
    i: int,
    j: int,
)
    ensures
        tree::roots_below(entries, n).contains(entry) <==> entries.contains(entry)
            && entry.path.len() == 0 && entry.bus < n,
        0 <= i <= j < tree::roots_below(entries, n).len() ==> tree::roots_below(entries, n)[i].bus
            <= tree::roots_below(entries, n)[j].bus,
    decreases n,
{
    if n > 0 {
        let fewer = tree::roots_below(entries, n - 1);
        let keep = |e: EntryView| e.path.len() == 0 && e.bus == n - 1;
        let more = entries.filter(keep);
        let all = tree::roots_below(entries, n);
        assert(all == fewer + more);
        lemma_filtered(entries, keep, entry);
        law_every_root_hub_is_shown(entries, n - 1, entry, i, j);
        if all.contains(entry) {
            let k = choose|k: int| 0 <= k < all.len() && all[k] == entry;
            if k < fewer.len() {
                assert(fewer[k] == entry);
            } else {
                assert(more[k - fewer.len()] == entry);
            }
        }
        if fewer.contains(entry) {
            let k = choose|k: int| 0 <= k < fewer.len() && fewer[k] == entry;
            assert(all[k] == entry);
        }
        if more.contains(entry) {
            let k = choose|k: int| 0 <= k < more.len() && more[k] == entry;
            assert(all[k + fewer.len()] == entry);
        }
        if 0 <= i <= j < all.len() {
            if i < fewer.len() {
                assert(fewer.contains(fewer[i]));
                law_every_root_hub_is_shown(entries, n - 1, fewer[i], i, i);
            } else {
                let x = more[i - fewer.len()];
                assert(more.contains(x));
                lemma_filtered(entries, keep, x);
            }
            if j >= fewer.len() {
                let x = more[j - fewer.len()];
                assert(more.contains(x));
                lemma_filtered(entries, keep, x);
            }
        }
    }
}

// ---------------------------------------------------------------------------
// Text
// ---------------------------------------------------------------------------

/// What is shown of a device: its IDs as four hexadecimal digits each, and its
/// product and its serial where they are known.
pub proof fn law_an_identity_is_written_out(
    vid: u16,
    pid: u16,
    product: Seq<char>,
    serial: Seq<char>,
)
    ensures
        tree::identity_line(vid, pid, None, Seq::empty()) == text::hex4(vid) + ":"@ + text::hex4(
            pid,
        ),
        tree::identity_line(vid, pid, Some(product), Seq::empty()) == text::hex4(vid) + ":"@
            + text::hex4(pid) + "  "@ + product,
        serial.len() > 0 ==> tree::identity_line(vid, pid, None, serial) == text::hex4(vid) + ":"@
            + text::hex4(pid) + "  serial "@ + serial,
        serial.len() > 0 ==> tree::identity_line(vid, pid, Some(product), serial) == text::hex4(vid)
            + ":"@ + text::hex4(pid) + "  "@ + product + "  serial "@ + serial,
{
    let ids = text::hex4(vid) + ":"@ + text::hex4(pid);
    assert(ids + Seq::<char>::empty() =~= ids);
    assert(ids + Seq::<char>::empty() + Seq::<char>::empty() =~= ids);
    assert(tree::identity_line(vid, pid, Some(product), Seq::empty()) =~= ids + "  "@ + product);
    assert(tree::identity_line(vid, pid, None, serial) =~= ids + (if serial.len() == 0 {
        Seq::empty()
    } else {
        "  serial "@ + serial
    }));
    if serial.len() > 0 {
        assert(ids + ("  serial "@ + serial) =~= ids + "  serial "@ + serial);
        assert(tree::identity_line(vid, pid, Some(product), serial) =~= ids + "  "@ + product
            + "  serial "@ + serial);
    }
}

/// The identity that is shown of an entry is its own, and an empty product or
/// serial is left out.
pub proof fn law_an_entry_shows_its_identity(entry: EntryView)
    ensures
        tree::identity_text(entry) == tree::identity_line(
            entry.vid,
            entry.pid,
            if entry.product.len() > 0 {
                Some(text::str_debug(entry.product))
            } else {
                None
            },
            entry.serial,
        ),
{
}

/// The version of a hub as it is shown.
pub open spec fn version_column(entry: EntryView) -> Seq<char> {
    let (major, minor, sub) = (entry.version.0, entry.version.1, entry.version.2);
    "  USB "@ + text::dec(major as nat) + "."@ + text::dec(minor as nat) + text::dec(sub as nat)
        + "  "@
}

/// The line of a hub: where it is, who it is, its version, how many ports it has
/// and how it switches them as far as it could be read, and its other half.
pub proof fn law_a_hub_line_is_written_out(entry: EntryView, pairing: PairingView)
    ensures
        ({
            let front = text::padded(entry.location, 12) + " "@ + tree::identity_text(entry)
                + version_column(entry);
            let back = "  "@ + pairing::verdict_text(pairing.verdict(entry.location)) + "\n"@;
            match entry.hub {
                None => tree::hub_line(entry, pairing) == front + "unreadable"@ + back,
                Some((n, per_port)) => {
                    &&& per_port ==> tree::hub_line(entry, pairing) == front + text::dec(n as nat)
                        + " ports  ppps  "@ + back
                    &&& !per_port ==> tree::hub_line(entry, pairing) == front + text::dec(n as nat)
                        + " ports  ganged"@ + back
                },
            }
        }),
{
    reveal_strlit("ppps");
    reveal_strlit("ganged");
    reveal_strlit("unreadable");
    reveal_strlit(" ports  ");
    reveal_strlit(" ports  ppps  ");
    reveal_strlit(" ports  ganged");
    let front = text::padded(entry.location, 12) + " "@ + tree::identity_text(entry)
        + version_column(entry);
    let back = "  "@ + pairing::verdict_text(pairing.verdict(entry.location)) + "\n"@;
    match entry.hub {
        None => {
            assert(text::padded("unreadable"@, 6) =~= "unreadable"@);
            assert(tree::hub_line(entry, pairing) =~= front + "unreadable"@ + back);
        },
        Some((n, per_port)) => {
            if per_port {
                assert(" ports  "@ + text::padded("ppps"@, 6) =~= " ports  ppps  "@);
                assert(tree::hub_line(entry, pairing) =~= front + text::dec(n as nat) + (
                " ports  "@ + text::padded("ppps"@, 6)) + back);
            } else {
                assert(" ports  "@ + text::padded("ganged"@, 6) =~= " ports  ganged"@);
                assert(tree::hub_line(entry, pairing) =~= front + text::dec(n as nat) + (
                " ports  "@ + text::padded("ganged"@, 6)) + back);
            }
        },
    }
}

/// Whether an entry stands where its location says, among entries that do.
pub open spec fn placed(entries: Seq<EntryView>, hub: EntryView) -> bool {
    &&& tree::tidy(entries)
    &&& hub.location == sysfs::location_of(hub.bus, hub.path)
    &&& hub.path.len() <= tree::deepest(entries)
}

/// What is shown of port `i` of a hub: a dash where nothing is on it, the line of
/// a device, and a hub with all that is below it, one step further in. The last
/// port closes the branch.
pub open spec fn port_shown(
    entries: Seq<EntryView>,
    pairing: PairingView,
    hub: EntryView,
    prefix: Seq<char>,
    i: int,
) -> Seq<char> {
    let ports = tree::shown_ports(entries, hub);
    let last = ports[i] == ports[ports.len() - 1];
    prefix + (if last {
        "└─ port "@
    } else {
        "├─ port "@
    }) + text::dec(ports[i] as nat) + ": "@ + match tree::child_of(entries, hub, ports[i]) {
        None => "-\n"@,
        Some(child) => if child.is_hub {
            tree::hub_text(
                entries,
                pairing,
                child,
                prefix + (if last {
                    "   "@
                } else {
                    "│  "@
                }),
            )
        } else {
            text::padded(child.location, 12) + " "@ + tree::identity_text(child) + "\n"@
        },
    }
}

/// A hub is shown as its line, and every port of it below, in order.
pub proof fn law_a_hub_shows_every_port(
    entries: Seq<EntryView>,
    pairing: PairingView,
    hub: EntryView,
    prefix: Seq<char>,
    n: int,
    i: int,
)
    requires
        placed(entries, hub),
        0 <= i < n <= tree::shown_ports(entries, hub).len(),
    ensures
        ({
            let ports = tree::shown_ports(entries, hub);
            let shown = tree::ports_text(entries, pairing, hub, prefix, ports, n);
            &&& tree::hub_text(entries, pairing, hub, prefix) == tree::hub_line(hub, pairing)
                + tree::ports_text(entries, pairing, hub, prefix, ports, ports.len() as int)
            &&& tree::ports_text(entries, pairing, hub, prefix, ports, 0) == Seq::<char>::empty()
            &&& shown == tree::ports_text(entries, pairing, hub, prefix, ports, n - 1)
                + port_shown(entries, pairing, hub, prefix, n - 1)
            &&& text_laws::holds(shown, port_shown(entries, pairing, hub, prefix, i))
        }),
    decreases n,
{
    reveal_strlit("└─ ");
    reveal_strlit("├─ ");
    reveal_strlit("port ");
    reveal_strlit("└─ port ");
    reveal_strlit("├─ port ");
    let ports = tree::shown_ports(entries, hub);
    let shown = tree::ports_text(entries, pairing, hub, prefix, ports, n);
    let before = tree::ports_text(entries, pairing, hub, prefix, ports, n - 1);
    let last = port_shown(entries, pairing, hub, prefix, n - 1);
    assert("└─ "@ + "port "@ =~= "└─ port "@);
    assert("├─ "@ + "port "@ =~= "├─ port "@);
    let (branch, long, below) = if ports[n - 1] == ports.last() {
        ("└─ "@, "└─ port "@, "   "@)
    } else {
        ("├─ "@, "├─ port "@, "│  "@)
    };
    let number = text::dec(ports[n - 1] as nat) + ": "@;
    let what = match tree::child_of(entries, hub, ports[n - 1]) {
        None => "-\n"@,
        Some(child) => if child.is_hub {
            tree::hub_text(entries, pairing, child, prefix + below)
        } else {
            text::padded(child.location, 12) + " "@ + tree::identity_text(child) + "\n"@
        },
    };
    tree::lemma_child_is_deeper(entries, hub, ports[n - 1]);
    assert(shown == before + (prefix + branch + "port "@ + text::dec(ports[n - 1] as nat) + ": "@)
        + what);
    assert(prefix + branch + "port "@ + text::dec(ports[n - 1] as nat) + ": "@ =~= prefix + (branch
        + "port "@) + number);
    assert(prefix + long + text::dec(ports[n - 1] as nat) + ": "@ =~= prefix + long + number);
    assert(last =~= prefix + long + number + what);
    assert(shown =~= before + (prefix + long + number) + what);
    assert(shown =~= before + last);
    let one = port_shown(entries, pairing, hub, prefix, i);
    if i == n - 1 {
        text_laws::lemma_holds_itself(last);
        text_laws::lemma_holds_behind(before, last, last);
    } else {
        law_a_hub_shows_every_port(entries, pairing, hub, prefix, n - 1, i);
        text_laws::lemma_holds_before(before, last, one);
    }
}

proof fn lemma_hubs_shown(
    entries: Seq<EntryView>,
    pairing: PairingView,
    hubs: Seq<EntryView>,
    i: int,
)
    requires
        0 <= i < hubs.len(),
    ensures
        text_laws::holds(
            tree::hubs_text(entries, pairing, hubs),
            tree::hub_text(entries, pairing, hubs[i], Seq::empty()),
        ),
    decreases hubs.len(),
{
    let fewer = hubs.drop_last();
    let before = tree::hubs_text(entries, pairing, fewer);
    let last = tree::hub_text(entries, pairing, hubs.last(), Seq::empty());
    if i == hubs.len() - 1 {
        text_laws::lemma_holds_itself(last);
        text_laws::lemma_holds_behind(before, last, last);
    } else {
        lemma_hubs_shown(entries, pairing, fewer, i);
        text_laws::lemma_holds_before(
            before,
            last,
            tree::hub_text(entries, pairing, hubs[i], Seq::empty()),
        );
    }
}

/// Hubs, notes and candidates are shown one behind the other, in the order in which
/// they are listed.
pub proof fn law_lists_are_shown_in_order(
    entries: Seq<EntryView>,
    pairing: PairingView,
    hubs: Seq<EntryView>,
    hub: EntryView,
    locations: Seq<Seq<char>>,
    location: Seq<char>,
    devices: Seq<DeviceView>,
    dev: DeviceView,
    id: DeviceIdView,
)
    ensures
        tree::hubs_text(entries, pairing, Seq::empty()) == Seq::<char>::empty(),
        tree::hubs_text(entries, pairing, hubs.push(hub)) == tree::hubs_text(
            entries,
            pairing,
            hubs,
        ) + tree::hub_text(entries, pairing, hub, Seq::empty()),
        tree::absent_text(Seq::empty()) == Seq::<char>::empty(),
        tree::absent_text(locations.push(location)) == tree::absent_text(locations) + ("note: "@
            + location + " is declared as a pair but not on the bus\n"@),
        debug::candidate_lines(Seq::empty(), id) == Seq::<char>::empty(),
        debug::candidate_lines(devices.push(dev), id) == debug::candidate_lines(devices, id) + (
        if dev.descriptor is Ok && dev.descriptor->Ok_0.vid == id.vid
            && dev.descriptor->Ok_0.pid == id.pid {
            debug::candidate_text(dev, id, text::str_debug(sysfs::attribute_text(dev.serial)))
        } else {
            Seq::empty()
        }),
{
    assert(hubs.push(hub).drop_last() =~= hubs);
    assert(locations.push(location).drop_last() =~= locations);
    assert(devices.push(dev).drop_last() =~= devices);
    let before = debug::candidate_lines(devices, id);
    assert(before + Seq::<char>::empty() =~= before);
}

proof fn lemma_absent_shown(hubs: Seq<Seq<char>>, i: int)
    requires
        0 <= i < hubs.len(),
    ensures
        text_laws::holds(
            tree::absent_text(hubs),
            "note: "@ + hubs[i] + " is declared as a pair but not on the bus\n"@,
        ),
    decreases hubs.len(),
{
    let note = "note: "@ + hubs[i] + " is declared as a pair but not on the bus\n"@;
    let before = tree::absent_text(hubs.drop_last());
    let last = "note: "@ + hubs.last() + " is declared as a pair but not on the bus\n"@;
    if i == hubs.len() - 1 {
        text_laws::lemma_holds_itself(last);
        text_laws::lemma_holds_behind(before, last, last);
    } else {
        lemma_absent_shown(hubs.drop_last(), i);
        text_laws::lemma_holds_before(before, last, note);
    }
}

/// What is said of the hubs whose other half is not known: each of them is named,
/// and nothing is said where there is none.
pub proof fn law_every_unpaired_hub_is_named(unpaired: Seq<Seq<char>>, location: Seq<char>)
    ensures
        unpaired.contains(location) ==> text_laws::holds(tree::unpaired_text(unpaired), location),
        unpaired.len() == 0 <==> tree::unpaired_text(unpaired).len() == 0,
        unpaired.len() == 1 ==> text_laws::holds(
            tree::unpaired_text(unpaired),
            "\n"@ + unpaired[0]
                + " is one half of a USB 3.x hub whose other half could not be identified"@,
        ),
        unpaired.len() > 1 ==> text_laws::holds(
            tree::unpaired_text(unpaired),
            "\n"@ + text::joined(unpaired, ", "@)
                + " are each one half of a USB 3.x hub whose other half could not be identified"@,
        ),
{
    if unpaired.len() > 0 {
        let said = tree::unpaired_text(unpaired);
        let list = text::joined(unpaired, ", "@);
        let rest = said.skip(("\n"@ + list).len() as int);
        reveal_strlit("\n");
        assert(said =~= "\n"@ + list + rest);
        if unpaired.contains(location) {
            let i = choose|i: int| 0 <= i < unpaired.len() && unpaired[i] == location;
            text_laws::law_a_list_holds_its_parts(unpaired, ", "@, i);
            text_laws::lemma_holds_part("\n"@, list, rest, location);
        }
        lemma_one_half();
        if unpaired.len() == 1 {
            assert(unpaired =~= seq![unpaired[0]]);
            text_laws::law_separators_stand_between(unpaired, unpaired[0], ", "@);
        }
        let one = if unpaired.len() == 1 {
            " is one half of a USB 3.x hub whose other half could not be identified"@
        } else {
            " are each one half of a USB 3.x hub whose other half could not be identified"@
        };
        let part = "\n"@ + list + one;
        let tail = said.skip(part.len() as int);
        assert(said =~= Seq::<char>::empty() + part + tail);
        text_laws::lemma_holds(Seq::empty(), part, tail);
    }
}

proof fn lemma_one_half()
    ensures
        ({
            let long =
                " one half of a USB 3.x hub whose other half could not be identified. Both halves keep a receptacle\npowered, so a device on such a hub cannot be power-cycled until the pair is known. The bus cannot tell;\nprobe the hub with a device that has a power LED, and declare the pair it finds in your hub pairs.\n"@;
            let is = " is one half of a USB 3.x hub whose other half could not be identified"@;
            let are =
                " are each one half of a USB 3.x hub whose other half could not be identified"@;
            &&& (" is"@ + long).take(is.len() as int) == is
            &&& (" are each"@ + long).take(are.len() as int) == are
            &&& is.len() <= (" is"@ + long).len()
            &&& are.len() <= (" are each"@ + long).len()
        }),
{
    reveal_strlit(" is");
    reveal_strlit(" are each");
    reveal_strlit(
        " one half of a USB 3.x hub whose other half could not be identified. Both halves keep a receptacle\npowered, so a device on such a hub cannot be power-cycled until the pair is known. The bus cannot tell;\nprobe the hub with a device that has a power LED, and declare the pair it finds in your hub pairs.\n",
    );
    reveal_strlit(" is one half of a USB 3.x hub whose other half could not be identified");
    reveal_strlit(" are each one half of a USB 3.x hub whose other half could not be identified");
    let long =
        " one half of a USB 3.x hub whose other half could not be identified. Both halves keep a receptacle\npowered, so a device on such a hub cannot be power-cycled until the pair is known. The bus cannot tell;\nprobe the hub with a device that has a power LED, and declare the pair it finds in your hub pairs.\n"@;
    let is = " is one half of a USB 3.x hub whose other half could not be identified"@;
    let are = " are each one half of a USB 3.x hub whose other half could not be identified"@;
    assert((" is"@ + long).take(is.len() as int) =~= is);
    assert((" are each"@ + long).take(are.len() as int) =~= are);
}

/// The tree shows every root hub with all that is below it, a note on every hub
/// that is declared and absent, and every hub whose other half is not known; a
/// bus that cannot be listed is all that is said then.
pub proof fn law_the_tree_shows_every_bus(
    pairs: HubPairsView,
    devices: Seq<DeviceView>,
    replies: Seq<Result<Seq<u8>, UsbError>>,
    error: UsbError,
    root: EntryView,
    location: Seq<char>,
)
    ensures
        tree::tree_text(pairs, Err(error), replies) == "bus could not be enumerated: "@
            + usb::usb_error_message(error) + "\n"@,
        ({
            let said = tree::tree_text(pairs, Ok(devices), replies);
            let entries = tree::entries_of(devices, replies, devices.len() as int);
            let pairing = pairing::paired(pairing::nodes_of(hub::hubs_among(devices)), pairs);
            let unpaired = pairing.unpaired(pairing.nodes.len() as int);
            &&& entries.contains(root) && root.path.len() == 0 ==> text_laws::holds(
                said,
                tree::hub_text(entries, pairing, root, Seq::empty()),
            )
            &&& pairing.declared_absent.contains(location) ==> text_laws::holds(
                said,
                "note: "@ + location + " is declared as a pair but not on the bus\n"@,
            )
            &&& unpaired.contains(location) ==> text_laws::holds(said, location)
            &&& unpaired.len() == 0 ==> said == tree::hubs_text(
                entries,
                pairing,
                tree::roots_below(entries, 256),
            ) + tree::absent_text(pairing.declared_absent)
        }),
{
    let said = tree::tree_text(pairs, Ok(devices), replies);
    let entries = tree::entries_of(devices, replies, devices.len() as int);
    let pairing = pairing::paired(pairing::nodes_of(hub::hubs_among(devices)), pairs);
    let unpaired = pairing.unpaired(pairing.nodes.len() as int);
    let roots = tree::roots_below(entries, 256);
    let first = tree::hubs_text(entries, pairing, roots);
    let second = tree::absent_text(pairing.declared_absent);
    let third = tree::unpaired_text(unpaired);
    assert(said == first + second + third);
    if entries.contains(root) && root.path.len() == 0 {
        law_every_root_hub_is_shown(entries, 256, root, 0, 0);
        let i = choose|i: int| 0 <= i < roots.len() && roots[i] == root;
        let shown = tree::hub_text(entries, pairing, root, Seq::empty());
        lemma_hubs_shown(entries, pairing, roots, i);
        text_laws::lemma_holds_before(first, second, shown);
        text_laws::lemma_holds_before(first + second, third, shown);
    }
    if pairing.declared_absent.contains(location) {
        let i = choose|i: int|
            0 <= i < pairing.declared_absent.len() && pairing.declared_absent[i] == location;
        lemma_absent_shown(pairing.declared_absent, i);
        text_laws::lemma_holds_part(
            first,
            second,
            third,
            "note: "@ + location + " is declared as a pair but not on the bus\n"@,
        );
    }
    if unpaired.len() > 0 {
        law_every_unpaired_hub_is_named(unpaired, location);
        if unpaired.contains(location) {
            text_laws::lemma_holds_behind(first + second, third, location);
        }
    } else {
        assert(said =~= first + second);
    }
}

// ---------------------------------------------------------------------------
// The scan
// ---------------------------------------------------------------------------

/// What the scan says of a device with the IDs that were asked for: that it is the
/// one, exactly where it carries the identity; and otherwise that its serial is not
/// known, or another.
pub proof fn law_the_scan_marks_the_match(dev: DeviceView, id: DeviceIdView, serial: Seq<char>)
    ensures
        ({
            let front = "   "@ + dev.location() + "  serial="@ + serial + "  "@;
            let line = debug::candidate_text(dev, id, serial);
            &&& device::carries(dev, id) ==> line == front + "<= MATCH"@ + "\n"@
            &&& !device::carries(dev, id) && sysfs::attribute_text(dev.serial).len() == 0 ==> line
                == front + "(serial unreadable - permissions?)"@ + "\n"@
            &&& !device::carries(dev, id) && sysfs::attribute_text(dev.serial).len() > 0 ==> line
                == front + "(serial differs)"@ + "\n"@
        }),
{
}

proof fn lemma_candidate(devices: Seq<DeviceView>, id: DeviceIdView, i: int)
    requires
        0 <= i < devices.len(),
        device::has_ids(devices[i], id.vid, id.pid),
    ensures
        text_laws::holds(
            debug::candidate_lines(devices, id),
            debug::candidate_line(devices[i], id),
        ),
    decreases devices.len(),
{
    let fewer = devices.drop_last();
    let before = debug::candidate_lines(fewer, id);
    let line = debug::candidate_line(devices[i], id);
    if i == devices.len() - 1 {
        text_laws::lemma_holds_itself(line);
        text_laws::lemma_holds_behind(before, line, line);
    } else {
        lemma_candidate(fewer, id, i);
        text_laws::lemma_holds_before(before, debug::candidate_line(devices.last(), id), line);
    }
}

/// The scan has a line for every device whose vendor and product are those asked
/// for, with its serial in quotes; it says so where there is none, and shows the
/// tree behind it.
pub proof fn law_the_scan_lists_every_candidate(
    id: DeviceIdView,
    pairs: HubPairsView,
    devices: Seq<DeviceView>,
    replies: Seq<Result<Seq<u8>, UsbError>>,
    error: UsbError,
    i: int,
)
    ensures
        ({
            let head = "-- devices matching "@ + text::hex4(id.vid) + ":"@ + text::hex4(id.pid)
                + "\n"@;
            let said = debug::scan_text(id, pairs, Ok(devices), replies);
            let shown = "-- usb tree\n"@ + tree::tree_text(pairs, Ok(devices), replies);
            &&& debug::scan_text(id, pairs, Err(error), replies) == head
                + "   bus could not be enumerated: "@ + usb::usb_error_message(error) + "\n"@
            &&& text_laws::holds(said, head)
            &&& text_laws::holds(said, shown)
            &&& 0 <= i < devices.len() && devices[i].descriptor is Ok
                && devices[i].descriptor->Ok_0.vid == id.vid && devices[i].descriptor->Ok_0.pid
                == id.pid ==> text_laws::holds(
                said,
                debug::candidate_text(
                    devices[i],
                    id,
                    text::str_debug(sysfs::attribute_text(devices[i].serial)),
                ),
            )
            &&& (forall|k: int|
                0 <= k < devices.len() ==> !((#[trigger] devices[k]).descriptor is Ok
                    && devices[k].descriptor->Ok_0.vid == id.vid
                    && devices[k].descriptor->Ok_0.pid == id.pid)) ==> said == head
                + "   none - not enumerated at all\n"@ + shown
        }),
{
    let head = "-- devices matching "@ + text::hex4(id.vid) + ":"@ + text::hex4(id.pid) + "\n"@;
    let said = debug::scan_text(id, pairs, Ok(devices), replies);
    let shown = "-- usb tree\n"@ + tree::tree_text(pairs, Ok(devices), replies);
    let lines = if debug::any_has_ids(devices, id) {
        debug::candidate_lines(devices, id)
    } else {
        "   none - not enumerated at all\n"@
    };
    assert(said =~= head + lines + shown);
    assert(said =~= Seq::<char>::empty() + head + (lines + shown));
    text_laws::lemma_holds_itself(shown);
    text_laws::lemma_holds_behind(head + lines, shown, shown);
    if 0 <= i < devices.len() && device::has_ids(devices[i], id.vid, id.pid) {
        lemma_candidate(devices, id, i);
        text_laws::lemma_holds_part(head, lines, shown, debug::candidate_line(devices[i], id));
    }
}

/// What a search came to is said: what was found, or why it failed.
pub proof fn law_the_outcome_is_said(ports: PowerPortsView, error: ErrorView)
    ensures
        debug::outcome_text(Ok(ports)) == "-- "@ + ports.text() + "\n"@,
        debug::outcome_text(Err(error)) == "-- search failed: "@ + error::error_text(error) + "\n"@,
{
}

} // verus!
