//! Troubleshooting output.

use vstd::prelude::*;

use crate::device;
use crate::device::{device_location, read_serial, Device, DeviceId, DeviceIdView, DeviceView};
use crate::error;
use crate::error::{Error, ErrorView};
use crate::pairs::{HubPairs, HubPairsView};
use crate::power;
use crate::power::{PowerPorts, PowerPortsView, Search};
use crate::sysfs;
use crate::text;
use crate::text::{put_hex4, quoted};
use crate::tree;
use crate::usb;
use crate::usb::{describe, UsbError};

verus! {

/// What a device with the vendor and product searched for shows on its line,
/// with its serial in quotes.
pub open spec fn candidate_text(dev: DeviceView, id: DeviceIdView, serial: Seq<char>) -> Seq<char> {
    "   "@ + dev.location() + "  serial="@ + serial + "  "@ + (if device::carries(dev, id) {
        "<= MATCH"@
    } else if sysfs::attribute_text(dev.serial).len() == 0 {
        "(serial unreadable - permissions?)"@
    } else {
        "(serial differs)"@
    }) + "\n"@
}

/// What a device with the vendor and product searched for shows on its line,
/// with its serial in quotes.
pub fn candidate(dev: &Device, id: &DeviceId, serial: &str) -> (s: String)
    ensures
        s@ == candidate_text(dev@, id@, serial@),
{
    let verdict: &'static str = if id.matches(dev) {
        "<= MATCH"
    } else if read_serial(dev).as_str().unicode_len() == 0 {
        "(serial unreadable - permissions?)"
    } else {
        "(serial differs)"
    };
    let mut line: String = "   ".to_owned();
    line.append(device_location(dev).as_str());
    line.append("  serial=");
    line.append(serial);
    line.append("  ");
    line.append(verdict);
    line.append("\n");
    line
}

/// The line of a device with the vendor and product searched for.
pub open spec fn candidate_line(dev: DeviceView, id: DeviceIdView) -> Seq<char> {
    candidate_text(dev, id, text::str_debug(sysfs::attribute_text(dev.serial)))
}

/// The lines of those of the devices that have the vendor and product searched
/// for.
pub open spec fn candidate_lines(devices: Seq<DeviceView>, id: DeviceIdView) -> Seq<char>
    decreases devices.len(),
{
    if devices.len() == 0 {
        Seq::empty()
    } else if device::has_ids(devices.last(), id.vid, id.pid) {
        candidate_lines(devices.drop_last(), id) + candidate_line(devices.last(), id)
    } else {
        candidate_lines(devices.drop_last(), id)
    }
}

/// Whether one of the devices has this vendor and product.
pub open spec fn any_has_ids(devices: Seq<DeviceView>, id: DeviceIdView) -> bool {
    exists|i: int|
        0 <= i < devices.len() && device::has_ids(#[trigger] devices[i], id.vid, id.pid)
}

/// What the search for a device has to go by.
pub open spec fn scan_text(
    id: DeviceIdView,
    pairs: HubPairsView,
    bus: Result<Seq<DeviceView>, UsbError>,
    replies: Seq<Result<Seq<u8>, UsbError>>,
) -> Seq<char> {
    let head = "-- devices matching "@ + text::hex4(id.vid) + ":"@ + text::hex4(id.pid) + "\n"@;
    match bus {
        Err(e) => head + "   bus could not be enumerated: "@ + usb::usb_error_message(e) + "\n"@,
        Ok(devices) => head + (if any_has_ids(devices, id) {
            candidate_lines(devices, id)
        } else {
            "   none - not enumerated at all\n"@
        }) + "-- usb tree\n"@ + tree::tree_text(pairs, bus, replies),
    }
}

/// What came of the search for a device.
pub open spec fn outcome_text(outcome: Result<PowerPortsView, ErrorView>) -> Seq<char> {
    match outcome {
        Err(e) => "-- search failed: "@ + error::error_text(e) + "\n"@,
        Ok(ports) => "-- "@ + ports.text() + "\n"@,
    }
}

/// What the search for a device has to go by, and the search.
pub struct Scan<'a> {
    /// What to write before the search.
    pub say: String,
    /// The search, unless the bus could not be enumerated. What comes of it goes
    /// to [`search_report`].
    pub search: Option<Search<'a>>,
}

/// The lines of those of the devices that have the vendor and product searched
/// for.
fn candidates(id: &DeviceId, devices: &Vec<Device>) -> (s: Option<String>)
    ensures
        match s {
            Some(s) => {
                &&& any_has_ids(device::device_views(devices@), id@)
                &&& s@ == candidate_lines(device::device_views(devices@), id@)
            },
            None => !any_has_ids(device::device_views(devices@), id@),
        },
{
    let ghost all = device::device_views(devices@);
    let mut s: String = String::new();
    let mut any: bool = false;
    let mut i: usize = 0;
    assert(all.take(0) =~= Seq::<DeviceView>::empty());
    assert(s@ =~= candidate_lines(all.take(0), id@));
    while i < devices.len()
        invariant
            i <= devices.len(),
            all == device::device_views(devices@),
            s@ == candidate_lines(all.take(i as int), id@),
            any == exists|k: int|
                0 <= k < i && device::has_ids(#[trigger] all[k], id@.vid, id@.pid),
        decreases devices.len() - i,
    {
        let dev: &Device = &devices[i];
        assert(all.take(i + 1).drop_last() =~= all.take(i as int));
        assert(all.take(i + 1).last() == dev@);
        assert(all[i as int] == dev@);
        let here: bool = match &dev.descriptor {
            Ok(desc) => desc.vid == id.vid && desc.pid == id.pid,
            Err(_) => false,
        };
        if here {
            any = true;
            let serial: String = quoted(read_serial(dev).as_str());
            s.append(candidate(dev, id, serial.as_str()).as_str());
        }
        i = i + 1;
    }
    assert(all.take(all.len() as int) =~= all);
    if any {
        Some(s)
    } else {
        None
    }
}

/// What each stage of the search for `device` sees. `bus` is what enumerating
/// the bus gave, `replies` for each of its devices the reply to the request for
/// its hub descriptor.
///
/// A troubleshooting aid for when [`PowerPorts::find`] fails or a device
/// refuses to disappear. Every USB failure, including a failing
/// [`PowerPorts::find`], is part of the report.
pub fn debug_scan<'a>(
    device: &DeviceId,
    pairs: &HubPairs,
    bus: &'a Result<Vec<Device>, UsbError>,
    replies: &Vec<Result<Vec<u8>, UsbError>>,
) -> (scan: Scan<'a>)
    requires
        bus is Ok ==> bus->Ok_0.len() == replies.len(),
        power::within_tiers(power::bus_view(*bus)),
    ensures
        scan.say@ == scan_text(
            device@,
            pairs@,
            power::bus_view(*bus),
            tree::reply_views(replies@),
        ),
        match scan.search {
            Some(search) => {
                &&& bus is Ok
                &&& search@ == power::started(device@, 0, pairs@, power::bus_view(*bus))
            },
            None => bus is Err,
        },
{
    let mut say: String = "-- devices matching ".to_owned();
    put_hex4(&mut say, device.vid);
    say.append(":");
    put_hex4(&mut say, device.pid);
    say.append("\n");
    match bus {
        Err(e) => {
            say.append("   bus could not be enumerated: ");
            say.append(describe(*e).as_str());
            say.append("\n");
            Scan { say, search: None }
        },
        Ok(devices) => {
            match candidates(device, devices) {
                Some(lines) => {
                    say.append(lines.as_str());
                },
                None => {
                    say.append("   none - not enumerated at all\n");
                },
            }
            say.append("-- usb tree\n");
            say.append(crate::tree::tree(pairs, bus, replies).as_str());
            Scan { say, search: Some(PowerPorts::find(device, pairs, bus)) }
        },
    }
}

/// What came of the search.
pub fn search_report(outcome: &Result<PowerPorts, Error>) -> (s: String)
    ensures
        s@ == outcome_text(
            match *outcome {
                Ok(ports) => Ok(ports@),
                Err(e) => Err(e@),
            },
        ),
{
    match outcome {
        Err(e) => {
            let mut s: String = "-- search failed: ".to_owned();
            s.append(e.to_text().as_str());
            s.append("\n");
            s
        },
        Ok(ports) => {
            let mut s: String = "-- ".to_owned();
            s.append(ports.to_text().as_str());
            s.append("\n");
            s
        },
    }
}

} // verus!
