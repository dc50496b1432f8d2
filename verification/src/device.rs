//! Finding a device by `vid:pid:serial`, and waiting for it to come back.

use vstd::prelude::*;

use crate::error::{Error, ErrorView};
use crate::span::Span;
use crate::sysfs;
use crate::sysfs::{read_sysfs, sysfs_location};
use crate::text;
use crate::text::{put_hex4, same_text};
use crate::usb::UsbError;
use crate::version::Version;

verus! {

/// The identity a device is looked up by.
///
/// The serial is owned because the identity outlives the lookup: the ports
/// that feed a device are kept with it, and it is looked up again once its
/// VBUS is gone.
#[derive(Debug, Clone, PartialEq, Eq)]
pub struct DeviceId {
    /// Vendor ID.
    pub vid: u16,
    /// Product ID.
    pub pid: u16,
    /// Serial number. `None` matches any serial.
    pub serial: Option<String>,
}

/// What a [`DeviceId`] holds.
pub struct DeviceIdView {
    /// Vendor ID.
    pub vid: u16,
    /// Product ID.
    pub pid: u16,
    /// Serial number. `None` matches any serial.
    pub serial: Option<Seq<char>>,
}

impl View for DeviceId {
    type V = DeviceIdView;

    open spec fn view(&self) -> DeviceIdView {
        DeviceIdView { vid: self.vid, pid: self.pid, serial: sysfs::opt_text(self.serial) }
    }
}

/// What a device's descriptor says.
#[derive(Debug, Clone, Copy, PartialEq, Eq, Structural)]
pub struct Descriptor {
    /// Vendor ID.
    pub vid: u16,
    /// Product ID.
    pub pid: u16,
    /// The USB version the device declares.
    pub version: Version,
    /// Its class code.
    pub class: u8,
}

/// One device on the bus: its cached descriptor, and the content of its sysfs
/// attributes where they could be read.
#[derive(Debug)]
pub struct Device {
    /// The bus it is on.
    pub bus: u8,
    /// The ports from the root hub down to it, or why they are not known.
    pub path: Result<Vec<u8>, UsbError>,
    /// Its descriptor, or why it could not be read.
    pub descriptor: Result<Descriptor, UsbError>,
    /// The content of `serial`.
    pub serial: Option<String>,
    /// The content of `product`.
    pub product: Option<String>,
    /// The content of `maxchild`.
    pub max_child: Option<String>,
    /// The sysfs path of the host controller above the device's bus.
    pub controller: Option<String>,
}

/// What a [`Device`] holds.
pub struct DeviceView {
    /// The bus it is on.
    pub bus: u8,
    /// The ports from the root hub down to it, or why they are not known.
    pub path: Result<Seq<u8>, UsbError>,
    /// Its descriptor, or why it could not be read.
    pub descriptor: Result<Descriptor, UsbError>,
    /// The content of `serial`.
    pub serial: Option<Seq<char>>,
    /// The content of `product`.
    pub product: Option<Seq<char>>,
    /// The content of `maxchild`.
    pub max_child: Option<Seq<char>>,
    /// The sysfs path of the host controller above the device's bus.
    pub controller: Option<Seq<char>>,
}

impl View for Device {
    type V = DeviceView;

    open spec fn view(&self) -> DeviceView {
        DeviceView {
            bus: self.bus,
            path: match self.path {
                Ok(path) => Ok(path@),
                Err(e) => Err(e),
            },
            descriptor: self.descriptor,
            serial: sysfs::opt_text(self.serial),
            product: sysfs::opt_text(self.product),
            max_child: sysfs::opt_text(self.max_child),
            controller: sysfs::opt_text(self.controller),
        }
    }
}

impl DeviceView {
    /// The ports down to the device, none where they are not known.
    pub open spec fn ports(self) -> Seq<u8> {
        match self.path {
            Ok(path) => path,
            Err(_) => Seq::empty(),
        }
    }

    /// The device's sysfs location.
    pub open spec fn location(self) -> Seq<char> {
        sysfs::location_of(self.bus, self.ports())
    }
}

/// What the devices of a list hold.
pub open spec fn device_views(devices: Seq<Device>) -> Seq<DeviceView> {
    devices.map_values(|d: Device| d@)
}

/// sysfs location of a device, from the device itself.
pub fn device_location(dev: &Device) -> (location: String)
    ensures
        location@ == dev@.location(),
{
    match &dev.path {
        Ok(path) => sysfs_location(dev.bus, path.as_slice()),
        Err(_) => {
            let none: Vec<u8> = Vec::new();
            sysfs_location(dev.bus, none.as_slice())
        },
    }
}

/// Read a device's serial from sysfs, or empty if it publishes none.
///
/// Not a string-descriptor read: that needs usbfs write permission, which would
/// make discovery require the same privileges as switching.
pub fn read_serial(dev: &Device) -> (serial: String)
    ensures
        serial@ == sysfs::attribute_text(dev@.serial),
{
    read_sysfs(&dev.serial)
}

/// Whether a device has this vendor and product.
pub open spec fn has_ids(dev: DeviceView, vid: u16, pid: u16) -> bool {
    dev.descriptor is Ok && dev.descriptor->Ok_0.vid == vid && dev.descriptor->Ok_0.pid == pid
}

/// Whether a device carries an identity.
pub open spec fn carries(dev: DeviceView, id: DeviceIdView) -> bool {
    has_ids(dev, id.vid, id.pid) && match id.serial {
        Some(serial) => sysfs::attribute_text(dev.serial) == serial,
        None => true,
    }
}

/// An identity as text.
pub open spec fn id_text(id: DeviceIdView) -> Seq<char> {
    let ids = text::hex4(id.vid) + ":"@ + text::hex4(id.pid);
    match id.serial {
        Some(serial) => ids + ":"@ + serial,
        None => ids,
    }
}

impl DeviceId {
    /// A device identified by `vid:pid`, optionally narrowed to one serial.
    #[must_use]
    pub fn new(vid: u16, pid: u16, serial: Option<&str>) -> (id: Self)
        ensures
            id@.vid == vid,
            id@.pid == pid,
            id@.serial == (match serial {
                Some(s) => Some(s@),
                None => None,
            }),
    {
        DeviceId {
            vid,
            pid,
            serial: match serial {
                Some(s) => Some(s.to_owned()),
                None => None,
            },
        }
    }

    /// A copy of this identity.
    pub fn copy(&self) -> (id: Self)
        ensures
            id@ == self@,
    {
        DeviceId {
            vid: self.vid,
            pid: self.pid,
            serial: match &self.serial {
                Some(s) => Some(s.clone()),
                None => None,
            },
        }
    }

    /// Whether `dev` carries this identity. An unreadable descriptor matches
    /// nothing.
    #[must_use]
    pub fn matches(&self, dev: &Device) -> (yes: bool)
        ensures
            yes == carries(dev@, self@),
    {
        match &dev.descriptor {
            Ok(desc) => {
                if desc.vid != self.vid || desc.pid != self.pid {
                    return false;
                }
                match &self.serial {
                    None => true,
                    Some(s) => {
                        let found: String = read_serial(dev);
                        same_text(found.as_str(), s.as_str())
                    },
                }
            },
            Err(_) => false,
        }
    }

    /// `vid:pid` in hex, and `:serial` where there is one.
    pub fn to_text(&self) -> (s: String)
        ensures
            s@ == id_text(self@),
    {
        let mut s: String = String::new();
        put_hex4(&mut s, self.vid);
        s.append(":");
        put_hex4(&mut s, self.pid);
        assert(s@ =~= text::hex4(self.vid) + ":"@ + text::hex4(self.pid));
        match &self.serial {
            Some(serial) => {
                s.append(":");
                s.append(serial.as_str());
            },
            None => {},
        }
        s
    }
}

/// Find the device carrying `id` among the devices that enumerating the bus
/// gave: the index of the first.
///
/// # Errors
///
/// [`Error::NotFound`] if nothing on the bus matches, [`Error::Usb`] if the bus
/// could not be enumerated.
pub fn find_device(id: &DeviceId, bus: &Result<Vec<Device>, UsbError>) -> (found: Result<
    usize,
    Error,
>)
    ensures
        match *bus {
            Err(e) => found is Err && found->Err_0@ == ErrorView::Usb(e),
            Ok(devices) => match found {
                Ok(i) => {
                    &&& i < devices@.len()
                    &&& carries(devices@[i as int]@, id@)
                    &&& forall|j: int| 0 <= j < i ==> !carries((#[trigger] devices@[j])@, id@)
                },
                Err(e) => {
                    &&& e@ == (ErrorView::NotFound { device: id@ })
                    &&& forall|j: int|
                        0 <= j < devices@.len() ==> !carries((#[trigger] devices@[j])@, id@)
                },
            },
        },
{
    match bus {
        Err(e) => Err(Error::Usb(*e)),
        Ok(devices) => {
            let mut i: usize = 0;
            while i < devices.len()
                invariant
                    i <= devices.len(),
                    *bus == Ok::<Vec<Device>, UsbError>(*devices),
                    forall|j: int| 0 <= j < i ==> !carries((#[trigger] devices@[j])@, id@),
                decreases devices.len() - i,
            {
                if id.matches(&devices[i]) {
                    return Ok(i);
                }
                i = i + 1;
            }
            Err(Error::NotFound { device: id.copy() })
        },
    }
}

/// What to do next while waiting for a device.
#[derive(Debug)]
pub enum WaitStep {
    /// The device is there, at this index among the enumerated devices.
    Back(usize),
    /// It did not come in time.
    GiveUp(Error),
    /// Look again after this span.
    Again(Span),
}

/// How often to re-check the bus while waiting for a device to appear, in
/// milliseconds.
pub const POLL_INTERVAL_MS: u64 = 50;

/// Wait for a device to appear, polling until `timeout`: what to do once `bus`
/// was enumerated and `waited` has passed since the wait began.
///
/// Polled rather than slept: how long a device takes to come back varies with
/// hub debounce, its own reset and firmware boot, and any enumeration retry,
/// so a fixed sleep is either too short or needlessly long. A bus that could
/// not be enumerated does not hold the device.
///
/// The device is on the bus when it is reported back, which is not the same as
/// usable: udev may still be applying permissions to its usbfs node, and a
/// composite device's interface drivers may not have bound yet.
pub fn wait_for_device(
    id: &DeviceId,
    bus: &Result<Vec<Device>, UsbError>,
    waited: Span,
    timeout: Span,
) -> (step: WaitStep)
    requires
        waited.wf(),
        timeout.wf(),
    ensures
        match step {
            WaitStep::Back(i) => {
                &&& bus is Ok
                &&& i < bus->Ok_0@.len()
                &&& carries(bus->Ok_0@[i as int]@, id@)
                &&& forall|j: int| 0 <= j < i ==> !carries((#[trigger] bus->Ok_0@[j])@, id@)
            },
            _ => match *bus {
                Ok(devices) => forall|j: int|
                    0 <= j < devices@.len() ==> !carries((#[trigger] devices@[j])@, id@),
                Err(_) => true,
            },
        },
        match step {
            WaitStep::Back(_) => true,
            WaitStep::GiveUp(e) => {
                &&& waited.in_nanos() >= timeout.in_nanos()
                &&& e@ == (ErrorView::NotBack { device: id@ })
            },
            WaitStep::Again(span) => {
                &&& waited.in_nanos() < timeout.in_nanos()
                &&& span.wf()
                &&& span.in_nanos() == 50_000_000
            },
        },
{
    match find_device(id, bus) {
        Ok(i) => WaitStep::Back(i),
        Err(_) => {
            if waited.is_shorter(timeout) {
                WaitStep::Again(Span::from_millis(POLL_INTERVAL_MS))
            } else {
                WaitStep::GiveUp(Error::NotBack { device: id.copy() })
            }
        },
    }
}

/// How many of the devices carry an identity.
pub open spec fn matching(devices: Seq<DeviceView>, id: DeviceIdView) -> nat
    decreases devices.len(),
{
    if devices.len() == 0 {
        0
    } else {
        matching(devices.drop_last(), id) + (if carries(devices.last(), id) {
            1nat
        } else {
            0nat
        })
    }
}

/// No more devices carry an identity than there are.
pub proof fn lemma_matching(devices: Seq<DeviceView>, id: DeviceIdView)
    ensures
        matching(devices, id) <= devices.len(),
        matching(devices, id) == 0 <==> forall|i: int|
            0 <= i < devices.len() ==> !carries(#[trigger] devices[i], id),
    decreases devices.len(),
{
    if devices.len() > 0 {
        let fewer = devices.drop_last();
        lemma_matching(fewer, id);
        if matching(devices, id) == 0 {
            assert forall|i: int| 0 <= i < devices.len() implies !carries(
                #[trigger] devices[i],
                id,
            ) by {
                if i < fewer.len() {
                    assert(devices[i] == fewer[i]);
                }
            }
        } else if forall|i: int| 0 <= i < devices.len() ==> !carries(#[trigger] devices[i], id) {
            assert forall|i: int| 0 <= i < fewer.len() implies !carries(#[trigger] fewer[i], id) by {
                assert(fewer[i] == devices[i]);
            }
            assert(!carries(devices[devices.len() - 1], id));
        }
    }
}

/// How many of the devices carry `id`.
pub fn count_matching(id: &DeviceId, devices: &Vec<Device>) -> (n: usize)
    ensures
        n == matching(device_views(devices@), id@),
{
    let ghost all = device_views(devices@);
    let mut n: usize = 0;
    let mut i: usize = 0;
    assert(all.take(0) =~= Seq::<DeviceView>::empty());
    while i < devices.len()
        invariant
            n <= i <= devices.len(),
            all == device_views(devices@),
            n == matching(all.take(i as int), id@),
        decreases devices.len() - i,
    {
        assert(all.take(i + 1).drop_last() =~= all.take(i as int));
        assert(all.take(i + 1).last() == devices@[i as int]@);
        if id.matches(&devices[i]) {
            n = n + 1;
        }
        i = i + 1;
    }
    assert(all.take(all.len() as int) =~= all);
    n
}

} // verus!
