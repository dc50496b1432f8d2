//! Hubs, and whether they can switch power per port.

use vstd::prelude::*;

use crate::device;
use crate::device::{device_location, Device, DeviceView};
use crate::error::{Error, ErrorView};
use crate::sysfs::SYSFS_USB;
use crate::text;
use crate::text::{put_dec, same_text};
use crate::usb::{class_hub, UsbError};
use crate::version;
use crate::version::Version;

verus! {

/// One logical hub. A USB 3.x receptacle is fed by two of these.
#[derive(Debug, Clone)]
pub struct Hub {
    /// The ports from the root hub down to it, none for the root hub itself.
    pub path: Vec<u8>,
    /// sysfs location, e.g. `2-1.2`, or `usb2` for a root hub.
    pub location: String,
    /// Bus number this hub is connected to
    pub bus: u8,
    /// USB version
    pub version: Version,
    /// Vendor ID
    pub vid: u16,
    /// `bNbrPorts`, the number of ports this hub has
    pub nports: u8,
    /// Whether the hub supports PPPS
    pub per_port_power: bool,
}

/// What a [`Hub`] holds.
pub struct HubView {
    /// The ports from the root hub down to it, none for the root hub itself.
    pub path: Seq<u8>,
    /// sysfs location, e.g. `2-1.2`, or `usb2` for a root hub.
    pub location: Seq<char>,
    /// Bus number this hub is connected to
    pub bus: u8,
    /// USB version
    pub version: Version,
    /// Vendor ID
    pub vid: u16,
    /// `bNbrPorts`, the number of ports this hub has
    pub nports: u8,
    /// Whether the hub supports PPPS
    pub per_port_power: bool,
}

impl View for Hub {
    type V = HubView;

    open spec fn view(&self) -> HubView {
        HubView {
            path: self.path@,
            location: self.location@,
            bus: self.bus,
            version: self.version,
            vid: self.vid,
            nports: self.nports,
            per_port_power: self.per_port_power,
        }
    }
}

impl HubView {
    /// Whether this is at least a USB 3 hub.
    pub open spec fn super_speed(self) -> bool {
        version::at_least(self.version, version::usb_ss())
    }

    /// Which half of a USB 3.x hub this one is not.
    pub open spec fn other_side(self) -> Seq<char> {
        if self.super_speed() {
            "USB 2.0"@
        } else {
            "SuperSpeed"@
        }
    }

    /// sysfs directory of one downstream port, given the number of the hub's
    /// active configuration.
    pub open spec fn port_dir(self, port: u8, config: u8) -> Seq<char> {
        // A root hub's interface directory is `<bus>-0:<cfg>.0`, not `usb<bus>:...`.
        let iface = if self.path.len() == 0 {
            text::dec(self.bus as nat) + "-0"@
        } else {
            self.location
        };
        SYSFS_USB@ + "/"@ + iface + ":"@ + text::dec(config as nat) + ".0/"@ + self.location
            + "-port"@ + text::dec(port as nat)
    }
}

/// Shortest hub descriptor that can be read: the USB 2.0 one for up to seven
/// ports (§11.23.2.1). The `SuperSpeed` one is a fixed 12 bytes (USB 3.2
/// §10.15.2.1).
pub const HUB_DESC_MIN_LEN: usize = 9;

/// Logical Power Switching Mode mask and its per-port value, from
/// `wHubCharacteristics` (USB 2.0 §11.23.2.1).
const HUB_CHAR_LPSM: u8 = 0x03;

const HUB_CHAR_INDV_PORT_LPSM: u8 = 0x01;

/// `bNbrPorts`, at offset 2 of a hub descriptor, and whether the hub switches
/// power per port: the Logical Power Switching Mode, the two lowest bits of
/// `wHubCharacteristics` at offset 3, is 1, or it is 0 (ganged) on a hub with
/// one port.
pub open spec fn hub_fields(desc: Seq<u8>) -> Option<(u8, bool)> {
    if desc.len() < 9 {
        None
    } else {
        let lpsm = desc[3] % 4;
        Some((desc[2], lpsm == 1 || (lpsm == 0 && desc[2] == 1)))
    }
}

/// `bNbrPorts` and whether the hub switches power per port, from the leading
/// bytes of a hub descriptor. Both descriptor types share the layout of these
/// fields (USB 2.0 §11.23.2.1, USB 3.2 §10.15.2.1).
///
/// `None` if the descriptor is too short to hold them.
pub fn parse_hub_descriptor(desc: &[u8]) -> (fields: Option<(u8, bool)>)
    ensures
        fields == hub_fields(desc@),
{
    if desc.len() < HUB_DESC_MIN_LEN {
        return None;
    }
    // 00 ganged, 01 per port, 1x reserved (no switching, USB 1.0 hubs).

    let nports: u8 = desc[2];
    let characteristics: u8 = desc[3];
    let lpsm: u8 = characteristics & HUB_CHAR_LPSM;
    assert(characteristics & 3 == characteristics % 4) by (bit_vector);
    // With one port, ganged switching and per-port switching are the same act.
    let per_port_power: bool = lpsm == HUB_CHAR_INDV_PORT_LPSM || (lpsm == 0 && nports == 1);
    Some((nports, per_port_power))
}

/// Whether a device is a hub, by device class.
pub open spec fn hub_class(dev: DeviceView) -> bool {
    dev.descriptor is Ok && dev.descriptor->Ok_0.class == 9
}

/// Whether `dev` is a hub, by device class. An unreadable descriptor is not.
pub fn is_hub(dev: &Device) -> (yes: bool)
    ensures
        yes == hub_class(dev@),
{
    match &dev.descriptor {
        Ok(d) => d.class == class_hub(),
        Err(_) => false,
    }
}

/// What a reply holds.
pub open spec fn reply_view(reply: Result<Vec<u8>, UsbError>) -> Result<Seq<u8>, UsbError> {
    match reply {
        Ok(bytes) => Ok(bytes@),
        Err(e) => Err(e),
    }
}

/// The hub that a device is, from the reply to the request for its hub
/// descriptor: `Err` where opening it or the request failed.
pub open spec fn opened(dev: DeviceView, reply: Result<Seq<u8>, UsbError>) -> Result<
    HubView,
    ErrorView,
> {
    match dev.descriptor {
        Err(source) => Err(ErrorView::HubUnreadable { location: dev.location(), source }),
        Ok(desc) => match reply {
            Err(source) => Err(ErrorView::HubUnreadable { location: dev.location(), source }),
            Ok(bytes) => match hub_fields(bytes) {
                None => Err(
                    ErrorView::HubUnreadable { location: dev.location(), source: UsbError::Io },
                ),
                Some((nports, per_port_power)) => Ok(
                    HubView {
                        path: dev.ports(),
                        location: dev.location(),
                        bus: dev.bus,
                        version: desc.version,
                        vid: desc.vid,
                        nports,
                        per_port_power,
                    },
                ),
            },
        },
    }
}

/// Whether a result holds what a model of it says.
pub open spec fn result_is<T: View>(
    result: Result<T, Error>,
    model: Result<T::V, ErrorView>,
) -> bool {
    match result {
        Ok(t) => model == Ok::<T::V, ErrorView>(t@),
        Err(e) => model == Err::<T::V, ErrorView>(e@),
    }
}

/// A copy of a port path.
pub fn copy_path(path: &Vec<u8>) -> (copy: Vec<u8>)
    ensures
        copy@ == path@,
{
    let mut copy: Vec<u8> = Vec::new();
    let mut i: usize = 0;
    while i < path.len()
        invariant
            i <= path.len(),
            copy@ == path@.take(i as int),
        decreases path.len() - i,
    {
        copy.push(path[i]);
        assert(path@.take(i + 1) =~= path@.take(i as int).push(path@[i as int]));
        i = i + 1;
    }
    assert(path@.take(path@.len() as int) =~= path@);
    copy
}

impl Hub {
    /// The hub that `dev` is, once it was opened and asked for its hub
    /// descriptor.
    ///
    /// Whether a hub switches power per port is only in the hub descriptor, not
    /// in sysfs, so this takes usbfs access.
    ///
    /// # Errors
    ///
    /// [`Error::HubUnreadable`] if the hub could not be opened or would not
    /// answer.
    pub fn open(dev: &Device, reply: &Result<Vec<u8>, UsbError>) -> (hub: Result<Self, Error>)
        ensures
            result_is(hub, opened(dev@, reply_view(*reply))),
    {
        let location: String = device_location(dev);
        match &dev.descriptor {
            Err(source) => Err(Error::HubUnreadable { location, source: *source }),
            Ok(desc) => match reply {
                Err(source) => Err(Error::HubUnreadable { location, source: *source }),
                Ok(bytes) => match parse_hub_descriptor(bytes.as_slice()) {
                    None => Err(Error::HubUnreadable { location, source: UsbError::Io }),
                    Some((nports, per_port_power)) => {
                        let path: Vec<u8> = match &dev.path {
                            Ok(path) => copy_path(path),
                            Err(_) => Vec::new(),
                        };
                        // The declared spec version, not the negotiated link speed: a
                        // SuperSpeed hub plugged into a USB 2.0 port is still the SS half.
                        Ok(
                            Hub {
                                path,
                                location,
                                bus: dev.bus,
                                version: desc.version,
                                vid: desc.vid,
                                nports,
                                per_port_power,
                            },
                        )
                    },
                },
            },
        }
    }

    /// A copy of this hub.
    pub fn copy(&self) -> (hub: Self)
        ensures
            hub@ == self@,
    {
        Hub {
            path: copy_path(&self.path),
            location: self.location.clone(),
            bus: self.bus,
            version: self.version,
            vid: self.vid,
            nports: self.nports,
            per_port_power: self.per_port_power,
        }
    }

    /// Whether this is the bus's root hub, i.e. nothing above it in the tree.
    /// Its USB port path is empty, so sysfs names it `usb<bus>` instead of
    /// `<bus>-<port path>`, which every location built from it must account for.
    pub fn is_root_hub(&self) -> (yes: bool)
        ensures
            yes == (self@.path.len() == 0),
    {
        self.path.len() == 0
    }

    /// Whether this is at least a USB 3 hub
    pub fn is_super_speed(&self) -> (yes: bool)
        ensures
            yes == self@.super_speed(),
    {
        self.version.is_super_speed()
    }

    /// The half of a USB 3.x hub that this one is not.
    pub fn other_side(&self) -> (side: &'static str)
        ensures
            side@ == self@.other_side(),
    {
        if self.is_super_speed() {
            "USB 2.0"
        } else {
            "SuperSpeed"
        }
    }

    /// How many hubs are above this one.
    pub fn depth(&self) -> (depth: usize)
        ensures
            depth == self@.path.len(),
    {
        self.path.len()
    }

    /// sysfs directory of one downstream port, e.g.
    /// `/sys/bus/usb/devices/2-1:1.0/2-1-port3`.
    ///
    /// `config` is the number of the active configuration from the cached
    /// descriptor, so this needs no usbfs handle.
    pub fn port_dir(&self, port: u8, config: Result<u8, UsbError>) -> (dir: Result<
        String,
        UsbError,
    >)
        ensures
            match config {
                Ok(config) => dir is Ok && dir->Ok_0@ == self@.port_dir(port, config),
                Err(e) => dir == Err::<String, UsbError>(e),
            },
    {
        match config {
            Err(e) => Err(e),
            Ok(config) => {
                let iface: String = if self.is_root_hub() {
                    let mut iface: String = text::dec_text(self.bus as u64);
                    iface.append("-0");
                    iface
                } else {
                    self.location.clone()
                };
                let mut s: String = SYSFS_USB.to_owned();
                s.append("/");
                s.append(iface.as_str());
                s.append(":");
                put_dec(&mut s, config as u64);
                s.append(".0/");
                s.append(self.location.as_str());
                s.append("-port");
                put_dec(&mut s, port as u64);
                Ok(s)
            },
        }
    }
}

/// Every hub enumerated on the bus, unopened.
///
/// Only [`Hubs::enumerate`] builds one, and it filters on the hub device class,
/// so holding a `Hubs` is evidence that filter ran: nothing in it is an
/// ordinary device.
#[derive(Debug)]
pub struct Hubs<'a> {
    hubs: Vec<&'a Device>,
}

impl<'a> View for Hubs<'a> {
    type V = Seq<DeviceView>;

    closed spec fn view(&self) -> Seq<DeviceView> {
        self.hubs@.map_values(|d: &Device| d@)
    }
}

/// The first device of a list at a location.
pub open spec fn first_at(devices: Seq<DeviceView>, location: Seq<char>) -> Option<DeviceView>
    decreases devices.len(),
{
    if devices.len() == 0 {
        None
    } else if devices[0].location() == location {
        Some(devices[0])
    } else {
        first_at(devices.drop_first(), location)
    }
}

/// The hub at a location, from the reply to the request for its descriptor.
pub open spec fn opened_at(
    hubs: Seq<DeviceView>,
    location: Seq<char>,
    reply: Result<Seq<u8>, UsbError>,
) -> Result<HubView, ErrorView> {
    match first_at(hubs, location) {
        None => Err(ErrorView::HubMissing { location }),
        Some(dev) => opened(dev, reply),
    }
}

/// The hubs among the devices of a bus.
pub open spec fn hubs_among(devices: Seq<DeviceView>) -> Seq<DeviceView> {
    devices.filter(|d: DeviceView| hub_class(d))
}

impl<'a> Hubs<'a> {
    /// Every hub among the devices that enumerating the bus gave. Reads cached
    /// descriptors only, opens nothing.
    ///
    /// # Errors
    ///
    /// Whatever enumerating the bus returns.
    pub fn enumerate(bus: &'a Result<Vec<Device>, UsbError>) -> (hubs: Result<Self, UsbError>)
        ensures
            match *bus {
                Ok(devices) => hubs is Ok && hubs->Ok_0@ == hubs_among(
                    device::device_views(devices@),
                ),
                Err(e) => hubs == Err::<Self, UsbError>(e),
            },
    {
        match bus {
            Err(e) => Err(*e),
            Ok(devices) => {
                let mut hubs: Vec<&'a Device> = Vec::new();
                let ghost all = device::device_views(devices@);
                let mut i: usize = 0;
                reveal(Seq::filter);
                assert(all.take(0) =~= Seq::<DeviceView>::empty());
                assert(hubs@.map_values(|d: &Device| d@) =~= hubs_among(all.take(0)));
                while i < devices.len()
                    invariant
                        i <= devices.len(),
                        *bus == Ok::<Vec<Device>, UsbError>(*devices),
                        all == device::device_views(devices@),
                        hubs@.map_values(|d: &Device| d@) == hubs_among(all.take(i as int)),
                    decreases devices.len() - i,
                {
                    reveal(Seq::filter);
                    let ghost before = hubs@;
                    assert(all.take(i + 1).drop_last() =~= all.take(i as int));
                    assert(all.take(i + 1).last() == devices@[i as int]@);
                    if is_hub(&devices[i]) {
                        hubs.push(&devices[i]);
                        assert(hubs@.map_values(|d: &Device| d@) =~= before.map_values(
                            |d: &Device| d@,
                        ).push(devices@[i as int]@));
                    }
                    i = i + 1;
                }
                assert(all.take(all.len() as int) =~= all);
                Ok(Hubs { hubs })
            },
        }
    }

    /// The hub at `location`, once it was opened and asked for its hub
    /// descriptor.
    ///
    /// `location` is a sysfs location, e.g. `2-1.2` or `usb2`, as produced by
    /// [`sysfs_location`](crate::sysfs::sysfs_location) or
    /// [`device_location`]
    ///
    /// # Errors
    ///
    /// [`Error::HubMissing`] if no hub sits at `location`, which means the
    /// topology moved under the search, or [`Error::HubUnreadable`] if the hub
    /// is there but will not open.
    pub fn open_at(&self, location: &str, reply: &Result<Vec<u8>, UsbError>) -> (hub: Result<
        Hub,
        Error,
    >)
        ensures
            result_is(hub, opened_at(self@, location@, reply_view(*reply))),
    {
        match self.device_at(location) {
            None => Err(Error::HubMissing { location: location.to_owned() }),
            Some(dev) => Hub::open(dev, reply),
        }
    }

    /// The hub at `location`, unopened, if one is enumerated there.
    pub fn device_at(&self, location: &str) -> (dev: Option<&'a Device>)
        ensures
            match dev {
                Some(dev) => first_at(self@, location@) == Some(dev@),
                None => first_at(self@, location@) is None,
            },
    {
        let mut i: usize = 0;
        assert(self@.skip(0) =~= self@);
        while i < self.hubs.len()
            invariant
                i <= self.hubs.len(),
                self@.len() == self.hubs.len(),
                forall|k: int| 0 <= k < self@.len() ==> #[trigger] self@[k] == self.hubs@[k]@,
                first_at(self@, location@) == first_at(self@.skip(i as int), location@),
            decreases self.hubs.len() - i,
        {
            assert(self@.skip(i as int)[0] == self.hubs@[i as int]@);
            let here: String = device_location(self.hubs[i]);
            if same_text(here.as_str(), location) {
                return Some(self.hubs[i]);
            }
            assert(self@.skip(i as int).drop_first() =~= self@.skip(i + 1));
            i = i + 1;
        }
        None
    }

    /// The hubs, still unopened.
    pub fn iter(&self) -> (hubs: &Vec<&'a Device>)
        ensures
            hubs@.map_values(|d: &Device| d@) == self@,
    {
        &self.hubs
    }
}

} // verus!
