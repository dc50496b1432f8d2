//! One downstream hub port, and the two ways to switch its power.

use vstd::prelude::*;

use crate::error::{Error, ErrorView};
use crate::hub;
use crate::hub::{Hub, HubView};
use crate::sysfs;
use crate::sysfs::read_device_class;
use crate::text;
use crate::text::put_dec;
use crate::usb::{class_hub, port_power_request, ControlRequest, UsbError};

verus! {

/// One downstream port of one logical hub.
#[derive(Debug, Clone)]
pub struct HubPort {
    hub: Hub,
    port: u8,
    /// The port's sysfs directory, resolved once so switching needs no
    /// descriptor lookup.
    dir: String,
}

/// What a [`HubPort`] holds.
pub struct HubPortView {
    /// The hub it belongs to.
    pub hub: HubView,
    /// Its number on that hub.
    pub port: u8,
    /// Its sysfs directory.
    pub dir: Seq<char>,
}

impl View for HubPort {
    type V = HubPortView;

    closed spec fn view(&self) -> HubPortView {
        HubPortView { hub: self.hub@, port: self.port, dir: self.dir@ }
    }
}

impl HubPortView {
    /// sysfs location a device plugged into this port would have.
    pub open spec fn child_location(self) -> Seq<char> {
        sysfs::location_below(self.hub.location, self.hub.bus, self.port)
    }

    /// The port in words, e.g. `2-1.2.3 port 4`.
    pub open spec fn text(self) -> Seq<char> {
        self.hub.location + " port "@ + text::dec(self.port as nat)
    }

    /// The port in words, with the speed of its hub.
    pub open spec fn debug_text(self) -> Seq<char> {
        self.text() + " ("@ + (if self.hub.super_speed() {
            "SS"@
        } else {
            "HS"@
        }) + ")"@
    }
}

/// What the ports of a list hold.
pub open spec fn port_views(ports: Seq<HubPort>) -> Seq<HubPortView> {
    ports.map_values(|p: HubPort| p@)
}

/// One port of a hub, given the number of the hub's active configuration.
pub open spec fn port_of(hub: HubView, port: u8, config: Result<u8, UsbError>) -> Result<
    HubPortView,
    ErrorView,
> {
    match config {
        Ok(config) => Ok(HubPortView { hub, port, dir: hub.port_dir(port, config) }),
        Err(e) => Err(ErrorView::Usb(e)),
    }
}

/// What is in a port, as sysfs shows it.
#[derive(Debug)]
pub struct Socket {
    /// Whether something is plugged in.
    pub occupied: bool,
    /// The content of its `bDeviceClass`.
    pub class: Option<String>,
}

/// What a [`Socket`] holds.
pub struct SocketView {
    /// Whether something is plugged in.
    pub occupied: bool,
    /// The content of its `bDeviceClass`.
    pub class: Option<Seq<char>>,
}

impl View for Socket {
    type V = SocketView;

    open spec fn view(&self) -> SocketView {
        SocketView { occupied: self.occupied, class: sysfs::opt_text(self.class) }
    }
}

impl SocketView {
    /// Whether what is plugged in is a hub.
    pub open spec fn holds_hub(self) -> bool {
        sysfs::class_in(self.class) == Some(9u8)
    }
}

/// Whether a port can be held down alongside another without stranding
/// anything: it is empty, or both hold a hub - the two halves of one hub sit on
/// one receptacle (USB 3.2 §10.1).
pub open spec fn holdable(socket: SocketView, primary: SocketView) -> bool {
    !socket.occupied || (primary.holds_hub() && socket.holds_hub())
}

impl Socket {
    /// Whether what is plugged in is a hub.
    ///
    /// Read from sysfs, so an empty port and an unreadable class both read
    /// `false`.
    pub fn holds_hub(&self) -> (yes: bool)
        ensures
            yes == self@.holds_hub(),
    {
        match read_device_class(&self.class) {
            Some(class) => class == class_hub(),
            None => false,
        }
    }

    /// Whether the port this is in can be held down alongside the port that
    /// `primary` is in, without stranding anything.
    pub fn is_holdable_for(&self, primary: &Socket) -> (yes: bool)
        ensures
            yes == holdable(self@, primary@),
    {
        !self.occupied || (primary.holds_hub() && self.holds_hub())
    }
}

/// What came of writing a port's `disable` attribute.
#[derive(Debug)]
pub enum SysfsOutcome {
    /// This kernel exposes no such attribute (before 6.0).
    NoAttribute,
    /// It was written.
    Written,
    /// Writing it failed, as the system describes it.
    Failed(String),
}

/// Why the sysfs route failed, if it was present.
pub open spec fn sysfs_failure(sysfs: SysfsOutcome) -> Option<Seq<char>> {
    match sysfs {
        SysfsOutcome::Failed(reason) => Some(reason@),
        _ => None,
    }
}

/// What came of switching a port: the sysfs route switched it, or else the
/// usbfs route did, or neither.
pub open spec fn switched(
    port: HubPortView,
    sysfs: SysfsOutcome,
    usbfs: Result<(), UsbError>,
) -> Result<(), ErrorView> {
    match (sysfs, usbfs) {
        (SysfsOutcome::Written, _) => Ok(()),
        (_, Ok(())) => Ok(()),
        (_, Err(usbfs)) => Err(
            ErrorView::SwitchFailed { port: port.text(), sysfs: sysfs_failure(sysfs), usbfs },
        ),
    }
}

impl HubPort {
    /// Port `port` of `hub`. `config` is the number of the hub's active
    /// configuration.
    ///
    /// # Errors
    ///
    /// [`Error::Usb`] if the configuration could not be read.
    pub fn new(hub: Hub, port: u8, config: Result<u8, UsbError>) -> (new: Result<Self, Error>)
        ensures
            hub::result_is(new, port_of(hub@, port, config)),
    {
        match hub.port_dir(port, config) {
            Ok(dir) => Ok(HubPort { hub, port, dir }),
            Err(e) => Err(Error::Usb(e)),
        }
    }

    /// A copy of this port.
    pub fn copy(&self) -> (port: Self)
        ensures
            port@ == self@,
    {
        HubPort { hub: self.hub.copy(), port: self.port, dir: self.dir.clone() }
    }

    /// Whether this is the `SuperSpeed` half of a USB 3.x receptacle.
    #[must_use]
    pub fn is_super_speed(&self) -> (yes: bool)
        ensures
            yes == self@.hub.super_speed(),
    {
        self.hub.is_super_speed()
    }

    /// sysfs location of the hub this port belongs to, e.g. `2-1.2.3`.
    #[must_use]
    pub fn hub_location(&self) -> (location: &str)
        ensures
            location@ == self@.hub.location,
    {
        self.hub.location.as_str()
    }

    /// sysfs location a device plugged into this port would have, e.g.
    /// `2-1.2.3.4`. Everything at or below it loses power with the port.
    #[must_use]
    pub fn child_location(&self) -> (location: String)
        ensures
            location@ == self@.child_location(),
    {
        crate::sysfs::child_location(self.hub.location.as_str(), self.hub.bus, self.port)
    }

    /// The hub this port belongs to.
    pub fn hub(&self) -> (hub: &Hub)
        ensures
            hub@ == self@.hub,
    {
        &self.hub
    }

    /// The port number on its hub.
    #[must_use]
    pub fn port(&self) -> (port: u8)
        ensures
            port == self@.port,
    {
        self.port
    }

    /// The path of the port's `disable` attribute, if this kernel exposes one
    /// (6.0+).
    pub fn disable_attr(&self) -> (path: String)
        ensures
            path@ == self@.dir + "/disable"@,
    {
        let mut s: String = self.dir.clone();
        s.append("/disable");
        s
    }

    /// What to write to the `disable` attribute to switch the port.
    pub fn disable_value(on: bool) -> (value: &'static str)
        ensures
            value@ == (if on {
                "0"@
            } else {
                "1"@
            }),
    {
        if on {
            "0"
        } else {
            "1"
        }
    }

    /// The request to send over usbfs once the sysfs route was tried: none if
    /// that switched the port.
    ///
    /// The kernel tracks `disable` and so keeps the port down; a raw usbfs
    /// request can be undone by port runtime PM. So usbfs is the fallback.
    pub fn fallback(&self, on: bool, sysfs: &SysfsOutcome) -> (request: Option<ControlRequest>)
        ensures
            request is None == (sysfs is Written),
            request is Some ==> request->0 == (ControlRequest {
                request_type: 0x23,
                request: if on {
                    3
                } else {
                    1
                },
                value: 8,
                index: self@.port as u16,
            }),
    {
        match sysfs {
            SysfsOutcome::Written => None,
            _ => Some(port_power_request(self.port, on)),
        }
    }

    /// What came of switching this port, from what the sysfs route and, where it
    /// was needed, the usbfs route gave. Both errors are reported if neither
    /// route works.
    ///
    /// # Errors
    ///
    /// [`Error::SwitchFailed`] if neither the sysfs `disable` attribute nor a
    /// usbfs control transfer switched the port.
    pub fn set_power(&self, sysfs: SysfsOutcome, usbfs: Result<(), UsbError>) -> (outcome: Result<
        (),
        Error,
    >)
        ensures
            match switched(self@, sysfs, usbfs) {
                Ok(()) => outcome is Ok,
                Err(e) => outcome is Err && outcome->Err_0@ == e,
            },
    {
        let reason: Option<String> = match sysfs {
            SysfsOutcome::Written => {
                return Ok(());
            },
            SysfsOutcome::NoAttribute => None,
            SysfsOutcome::Failed(reason) => Some(reason),
        };
        match usbfs {
            Ok(()) => Ok(()),
            Err(usbfs) => Err(
                Error::SwitchFailed { port: self.to_text(), sysfs: reason, usbfs },
            ),
        }
    }

    /// Human-readable identifier, e.g. `2-1.2.3 port 4`.
    ///
    /// For messages only. It is not a sysfs location and no path can be built
    /// from it; [`Self::child_location`] is the sysfs one.
    pub fn to_text(&self) -> (s: String)
        ensures
            s@ == self@.text(),
    {
        let mut s: String = self.hub.location.clone();
        s.append(" port ");
        put_dec(&mut s, self.port as u64);
        s
    }

    /// The port in words, with the speed of its hub, e.g. `2-1.2.3 port 4 (HS)`.
    pub fn to_debug_text(&self) -> (s: String)
        ensures
            s@ == self@.debug_text(),
    {
        let mut s: String = self.to_text();
        s.append(" (");
        s.append(
            if self.is_super_speed() {
                "SS"
            } else {
                "HS"
            },
        );
        s.append(")");
        s
    }
}

} // verus!
