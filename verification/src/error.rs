//! Why a power cycle could not be carried out.

use vstd::prelude::*;

use crate::device;
use crate::device::{DeviceId, DeviceIdView};
use crate::sysfs;
use crate::text;
use crate::text::put_dec;
use crate::usb;
use crate::usb::{usb_error_text, UsbError};

verus! {

/// Why a power cycle could not be carried out.
#[derive(Debug)]
#[non_exhaustive]
#[allow(inconsistent_fields)]
pub enum Error {
    /// Nothing on the bus matches this `vid:pid:serial`.
    NotFound {
        /// The identity that was searched for.
        device: DeviceId,
    },
    /// More than one device matches this `vid:pid:serial`, so it is unknown
    /// which one to cut. Narrow the identity with a serial.
    Ambiguous {
        /// The identity that was searched for.
        device: DeviceId,
        /// How many devices carry it.
        count: usize,
    },
    /// No hub between the device and the root hub does per-port power
    /// switching, so nothing can cut its VBUS.
    ///
    /// Root hubs are not considered: they are host controller ports, which the
    /// hub chapter of the specification does not cover (USB 3.2 §10.1, "Host
    /// controller ports may have different requirements").
    NoSwitchableHub {
        /// sysfs location of the device, e.g. `2-1.2.3.4`.
        device: String,
    },
    /// The device's own hub does not switch power per port, and the nearest
    /// port above that does feeds that hub whole. Cutting it would take every
    /// device on the hub, so it is refused rather than done on the caller's
    /// behalf.
    ///
    /// To cycle the hub and everything on it deliberately, search with
    /// `find_above` and `levels`.
    BehindHub {
        /// sysfs location of the device, e.g. `2-1.2.3.4`.
        device: String,
        /// sysfs location of the hub between it and the switchable port, e.g.
        /// `2-1.2.3`.
        hub: String,
        /// That hub's identity, if its descriptor could be read.
        hub_id: Option<DeviceId>,
        /// How many hubs above the device it is - what `find_above` takes to
        /// cycle it.
        levels: u8,
    },
    /// `find_above` was asked for more hubs above the device than there are
    /// below the root hub. Root hub ports are host controller ports and are not
    /// switched.
    NothingAbove {
        /// sysfs location of the device, e.g. `2-1.2.3.4`.
        device: String,
        /// How many levels up were asked for.
        levels: u8,
    },
    /// The hub at the requested level above the device does not have the
    /// requested `DeviceId`.
    HubMismatch {
        /// sysfs location of the device, e.g. `2-1.2.3.4`.
        device: String,
        /// sysfs location of the hub that was found, e.g. `2-1.2`.
        hub: String,
        /// That hub's identity, if its descriptor could be read.
        found: Option<DeviceId>,
        /// The identity that was required.
        expected: DeviceId,
    },
    /// No hub is enumerated at this sysfs location. The bus topology changed
    /// during the search, or a declared pair names a hub that is not there.
    HubMissing {
        /// sysfs location that was looked up, e.g. `2-1.2`.
        location: String,
    },
    /// A hub could not be opened or would not answer, so whether it switches
    /// power is unknown. Access denied usually means a missing udev rule.
    HubUnreadable {
        /// sysfs location of the hub, e.g. `2-1.2`.
        location: String,
        /// What failed: opening the hub, or reading its descriptors.
        source: UsbError,
    },
    /// The receptacle's other half switches power in ganged mode. VBUS cannot
    /// be cut here: it stays on while either half asks for it (USB 3.2 §10.1,
    /// Table 10-2), and clearing `PORT_POWER` on a ganged hub would take the
    /// other half's neighbouring ports with it.
    PeerNotSwitchable {
        /// The port that would have been cut.
        port: String,
        /// Its peer, which is not individually switchable.
        peer: String,
    },
    /// The other half of the receptacle holds a device of its own, which one
    /// receptacle cannot (unless the device is a hub, whose two halves sit one
    /// on each port, USB 3.2 §10.1). The pairing is wrong, and cutting the
    /// port would strand whatever is on it.
    PeerNotFound {
        /// The port that would have been cut.
        port: String,
        /// The port the pairing named as its other half.
        candidate: String,
    },
    /// The port is on one half of a USB 3.x hub whose other half could not be
    /// identified. VBUS stays on while either half powers the receptacle, so
    /// cutting this port alone would only disconnect the device; nothing is
    /// cut.
    ///
    /// The pair has to be declared once for the machine, see
    /// [`crate::pairs::HubPairs`]. [`crate::tree::tree`] shows every hub and its
    /// pairing; [`crate::probe::probe`] finds the pair by watching a device's power
    /// LED.
    HubUnpaired {
        /// The port that would have been cut.
        port: String,
        /// sysfs location of its hub, e.g. `2-1.2`.
        hub: String,
        /// Which side is missing: `USB 2.0` or `SuperSpeed`.
        other_side: &'static str,
    },
    /// A line of the hub pairs text is not a pair.
    PairsSyntax {
        /// 1-based line number.
        line: usize,
        /// The line as written.
        text: String,
    },
    /// The pairs file could not be read.
    PairsUnreadable {
        /// The file.
        path: String,
        /// Why, as the system describes it.
        source: String,
    },
    /// Neither sysfs nor usbfs would switch the port.
    SwitchFailed {
        /// The port that could not be switched.
        port: String,
        /// Why the sysfs `disable` attribute failed, as the system describes it,
        /// if it was present.
        sysfs: Option<String>,
        /// Why the usbfs control transfer failed.
        usbfs: UsbError,
    },
    /// Every port feeding the receptacle was switched off, but the device is
    /// still enumerated: a powered-off port disables its link (USB 3.2
    /// §10.3.1.1), so the hub accepted `PORT_POWER` without acting on it.
    ///
    /// The converse does not hold: a device leaving the bus proves the port
    /// was switched, not that VBUS dropped (Table 10-2: "May be off").
    PowerOffIneffective {
        /// The port that was switched.
        port: String,
    },
    /// The device did not re-enumerate within the timeout.
    NotBack {
        /// The identity that was waited for.
        device: DeviceId,
    },
    /// An enumeration or descriptor read failed.
    Usb(UsbError),
    /// Writing a report, or reading an answer, failed, as the system describes it.
    Io(String),
}

/// What an [`Error`] holds, variant by variant.
#[allow(inconsistent_fields)]
pub enum ErrorView {
    /// See [`Error::NotFound`].
    NotFound { device: DeviceIdView },
    /// See [`Error::Ambiguous`].
    Ambiguous { device: DeviceIdView, count: usize },
    /// See [`Error::NoSwitchableHub`].
    NoSwitchableHub { device: Seq<char> },
    /// See [`Error::BehindHub`].
    BehindHub { device: Seq<char>, hub: Seq<char>, hub_id: Option<DeviceIdView>, levels: u8 },
    /// See [`Error::NothingAbove`].
    NothingAbove { device: Seq<char>, levels: u8 },
    /// See [`Error::HubMismatch`].
    HubMismatch {
        device: Seq<char>,
        hub: Seq<char>,
        found: Option<DeviceIdView>,
        expected: DeviceIdView,
    },
    /// See [`Error::HubMissing`].
    HubMissing { location: Seq<char> },
    /// See [`Error::HubUnreadable`].
    HubUnreadable { location: Seq<char>, source: UsbError },
    /// See [`Error::PeerNotSwitchable`].
    PeerNotSwitchable { port: Seq<char>, peer: Seq<char> },
    /// See [`Error::PeerNotFound`].
    PeerNotFound { port: Seq<char>, candidate: Seq<char> },
    /// See [`Error::HubUnpaired`].
    HubUnpaired { port: Seq<char>, hub: Seq<char>, other_side: Seq<char> },
    /// See [`Error::PairsSyntax`].
    PairsSyntax { line: usize, text: Seq<char> },
    /// See [`Error::PairsUnreadable`].
    PairsUnreadable { path: Seq<char>, source: Seq<char> },
    /// See [`Error::SwitchFailed`].
    SwitchFailed { port: Seq<char>, sysfs: Option<Seq<char>>, usbfs: UsbError },
    /// See [`Error::PowerOffIneffective`].
    PowerOffIneffective { port: Seq<char> },
    /// See [`Error::NotBack`].
    NotBack { device: DeviceIdView },
    /// See [`Error::Usb`].
    Usb(UsbError),
    /// See [`Error::Io`].
    Io(Seq<char>),
}

/// What the identity in an option holds.
pub open spec fn opt_id(id: Option<DeviceId>) -> Option<DeviceIdView> {
    match id {
        Some(id) => Some(id@),
        None => None,
    }
}

impl View for Error {
    type V = ErrorView;

    open spec fn view(&self) -> ErrorView {
        match *self {
            Error::NotFound { device } => ErrorView::NotFound {
                device: device@,
            },
            Error::Ambiguous { device, count } => ErrorView::Ambiguous {
                device: device@,
                count,
            },
            Error::NoSwitchableHub { device } => ErrorView::NoSwitchableHub {
                device: device@,
            },
            Error::BehindHub { device, hub, hub_id, levels } => ErrorView::BehindHub {
                device: device@,
                hub: hub@,
                hub_id: opt_id(hub_id),
                levels,
            },
            Error::NothingAbove { device, levels } => ErrorView::NothingAbove {
                device: device@,
                levels,
            },
            Error::HubMismatch { device, hub, found, expected } => ErrorView::HubMismatch {
                device: device@,
                hub: hub@,
                found: opt_id(found),
                expected: expected@,
            },
            Error::HubMissing { location } => ErrorView::HubMissing {
                location: location@,
            },
            Error::HubUnreadable { location, source } => ErrorView::HubUnreadable {
                location: location@,
                source,
            },
            Error::PeerNotSwitchable { port, peer } => ErrorView::PeerNotSwitchable {
                port: port@,
                peer: peer@,
            },
            Error::PeerNotFound { port, candidate } => ErrorView::PeerNotFound {
                port: port@,
                candidate: candidate@,
            },
            Error::HubUnpaired { port, hub, other_side } => ErrorView::HubUnpaired {
                port: port@,
                hub: hub@,
                other_side: other_side@,
            },
            Error::PairsSyntax { line, text } => ErrorView::PairsSyntax {
                line,
                text: text@,
            },
            Error::PairsUnreadable { path, source } => ErrorView::PairsUnreadable {
                path: path@,
                source: source@,
            },
            Error::SwitchFailed { port, sysfs, usbfs } => ErrorView::SwitchFailed {
                port: port@,
                sysfs: sysfs::opt_text(sysfs),
                usbfs,
            },
            Error::PowerOffIneffective { port } => ErrorView::PowerOffIneffective {
                port: port@,
            },
            Error::NotBack { device } => ErrorView::NotBack {
                device: device@,
            },
            Error::Usb(e) => ErrorView::Usb(e),
            Error::Io(e) => ErrorView::Io(e@),
        }
    }
}

/// The hub's identity in parentheses, where it could be read.
pub open spec fn id_hint(id: Option<DeviceIdView>) -> Seq<char> {
    match id {
        Some(id) => " ("@ + device::id_text(id) + ")"@,
        None => Seq::empty(),
    }
}

/// The likely fix when a hub refused access.
pub open spec fn access_hint(source: UsbError) -> Seq<char> {
    match source {
        UsbError::Access => " - missing udev rule for usbfs access?"@,
        _ => Seq::empty(),
    }
}

/// Why the sysfs route to a port failed.
pub open spec fn sysfs_reason(sysfs: Option<Seq<char>>) -> Seq<char> {
    match sysfs {
        Some(reason) => reason,
        None => "no `disable` attribute (kernel < 6.0?)"@,
    }
}

/// An error as text.
pub open spec fn error_text(error: ErrorView) -> Seq<char> {
    match error {
        ErrorView::NotFound { device } => {
            "no device matching "@ + device::id_text(device) + " on the bus"@
        },
        ErrorView::Ambiguous { device, count } => {
            text::dec(count as nat) + " devices match "@ + device::id_text(device)
                + " - add a serial to pick one"@
        },
        ErrorView::NoSwitchableHub { device } => {
            "no hub above "@ + device + " does per-port power switching (PPPS)"@
        },
        ErrorView::BehindHub { device, hub, hub_id, levels } => {
            device + " is behind hub "@ + hub + id_hint(hub_id)
                + ", which does not switch power per port; cutting the port above it would take every device on that hub. To cycle that hub and everything on it deliberately, ask for the hub "@
                + text::dec(levels as nat) + " level(s) above the device (find_above)"@
        },
        ErrorView::NothingAbove { device, levels } => {
            device + " has fewer than "@ + text::dec(levels as nat)
                + " switchable hub(s) above it"@
        },
        ErrorView::HubMismatch { device, hub, found, expected } => {
            "hub "@ + hub + id_hint(found) + " above "@ + device + " is not the expected "@
                + device::id_text(expected)
        },
        ErrorView::HubMissing { location } => {
            "no hub enumerated at "@ + location
                + " - did the bus topology change, or does a declared pair name a hub that is not there?"@
        },
        ErrorView::HubUnreadable { location, source } => {
            "hub "@ + location + " could not be read: "@ + usb::usb_error_message(source)
                + access_hint(source)
        },
        ErrorView::PeerNotSwitchable { port, peer } => {
            port + " is paired with "@ + peer
                + ", which switches power in ganged mode; VBUS cannot be cut on this receptacle"@
        },
        ErrorView::PeerNotFound { port, candidate } => {
            "the other half of "@ + port + "'s receptacle should be "@ + candidate
                + ", but that port holds a device of its own, so the hub pairing is wrong - check the USB tree"@
        },
        ErrorView::HubUnpaired { port, hub, other_side } => {
            port + " is on one half of a USB 3.x hub whose "@ + other_side
                + " half could not be identified; cutting it alone would only disconnect the device, not power it off. Declare the pair for this machine: the USB tree shows the hubs, probing "@
                + hub + " with a device that has a power LED finds it"@
        },
        ErrorView::PairsSyntax { line, text } => {
            "line "@ + text::dec(line as nat) + " of the hub pairs is not a pair: `"@ + text
                + "` (expected `<hub> <hub>` or `<hub> none`, e.g. `2-1 usb3`)"@
        },
        ErrorView::PairsUnreadable { path, source } => {
            "hub pairs file "@ + path + " could not be read: "@ + source
        },
        ErrorView::SwitchFailed { port, sysfs, usbfs } => {
            "could not switch "@ + port + ": usbfs: "@ + usb::usb_error_message(usbfs)
                + "; sysfs: "@ + sysfs_reason(sysfs)
        },
        ErrorView::PowerOffIneffective { port } => {
            port
                + " was powered off but the device is still enumerated - the hub accepted PORT_POWER without acting on it (a powered-off port disables its link, USB 3.2 §10.3.1.1)"@
        },
        ErrorView::NotBack { device } => {
            "device "@ + device::id_text(device) + " did not re-enumerate after power-on"@
        },
        ErrorView::Usb(e) => "usb error: "@ + usb::usb_error_message(e),
        ErrorView::Io(e) => "i/o error: "@ + e,
    }
}

/// The hub's identity in parentheses, where it could be read.
pub fn hub_id_hint(id: Option<&DeviceId>) -> (s: String)
    ensures
        s@ == id_hint(match id {
            Some(id) => Some(id@),
            None => None,
        }),
{
    match id {
        Some(id) => {
            let mut s: String = " (".to_owned();
            s.append(id.to_text().as_str());
            s.append(")");
            s
        },
        None => String::new(),
    }
}

/// The likely fix when a hub refused access, appended to the message.
pub fn udev_hint(source: UsbError) -> (s: &'static str)
    ensures
        s@ == access_hint(source),
{
    match source {
        UsbError::Access => " - missing udev rule for usbfs access?",
        _ => {
            proof {
                reveal_strlit("");
                assert(""@ =~= Seq::<char>::empty());
            }
            ""
        },
    }
}

/// What an error was caused by.
#[derive(Debug, PartialEq, Eq)]
pub enum Source<'a> {
    /// libusb refused an operation.
    Usb(UsbError),
    /// The system refused one, and describes it so.
    Io(&'a str),
}

/// What a [`Source`] holds.
pub enum SourceView {
    /// libusb refused an operation.
    Usb(UsbError),
    /// The system refused one, and describes it so.
    Io(Seq<char>),
}

/// What an error was caused by, if by another error.
pub open spec fn cause(error: ErrorView) -> Option<SourceView> {
    match error {
        ErrorView::HubUnreadable { source, .. } => Some(SourceView::Usb(source)),
        ErrorView::SwitchFailed { usbfs, .. } => Some(SourceView::Usb(usbfs)),
        ErrorView::PairsUnreadable { source, .. } => Some(SourceView::Io(source)),
        ErrorView::Usb(e) => Some(SourceView::Usb(e)),
        ErrorView::Io(e) => Some(SourceView::Io(e)),
        _ => None,
    }
}

impl<'a> View for Source<'a> {
    type V = SourceView;

    open spec fn view(&self) -> SourceView {
        match *self {
            Source::Usb(e) => SourceView::Usb(e),
            Source::Io(s) => SourceView::Io(s@),
        }
    }
}

impl Error {
    /// What this error was caused by, if by another error.
    pub fn source(&self) -> (source: Option<Source<'_>>)
        ensures
            source is Some == cause(self@) is Some,
            source is Some ==> source->0@ == cause(self@)->0,
    {
        match self {
            Error::HubUnreadable { source, .. } => Some(Source::Usb(*source)),
            Error::SwitchFailed { usbfs, .. } => Some(Source::Usb(*usbfs)),
            Error::PairsUnreadable { source, .. } => Some(Source::Io(source.as_str())),
            Error::Usb(e) => Some(Source::Usb(*e)),
            Error::Io(e) => Some(Source::Io(e.as_str())),
            _ => None,
        }
    }

    /// What went wrong, and what to do about it.
    pub fn to_text(&self) -> (s: String)
        ensures
            s@ == error_text(self@),
    {
        match self {
            Error::NotFound { device } => {
                let mut s: String = "no device matching ".to_owned();
                s.append(device.to_text().as_str());
                s.append(" on the bus");
                s
            },
            Error::Ambiguous { device, count } => {
                let mut s: String = text::dec_text(*count as u64);
                s.append(" devices match ");
                s.append(device.to_text().as_str());
                s.append(" - add a serial to pick one");
                s
            },
            Error::NoSwitchableHub { device } => {
                let mut s: String = "no hub above ".to_owned();
                s.append(device.as_str());
                s.append(" does per-port power switching (PPPS)");
                s
            },
            Error::BehindHub { device, hub, hub_id, levels } => {
                let mut s: String = device.clone();
                s.append(" is behind hub ");
                s.append(hub.as_str());
                s.append(hub_id_hint(hub_id.as_ref()).as_str());
                s.append(", which does not switch power per port; cutting the port above it would take every device on that hub. To cycle that hub and everything on it deliberately, ask for the hub ");
                put_dec(&mut s, *levels as u64);
                s.append(" level(s) above the device (find_above)");
                s
            },
            Error::NothingAbove { device, levels } => {
                let mut s: String = device.clone();
                s.append(" has fewer than ");
                put_dec(&mut s, *levels as u64);
                s.append(" switchable hub(s) above it");
                s
            },
            Error::HubMismatch { device, hub, found, expected } => {
                let mut s: String = "hub ".to_owned();
                s.append(hub.as_str());
                s.append(hub_id_hint(found.as_ref()).as_str());
                s.append(" above ");
                s.append(device.as_str());
                s.append(" is not the expected ");
                s.append(expected.to_text().as_str());
                s
            },
            Error::HubMissing { location } => {
                let mut s: String = "no hub enumerated at ".to_owned();
                s.append(location.as_str());
                s.append(" - did the bus topology change, or does a declared pair name a hub that is not there?");
                s
            },
            Error::HubUnreadable { location, source } => {
                let mut s: String = "hub ".to_owned();
                s.append(location.as_str());
                s.append(" could not be read: ");
                s.append(usb_error_text(*source).as_str());
                s.append(udev_hint(*source));
                s
            },
            Error::PeerNotSwitchable { port, peer } => {
                let mut s: String = port.clone();
                s.append(" is paired with ");
                s.append(peer.as_str());
                s.append(", which switches power in ganged mode; VBUS cannot be cut on this receptacle");
                s
            },
            Error::PeerNotFound { port, candidate } => {
                let mut s: String = "the other half of ".to_owned();
                s.append(port.as_str());
                s.append("'s receptacle should be ");
                s.append(candidate.as_str());
                s.append(", but that port holds a device of its own, so the hub pairing is wrong - check the USB tree");
                s
            },
            Error::HubUnpaired { port, hub, other_side } => {
                let mut s: String = port.clone();
                s.append(" is on one half of a USB 3.x hub whose ");
                s.append(other_side);
                s.append(" half could not be identified; cutting it alone would only disconnect the device, not power it off. Declare the pair for this machine: the USB tree shows the hubs, probing ");
                s.append(hub.as_str());
                s.append(" with a device that has a power LED finds it");
                s
            },
            Error::PairsSyntax { line, text } => {
                let mut s: String = "line ".to_owned();
                put_dec(&mut s, *line as u64);
                s.append(" of the hub pairs is not a pair: `");
                s.append(text.as_str());
                s.append("` (expected `<hub> <hub>` or `<hub> none`, e.g. `2-1 usb3`)");
                s
            },
            Error::PairsUnreadable { path, source } => {
                let mut s: String = "hub pairs file ".to_owned();
                s.append(path.as_str());
                s.append(" could not be read: ");
                s.append(source.as_str());
                s
            },
            Error::SwitchFailed { port, sysfs, usbfs } => {
                let mut s: String = "could not switch ".to_owned();
                s.append(port.as_str());
                s.append(": usbfs: ");
                s.append(usb_error_text(*usbfs).as_str());
                s.append("; sysfs: ");
                match sysfs {
                    Some(reason) => s.append(reason.as_str()),
                    None => s.append("no `disable` attribute (kernel < 6.0?)"),
                }
                s
            },
            Error::PowerOffIneffective { port } => {
                let mut s: String = port.clone();
                s.append(" was powered off but the device is still enumerated - the hub accepted PORT_POWER without acting on it (a powered-off port disables its link, USB 3.2 §10.3.1.1)");
                s
            },
            Error::NotBack { device } => {
                let mut s: String = "device ".to_owned();
                s.append(device.to_text().as_str());
                s.append(" did not re-enumerate after power-on");
                s
            },
            Error::Usb(e) => {
                let mut s: String = "usb error: ".to_owned();
                s.append(usb_error_text(*e).as_str());
                s
            },
            Error::Io(e) => {
                let mut s: String = "i/o error: ".to_owned();
                s.append(e.as_str());
                s
            },
        }
    }
}

impl From<UsbError> for Error {
    fn from(e: UsbError) -> (error: Self) {
        Error::Usb(e)
    }
}

impl vstd::std_specs::convert::FromSpecImpl<UsbError> for Error {
    open spec fn obeys_from_spec() -> bool {
        true
    }

    open spec fn from_spec(e: UsbError) -> Self {
        Error::Usb(e)
    }
}

} // verus!
