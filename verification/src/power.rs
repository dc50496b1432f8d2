//! Finding the ports that feed a device, and switching them together.
//!
//! The search asks for what only the bus can tell, one question at a time:
//! [`PowerPorts::find`] gives a [`Search`], which is either a question or the
//! outcome. Each answer gives the next one.

use vstd::prelude::*;

use crate::device;
use crate::device::{count_matching, find_device, Device, DeviceId, DeviceIdView, DeviceView};
use crate::error::{Error, ErrorView};
use crate::hub;
use crate::hub::{copy_path, Hub, HubView, Hubs};
use crate::pairing;
use crate::pairing::{Pairing, PairingView, Verdict, VerdictView};
use crate::pairs::{HubPairs, HubPairsView};
use crate::port;
use crate::port::{HubPort, HubPortView, Socket, SocketView};
use crate::span::Span;
use crate::switching::{Mode, Switching, SwitchingView, Which};
use crate::sysfs;
use crate::sysfs::sysfs_location;
use crate::text;
use crate::text::{join, put_dec};
use crate::usb::UsbError;

verus! {

/// Minimum off period when a `SuperSpeed` port is involved, in milliseconds: its
/// power-off is not immediate. Absorbed into the caller's off time rather than
/// added to it.
///
/// This duration could probably be shorter, but 200ms is conservative.
pub const SS_POWER_OFF_SETTLE_MS: u64 = 200;

/// The ports that must be switched to cut VBUS to one device.
#[derive(Debug, Clone)]
pub struct PowerPorts {
    /// The port feeding the device, on a hub that switches power per port.
    primary: HubPort,
    /// The ports held down alongside [`Self::primary`] so the receptacle's
    /// other half cannot keep VBUS alive.
    held: Vec<HubPort>,
    /// The device the ports were found for, kept so [`Self::is_gone`] can look
    /// it up again once its VBUS is off (and the device disconnected).
    device: DeviceId,
}

/// What [`PowerPorts`] hold.
pub struct PowerPortsView {
    /// The port feeding the device.
    pub primary: HubPortView,
    /// The ports held down alongside it.
    pub held: Seq<HubPortView>,
    /// The device the ports were found for.
    pub device: DeviceIdView,
}

impl View for PowerPorts {
    type V = PowerPortsView;

    closed spec fn view(&self) -> PowerPortsView {
        PowerPortsView {
            primary: self.primary@,
            held: port::port_views(self.held@),
            device: self.device@,
        }
    }
}

// ---------------------------------------------------------------------------
// The search
// ---------------------------------------------------------------------------

/// What opening a hub gave.
#[derive(Debug)]
pub struct HubAnswer {
    /// The reply to the request for its hub descriptor, or why there is none.
    pub reply: Result<Vec<u8>, UsbError>,
    /// The number of its active configuration.
    pub config: Result<u8, UsbError>,
}

/// What a [`HubAnswer`] holds.
pub struct HubAnswerView {
    /// The reply to the request for its hub descriptor, or why there is none.
    pub reply: Result<Seq<u8>, UsbError>,
    /// The number of its active configuration.
    pub config: Result<u8, UsbError>,
}

impl View for HubAnswer {
    type V = HubAnswerView;

    open spec fn view(&self) -> HubAnswerView {
        HubAnswerView { reply: hub::reply_view(self.reply), config: self.config }
    }
}

/// A search that waits for a hub to be opened.
pub struct HubQuestion<'a> {
    device: DeviceId,
    bus: u8,
    /// The ports down to what is to lose power.
    path: Vec<u8>,
    /// How many of those ports lead to what the hub asked about feeds.
    len: usize,
    hubs: Hubs<'a>,
    pairing: Pairing,
    /// The port to cut, once it is known. The hub asked about is then the other
    /// half of its hub.
    primary: Option<HubPort>,
    location: String,
}

/// What a [`HubQuestion`] holds.
pub struct HubQuestionView {
    /// The device searched for.
    pub device: DeviceIdView,
    /// The bus it is on.
    pub bus: u8,
    /// The ports down to what is to lose power.
    pub path: Seq<u8>,
    /// How many of those ports lead to what the hub asked about feeds.
    pub len: int,
    /// The hubs on the bus.
    pub hubs: Seq<DeviceView>,
    /// Which of them is the other half of which.
    pub pairing: PairingView,
    /// The port to cut, once it is known. The hub asked about is then the other
    /// half of its hub.
    pub primary: Option<HubPortView>,
    /// The sysfs location of the hub asked about.
    pub location: Seq<char>,
}

impl<'a> View for HubQuestion<'a> {
    type V = HubQuestionView;

    closed spec fn view(&self) -> HubQuestionView {
        HubQuestionView {
            device: self.device@,
            bus: self.bus,
            path: self.path@,
            len: self.len as int,
            hubs: self.hubs@,
            pairing: self.pairing@,
            primary: match self.primary {
                Some(port) => Some(port@),
                None => None,
            },
            location: self.location@,
        }
    }
}

/// A search that waits for what is plugged into two ports.
#[derive(Debug)]
pub struct SocketQuestion {
    device: DeviceId,
    primary: HubPort,
    peer: HubPort,
}

/// What a [`SocketQuestion`] holds.
pub struct SocketQuestionView {
    /// The device searched for.
    pub device: DeviceIdView,
    /// The port to cut.
    pub primary: HubPortView,
    /// The port on the other half of its receptacle.
    pub peer: HubPortView,
}

impl View for SocketQuestion {
    type V = SocketQuestionView;

    closed spec fn view(&self) -> SocketQuestionView {
        SocketQuestionView {
            device: self.device@,
            primary: self.primary@,
            peer: self.peer@,
        }
    }
}

/// How far a search has come.
pub enum Search<'a> {
    /// Open a hub, and hand what came of it to [`HubQuestion::answer`].
    OpenHub(HubQuestion<'a>),
    /// Look at two ports, and hand what is plugged in to
    /// [`SocketQuestion::answer`].
    LookAt(SocketQuestion),
    /// The search is over.
    Done(Result<PowerPorts, Error>),
}

/// What a [`Search`] holds.
pub enum SearchView {
    /// Waiting for a hub to be opened.
    OpenHub(HubQuestionView),
    /// Waiting for what is plugged into two ports.
    LookAt(SocketQuestionView),
    /// Over.
    Done(Result<PowerPortsView, ErrorView>),
}

impl<'a> View for Search<'a> {
    type V = SearchView;

    open spec fn view(&self) -> SearchView {
        match *self {
            Search::OpenHub(question) => SearchView::OpenHub(question@),
            Search::LookAt(question) => SearchView::LookAt(question@),
            Search::Done(outcome) => SearchView::Done(
                match outcome {
                    Ok(ports) => Ok(ports@),
                    Err(e) => Err(e@),
                },
            ),
        }
    }
}

/// The search failed.
pub open spec fn failed(error: ErrorView) -> SearchView {
    SearchView::Done(Err(error))
}

/// The identity of the hub at a location, as far as its descriptor tells.
pub open spec fn hub_identity(hubs: Seq<DeviceView>, location: Seq<char>) -> Option<DeviceIdView> {
    match hub::first_at(hubs, location) {
        Some(dev) => match dev.descriptor {
            Ok(desc) => Some(DeviceIdView { vid: desc.vid, pid: desc.pid, serial: None }),
            Err(_) => None,
        },
        None => None,
    }
}

impl HubQuestionView {
    /// Ask, unless no such hub is enumerated.
    pub open spec fn asked(self) -> SearchView {
        if hub::first_at(self.hubs, self.location) is None {
            failed(ErrorView::HubMissing { location: self.location })
        } else {
            SearchView::OpenHub(self)
        }
    }

    /// The walk has come up to what is `len` ports down: next is the hub that
    /// feeds it, unless that is the root hub.
    pub open spec fn walking(self, len: int) -> SearchView {
        if len < 2 {
            failed(ErrorView::NoSwitchableHub { device: sysfs::location_of(self.bus, self.path) })
        } else {
            (HubQuestionView {
                len,
                location: sysfs::location_of(self.bus, self.path.take(len - 1)),
                ..self
            }).asked()
        }
    }

    /// The nearest port that can be cut feeds a hub above the device.
    pub open spec fn behind(self) -> ErrorView {
        let hub = sysfs::location_of(self.bus, self.path.take(self.len));
        ErrorView::BehindHub {
            device: sysfs::location_of(self.bus, self.path),
            hub,
            hub_id: hub_identity(self.hubs, hub),
            levels: (self.path.len() - self.len) as u8,
        }
    }

    /// The port to cut is known: whether another one has to be held down with
    /// it is up to the pairing of its hub.
    pub open spec fn feeding(self, primary: HubPortView) -> SearchView {
        match self.pairing.verdict(primary.hub.location) {
            VerdictView::Paired { other, .. } => (HubQuestionView {
                primary: Some(primary),
                location: other,
                ..self
            }).asked(),
            VerdictView::DeclaredAlone | VerdictView::Usb2Hub => SearchView::Done(
                Ok(PowerPortsView { primary, held: Seq::empty(), device: self.device }),
            ),
            _ => failed(
                ErrorView::HubUnpaired {
                    port: primary.text(),
                    hub: primary.hub.location,
                    other_side: primary.hub.other_side(),
                },
            ),
        }
    }

    /// A hub on the way up was opened.
    pub open spec fn walked(self, hub: HubView, config: Result<u8, UsbError>) -> SearchView {
        if !hub.per_port_power {
            self.walking(self.len - 1)
        } else if self.len < self.path.len() {
            failed(self.behind())
        } else {
            match port::port_of(hub, self.path[self.len - 1], config) {
                Ok(primary) => self.feeding(primary),
                Err(e) => failed(e),
            }
        }
    }

    /// The other half of the primary's hub was opened.
    pub open spec fn met(
        self,
        primary: HubPortView,
        other: HubView,
        config: Result<u8, UsbError>,
    ) -> SearchView {
        if !other.per_port_power {
            failed(
                ErrorView::PeerNotSwitchable {
                    port: primary.text(),
                    peer: self.location + " port "@ + text::dec(primary.port as nat),
                },
            )
        } else {
            match port::port_of(other, primary.port, config) {
                Ok(peer) => SearchView::LookAt(
                    SocketQuestionView { device: self.device, primary, peer },
                ),
                Err(e) => failed(e),
            }
        }
    }

    /// How the search goes on once the hub was opened.
    pub open spec fn answered(self, answer: HubAnswerView) -> SearchView {
        match hub::opened_at(self.hubs, self.location, answer.reply) {
            Err(e) => failed(e),
            Ok(hub) => match self.primary {
                None => self.walked(hub, answer.config),
                Some(primary) => self.met(primary, hub, answer.config),
            },
        }
    }
}

impl SocketQuestionView {
    /// How the search ends: one receptacle holds one device, so the other half
    /// must be empty, unless both hold a hub.
    pub open spec fn answered(self, peer: SocketView, primary: SocketView) -> SearchView {
        if port::holdable(peer, primary) {
            SearchView::Done(
                Ok(
                    PowerPortsView {
                        primary: self.primary,
                        held: seq![self.peer],
                        device: self.device,
                    },
                ),
            )
        } else {
            failed(
                ErrorView::PeerNotFound {
                    port: self.primary.text(),
                    candidate: self.peer.text(),
                },
            )
        }
    }
}

/// The first device of a list that carries an identity.
pub open spec fn first_carrying(devices: Seq<DeviceView>, id: DeviceIdView) -> Option<DeviceView>
    decreases devices.len(),
{
    if devices.len() == 0 {
        None
    } else if device::carries(devices[0], id) {
        Some(devices[0])
    } else {
        first_carrying(devices.drop_first(), id)
    }
}

/// What enumerating the bus gave.
pub open spec fn bus_view(bus: Result<Vec<Device>, UsbError>) -> Result<
    Seq<DeviceView>,
    UsbError,
> {
    match bus {
        Ok(devices) => Ok(device::device_views(devices@)),
        Err(e) => Err(e),
    }
}

/// The search for the ports that feed the hub `levels` above the one device
/// that carries an identity, at the place where it begins.
pub open spec fn started(
    id: DeviceIdView,
    levels: u8,
    pairs: HubPairsView,
    bus: Result<Seq<DeviceView>, UsbError>,
) -> SearchView {
    match bus {
        Err(e) => failed(ErrorView::Usb(e)),
        Ok(devices) => {
            let count = device::matching(devices, id);
            if count == 0 {
                failed(ErrorView::NotFound { device: id })
            } else if count > 1 {
                failed(ErrorView::Ambiguous { device: id, count: count as usize })
            } else {
                started_at(id, first_carrying(devices, id)->0, levels, pairs, devices)
            }
        },
    }
}

/// The search for the ports that feed the hub `levels` above a device.
pub open spec fn started_at(
    id: DeviceIdView,
    dev: DeviceView,
    levels: u8,
    pairs: HubPairsView,
    devices: Seq<DeviceView>,
) -> SearchView {
    match dev.path {
        Err(e) => failed(ErrorView::Usb(e)),
        Ok(path) => if levels > 0 && levels >= path.len() {
            failed(ErrorView::NothingAbove { device: sysfs::location_of(dev.bus, path), levels })
        } else {
            let hubs = hub::hubs_among(devices);
            let target = path.take(path.len() - levels);
            (HubQuestionView {
                device: id,
                bus: dev.bus,
                path: target,
                len: target.len() as int,
                hubs,
                pairing: pairing::paired(pairing::nodes_of(hubs), pairs),
                primary: None,
                location: Seq::empty(),
            }).walking(target.len() as int)
        },
    }
}

/// Whether no port path is longer than a level count can say. USB allows seven
/// tiers.
pub open spec fn within_tiers(bus: Result<Seq<DeviceView>, UsbError>) -> bool {
    bus is Ok ==> forall|i: int|
        0 <= i < bus->Ok_0.len() ==> (#[trigger] bus->Ok_0[i]).ports().len() <= 255
}

proof fn lemma_first_carrying(devices: Seq<DeviceView>, id: DeviceIdView, i: int)
    requires
        0 <= i < devices.len(),
        device::carries(devices[i], id),
        forall|j: int| 0 <= j < i ==> !device::carries(#[trigger] devices[j], id),
    ensures
        first_carrying(devices, id) == Some(devices[i]),
    decreases devices.len(),
{
    if i > 0 {
        assert(!device::carries(devices[0], id));
        let rest = devices.drop_first();
        assert forall|j: int| 0 <= j < i - 1 implies !device::carries(#[trigger] rest[j], id) by {
            assert(rest[j] == devices[j + 1]);
        }
        lemma_first_carrying(rest, id, i - 1);
    }
}

/// The first `n` of the ports of a path.
fn first_ports(path: &Vec<u8>, n: usize) -> (first: Vec<u8>)
    requires
        n <= path.len(),
    ensures
        first@ == path@.take(n as int),
{
    let mut first: Vec<u8> = copy_path(path);
    first.truncate(n);
    first
}

impl<'a> Search<'a> {
    fn failed(error: Error) -> (search: Self)
        ensures
            search@ == failed(error@),
    {
        Search::Done(Err(error))
    }
}

impl<'a> HubQuestion<'a> {
    #[verifier::type_invariant]
    closed spec fn inv(self) -> bool {
        2 <= self.len <= self.path.len() <= 255
    }

    /// The sysfs location of the hub to open.
    pub fn location(&self) -> (location: &str)
        ensures
            location@ == self@.location,
    {
        self.location.as_str()
    }

    /// The hub to open, among the enumerated devices.
    pub fn hub(&self) -> (dev: Option<&'a Device>)
        ensures
            match dev {
                Some(dev) => hub::first_at(self@.hubs, self@.location) == Some(dev@),
                None => hub::first_at(self@.hubs, self@.location) is None,
            },
    {
        self.hubs.device_at(self.location.as_str())
    }

    /// Ask about the hub that feeds what is `len` ports down.
    fn walking(
        device: DeviceId,
        bus: u8,
        path: Vec<u8>,
        len: usize,
        hubs: Hubs<'a>,
        pairing: Pairing,
    ) -> (search: Search<'a>)
        requires
            len <= path.len() <= 255,
        ensures
            search@ == (HubQuestionView {
                device: device@,
                bus,
                path: path@,
                len: len as int,
                hubs: hubs@,
                pairing: pairing@,
                primary: None,
                location: Seq::empty(),
            }).walking(len as int),
    {
        if len < 2 {
            return Search::failed(
                Error::NoSwitchableHub { device: sysfs_location(bus, path.as_slice()) },
            );
        }
        let location: String = sysfs_location(bus, first_ports(&path, len - 1).as_slice());
        match hubs.device_at(location.as_str()) {
            None => Search::failed(Error::HubMissing { location }),
            Some(_) => Search::OpenHub(
                HubQuestion { device, bus, path, len, hubs, pairing, primary: None, location },
            ),
        }
    }

    /// What came of opening the hub.
    pub fn answer(self, answer: &HubAnswer) -> (search: Search<'a>)
        ensures
            search@ == self@.answered(answer@),
    {
        proof {
            use_type_invariant(&self);
        }
        let hub: Hub = match self.hubs.open_at(self.location.as_str(), &answer.reply) {
            Ok(hub) => hub,
            Err(e) => {
                return Search::failed(e);
            },
        };
        let ghost view = self@;
        let HubQuestion { device, bus, path, len, hubs, pairing, primary, location } = self;
        match primary {
            Some(primary) => HubQuestion::met(device, primary, hub, location, answer.config),
            None => {
                if !hub.per_port_power {
                    return HubQuestion::walking(device, bus, path, len - 1, hubs, pairing);
                }
                if len < path.len() {
                    let above: Vec<u8> = first_ports(&path, len);
                    let at: String = sysfs_location(bus, above.as_slice());
                    let hub_id: Option<DeviceId> = HubQuestion::identity(&hubs, at.as_str());
                    return Search::failed(
                        Error::BehindHub {
                            device: sysfs_location(bus, path.as_slice()),
                            hub: at,
                            hub_id,
                            levels: (path.len() - len) as u8,
                        },
                    );
                }
                match HubPort::new(hub, path[len - 1], answer.config) {
                    Err(e) => Search::failed(e),
                    Ok(primary) => {
                        let verdict: Verdict<'_> = pairing.verdict(primary.hub_location());
                        match verdict {
                            Verdict::Paired { other, .. } => {
                                let location: String = other.to_owned();
                                match hubs.device_at(location.as_str()) {
                                    None => Search::failed(Error::HubMissing { location }),
                                    Some(_) => Search::OpenHub(
                                        HubQuestion {
                                            device,
                                            bus,
                                            path,
                                            len,
                                            hubs,
                                            pairing,
                                            primary: Some(primary),
                                            location,
                                        },
                                    ),
                                }
                            },
                            Verdict::DeclaredAlone | Verdict::Usb2Hub => {
                                let held: Vec<HubPort> = Vec::new();
                                assert(port::port_views(held@) =~= Seq::<HubPortView>::empty());
                                Search::Done(Ok(PowerPorts { primary, held, device }))
                            },
                            _ => Search::failed(
                                Error::HubUnpaired {
                                    port: primary.to_text(),
                                    hub: primary.hub_location().to_owned(),
                                    other_side: primary.hub().other_side(),
                                },
                            ),
                        }
                    },
                }
            },
        }
    }

    /// The identity of the hub at `location`, as far as its descriptor tells.
    fn identity(hubs: &Hubs<'a>, location: &str) -> (id: Option<DeviceId>)
        ensures
            match id {
                Some(id) => hub_identity(hubs@, location@) == Some(id@),
                None => hub_identity(hubs@, location@) is None,
            },
    {
        match hubs.device_at(location) {
            None => None,
            Some(dev) => match &dev.descriptor {
                Ok(desc) => Some(DeviceId::new(desc.vid, desc.pid, None)),
                Err(_) => None,
            },
        }
    }

    /// The other half of the primary's hub, at `location`, was opened.
    ///
    /// Its port of the primary's number is the other half of the receptacle,
    /// because both halves of a hub number their downstream ports alike (USB 3.2
    /// §10.3.3). It has to be cut with the primary: VBUS stays on while either
    /// half asks for it (§10.1, Table 10-2).
    fn met(
        device: DeviceId,
        primary: HubPort,
        other: Hub,
        location: String,
        config: Result<u8, UsbError>,
    ) -> (search: Search<'a>)
        ensures
            forall|q: HubQuestionView|
                q.device == device@ && q.location == location@ ==> search@ == #[trigger] q.met(
                    primary@,
                    other@,
                    config,
                ),
    {
        if !other.per_port_power {
            let mut peer: String = location;
            peer.append(" port ");
            put_dec(&mut peer, primary.port() as u64);
            return Search::failed(Error::PeerNotSwitchable { port: primary.to_text(), peer });
        }
        let number: u8 = primary.port();
        match HubPort::new(other, number, config) {
            Err(e) => Search::failed(e),
            Ok(peer) => Search::LookAt(SocketQuestion { device, primary, peer }),
        }
    }
}

impl SocketQuestion {
    /// The port to cut.
    pub fn primary(&self) -> (port: &HubPort)
        ensures
            port@ == self@.primary,
    {
        &self.primary
    }

    /// The port on the other half of its receptacle.
    pub fn peer(&self) -> (port: &HubPort)
        ensures
            port@ == self@.peer,
    {
        &self.peer
    }

    /// What is plugged into the two ports.
    pub fn answer<'a>(self, peer: &Socket, primary: &Socket) -> (search: Search<'a>)
        ensures
            search@ == self@.answered(peer@, primary@),
    {
        let ghost view = self@;
        let SocketQuestion { device, primary: port, peer: other } = self;
        if peer.is_holdable_for(primary) {
            let mut held: Vec<HubPort> = Vec::new();
            held.push(other);
            assert(port::port_views(held@) =~= seq![view.peer]);
            Search::Done(Ok(PowerPorts { primary: port, held, device }))
        } else {
            Search::failed(
                Error::PeerNotFound { port: port.to_text(), candidate: other.to_text() },
            )
        }
    }
}

impl PowerPorts {
    /// Find the ports that must be switched to cut VBUS to `device`, among the
    /// devices that enumerating the bus gave. `pairs` is what the machine
    /// declares about its hubs.
    ///
    /// Call this before cutting power: once VBUS drops, the device leaves the
    /// bus and can no longer be looked up by serial.
    ///
    /// # Errors
    ///
    /// [`Error::NotFound`] if no device matches, [`Error::Ambiguous`] if more
    /// than one does, [`Error::NoSwitchableHub`] if no hub above it switches
    /// power per port, [`Error::BehindHub`] if the nearest one that does feeds
    /// a hub above the device, [`Error::HubMissing`] or
    /// [`Error::HubUnreadable`] if a hub could not be opened,
    /// [`Error::HubUnpaired`] if the other half of the device's hub is not
    /// known, [`Error::PeerNotSwitchable`] if it is ganged, or
    /// [`Error::PeerNotFound`] if its port holds a device of its own.
    pub fn find<'a>(
        device: &DeviceId,
        pairs: &HubPairs,
        bus: &'a Result<Vec<Device>, UsbError>,
    ) -> (search: Search<'a>)
        requires
            within_tiers(bus_view(*bus)),
        ensures
            search@ == started(device@, 0, pairs@, bus_view(*bus)),
    {
        PowerPorts::find_above(device, 0, pairs, bus)
    }

    /// Find the ports that must be switched to cut VBUS to the hub `levels`
    /// above `device`, and so to everything on it.
    ///
    /// Naming a hub through a device on it is deliberate: identical carriers may
    /// have identical hubs with no serials of their own.
    ///
    /// # Errors
    ///
    /// [`Error::NothingAbove`] if there are not as many hubs between the device
    /// and the root hub, or anything that [`Self::find`] reports, about the hub
    /// instead of the device.
    pub fn find_above<'a>(
        device: &DeviceId,
        levels: u8,
        pairs: &HubPairs,
        bus: &'a Result<Vec<Device>, UsbError>,
    ) -> (search: Search<'a>)
        requires
            within_tiers(bus_view(*bus)),
        ensures
            search@ == started(device@, levels, pairs@, bus_view(*bus)),
    {
        let devices: &'a Vec<Device> = match bus {
            Ok(devices) => devices,
            Err(e) => {
                return Search::failed(Error::Usb(*e));
            },
        };
        let ghost all = device::device_views(devices@);
        let found: usize = match find_device(device, bus) {
            Ok(found) => found,
            Err(e) => {
                proof {
                    device::lemma_matching(all, device@);
                    assert forall|j: int| 0 <= j < all.len() implies !device::carries(
                        #[trigger] all[j],
                        device@,
                    ) by {
                        assert(all[j] == devices@[j]@);
                    }
                }
                return Search::failed(e);
            },
        };
        let count: usize = count_matching(device, devices);
        proof {
            device::lemma_matching(all, device@);
            assert(all[found as int] == devices@[found as int]@);
            assert forall|j: int| 0 <= j < found implies !device::carries(
                #[trigger] all[j],
                device@,
            ) by {
                assert(all[j] == devices@[j]@);
            }
            lemma_first_carrying(all, device@, found as int);
        }
        if count > 1 {
            return Search::failed(Error::Ambiguous { device: device.copy(), count });
        }
        let dev: &Device = &devices[found];
        let path: &Vec<u8> = match &dev.path {
            Ok(path) => path,
            Err(e) => {
                return Search::failed(Error::Usb(*e));
            },
        };
        assert(all[found as int].ports() == path@);
        if levels > 0 && levels as usize >= path.len() {
            return Search::failed(
                Error::NothingAbove { device: sysfs_location(dev.bus, path.as_slice()), levels },
            );
        }
        match Hubs::enumerate(bus) {
            Err(e) => Search::failed(Error::Usb(e)),
            Ok(hubs) => {
                let pairing: Pairing = Pairing::compute(&hubs, pairs);
                let target: Vec<u8> = first_ports(path, path.len() - levels as usize);
                let len: usize = target.len();
                HubQuestion::walking(device.copy(), dev.bus, target, len, hubs, pairing)
            },
        }
    }
}

// ---------------------------------------------------------------------------
// Switching what was found
// ---------------------------------------------------------------------------

/// Whether no device that carries an identity is on the bus.
pub open spec fn gone(id: DeviceIdView, bus: Result<Seq<DeviceView>, UsbError>) -> Result<
    bool,
    ErrorView,
> {
    match bus {
        Err(e) => Err(ErrorView::Usb(e)),
        Ok(devices) => Ok(
            forall|i: int| 0 <= i < devices.len() ==> !device::carries(#[trigger] devices[i], id),
        ),
    }
}

impl PowerPortsView {
    /// Whether a `SuperSpeed` port is involved.
    pub open spec fn super_speed_involved(self) -> bool {
        self.primary.hub.super_speed() || self.held.len() > 0
    }

    /// How long the ports stay off where the caller asked for `off_time`.
    pub open spec fn settled(self, off_time: Span) -> Span {
        if self.super_speed_involved() && off_time.in_nanos() < 200_000_000 {
            Span { secs: 0, nanos: 200_000_000 }
        } else {
            off_time
        }
    }

    /// What will be cut, in words.
    pub open spec fn text(self) -> Seq<char> {
        let cutting = "cutting "@ + self.primary.debug_text() + "\n"@;
        if self.held.len() == 0 {
            cutting + "   nothing held down (receptacle has no other half)"@
        } else {
            cutting + "   holding down "@ + text::joined(
                self.held.map_values(|p: HubPortView| p.debug_text()),
                ", "@,
            )
        }
    }
}

impl PowerPorts {
    /// The port feeding the device.
    #[must_use]
    pub fn primary(&self) -> (port: &HubPort)
        ensures
            port@ == self@.primary,
    {
        &self.primary
    }

    /// The ports held down alongside [`Self::primary`] so the receptacle's
    /// other half cannot keep VBUS alive.
    ///
    /// One port on the hub that is paired with the primary's, or none when the
    /// receptacle has no other half.
    #[must_use]
    pub fn held(&self) -> (ports: &[HubPort])
        ensures
            port::port_views(ports@) == self@.held,
    {
        self.held.as_slice()
    }

    /// The port that a step of [`Self::set_power`] or [`Self::cycle`] names.
    pub fn port(&self, which: Which) -> (port: Option<&HubPort>)
        ensures
            match (which, port) {
                (Which::Primary, Some(port)) => port@ == self@.primary,
                (Which::Primary, None) => false,
                (Which::Held(i), Some(port)) => i < self@.held.len() && port@
                    == self@.held[i as int],
                (Which::Held(i), None) => i >= self@.held.len(),
            },
    {
        match which {
            Which::Primary => Some(&self.primary),
            Which::Held(i) => {
                if i < self.held.len() {
                    Some(&self.held[i])
                } else {
                    None
                }
            },
        }
    }

    /// Whether the device is absent from the bus, once that was enumerated.
    ///
    /// Returns
    /// - `Ok(true)` if the device is not found
    /// - `Ok(false)` if the device is found
    /// - `Err` if the bus could not be enumerated
    pub fn is_gone(&self, bus: &Result<Vec<Device>, UsbError>) -> (yes: Result<bool, Error>)
        ensures
            match yes {
                Ok(yes) => gone(self@.device, bus_view(*bus)) == Ok::<bool, ErrorView>(yes),
                Err(e) => gone(self@.device, bus_view(*bus)) == Err::<bool, ErrorView>(e@),
            },
    {
        let ghost all = bus_view(*bus);
        proof {
            if bus is Ok {
                assert forall|i: int| 0 <= i < all->Ok_0.len() implies #[trigger] all->Ok_0[i]
                    == bus->Ok_0@[i]@ by {}
            }
        }
        match find_device(&self.device, bus) {
            // Found means it is not gone
            Ok(found) => {
                assert(device::carries(all->Ok_0[found as int], self@.device));
                Ok(false)
            },
            // Only say so when it was actually not found
            Err(Error::NotFound { .. }) => Ok(true),
            // For all other errors, return that error
            Err(e) => Err(e),
        }
    }

    /// Switch the device's port, holding the receptacle's other half down for
    /// as long as it is off: the steps to take.
    ///
    /// Occupancy was sampled when the ports were found and a caller may reuse
    /// `PowerPorts` across cycles, so a held-down port is looked at again before
    /// it is cut. Restoring is unconditional: powering on a live port is a
    /// no-op.
    ///
    /// Cutting stops at the first failure, since the cut is already void.
    /// Restoring tries every port regardless and reports the first failure, so
    /// one bad port never leaves the others held down.
    ///
    /// Does not verify the effect; [`Self::cycle`] does.
    pub fn set_power(&self, on: bool) -> (run: Switching)
        ensures
            run@ == SwitchingView::started(
                if on {
                    Mode::On
                } else {
                    Mode::Off
                },
                self@.held.len() as usize,
                (Span { secs: 0, nanos: 0 }),
                self@.primary.text(),
            ),
    {
        let mode: Mode = if on {
            Mode::On
        } else {
            Mode::Off
        };
        Switching::start(
            mode,
            self.held.len(),
            Span { secs: 0, nanos: 0 },
            self.primary.to_text(),
        )
    }

    /// Cut power to the device, wait `off_time`, then restore it: the steps to
    /// take.
    ///
    /// The run reports [`Error::PowerOffIneffective`] if the device is still
    /// enumerated after the off period. Power is restored either way, so a
    /// failure never strands the device or leaves ports held down.
    pub fn cycle(&self, off_time: Span) -> (run: Switching)
        requires
            off_time.wf(),
        ensures
            run@ == SwitchingView::started(
                Mode::Cycle,
                self@.held.len() as usize,
                self@.settled(off_time),
                self@.primary.text(),
            ),
            run@.off_time.wf(),
            run@.off_time.in_nanos() >= off_time.in_nanos(),
            self@.super_speed_involved() ==> run@.off_time.in_nanos() >= 200_000_000,
    {
        let super_speed_involved: bool = self.primary.is_super_speed() || self.held.len() > 0;
        let off_time: Span = if super_speed_involved {
            off_time.longer(Span::from_millis(SS_POWER_OFF_SETTLE_MS))
        } else {
            off_time
        };
        Switching::start(Mode::Cycle, self.held.len(), off_time, self.primary.to_text())
    }

    /// What will be cut, in words.
    pub fn to_text(&self) -> (s: String)
        ensures
            s@ == self@.text(),
    {
        let mut s: String = "cutting ".to_owned();
        s.append(self.primary.to_debug_text().as_str());
        s.append("\n");
        if self.held.len() == 0 {
            s.append("   nothing held down (receptacle has no other half)");
            return s;
        }
        s.append("   holding down ");
        let ghost names = self@.held.map_values(|p: HubPortView| p.debug_text());
        let mut held: Vec<String> = Vec::new();
        let mut i: usize = 0;
        while i < self.held.len()
            invariant
                i <= self.held.len(),
                names == port::port_views(self.held@).map_values(
                    |p: HubPortView| p.debug_text(),
                ),
                text::texts(held@) =~= names.take(i as int),
            decreases self.held.len() - i,
        {
            let ghost before = held@;
            held.push(self.held[i].to_debug_text());
            assert(text::texts(held@) =~= text::texts(before).push(names[i as int]));
            i = i + 1;
        }
        s.append(join(&held, ", ").as_str());
        assert(names.take(names.len() as int) =~= names);
        s
    }
}

} // verus!
