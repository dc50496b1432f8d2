//! Pairing the two logical hubs of a USB 3.x hub.
//!
//! # Why hubs are paired
//!
//! A USB 3.x receptacle is one socket carrying two USB links: a USB 2.0 hub
//! and a `SuperSpeed` hub each own a port on it. A device uses one of them and
//! leaves the other empty; a USB 3.x _hub_ occupies both. The socket has one
//! VBUS pin, and it is on while either port is powered (USB 3.2 §10.1; normative
//! in Table 10-2).
//!
//! Cutting only the half the device sits on drops it off the bus, not off
//! power. Both halves have to be down at once. Port _numbers_ are consistent
//! between the two halves (§10.3.3), so the question is which _hub_ is the other
//! half of this one.
//!
//! # How hubs are paired
//!
//! In order of confidence:
//!
//! 1. **Declared:** what a [`HubPairs`] says.
//! 2. **Same host controller:** the two root hubs of one xHCI controller are
//!    the two halves of its receptacles.
//! 3. **Expansion:** some boards route one side of their receptacles through
//!    a hub. The tell: one root of the controller has a _single_ port, and on
//!    it hangs a hub with exactly as many ports as the other root (and no
//!    twin of its own on the bus). It stands in for the small root.
//! 4. **Descent:** paired hubs have paired ports (§10.3.3), so the hub on
//!    port N of one is the other half of the hub on port N of its peer. Before
//!    pairing, the two are checked for what the halves of one chip must share:
//!    opposite speeds, the same vendor, the same number of ports. The check
//!    finds nothing on its own; it only rejects.
//!
//! This module applies them in that order, one method each. Pairing reads cached
//! descriptors and sysfs only; no hub is opened.

use vstd::hash_map::StringHashMap;
use vstd::prelude::*;

use crate::device::{device_location, Device, DeviceView};
use crate::hub::{copy_path, Hubs};
use crate::pairs;
use crate::pairs::{HubPairs, HubPairsView};
use crate::sysfs;
use crate::sysfs::{child_location, read_max_child, sysfs_location};
use crate::text;
use crate::text::{put_dec, same_text, text_less};
use crate::version;
use crate::version::Version;

verus! {

// ---------------------------------------------------------------------------
// What is known about a hub's other half
// ---------------------------------------------------------------------------

/// How two hubs were found to share receptacles.
#[derive(Debug, Clone, PartialEq, Eq)]
pub enum Evidence {
    /// Declared in the [`HubPairs`].
    Declared,
    /// Root hubs of the same host controller.
    Controller,
    /// A hub standing in for the single-port root hub `root`, expanding it
    /// to the `ports` ports of the controller's other root hub.
    Expansion {
        /// The single-port root hub the hub sits on.
        root: String,
        /// How many ports both the hub and the other root hub have.
        ports: u8,
    },
    /// On the same port number of hubs already paired.
    Descent(u8),
}

/// What an [`Evidence`] holds.
pub enum EvidenceView {
    /// Declared in the [`HubPairs`].
    Declared,
    /// Root hubs of the same host controller.
    Controller,
    /// A hub standing in for a single-port root hub.
    Expansion { root: Seq<char>, ports: u8 },
    /// On the same port number of hubs already paired.
    Descent(u8),
}

impl View for Evidence {
    type V = EvidenceView;

    open spec fn view(&self) -> EvidenceView {
        match *self {
            Evidence::Declared => EvidenceView::Declared,
            Evidence::Controller => EvidenceView::Controller,
            Evidence::Expansion { root, ports } => EvidenceView::Expansion { root: root@, ports },
            Evidence::Descent(port) => EvidenceView::Descent(port),
        }
    }
}

/// Evidence as text.
pub open spec fn evidence_text(evidence: EvidenceView) -> Seq<char> {
    match evidence {
        EvidenceView::Declared => "declared"@,
        EvidenceView::Controller => "same host controller"@,
        EvidenceView::Expansion { root, ports } => "expands "@ + root + "'s single port to "@
            + text::dec(ports as nat),
        EvidenceView::Descent(port) => "port "@ + text::dec(port as nat) + " of paired parents"@,
    }
}

impl Evidence {
    /// A copy of this evidence.
    pub fn copy(&self) -> (evidence: Self)
        ensures
            evidence@ == self@,
    {
        match self {
            Evidence::Declared => Evidence::Declared,
            Evidence::Controller => Evidence::Controller,
            Evidence::Expansion { root, ports } => Evidence::Expansion {
                root: root.clone(),
                ports: *ports,
            },
            Evidence::Descent(port) => Evidence::Descent(*port),
        }
    }

    /// How the pair was found, in words.
    pub fn to_text(&self) -> (s: String)
        ensures
            s@ == evidence_text(self@),
    {
        match self {
            Evidence::Declared => "declared".to_owned(),
            Evidence::Controller => "same host controller".to_owned(),
            Evidence::Expansion { root, ports } => {
                let mut s: String = "expands ".to_owned();
                s.append(root.as_str());
                s.append("'s single port to ");
                put_dec(&mut s, *ports as u64);
                s
            },
            Evidence::Descent(port) => {
                let mut s: String = "port ".to_owned();
                put_dec(&mut s, *port as u64);
                s.append(" of paired parents");
                s
            },
        }
    }
}

/// What is known about a hub's other half.
#[derive(Debug, Clone, Copy, PartialEq, Eq)]
#[allow(inconsistent_fields)]
pub enum Verdict<'a> {
    /// Paired with the hub at this location.
    Paired {
        /// sysfs location of the other half.
        other: &'a str,
        /// How the pair was found.
        evidence: &'a Evidence,
    },
    /// A single-port root hub whose controller sibling `other` is paired with
    /// the hub `via` on that port instead - the hub stands in for this one.
    StoodInFor {
        /// The controller sibling.
        other: &'a str,
        /// The hub on this root's single port.
        via: &'a str,
    },
    /// Declared to have no other half.
    DeclaredAlone,
    /// A USB 2.0 hub, which has no `SuperSpeed` half.
    Usb2Hub,
    /// Has another half that could not be identified.
    Unpaired,
    /// Not a hub this pairing knows of.
    Unknown,
}

/// What a [`Verdict`] holds.
pub enum VerdictView {
    /// Paired with the hub at this location.
    Paired { other: Seq<char>, evidence: EvidenceView },
    /// A single-port root hub for which another hub stands in.
    StoodInFor { other: Seq<char>, via: Seq<char> },
    /// Declared to have no other half.
    DeclaredAlone,
    /// A USB 2.0 hub, which has no `SuperSpeed` half.
    Usb2Hub,
    /// Has another half that could not be identified.
    Unpaired,
    /// Not a hub this pairing knows of.
    Unknown,
}

impl<'a> View for Verdict<'a> {
    type V = VerdictView;

    open spec fn view(&self) -> VerdictView {
        match *self {
            Verdict::Paired { other, evidence } => VerdictView::Paired {
                other: other@,
                evidence: evidence@,
            },
            Verdict::StoodInFor { other, via } => VerdictView::StoodInFor {
                other: other@,
                via: via@,
            },
            Verdict::DeclaredAlone => VerdictView::DeclaredAlone,
            Verdict::Usb2Hub => VerdictView::Usb2Hub,
            Verdict::Unpaired => VerdictView::Unpaired,
            Verdict::Unknown => VerdictView::Unknown,
        }
    }
}

/// A verdict as text.
pub open spec fn verdict_text(verdict: VerdictView) -> Seq<char> {
    match verdict {
        VerdictView::Paired { other, evidence } => "<-> "@ + other + " ("@ + evidence_text(evidence)
            + ")"@,
        VerdictView::StoodInFor { other, via } => "same host controller as "@ + other + "; "@ + via
            + " stands in for it"@,
        VerdictView::DeclaredAlone => "no other half (declared)"@,
        VerdictView::Usb2Hub => "no other half (USB 2.0 hub)"@,
        VerdictView::Unpaired => "UNPAIRED - other half unknown"@,
        VerdictView::Unknown => "unreadable"@,
    }
}

impl<'a> Verdict<'a> {
    /// What is known, in words.
    pub fn to_text(&self) -> (s: String)
        ensures
            s@ == verdict_text(self@),
    {
        match self {
            Verdict::Paired { other, evidence } => {
                let mut s: String = "<-> ".to_owned();
                s.append(other);
                s.append(" (");
                s.append(evidence.to_text().as_str());
                s.append(")");
                s
            },
            Verdict::StoodInFor { other, via } => {
                let mut s: String = "same host controller as ".to_owned();
                s.append(other);
                s.append("; ");
                s.append(via);
                s.append(" stands in for it");
                s
            },
            Verdict::DeclaredAlone => "no other half (declared)".to_owned(),
            Verdict::Usb2Hub => "no other half (USB 2.0 hub)".to_owned(),
            Verdict::Unpaired => "UNPAIRED - other half unknown".to_owned(),
            Verdict::Unknown => "unreadable".to_owned(),
        }
    }
}

/// What the rules settled for one hub. The owned form of [`Verdict`]'s
/// settled variants.
#[derive(Debug, PartialEq, Eq)]
#[allow(inconsistent_fields)]
enum Status {
    Paired { other: String, evidence: Evidence },
    StoodInFor { other: String, via: String },
    DeclaredAlone,
}

/// What the rules settled for one hub.
pub enum StatusView {
    /// Paired with the hub at this location.
    Paired { other: Seq<char>, evidence: EvidenceView },
    /// A single-port root hub for which another hub stands in.
    StoodInFor { other: Seq<char>, via: Seq<char> },
    /// Declared to have no other half.
    DeclaredAlone,
}

impl View for Status {
    type V = StatusView;

    closed spec fn view(&self) -> StatusView {
        match *self {
            Status::Paired { other, evidence } => StatusView::Paired {
                other: other@,
                evidence: evidence@,
            },
            Status::StoodInFor { other, via } => StatusView::StoodInFor {
                other: other@,
                via: via@,
            },
            Status::DeclaredAlone => StatusView::DeclaredAlone,
        }
    }
}

/// What is settled, by hub location.
pub type Statuses = Map<Seq<char>, StatusView>;

// ---------------------------------------------------------------------------
// The hubs on the bus
// ---------------------------------------------------------------------------

/// What pairing needs to know about one hub.
#[derive(Debug)]
pub struct Node {
    /// sysfs location of a device, e.g. `2-1.2.1.1`, or `usb2` for a root hub.
    pub location: String,
    /// The bus the hub is on.
    pub bus: u8,
    /// The ports from the root hub down to it.
    pub path: Vec<u8>,
    /// The USB version it declares.
    pub version: Version,
    /// Vendor ID.
    pub vid: u16,
    /// `bNbrPorts`, from sysfs, if readable.
    pub nports: Option<u8>,
    /// The host controller, for a root hub.
    pub controller: Option<String>,
}

/// What a [`Node`] holds.
pub struct NodeView {
    /// sysfs location.
    pub location: Seq<char>,
    /// The bus the hub is on.
    pub bus: u8,
    /// The ports from the root hub down to it.
    pub path: Seq<u8>,
    /// The USB version it declares.
    pub version: Version,
    /// Vendor ID.
    pub vid: u16,
    /// `bNbrPorts`, from sysfs, if readable.
    pub nports: Option<u8>,
    /// The host controller, for a root hub.
    pub controller: Option<Seq<char>>,
}

impl View for Node {
    type V = NodeView;

    open spec fn view(&self) -> NodeView {
        NodeView {
            location: self.location@,
            bus: self.bus,
            path: self.path@,
            version: self.version,
            vid: self.vid,
            nports: self.nports,
            controller: sysfs::opt_text(self.controller),
        }
    }
}

/// What the hubs of a list hold.
pub open spec fn node_views(nodes: Seq<Node>) -> Seq<NodeView> {
    nodes.map_values(|n: Node| n@)
}

impl NodeView {
    /// Whether the hub is at least a USB 3 hub.
    pub open spec fn super_speed(self) -> bool {
        version::at_least(self.version, version::usb_ss())
    }

    /// Whether this hub may be one half of a USB 3.x hub, i.e. have another
    /// half to look for. A USB 2.0 hub has none.
    pub open spec fn may_have_other_half(self) -> bool {
        version::at_least(self.version, version::usb_bos())
    }

    /// Whether `other` could be the other half of this hub: opposite speed,
    /// same vendor, same number of ports where both are known.
    pub open spec fn matches(self, other: NodeView) -> bool {
        &&& self.super_speed() != other.super_speed()
        &&& self.vid == other.vid
        &&& self.nports is Some && other.nports is Some ==> self.nports == other.nports
    }

    /// Whether the hub's location is that of its bus and path: what
    /// [`Node::read`] gives.
    pub open spec fn well_placed(self) -> bool {
        self.location == sysfs::location_of(self.bus, self.path)
    }
}

/// What pairing needs to know about a device, if it can be read.
pub open spec fn node_of(dev: DeviceView) -> Option<NodeView> {
    match (dev.descriptor, dev.path) {
        (Ok(desc), Ok(path)) => Some(
            NodeView {
                location: dev.location(),
                bus: dev.bus,
                path,
                version: desc.version,
                vid: desc.vid,
                nports: sysfs::byte(sysfs::attribute_text(dev.max_child), 10),
                controller: if path.len() == 0 {
                    dev.controller
                } else {
                    None
                },
            },
        ),
        _ => None,
    }
}

/// What pairing needs to know about the devices that can be read, in order.
pub open spec fn nodes_of(devices: Seq<DeviceView>) -> Seq<NodeView>
    decreases devices.len(),
{
    if devices.len() == 0 {
        Seq::empty()
    } else {
        match node_of(devices.last()) {
            Some(node) => nodes_of(devices.drop_last()).push(node),
            None => nodes_of(devices.drop_last()),
        }
    }
}

impl Node {
    /// What pairing needs to know about `dev`: `None` where its descriptor or
    /// its path could not be read.
    pub fn read(dev: &Device) -> (node: Option<Self>)
        ensures
            match node {
                Some(node) => node_of(dev@) == Some(node@),
                None => node_of(dev@) is None,
            },
    {
        match (&dev.descriptor, &dev.path) {
            (Ok(desc), Ok(path)) => Some(
                Node {
                    location: device_location(dev),
                    bus: dev.bus,
                    path: copy_path(path),
                    version: desc.version,
                    vid: desc.vid,
                    nports: read_max_child(&dev.max_child),
                    controller: if path.len() == 0 {
                        match &dev.controller {
                            Some(controller) => Some(controller.clone()),
                            None => None,
                        }
                    } else {
                        None
                    },
                },
            ),
            _ => None,
        }
    }

    fn is_super_speed(&self) -> (yes: bool)
        ensures
            yes == self@.super_speed(),
    {
        self.version.is_super_speed()
    }

    fn may_have_other_half(&self) -> (yes: bool)
        ensures
            yes == self@.may_have_other_half(),
    {
        self.version.reaches(version::usb_bos())
    }

    fn matches(&self, other: &Self) -> (yes: bool)
        ensures
            yes == self@.matches(other@),
    {
        self.is_super_speed() != other.is_super_speed() && self.vid == other.vid && match (
            self.nports,
            other.nports,
        ) {
            (Some(n), Some(m)) => n == m,
            _ => true,
        }
    }
}

// ---------------------------------------------------------------------------
// The rules
// ---------------------------------------------------------------------------

/// The first hub of a list at a location.
pub open spec fn node_at(nodes: Seq<NodeView>, location: Seq<char>) -> Option<NodeView>
    decreases nodes.len(),
{
    if nodes.len() == 0 {
        None
    } else if nodes[0].location == location {
        Some(nodes[0])
    } else {
        node_at(nodes.drop_first(), location)
    }
}

/// Put a hub before the first of at least its depth.
pub open spec fn inserted(node: NodeView, nodes: Seq<NodeView>) -> Seq<NodeView>
    decreases nodes.len(),
{
    if nodes.len() == 0 || nodes[0].path.len() >= node.path.len() {
        seq![node] + nodes
    } else {
        seq![nodes[0]] + inserted(node, nodes.drop_first())
    }
}

/// The hubs by depth, those of one depth in the order they came.
pub open spec fn by_depth(nodes: Seq<NodeView>) -> Seq<NodeView>
    decreases nodes.len(),
{
    if nodes.len() == 0 {
        nodes
    } else {
        inserted(nodes[0], by_depth(nodes.drop_first()))
    }
}

/// Two hubs settled as the halves of one.
pub open spec fn linked(
    status: Statuses,
    a: Seq<char>,
    b: Seq<char>,
    evidence: EvidenceView,
) -> Statuses {
    status.insert(a, StatusView::Paired { other: b, evidence }).insert(
        b,
        StatusView::Paired { other: a, evidence },
    )
}

/// Pairs of hubs settled, in order.
pub open spec fn linked_all(
    status: Statuses,
    pairs: Seq<(Seq<char>, Seq<char>)>,
    evidence: EvidenceView,
) -> Statuses
    decreases pairs.len(),
{
    if pairs.len() == 0 {
        status
    } else {
        linked(
            linked_all(status, pairs.drop_last(), evidence),
            pairs.last().0,
            pairs.last().1,
            evidence,
        )
    }
}

/// Hubs settled as having no other half, in order.
pub open spec fn alone_all(status: Statuses, alone: Seq<Seq<char>>) -> Statuses
    decreases alone.len(),
{
    if alone.len() == 0 {
        status
    } else {
        alone_all(status, alone.drop_last()).insert(alone.last(), StatusView::DeclaredAlone)
    }
}

/// Rule 1: what the declarations settle. A later one wins over an earlier one,
/// and having no other half over a pair.
pub open spec fn declared_status(declared: HubPairsView) -> Statuses {
    alone_all(
        linked_all(Map::empty(), declared.pairs, EvidenceView::Declared),
        declared.alone,
    )
}

/// The hubs that pairs name, in order.
pub open spec fn named(pairs: Seq<(Seq<char>, Seq<char>)>) -> Seq<Seq<char>>
    decreases pairs.len(),
{
    if pairs.len() == 0 {
        Seq::empty()
    } else {
        named(pairs.drop_last()).push(pairs.last().0).push(pairs.last().1)
    }
}

/// Those of the locations at which there is no hub.
pub open spec fn absent(nodes: Seq<NodeView>, locations: Seq<Seq<char>>) -> Seq<Seq<char>>
    decreases locations.len(),
{
    if locations.len() == 0 {
        Seq::empty()
    } else if node_at(nodes, locations.last()) is None {
        absent(nodes, locations.drop_last()).push(locations.last())
    } else {
        absent(nodes, locations.drop_last())
    }
}

/// The first `n` hubs' indices that belong to a host controller and are not
/// settled.
pub open spec fn roots_of(
    nodes: Seq<NodeView>,
    status: Statuses,
    controller: Seq<char>,
    n: int,
) -> Seq<int>
    decreases n,
{
    if n <= 0 {
        Seq::empty()
    } else if nodes[n - 1].controller == Some(controller) && !status.contains_key(
        nodes[n - 1].location,
    ) {
        roots_of(nodes, status, controller, n - 1).push(n - 1)
    } else {
        roots_of(nodes, status, controller, n - 1)
    }
}

/// The pair that hub `i` is the first of: it and one other are the only
/// unsettled roots of their host controller, and of opposite speed.
pub open spec fn root_pair(nodes: Seq<NodeView>, status: Statuses, i: int) -> Option<
    (Seq<char>, Seq<char>),
> {
    match nodes[i].controller {
        Some(controller) => {
            let roots = roots_of(nodes, status, controller, nodes.len() as int);
            if roots.len() == 2 && roots[0] == i && nodes[i].super_speed()
                != nodes[roots[1]].super_speed() {
                Some((nodes[i].location, nodes[roots[1]].location))
            } else {
                None
            }
        },
        None => None,
    }
}

/// The pairs that the first `n` hubs are the first of.
pub open spec fn root_pairs(nodes: Seq<NodeView>, status: Statuses, n: int) -> Seq<
    (Seq<char>, Seq<char>),
>
    decreases n,
{
    if n <= 0 {
        Seq::empty()
    } else {
        match root_pair(nodes, status, n - 1) {
            Some(pair) => root_pairs(nodes, status, n - 1).push(pair),
            None => root_pairs(nodes, status, n - 1),
        }
    }
}

/// Rule 2: the two root hubs of one host controller.
pub open spec fn controller_status(nodes: Seq<NodeView>, status: Statuses) -> Statuses {
    linked_all(status, root_pairs(nodes, status, nodes.len() as int), EvidenceView::Controller)
}

/// The pair of root hubs of one controller that hub `i` is the half of whose
/// location sorts first.
pub open spec fn controller_pair(nodes: Seq<NodeView>, status: Statuses, i: int) -> Option<
    (Seq<char>, Seq<char>),
> {
    let location = nodes[i].location;
    if status.contains_key(location) {
        match status[location] {
            StatusView::Paired {
                other,
                evidence: EvidenceView::Controller,
            } if text::sorts_before(location, other) => Some((location, other)),
            _ => None,
        }
    } else {
        None
    }
}

/// The pairs of root hubs found so far among the first `n` hubs, each once.
pub open spec fn controller_pairs(nodes: Seq<NodeView>, status: Statuses, n: int) -> Seq<
    (Seq<char>, Seq<char>),
>
    decreases n,
{
    if n <= 0 {
        Seq::empty()
    } else {
        match controller_pair(nodes, status, n - 1) {
            Some(pair) => controller_pairs(nodes, status, n - 1).push(pair),
            None => controller_pairs(nodes, status, n - 1),
        }
    }
}

/// Of two root hubs, the one with a single port, the one with several, and how
/// many it has.
pub open spec fn lopsided(a: NodeView, b: NodeView) -> Option<(NodeView, NodeView, u8)> {
    match (a.nports, b.nports) {
        (Some(n), Some(m)) => if n == 1 && m > 1 {
            Some((a, b, m))
        } else if n > 1 && m == 1 {
            Some((b, a, n))
        } else {
            None
        },
        _ => None,
    }
}

/// Whether a hub's own other half may be on the bus, not spoken for.
pub open spec fn has_twin(nodes: Seq<NodeView>, status: Statuses, hub: NodeView) -> bool {
    exists|i: int|
        0 <= i < nodes.len() && #[trigger] twin(nodes, status, hub, i)
}

/// Whether hub `i` may be a hub's other half, not spoken for.
pub open spec fn twin(nodes: Seq<NodeView>, status: Statuses, hub: NodeView, i: int) -> bool {
    &&& nodes[i].location != hub.location
    &&& !status.contains_key(nodes[i].location)
    &&& hub.matches(nodes[i])
}

/// The hub on the single port of `small`, if it fans that side out to the
/// `ports` ports of `large`: not spoken for already, as many ports, of the
/// opposite speed, and without a twin of its own on the bus.
pub open spec fn stand_in(
    nodes: Seq<NodeView>,
    status: Statuses,
    small: NodeView,
    large: NodeView,
    ports: u8,
) -> Option<Seq<char>> {
    let location = sysfs::location_below(small.location, small.bus, 1);
    match node_at(nodes, location) {
        Some(hub) => if !status.contains_key(location) && hub.nports == Some(ports)
            && hub.super_speed() != large.super_speed() && !has_twin(nodes, status, hub) {
            Some(location)
        } else {
            None
        },
        None => None,
    }
}

/// The stand-in of a pair of root hubs, with the small root, the large root and
/// how many ports that one has.
pub open spec fn expansion(
    nodes: Seq<NodeView>,
    status: Statuses,
    a: Seq<char>,
    b: Seq<char>,
) -> Option<(Seq<char>, Seq<char>, Seq<char>, u8)> {
    match (node_at(nodes, a), node_at(nodes, b)) {
        (Some(a), Some(b)) => match lopsided(a, b) {
            Some((small, large, ports)) => match stand_in(nodes, status, small, large, ports) {
                Some(hub) => Some((hub, small.location, large.location, ports)),
                None => None,
            },
            None => None,
        },
        _ => None,
    }
}

/// Rule 3 for one pair of root hubs: the stand-in pairs with the large root, and
/// the small root is spoken for.
pub open spec fn expanded(
    nodes: Seq<NodeView>,
    status: Statuses,
    a: Seq<char>,
    b: Seq<char>,
) -> Statuses {
    match expansion(nodes, status, a, b) {
        Some((hub, small, large, ports)) => linked(
            status,
            hub,
            large,
            EvidenceView::Expansion { root: small, ports },
        ).insert(small, StatusView::StoodInFor { other: large, via: hub }),
        None => status,
    }
}

/// Rule 3 for pairs of root hubs, in order.
pub open spec fn expanded_all(
    nodes: Seq<NodeView>,
    status: Statuses,
    pairs: Seq<(Seq<char>, Seq<char>)>,
) -> Statuses
    decreases pairs.len(),
{
    if pairs.len() == 0 {
        status
    } else {
        expanded(
            nodes,
            expanded_all(nodes, status, pairs.drop_last()),
            pairs.last().0,
            pairs.last().1,
        )
    }
}

/// Rule 3: a hub standing in for the single-port root hub of a lopsided
/// controller.
pub open spec fn expansion_status(nodes: Seq<NodeView>, status: Statuses) -> Statuses {
    expanded_all(nodes, status, controller_pairs(nodes, status, nodes.len() as int))
}

/// The other half of the hub at a location, if it is settled.
pub open spec fn other_half_in(status: Statuses, location: Seq<char>) -> Option<Seq<char>> {
    if status.contains_key(location) {
        match status[location] {
            StatusView::Paired { other, .. } => Some(other),
            _ => None,
        }
    } else {
        None
    }
}

/// Where the other half of a hub must sit: on the same port of the other half
/// of its parent.
pub open spec fn opposite(nodes: Seq<NodeView>, status: Statuses, node: NodeView) -> Option<
    Seq<char>,
> {
    let parent = sysfs::location_of(node.bus, node.path.drop_last());
    match other_half_in(status, parent) {
        Some(partner) => match node_at(nodes, partner) {
            Some(p) => Some(sysfs::location_below(partner, p.bus, node.path.last())),
            None => None,
        },
        None => None,
    }
}

/// The hub that descent pairs hub `i` with: hub `i` is an unsettled USB 3.x hub
/// below a root, and the one opposite is there, free, and looks like the other
/// half of the same chip.
pub open spec fn descent(nodes: Seq<NodeView>, status: Statuses, i: int) -> Option<Seq<char>> {
    let node = nodes[i];
    if node.path.len() == 0 || status.contains_key(node.location) || !node.may_have_other_half() {
        None
    } else {
        match opposite(nodes, status, node) {
            Some(candidate) => match node_at(nodes, candidate) {
                Some(c) => if !status.contains_key(candidate) && node.matches(c) {
                    Some(candidate)
                } else {
                    None
                },
                None => None,
            },
            None => None,
        }
    }
}

/// Rule 4 for hub `i`.
pub open spec fn descended(nodes: Seq<NodeView>, status: Statuses, i: int) -> Statuses {
    match descent(nodes, status, i) {
        Some(candidate) => linked(
            status,
            nodes[i].location,
            candidate,
            EvidenceView::Descent(nodes[i].path.last()),
        ),
        None => status,
    }
}

/// Rule 4 for the first `n` hubs, in order.
pub open spec fn descended_all(nodes: Seq<NodeView>, status: Statuses, n: int) -> Statuses
    decreases n,
{
    if n <= 0 {
        status
    } else {
        descended(nodes, descended_all(nodes, status, n - 1), n - 1)
    }
}

/// Every hub on the bus and which is the other half of which.
pub struct PairingView {
    /// The hubs on the bus, parents before children.
    pub nodes: Seq<NodeView>,
    /// What is settled, by location.
    pub status: Statuses,
    /// Declared hubs that are not on the bus.
    pub declared_absent: Seq<Seq<char>>,
}

/// What rules 1 and 2 settle.
pub open spec fn status_of_roots(nodes: Seq<NodeView>, declared: HubPairsView) -> Statuses {
    controller_status(nodes, declared_status(declared))
}

/// What rules 1 to 3 settle.
pub open spec fn status_of_stand_ins(nodes: Seq<NodeView>, declared: HubPairsView) -> Statuses {
    expansion_status(nodes, status_of_roots(nodes, declared))
}

/// What the rules settle, in order.
pub open spec fn settled(nodes: Seq<NodeView>, declared: HubPairsView) -> Statuses {
    descended_all(nodes, status_of_stand_ins(nodes, declared), nodes.len() as int)
}

/// The pairing of hubs under declarations.
pub open spec fn paired(hubs: Seq<NodeView>, declared: HubPairsView) -> PairingView {
    let nodes = by_depth(hubs);
    PairingView {
        nodes,
        status: settled(nodes, declared),
        declared_absent: absent(nodes, named(declared.pairs) + declared.alone),
    }
}

impl PairingView {
    /// The other half of the hub at a location, if known.
    pub open spec fn other_half(self, location: Seq<char>) -> Option<Seq<char>> {
        other_half_in(self.status, location)
    }

    /// What is known about the other half of the hub at a location.
    pub open spec fn verdict(self, location: Seq<char>) -> VerdictView {
        if self.status.contains_key(location) {
            match self.status[location] {
                StatusView::Paired { other, evidence } => VerdictView::Paired { other, evidence },
                StatusView::StoodInFor { other, via } => VerdictView::StoodInFor { other, via },
                StatusView::DeclaredAlone => VerdictView::DeclaredAlone,
            }
        } else {
            match node_at(self.nodes, location) {
                Some(node) => if node.may_have_other_half() {
                    VerdictView::Unpaired
                } else {
                    VerdictView::Usb2Hub
                },
                None => VerdictView::Unknown,
            }
        }
    }

    /// Those of the first `n` hubs with another half that could not be
    /// identified.
    pub open spec fn unpaired(self, n: int) -> Seq<Seq<char>>
        decreases n,
    {
        if n <= 0 {
            Seq::empty()
        } else if self.verdict(self.nodes[n - 1].location) is Unpaired {
            self.unpaired(n - 1).push(self.nodes[n - 1].location)
        } else {
            self.unpaired(n - 1)
        }
    }
}

// ---------------------------------------------------------------------------
// Applying the rules
// ---------------------------------------------------------------------------

/// Every hub on the bus and which is the other half of which.
pub struct Pairing {
    nodes: Vec<Node>,
    status: StringHashMap<Status>,
    /// Declared hubs that are not on the bus.
    declared_absent: Vec<String>,
}

/// What a table of statuses holds.
spec fn statuses(table: Map<Seq<char>, Status>) -> Statuses {
    table.map_values(|s: Status| s@)
}

/// One more entry in a table of statuses.
proof fn lemma_statuses_insert(table: Map<Seq<char>, Status>, location: Seq<char>, status: Status)
    ensures
        statuses(table.insert(location, status)) == statuses(table).insert(location, status@),
{
    assert(statuses(table.insert(location, status)) =~= statuses(table).insert(
        location,
        status@,
    ));
}

impl View for Pairing {
    type V = PairingView;

    closed spec fn view(&self) -> PairingView {
        PairingView {
            nodes: node_views(self.nodes@),
            status: statuses(self.status@),
            declared_absent: text::texts(self.declared_absent@),
        }
    }
}

/// Put `node` before the first of at least its depth.
fn insert_by_depth(nodes: &mut Vec<Node>, node: Node)
    ensures
        node_views(final(nodes)@) == inserted(node@, node_views(old(nodes)@)),
{
    let ghost all = node_views(nodes@);
    let mut i: usize = 0;
    assert(all.skip(0) =~= all);
    assert(all.take(0) + inserted(node@, all) =~= inserted(node@, all));
    while i < nodes.len() && nodes[i].path.len() < node.path.len()
        invariant
            i <= nodes.len(),
            all == node_views(nodes@),
            inserted(node@, all) == all.take(i as int) + inserted(node@, all.skip(i as int)),
        decreases nodes.len() - i,
    {
        let ghost rest = all.skip(i as int);
        assert(rest[0] == nodes@[i as int]@);
        assert(rest.drop_first() =~= all.skip(i + 1));
        assert(all.take(i + 1) =~= all.take(i as int).push(rest[0]));
        assert(inserted(node@, all) =~= all.take(i + 1) + inserted(node@, all.skip(i + 1)));
        i = i + 1;
    }
    let ghost rest = all.skip(i as int);
    if i < nodes.len() {
        assert(rest[0] == nodes@[i as int]@);
    }
    assert(inserted(node@, rest) == seq![node@] + rest);
    let ghost n = node@;
    nodes.insert(i, node);
    assert(node_views(nodes@) =~= all.take(i as int) + (seq![n] + rest));
}

/// The hubs by depth, those of one depth in the order they came.
fn sort_by_depth(nodes: Vec<Node>) -> (sorted: Vec<Node>)
    ensures
        node_views(sorted@) == by_depth(node_views(nodes@)),
{
    let ghost all = node_views(nodes@);
    let mut left: Vec<Node> = nodes;
    let mut sorted: Vec<Node> = Vec::new();
    assert(all.skip(all.len() as int) =~= Seq::<NodeView>::empty());
    assert(node_views(sorted@) =~= Seq::<NodeView>::empty());
    assert(node_views(left@) =~= all.take(all.len() as int));
    while left.len() > 0
        invariant
            left.len() <= all.len(),
            node_views(left@) == all.take(left.len() as int),
            node_views(sorted@) == by_depth(all.skip(left.len() as int)),
        decreases left.len(),
    {
        let ghost n = left@.len();
        let ghost before = left@;
        match left.pop() {
            Some(node) => {
                assert(node@ == node_views(before)[n - 1]);
                assert(node@ == all[n - 1]);
                assert(all.skip(n - 1)[0] == node@);
                assert(all.skip(n - 1).drop_first() =~= all.skip(n as int));
                assert(node_views(left@) =~= node_views(before).drop_last());
                assert(all.take(n as int).drop_last() =~= all.take(n - 1));
                insert_by_depth(&mut sorted, node);
            },
            None => {},
        }
    }
    assert(all.skip(0) =~= all);
    sorted
}

impl Pairing {
    /// Pair every hub that can be paired. Reads cached descriptors and sysfs
    /// only.
    pub fn compute(hubs: &Hubs<'_>, declared: &HubPairs) -> (pairing: Self)
        ensures
            pairing@ == paired(nodes_of(hubs@), declared@),
    {
        let devices: &Vec<&Device> = hubs.iter();
        let ghost all = hubs@;
        let mut nodes: Vec<Node> = Vec::new();
        let mut i: usize = 0;
        assert(all.take(0) =~= Seq::<DeviceView>::empty());
        assert(node_views(nodes@) =~= Seq::<NodeView>::empty());
        while i < devices.len()
            invariant
                i <= devices.len(),
                all == devices@.map_values(|d: &Device| d@),
                node_views(nodes@) == nodes_of(all.take(i as int)),
            decreases devices.len() - i,
        {
            let ghost before = nodes@;
            assert(all.take(i + 1).drop_last() =~= all.take(i as int));
            assert(all.take(i + 1).last() == devices@[i as int]@);
            match Node::read(devices[i]) {
                Some(node) => {
                    nodes.push(node);
                    assert(node_views(nodes@) =~= node_views(before).push(node@));
                },
                None => {},
            }
            i = i + 1;
        }
        assert(all.take(all.len() as int) =~= all);
        Pairing::from_nodes(nodes, declared)
    }

    /// Pair the given hubs.
    pub fn from_nodes(nodes: Vec<Node>, declared: &HubPairs) -> (pairing: Self)
        ensures
            pairing@ == paired(node_views(nodes@), declared@),
    {
        // Parents before children, so rule 4 sees a hub's parent already paired.
        let mut pairing: Pairing = Pairing {
            nodes: sort_by_depth(nodes),
            status: StringHashMap::new(),
            declared_absent: Vec::new(),
        };
        assert(pairing@.status =~= Map::<Seq<char>, StatusView>::empty());
        assert(pairing@.declared_absent =~= Seq::<Seq<char>>::empty());
        pairing.apply_declared(declared);
        pairing.pair_root_hubs();
        pairing.pair_by_expansion();
        pairing.pair_by_descent();
        pairing
    }

    /// Settle the hub at `location`.
    fn settle(&mut self, location: &str, status: Status)
        ensures
            final(self)@ == (PairingView {
                status: old(self)@.status.insert(location@, status@),
                ..old(self)@
            }),
    {
        proof {
            lemma_statuses_insert(self.status@, location@, status);
        }
        self.status.insert(location.to_owned(), status);
    }

    fn link(&mut self, a: &str, b: &str, evidence: &Evidence)
        ensures
            final(self)@ == (PairingView {
                status: linked(old(self)@.status, a@, b@, evidence@),
                ..old(self)@
            }),
    {
        self.settle(a, Status::Paired { other: b.to_owned(), evidence: evidence.copy() });
        self.settle(b, Status::Paired { other: a.to_owned(), evidence: evidence.copy() });
    }

    /// The hub at `location`, if it is on the bus.
    fn node(&self, location: &str) -> (node: Option<&Node>)
        ensures
            match node {
                Some(node) => node_at(self@.nodes, location@) == Some(node@),
                None => node_at(self@.nodes, location@) is None,
            },
    {
        let ghost all = self@.nodes;
        let mut i: usize = 0;
        assert(all.skip(0) =~= all);
        while i < self.nodes.len()
            invariant
                i <= self.nodes.len(),
                all == node_views(self.nodes@),
                all == self@.nodes,
                node_at(all, location@) == node_at(all.skip(i as int), location@),
            decreases self.nodes.len() - i,
        {
            assert(all.skip(i as int)[0] == self.nodes@[i as int]@);
            if same_text(self.nodes[i].location.as_str(), location) {
                return Some(&self.nodes[i]);
            }
            assert(all.skip(i as int).drop_first() =~= all.skip(i + 1));
            i = i + 1;
        }
        None
    }

    fn is_settled(&self, location: &str) -> (yes: bool)
        ensures
            yes == self@.status.contains_key(location@),
    {
        self.status.contains_key(location)
    }

    /// Note `hub` if it is not on the bus.
    fn note_if_absent(&mut self, hub: &str)
        ensures
            final(self)@ == (PairingView {
                declared_absent: if node_at(old(self)@.nodes, hub@) is None {
                    old(self)@.declared_absent.push(hub@)
                } else {
                    old(self)@.declared_absent
                },
                ..old(self)@
            }),
    {
        let ghost before = self.declared_absent@;
        if self.node(hub).is_none() {
            self.declared_absent.push(hub.to_owned());
            assert(text::texts(self.declared_absent@) =~= text::texts(before).push(hub@));
        }
    }

    fn apply_declared(&mut self, declared: &HubPairs)
        requires
            old(self)@.status == Map::<Seq<char>, StatusView>::empty(),
            old(self)@.declared_absent == Seq::<Seq<char>>::empty(),
        ensures
            final(self)@ == (PairingView {
                nodes: old(self)@.nodes,
                status: declared_status(declared@),
                declared_absent: absent(
                    old(self)@.nodes,
                    named(declared@.pairs) + declared@.alone,
                ),
            }),
    {
        let ghost nodes = self@.nodes;
        let pairs: &Vec<(String, String)> = declared.declared_pairs();
        let ghost all = declared@.pairs;
        let mut i: usize = 0;
        assert(all.take(0) =~= Seq::<(Seq<char>, Seq<char>)>::empty());
        while i < pairs.len()
            invariant
                i <= pairs.len(),
                all == pairs::pair_texts(pairs@),
                self@.nodes == nodes,
                self@.status == linked_all(
                    Map::empty(),
                    all.take(i as int),
                    EvidenceView::Declared,
                ),
                self@.declared_absent == absent(nodes, named(all.take(i as int))),
            decreases pairs.len() - i,
        {
            let ghost longer = all.take(i + 1);
            assert(longer.drop_last() =~= all.take(i as int));
            assert(longer.last() == (pairs@[i as int].0@, pairs@[i as int].1@));
            let a: &str = pairs[i].0.as_str();
            let b: &str = pairs[i].1.as_str();
            let ghost names = named(all.take(i as int));
            assert(names.push(a@).drop_last() =~= names);
            assert(names.push(a@).push(b@).drop_last() =~= names.push(a@));
            assert(named(longer) == names.push(a@).push(b@));
            self.note_if_absent(a);
            assert(self@.declared_absent == absent(nodes, names.push(a@)));
            self.note_if_absent(b);
            assert(self@.declared_absent == absent(nodes, names.push(a@).push(b@)));
            self.link(a, b, &Evidence::Declared);
            i = i + 1;
        }
        assert(all.take(all.len() as int) =~= all);
        let alone: &Vec<String> = declared.declared_alone();
        let ghost hubs = declared@.alone;
        let ghost names = named(all);
        let ghost base = self@.status;
        let mut j: usize = 0;
        assert(hubs.take(0) =~= Seq::<Seq<char>>::empty());
        assert(names + hubs.take(0) =~= names);
        while j < alone.len()
            invariant
                j <= alone.len(),
                hubs == text::texts(alone@),
                self@.nodes == nodes,
                self@.status == alone_all(base, hubs.take(j as int)),
                self@.declared_absent == absent(nodes, names + hubs.take(j as int)),
            decreases alone.len() - j,
        {
            let ghost longer = hubs.take(j + 1);
            assert(longer.drop_last() =~= hubs.take(j as int));
            assert(longer.last() == alone@[j as int]@);
            assert((names + longer).drop_last() =~= names + hubs.take(j as int));
            let hub: &str = alone[j].as_str();
            self.note_if_absent(hub);
            self.settle(hub, Status::DeclaredAlone);
            j = j + 1;
        }
        assert(hubs.take(hubs.len() as int) =~= hubs);
    }

    /// The hubs of a host controller that are not settled.
    fn roots(&self, controller: &str) -> (roots: Vec<usize>)
        ensures
            roots@.map_values(|i: usize| i as int) == roots_of(
                self@.nodes,
                self@.status,
                controller@,
                self@.nodes.len() as int,
            ),
            forall|k: int| 0 <= k < roots@.len() ==> #[trigger] roots@[k] < self@.nodes.len(),
    {
        let ghost all = self@.nodes;
        let mut roots: Vec<usize> = Vec::new();
        let mut i: usize = 0;
        assert(roots@.map_values(|i: usize| i as int) =~= Seq::<int>::empty());
        while i < self.nodes.len()
            invariant
                i <= self.nodes.len(),
                all == node_views(self.nodes@),
                all == self@.nodes,
                roots@.map_values(|i: usize| i as int) == roots_of(
                    all,
                    self@.status,
                    controller@,
                    i as int,
                ),
                forall|k: int| 0 <= k < roots@.len() ==> #[trigger] roots@[k] < i,
            decreases self.nodes.len() - i,
        {
            let ghost before = roots@;
            let node: &Node = &self.nodes[i];
            assert(all[i as int] == node@);
            let belongs: bool = match &node.controller {
                Some(c) => same_text(c.as_str(), controller),
                None => false,
            };
            if belongs && !self.is_settled(node.location.as_str()) {
                roots.push(i);
                assert(roots@.map_values(|i: usize| i as int) =~= before.map_values(
                    |i: usize| i as int,
                ).push(i as int));
            }
            i = i + 1;
        }
        roots
    }

    /// Rule 2: the two root hubs of one host controller.
    fn pair_root_hubs(&mut self)
        ensures
            final(self)@ == (PairingView {
                status: controller_status(old(self)@.nodes, old(self)@.status),
                ..old(self)@
            }),
    {
        let ghost start = self@;
        let ghost all = self@.nodes;
        // A controller with exactly two roots of opposite speed - one USB 2.0,
        // one SuperSpeed - has a pair. Anything else is left alone. Roots that a
        // declaration already settled do not count.
        let mut links: Vec<(String, String)> = Vec::new();
        let mut i: usize = 0;
        assert(pairs::pair_texts(links@) =~= Seq::<(Seq<char>, Seq<char>)>::empty());
        while i < self.nodes.len()
            invariant
                i <= self.nodes.len(),
                all == node_views(self.nodes@),
                self@ == start,
                start.nodes == all,
                pairs::pair_texts(links@) == root_pairs(all, start.status, i as int),
            decreases self.nodes.len() - i,
        {
            let ghost before = links@;
            let node: &Node = &self.nodes[i];
            assert(all[i as int] == node@);
            if let Some(controller) = &node.controller {
                let roots: Vec<usize> = self.roots(controller.as_str());
                let ghost indices = roots@.map_values(|i: usize| i as int);
                if roots.len() == 2 && roots[0] == i {
                    assert(indices[0] == roots@[0] as int);
                    assert(indices[1] == roots@[1] as int);
                    let other: &Node = &self.nodes[roots[1]];
                    assert(all[indices[1]] == other@);
                    if node.is_super_speed() != other.is_super_speed() {
                        links.push((node.location.clone(), other.location.clone()));
                        assert(pairs::pair_texts(links@) =~= pairs::pair_texts(before).push(
                            (node@.location, other@.location),
                        ));
                    }
                } else {
                    assert(roots@.len() == 2 ==> indices[0] == roots@[0] as int);
                }
            }
            i = i + 1;
        }
        // Record the pairs. Done after the scan, which reads what is settled.
        let ghost found = pairs::pair_texts(links@);
        let mut k: usize = 0;
        assert(found.take(0) =~= Seq::<(Seq<char>, Seq<char>)>::empty());
        while k < links.len()
            invariant
                k <= links.len(),
                found == pairs::pair_texts(links@),
                self@ == (PairingView {
                    status: linked_all(
                        start.status,
                        found.take(k as int),
                        EvidenceView::Controller,
                    ),
                    ..start
                }),
            decreases links.len() - k,
        {
            assert(found.take(k + 1).drop_last() =~= found.take(k as int));
            assert(found.take(k + 1).last() == (links@[k as int].0@, links@[k as int].1@));
            self.link(links[k].0.as_str(), links[k].1.as_str(), &Evidence::Controller);
            k = k + 1;
        }
        assert(found.take(found.len() as int) =~= found);
    }

    /// The root hub pairs found by rule 2, each once, from the half whose
    /// location sorts first.
    fn paired_roots(&self) -> (pairs: Vec<(String, String)>)
        ensures
            pairs::pair_texts(pairs@) == controller_pairs(
                self@.nodes,
                self@.status,
                self@.nodes.len() as int,
            ),
    {
        let ghost all = self@.nodes;
        let mut pairs: Vec<(String, String)> = Vec::new();
        let mut i: usize = 0;
        assert(pairs::pair_texts(pairs@) =~= Seq::<(Seq<char>, Seq<char>)>::empty());
        while i < self.nodes.len()
            invariant
                i <= self.nodes.len(),
                all == node_views(self.nodes@),
                all == self@.nodes,
                pairs::pair_texts(pairs@) == controller_pairs(all, self@.status, i as int),
            decreases self.nodes.len() - i,
        {
            let ghost before = pairs@;
            let location: &String = &self.nodes[i].location;
            assert(all[i as int].location == location@);
            match self.status.get(location.as_str()) {
                Some(Status::Paired { other, evidence: Evidence::Controller }) => {
                    if text_less(location.as_str(), other.as_str()) {
                        pairs.push((location.clone(), other.clone()));
                        assert(pairs::pair_texts(pairs@) =~= pairs::pair_texts(before).push(
                            (location@, other@),
                        ));
                    }
                },
                _ => {},
            }
            i = i + 1;
        }
        pairs
    }

    /// Whether a hub's own other half may be on the bus, not spoken for.
    fn has_twin(&self, hub: &Node) -> (yes: bool)
        ensures
            yes == has_twin(self@.nodes, self@.status, hub@),
    {
        let ghost all = self@.nodes;
        let mut i: usize = 0;
        while i < self.nodes.len()
            invariant
                i <= self.nodes.len(),
                all == node_views(self.nodes@),
                all == self@.nodes,
                forall|k: int| 0 <= k < i ==> !#[trigger] twin(all, self@.status, hub@, k),
            decreases self.nodes.len() - i,
        {
            let n: &Node = &self.nodes[i];
            assert(all[i as int] == n@);
            if !same_text(n.location.as_str(), hub.location.as_str()) && !self.is_settled(
                n.location.as_str(),
            ) && hub.matches(n) {
                assert(twin(all, self@.status, hub@, i as int));
                return true;
            }
            i = i + 1;
        }
        false
    }

    /// The stand-in of a pair of root hubs, with the small root, the large root
    /// and how many ports that one has.
    fn expansion(&self, a: &str, b: &str) -> (found: Option<(String, String, String, u8)>)
        ensures
            match found {
                Some((hub, small, large, ports)) => expansion(
                    self@.nodes,
                    self@.status,
                    a@,
                    b@,
                ) == Some((hub@, small@, large@, ports)),
                None => expansion(self@.nodes, self@.status, a@, b@) is None,
            },
    {
        let (a, b): (&Node, &Node) = match (self.node(a), self.node(b)) {
            (Some(a), Some(b)) => (a, b),
            _ => {
                return None;
            },
        };
        // The tell: one root with a single port, the other with several.
        let (small, large, ports): (&Node, &Node, u8) = match (a.nports, b.nports) {
            (Some(n), Some(m)) => {
                if n == 1 && m > 1 {
                    (a, b, m)
                } else if n > 1 && m == 1 {
                    (b, a, n)
                } else {
                    return None;
                }
            },
            _ => {
                return None;
            },
        };
        // Whatever hangs on that single port is the stand-in candidate.
        let hub_location: String = child_location(small.location.as_str(), small.bus, 1);
        match self.node(hub_location.as_str()) {
            None => None,
            Some(hub) => {
                // It must fan the small side out to the large root: not spoken
                // for already, as many ports as the large root, on the opposite
                // side of the receptacles (opposite speed). A hub whose own other
                // half is on the bus is not a stand-in.
                let as_many: bool = match hub.nports {
                    Some(n) => n == ports,
                    None => false,
                };
                if self.is_settled(hub_location.as_str()) || !as_many || hub.is_super_speed()
                    == large.is_super_speed() || self.has_twin(hub) {
                    None
                } else {
                    Some((hub_location, small.location.clone(), large.location.clone(), ports))
                }
            },
        }
    }

    /// Rule 3: a hub standing in for the single-port root hub of a lopsided
    /// controller.
    ///
    /// A receptacle needs a port on each side, so when one root hub has one
    /// port and the other has several, that side of the receptacles is
    /// reached through whatever the single port holds. If that is a hub with
    /// exactly as many ports as the other root, it is the board's way of
    /// fanning that side out, and its ports line up with the other root's.
    fn pair_by_expansion(&mut self)
        ensures
            final(self)@ == (PairingView {
                status: expansion_status(old(self)@.nodes, old(self)@.status),
                ..old(self)@
            }),
    {
        let ghost start = self@;
        let pairs: Vec<(String, String)> = self.paired_roots();
        let ghost all = pairs::pair_texts(pairs@);
        let mut i: usize = 0;
        assert(all.take(0) =~= Seq::<(Seq<char>, Seq<char>)>::empty());
        while i < pairs.len()
            invariant
                i <= pairs.len(),
                all == pairs::pair_texts(pairs@),
                self@ == (PairingView {
                    status: expanded_all(start.nodes, start.status, all.take(i as int)),
                    ..start
                }),
            decreases pairs.len() - i,
        {
            assert(all.take(i + 1).drop_last() =~= all.take(i as int));
            assert(all.take(i + 1).last() == (pairs@[i as int].0@, pairs@[i as int].1@));
            match self.expansion(pairs[i].0.as_str(), pairs[i].1.as_str()) {
                Some((hub, small, large, ports)) => {
                    // Pair the stand-in with the large root, and mark the small
                    // root as spoken for: it pairs with nothing itself.
                    let evidence: Evidence = Evidence::Expansion { root: small.clone(), ports };
                    self.link(hub.as_str(), large.as_str(), &evidence);
                    self.settle(small.as_str(), Status::StoodInFor { other: large, via: hub });
                },
                None => {},
            }
            i = i + 1;
        }
        assert(all.take(all.len() as int) =~= all);
    }

    /// The hub that descent pairs hub `i` with.
    fn descent(&self, i: usize) -> (candidate: Option<String>)
        requires
            i < self@.nodes.len(),
        ensures
            match candidate {
                Some(candidate) => descent(self@.nodes, self@.status, i as int) == Some(
                    candidate@,
                ),
                None => descent(self@.nodes, self@.status, i as int) is None,
            },
    {
        let node: &Node = &self.nodes[i];
        assert(self@.nodes[i as int] == node@);
        // Only unsettled USB 3.x hubs below a root have a half to find.
        if node.path.len() == 0 || self.is_settled(node.location.as_str())
            || !node.may_have_other_half() {
            return None;
        }
        // Split the location into the parent hub and the port on it.

        let last: usize = node.path.len() - 1;
        let port: u8 = node.path[last];
        let mut parent_path: Vec<u8> = copy_path(&node.path);
        let _ = parent_path.pop();
        assert(parent_path@ =~= node.path@.drop_last());
        let parent: String = sysfs_location(node.bus, parent_path.as_slice());
        // The parent's other half; without one, nothing to descend from.
        let partner: &str = match self.other_half(parent.as_str()) {
            Some(partner) => partner,
            None => {
                return None;
            },
        };
        // The same port number on the partner is where the other half must sit
        // (§10.3.3).
        let candidate: String = match self.node(partner) {
            Some(p) => child_location(partner, p.bus, port),
            None => {
                return None;
            },
        };
        match self.node(candidate.as_str()) {
            Some(c) => {
                // Reject rather than mis-pair: the candidate must be free and
                // look like the other half of the same chip.
                if self.is_settled(candidate.as_str()) || !node.matches(c) {
                    None
                } else {
                    Some(candidate)
                }
            },
            None => None,
        }
    }

    /// Rule 4: same port number of hubs already paired.
    fn pair_by_descent(&mut self)
        ensures
            final(self)@ == (PairingView {
                status: descended_all(
                    old(self)@.nodes,
                    old(self)@.status,
                    old(self)@.nodes.len() as int,
                ),
                ..old(self)@
            }),
    {
        let ghost start = self@;
        // Nodes are sorted parents first, so a parent's pair is settled before
        // its children are looked at.
        let n: usize = self.nodes.len();
        let mut i: usize = 0;
        while i < n
            invariant
                i <= n,
                n == start.nodes.len(),
                self@ == (PairingView {
                    status: descended_all(start.nodes, start.status, i as int),
                    ..start
                }),
            decreases n - i,
        {
            match self.descent(i) {
                Some(candidate) => {
                    let location: String = self.nodes[i].location.clone();
                    assert(self@.nodes[i as int] == self.nodes@[i as int]@);
                    let last: usize = self.nodes[i].path.len() - 1;
                    let port: u8 = self.nodes[i].path[last];
                    self.link(location.as_str(), candidate.as_str(), &Evidence::Descent(port));
                },
                None => {},
            }
            i = i + 1;
        }
    }

    /// The other half of the hub at `location`, if known.
    pub fn other_half(&self, location: &str) -> (other: Option<&str>)
        ensures
            match other {
                Some(other) => self@.other_half(location@) == Some(other@),
                None => self@.other_half(location@) is None,
            },
    {
        match self.status.get(location) {
            Some(Status::Paired { other, .. }) => Some(other.as_str()),
            _ => None,
        }
    }

    /// What is known about the other half of the hub at `location`.
    pub fn verdict(&self, location: &str) -> (verdict: Verdict<'_>)
        ensures
            verdict@ == self@.verdict(location@),
    {
        match self.status.get(location) {
            Some(Status::Paired { other, evidence }) => Verdict::Paired {
                other: other.as_str(),
                evidence,
            },
            Some(Status::StoodInFor { other, via }) => Verdict::StoodInFor {
                other: other.as_str(),
                via: via.as_str(),
            },
            Some(Status::DeclaredAlone) => Verdict::DeclaredAlone,
            None => match self.node(location) {
                Some(node) => {
                    if node.may_have_other_half() {
                        Verdict::Unpaired
                    } else {
                        Verdict::Usb2Hub
                    }
                },
                None => Verdict::Unknown,
            },
        }
    }

    /// The hubs with another half that could not be identified.
    pub fn unpaired(&self) -> (hubs: Vec<&str>)
        ensures
            hubs@.map_values(|s: &str| s@) == self@.unpaired(self@.nodes.len() as int),
    {
        let ghost all = self@.nodes;
        let mut hubs: Vec<&str> = Vec::new();
        let mut i: usize = 0;
        assert(hubs@.map_values(|s: &str| s@) =~= Seq::<Seq<char>>::empty());
        while i < self.nodes.len()
            invariant
                i <= self.nodes.len(),
                all == node_views(self.nodes@),
                all == self@.nodes,
                hubs@.map_values(|s: &str| s@) == self@.unpaired(i as int),
            decreases self.nodes.len() - i,
        {
            let ghost before = hubs@;
            let location: &str = self.nodes[i].location.as_str();
            assert(all[i as int].location == location@);
            match self.verdict(location) {
                Verdict::Unpaired => {
                    hubs.push(location);
                    assert(hubs@.map_values(|s: &str| s@) =~= before.map_values(
                        |s: &str| s@,
                    ).push(location@));
                },
                _ => {},
            }
            i = i + 1;
        }
        hubs
    }

    /// Declared hubs that are not on the bus.
    pub fn declared_absent(&self) -> (hubs: &[String])
        ensures
            text::texts(hubs@) == self@.declared_absent,
    {
        self.declared_absent.as_slice()
    }
}

} // verus!
