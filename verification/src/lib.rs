//! Power-cycle a USB device identified by VID (Vendor ID), PID (Product ID)
//! and serial number, by switching hub port power (PPPS). Linux only.
//!
//! Built for hardware-in-the-loop rigs, where a hanging MCU devboard needs its
//! VBUS cut rather than only the USB link reset. The port that is cut is exactly
//! the one that feeds the device. For USB 3.x hubs, the other half of the
//! receptacle is held down with it.
//!
//! When it cannot be ensured that only your device loses power, an [`Error`]
//! with precise instructions is the outcome.
//!
//! # What is decided here, and what is not
//!
//! This library decides; it touches no device. A caller enumerates the bus,
//! opens hubs, writes sysfs attributes and sleeps, and hands over what came of
//! it as plain values: a [`Device`] is what enumeration tells of a device, a
//! [`Socket`](port::Socket) what sysfs tells of a port. Whatever alternates
//! between the two is a value that says what to do next and takes what came of
//! it:
//!
//! - [`power_cycle`] gives a [`PowerCycle`](cycle::PowerCycle), which goes all the
//!   way: find the ports, cycle them, wait for the device. It is made of the
//!   three that follow.
//! - [`PowerPorts::find`] and [`PowerPorts::find_above`] give a
//!   [`Search`](power::Search), which asks for hubs to be opened and ports to be
//!   looked at until it has found the ports that feed a device.
//! - [`PowerPorts::set_power`] and [`PowerPorts::cycle`] give a
//!   [`Switching`](switching::Switching), the steps that switch those ports.
//! - [`wait_for_device`] says, for each look at the bus, whether to go on
//!   waiting for the device to come back.
//! - [`probe::probe`] gives a [`Probe`](probe::Probe), which finds a hub's other
//!   half with the help of somebody who watches a power LED.
//!
//! # When it does not work
//!
//! Every failure is an [`Error`] that names the reason. The following is the
//! escalation ladder, from "fix the call" to "fix the hardware".
//!
//! - **[`NotFound`](Error::NotFound) / [`Ambiguous`](Error::Ambiguous):** nothing
//!   or several devices match. If necessary, add the serial.
//!
//! - **[`HubUnreadable`](Error::HubUnreadable):** the hub does not open. Likely
//!   permissions: switching a port needs write access to the port's sysfs
//!   `disable` attribute (kernel 6.0+) or the hub's usbfs node.
//!
//! - **[`NoSwitchableHub`](Error::NoSwitchableHub):** the device is plugged
//!   directly into the machine. Root hub ports are host controller ports and
//!   therefore outside the specification's hub chapter, so they are not
//!   switched. Put a PPPS hub between the machine and the device.
//!
//! - **[`BehindHub`](Error::BehindHub):** the device's direct hub does not switch
//!   power per port (chained hubs usually report _ganged_). Above that hub sits a
//!   port that _does_ switch, but it may feed other devices. Put the device on a
//!   PPPS hub directly, or, if that hub _is_ the unit you want cycled, ask for it
//!   with [`PowerPorts::find_above`]. The error names the hub and how many levels
//!   up it is.
//!
//! - **[`HubUnpaired`](Error::HubUnpaired):** the device's hub is one half of a
//!   USB 3.x hub, and it cannot be told which hub is the other half. Both halves
//!   keep the receptacle powered, so cutting one alone would only disconnect the
//!   device; nothing is cut. The fix is one declaration in the machine's
//!   [`HubPairs`]: [`tree::tree`] shows which hub is paired with which,
//!   [`probe::probe`] finds the missing pair. One line covers every hub chained
//!   below the pair.
//!
//! - **[`PeerNotSwitchable`](Error::PeerNotSwitchable):** the other half was
//!   identified, but switches power in ganged mode, so it cannot be cut without
//!   taking its neighbours. Use a different hub.
//!
//! - **[`PeerNotFound`](Error::PeerNotFound):** the peer's port holds a device of
//!   its own, which one receptacle cannot (unless it is another hub). The pairing
//!   is probably wrong.
//!
//! - **[`PowerOffIneffective`](Error::PowerOffIneffective):** the port was
//!   switched off, but the device is still enumerated. The hub accepted
//!   `PORT_POWER`, but did not act on it.
//!
//! - **Anything else:** [`debug_scan`] shows what every stage of the search sees.
//!
//! # How it works
//!
//! Only a hub that switches power per port can cut VBUS. A _ganged_ hub still
//! accepts `PORT_POWER`, but only disables the port: the device disappears from
//! the bus, VBUS stays on.
//!
//! A USB 3.x receptacle is fed by two logical hubs, a USB 2.0 and a `SuperSpeed`
//! one, and its VBUS stays on while either has its port powered (USB 3.2 §10.1,
//! Table 10-2). So the device's port is cut and port N of the other half is held
//! down with it. Which hub is the other half is derived from the topology, or
//! declared where it cannot be; the rules are in [`pairing`].
//!
//! # What is proved
//!
//! Each function says in its contract what it returns, over the views of its
//! arguments. What that comes to is stated on its own, in terms of what goes in
//! and what comes out:
//!
//! - of single calls in [`call_laws`];
//! - of text, devices, errors and the command line in [`text_laws`],
//!   [`device_laws`], [`error_laws`] and [`command_laws`];
//! - of pairing in [`pairing_rules`], [`pairing_laws`] and [`pairing_order`];
//! - of the search for ports in [`power_rules`] and [`power_laws`];
//! - of switching them in [`switching_rules`] and [`switching_laws`];
//! - of probing in [`probe_rules`] and [`probe_laws`];
//! - of what is shown in [`report_laws`] and [`tree_laws`];
//! - and at the end of [`sysfs`], [`pairs`], [`cycle`], [`tree`] and [`report`].
pub mod call_laws;
pub mod command;
pub mod command_laws;
pub mod cycle;
pub mod debug;
pub mod device;
pub mod device_laws;
pub mod error;
pub mod error_laws;
pub mod hub;
pub mod pairing;
pub mod pairing_laws;
pub mod pairing_order;
pub mod pairing_rules;
pub mod pairs;
pub mod port;
pub mod power;
pub mod power_laws;
pub mod power_rules;
pub mod probe;
pub mod probe_laws;
pub mod probe_rules;
pub mod report;
pub mod report_laws;
pub mod span;
pub mod switching;
pub mod switching_laws;
pub mod switching_rules;
pub mod sysfs;
pub mod text;
pub mod text_laws;
pub mod tree;
pub mod tree_laws;
pub mod usb;
pub mod version;

pub use cycle::power_cycle;
pub use debug::debug_scan;
pub use device::{wait_for_device, Device, DeviceId};
pub use error::Error;
pub use pairs::HubPairs;
pub use port::HubPort;
pub use power::PowerPorts;
