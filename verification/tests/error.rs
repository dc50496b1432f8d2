//! Error messages.

use powercycling::device::DeviceId;
use powercycling::error::{hub_id_hint, udev_hint, Error, Source};
use powercycling::usb::{describe, UsbError};

fn switch_failed(sysfs: Option<std::io::Error>) -> Error {
    Error::SwitchFailed {
        port: "2-1.2 port 3".to_string(),
        sysfs: sysfs.map(|e| e.to_string()),
        usbfs: UsbError::Access,
    }
}

fn hub_unreadable(source: UsbError) -> Error {
    Error::HubUnreadable {
        location: "2-1.2".to_string(),
        source,
    }
}

#[test]
fn switch_failed_names_both_routes() {
    let missing = switch_failed(None).to_text();
    assert!(missing.ends_with("sysfs: no `disable` attribute (kernel < 6.0?)"));

    let denied = switch_failed(Some(std::io::Error::from(
        std::io::ErrorKind::PermissionDenied,
    )))
    .to_text();
    assert!(denied.contains("usbfs: "));
    assert!(denied.contains("sysfs: permission denied"));
}

#[test]
fn hub_unreadable_hints_at_udev_only_when_access_was_denied() {
    let denied = hub_unreadable(UsbError::Access).to_text();
    assert!(denied.starts_with("hub 2-1.2 could not be read: "));
    assert!(denied.ends_with("missing udev rule for usbfs access?"));

    let timeout = hub_unreadable(UsbError::Timeout).to_text();
    assert!(timeout.contains("Operation timed out"));
    assert!(!timeout.contains("udev"));
}

#[test]
fn behind_hub_names_the_hub_to_target() {
    let with_id = Error::BehindHub {
        device: "2-1.2.3.4".to_string(),
        hub: "2-1.2.3".to_string(),
        hub_id: Some(DeviceId::new(0x0bda, 0x5411, None)),
        levels: 1,
    }
    .to_text();
    assert!(with_id.starts_with("2-1.2.3.4 is behind hub 2-1.2.3 (0bda:5411), "));
    assert!(with_id.ends_with("ask for the hub 1 level(s) above the device (find_above)"));

    let without = Error::BehindHub {
        device: "2-1.2.3.4".to_string(),
        hub: "2-1.2.3".to_string(),
        hub_id: None,
        levels: 1,
    }
    .to_text();
    assert!(without.starts_with("2-1.2.3.4 is behind hub 2-1.2.3, "));
}

#[test]
fn hub_mismatch_names_both_identities() {
    let mismatch = Error::HubMismatch {
        device: "2-1.2.3".to_string(),
        hub: "2-1.2".to_string(),
        found: Some(DeviceId::new(0x0bda, 0x5411, None)),
        expected: DeviceId::new(0x0424, 0x2514, None),
    };
    assert_eq!(
        mismatch.to_text(),
        "hub 2-1.2 (0bda:5411) above 2-1.2.3 is not the expected 0424:2514"
    );
}

#[test]
fn hub_unpaired_says_what_to_do() {
    let msg = Error::HubUnpaired {
        port: "2-1.2 port 4".to_string(),
        hub: "2-1.2".to_string(),
        other_side: "SuperSpeed",
    }
    .to_text();
    assert!(msg.starts_with("2-1.2 port 4 is on one half of a USB 3.x hub whose SuperSpeed half"));
    assert!(msg.contains("probing 2-1.2 with a device that has a power LED"));
}

#[test]
fn usb_errors_are_the_source() {
    assert!(switch_failed(None).source().is_some());
    assert!(hub_unreadable(UsbError::Io).source().is_some());
    assert!(Error::from(UsbError::NoDevice).source().is_some());
    assert!(Error::PowerOffIneffective {
        port: "2-1.2 port 3".to_string()
    }
    .source()
    .is_none());
}

#[test]
fn the_source_is_the_error_itself() {
    assert_eq!(
        switch_failed(None).source(),
        Some(Source::Usb(UsbError::Access))
    );
    assert_eq!(
        Error::from(UsbError::NoDevice).source(),
        Some(Source::Usb(UsbError::NoDevice))
    );
    assert_eq!(
        Error::Io("broken pipe".to_string()).source(),
        Some(Source::Io("broken pipe"))
    );
    assert_eq!(
        Error::PairsUnreadable {
            path: "a".to_string(),
            source: "no such file".to_string()
        }
        .source(),
        Some(Source::Io("no such file"))
    );
}

#[test]
fn every_message_in_full() {
    let device = DeviceId::new(0x0483, 0x374e, Some("0050"));
    assert_eq!(
        Error::NotFound {
            device: device.clone()
        }
        .to_text(),
        "no device matching 0483:374e:0050 on the bus"
    );
    assert_eq!(
        Error::Ambiguous {
            device: DeviceId::new(0x0483, 0x374e, None),
            count: 12
        }
        .to_text(),
        "12 devices match 0483:374e - add a serial to pick one"
    );
    assert_eq!(
        Error::NoSwitchableHub {
            device: "2-1".to_string()
        }
        .to_text(),
        "no hub above 2-1 does per-port power switching (PPPS)"
    );
    assert_eq!(
        Error::BehindHub {
            device: "2-1.2.3.4".to_string(),
            hub: "2-1.2.3".to_string(),
            hub_id: None,
            levels: 2,
        }
        .to_text(),
        "2-1.2.3.4 is behind hub 2-1.2.3, which does not switch power per port; cutting the port \
         above it would take every device on that hub. To cycle that hub and everything on it \
         deliberately, ask for the hub 2 level(s) above the device (find_above)"
    );
    assert_eq!(
        Error::NothingAbove {
            device: "2-1.2".to_string(),
            levels: 3
        }
        .to_text(),
        "2-1.2 has fewer than 3 switchable hub(s) above it"
    );
    assert_eq!(
        Error::HubMissing {
            location: "2-1".to_string()
        }
        .to_text(),
        "no hub enumerated at 2-1 - did the bus topology change, or does a declared pair name a \
         hub that is not there?"
    );
    assert_eq!(
        hub_unreadable(UsbError::Access).to_text(),
        "hub 2-1.2 could not be read: Access denied (insufficient permissions) - missing udev \
         rule for usbfs access?"
    );
    assert_eq!(
        hub_unreadable(UsbError::Busy).to_text(),
        "hub 2-1.2 could not be read: Resource busy"
    );
    assert_eq!(
        Error::PeerNotSwitchable {
            port: "2-1 port 3".to_string(),
            peer: "3-1 port 3".to_string()
        }
        .to_text(),
        "2-1 port 3 is paired with 3-1 port 3, which switches power in ganged mode; VBUS cannot \
         be cut on this receptacle"
    );
    assert_eq!(
        Error::PeerNotFound {
            port: "2-1 port 3".to_string(),
            candidate: "3-1 port 3".to_string()
        }
        .to_text(),
        "the other half of 2-1 port 3's receptacle should be 3-1 port 3, but that port holds a \
         device of its own, so the hub pairing is wrong - check the USB tree"
    );
    assert_eq!(
        Error::PairsSyntax {
            line: 4,
            text: "2-1".to_string()
        }
        .to_text(),
        "line 4 of the hub pairs is not a pair: `2-1` (expected `<hub> <hub>` or `<hub> none`, \
         e.g. `2-1 usb3`)"
    );
    assert_eq!(
        Error::PairsUnreadable {
            path: "cm5.pairs".to_string(),
            source: "no such file".to_string()
        }
        .to_text(),
        "hub pairs file cm5.pairs could not be read: no such file"
    );
    assert_eq!(
        switch_failed(None).to_text(),
        "could not switch 2-1.2 port 3: usbfs: Access denied (insufficient permissions); sysfs: \
         no `disable` attribute (kernel < 6.0?)"
    );
    assert_eq!(
        Error::PowerOffIneffective {
            port: "2-1.2 port 3".to_string()
        }
        .to_text(),
        "2-1.2 port 3 was powered off but the device is still enumerated - the hub accepted \
         PORT_POWER without acting on it (a powered-off port disables its link, USB 3.2 §10.3.1.1)"
    );
    assert_eq!(
        Error::NotBack { device }.to_text(),
        "device 0483:374e:0050 did not re-enumerate after power-on"
    );
    assert_eq!(
        Error::Usb(UsbError::NoDevice).to_text(),
        "usb error: No such device (it may have been disconnected)"
    );
    assert_eq!(
        Error::Io("broken pipe".to_string()).to_text(),
        "i/o error: broken pipe"
    );
}

#[test]
fn hints_are_empty_where_there_is_nothing_to_say() {
    assert_eq!(hub_id_hint(None), "");
    assert_eq!(
        hub_id_hint(Some(&DeviceId::new(1, 2, Some("x")))),
        " (0001:0002:x)"
    );
    assert_eq!(udev_hint(UsbError::Io), "");
}

#[test]
fn usb_errors_are_described_as_libusb_does() {
    let all = [
        (UsbError::Io, rusb::Error::Io),
        (UsbError::InvalidParam, rusb::Error::InvalidParam),
        (UsbError::Access, rusb::Error::Access),
        (UsbError::NoDevice, rusb::Error::NoDevice),
        (UsbError::NotFound, rusb::Error::NotFound),
        (UsbError::Busy, rusb::Error::Busy),
        (UsbError::Timeout, rusb::Error::Timeout),
        (UsbError::Overflow, rusb::Error::Overflow),
        (UsbError::Pipe, rusb::Error::Pipe),
        (UsbError::Interrupted, rusb::Error::Interrupted),
        (UsbError::NoMem, rusb::Error::NoMem),
        (UsbError::NotSupported, rusb::Error::NotSupported),
        (UsbError::BadDescriptor, rusb::Error::BadDescriptor),
        (UsbError::Other, rusb::Error::Other),
    ];
    for (ours, theirs) in all {
        assert_eq!(describe(ours), theirs.to_string());
    }
}

#[test]
fn usb_errors_in_full() {
    let all = [
        (UsbError::Io, "Input/Output Error"),
        (UsbError::InvalidParam, "Invalid parameter"),
        (UsbError::Access, "Access denied (insufficient permissions)"),
        (
            UsbError::NoDevice,
            "No such device (it may have been disconnected)",
        ),
        (UsbError::NotFound, "Entity not found"),
        (UsbError::Busy, "Resource busy"),
        (UsbError::Timeout, "Operation timed out"),
        (UsbError::Overflow, "Overflow"),
        (UsbError::Pipe, "Pipe error"),
        (
            UsbError::Interrupted,
            "System call interrupted (perhaps due to signal)",
        ),
        (UsbError::NoMem, "Insufficient memory"),
        (
            UsbError::NotSupported,
            "Operation not supported or unimplemented on this platform",
        ),
        (UsbError::BadDescriptor, "Malformed descriptor"),
        (UsbError::Other, "Other error"),
    ];
    for (error, message) in all {
        assert_eq!(describe(error), message);
    }
}
