//! Hubs, versions and the requests that hubs answer.

use powercycling::device::{Descriptor, Device};
use powercycling::error::Error;
use powercycling::hub::{is_hub, parse_hub_descriptor, Hub, Hubs};
use powercycling::usb::{hub_descriptor_request, port_power_request, UsbError};
use powercycling::version::{usb_bos, usb_ss, Version};

#[test]
fn version_thresholds() {
    // A USB 2.0 hub has no SuperSpeed half; 2.1 and up may have one.
    assert!(Version(2, 0, 0) < usb_bos());
    assert!(Version(2, 1, 0) >= usb_bos());
    assert!(Version(2, 1, 0) < usb_ss());
    // Declared spec version, so 3.2 still counts as SuperSpeed.
    assert!(Version(3, 0, 0) >= usb_ss());
    assert!(Version(3, 2, 0) >= usb_ss());
}

/// A USB 2.0 hub descriptor for `nports` ports with the given
/// `wHubCharacteristics` low byte, as a hub with up to seven ports sends
/// it: 7 fixed bytes plus one byte each of `DeviceRemovable` and
/// `PortPwrCtrlMask`.
fn usb2_desc(nports: u8, characteristics: u8) -> [u8; 9] {
    [
        9,
        rusb::constants::LIBUSB_DT_HUB,
        nports,
        characteristics,
        0x00,
        50,
        0,
        0x00,
        0xff,
    ]
}

#[test]
fn per_port_switching_is_lpsm_01() {
    assert_eq!(parse_hub_descriptor(&usb2_desc(4, 0b01)), Some((4, true)));
    // Other characteristics bits (overcurrent, TT think time, indicators)
    // do not matter.
    assert_eq!(parse_hub_descriptor(&usb2_desc(4, 0xfd)), Some((4, true)));
}

#[test]
fn ganged_and_unswitched_hubs_are_not_per_port() {
    assert_eq!(parse_hub_descriptor(&usb2_desc(4, 0b00)), Some((4, false)));
    assert_eq!(parse_hub_descriptor(&usb2_desc(4, 0b10)), Some((4, false)));
    assert_eq!(parse_hub_descriptor(&usb2_desc(4, 0b11)), Some((4, false)));
}

#[test]
fn single_port_ganged_hub_counts_as_per_port() {
    assert_eq!(parse_hub_descriptor(&usb2_desc(1, 0b00)), Some((1, true)));
    // Only ganged: a hub without power switching still cannot switch.
    assert_eq!(parse_hub_descriptor(&usb2_desc(1, 0b10)), Some((1, false)));
}

#[test]
fn super_speed_descriptor_has_the_same_layout() {
    // bLength, bDescriptorType, bNbrPorts, wHubCharacteristics,
    // bPwrOn2PwrGood, bHubContrCurrent, bHubHdrDecLat, wHubDelay,
    // DeviceRemovable (USB 3.2 §10.15.2.1).
    let desc = [
        12,
        rusb::constants::LIBUSB_DT_SUPERSPEED_HUB,
        4,
        0x09,
        0x00,
        50,
        0,
        0,
        0x00,
        0x00,
        0x00,
        0x00,
    ];
    assert_eq!(parse_hub_descriptor(&desc), Some((4, true)));
}

#[test]
fn short_replies_are_rejected() {
    assert_eq!(parse_hub_descriptor(&[]), None);
    assert_eq!(parse_hub_descriptor(&usb2_desc(4, 0b01)[..8]), None);
}

fn device(bus: u8, path: &[u8], version: Version, class: u8) -> Device {
    Device {
        bus,
        path: Ok(path.to_vec()),
        descriptor: Ok(Descriptor {
            vid: 0x0bda,
            pid: 0x5411,
            version,
            class,
        }),
        serial: None,
        product: None,
        max_child: None,
        controller: None,
    }
}

#[test]
fn requests_have_the_bytes_of_the_specification() {
    let usb2 = hub_descriptor_request(false);
    assert_eq!(
        (usb2.request_type, usb2.request, usb2.value, usb2.index),
        (0xa0, 6, 0x2900, 0)
    );
    let ss = hub_descriptor_request(true);
    assert_eq!(
        (ss.request_type, ss.request, ss.value, ss.index),
        (0xa0, 6, 0x2a00, 0)
    );
    let on = port_power_request(4, true);
    assert_eq!(
        (on.request_type, on.request, on.value, on.index),
        (0x23, 3, 8, 4)
    );
    let off = port_power_request(4, false);
    assert_eq!(
        (off.request_type, off.request, off.value, off.index),
        (0x23, 1, 8, 4)
    );
}

#[test]
fn a_hub_is_known_by_its_class() {
    assert!(is_hub(&device(2, &[1], Version(2, 1, 0), 9)));
    assert!(!is_hub(&device(2, &[1], Version(2, 1, 0), 0)));
    let mut unreadable = device(2, &[1], Version(2, 1, 0), 9);
    unreadable.descriptor = Err(UsbError::Io);
    assert!(!is_hub(&unreadable));
}

#[test]
fn opening_a_hub_reads_its_descriptor() {
    let dev = device(2, &[1, 2], Version(2, 1, 0), 9);
    let hub = Hub::open(&dev, &Ok(usb2_desc(4, 1).to_vec())).unwrap();
    assert_eq!(hub.location, "2-1.2");
    assert_eq!(hub.bus, 2);
    assert_eq!(hub.path, vec![1, 2]);
    assert_eq!(hub.nports, 4);
    assert_eq!(hub.vid, 0x0bda);
    assert!(hub.per_port_power);
    assert!(!hub.is_root_hub());
    assert!(!hub.is_super_speed());
    assert_eq!(hub.other_side(), "SuperSpeed");
    assert_eq!(hub.depth(), 2);
    assert_eq!(
        hub.port_dir(3, Ok(1)).unwrap(),
        "/sys/bus/usb/devices/2-1.2:1.0/2-1.2-port3"
    );
    assert_eq!(hub.port_dir(3, Err(UsbError::Io)), Err(UsbError::Io));
}

#[test]
fn a_root_hub_has_its_own_interface_directory() {
    let dev = device(3, &[], Version(3, 0, 0), 9);
    let hub = Hub::open(&dev, &Ok(usb2_desc(4, 1).to_vec())).unwrap();
    assert!(hub.is_root_hub());
    assert!(hub.is_super_speed());
    assert_eq!(hub.other_side(), "USB 2.0");
    assert_eq!(
        hub.port_dir(3, Ok(1)).unwrap(),
        "/sys/bus/usb/devices/3-0:1.0/usb3-port3"
    );
}

#[test]
fn a_hub_that_does_not_answer_is_unreadable() {
    let dev = device(2, &[1], Version(2, 1, 0), 9);
    match Hub::open(&dev, &Err(UsbError::Access)) {
        Err(Error::HubUnreadable { location, source }) => {
            assert_eq!(location, "2-1");
            assert_eq!(source, UsbError::Access);
        }
        _ => panic!("not refused"),
    }
    match Hub::open(&dev, &Ok(vec![9, 0x29, 4])) {
        Err(Error::HubUnreadable { location, source }) => {
            assert_eq!(location, "2-1");
            assert_eq!(source, UsbError::Io);
        }
        _ => panic!("not refused"),
    }
}

#[test]
fn only_hubs_are_enumerated_as_hubs() {
    let bus = Ok(vec![
        device(2, &[], Version(2, 0, 0), 9),
        device(2, &[1], Version(2, 0, 0), 0),
        device(2, &[2], Version(2, 1, 0), 9),
    ]);
    let hubs = Hubs::enumerate(&bus).unwrap();
    assert_eq!(hubs.iter().len(), 2);
    assert!(hubs.device_at("2-2").is_some());
    assert!(hubs.device_at("2-1").is_none());
    match hubs.open_at("2-1", &Ok(usb2_desc(4, 1).to_vec())) {
        Err(Error::HubMissing { location }) => assert_eq!(location, "2-1"),
        _ => panic!("found a hub"),
    }
    let failed = Err(UsbError::NoMem);
    match Hubs::enumerate(&failed) {
        Err(e) => assert_eq!(e, UsbError::NoMem),
        Ok(_) => panic!("found hubs"),
    };
}
