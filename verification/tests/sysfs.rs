//! Locations and attributes.

use powercycling::sysfs::{
    attribute_path, child_location, parse_device_class, read_device_class, read_max_child,
    read_sysfs, sysfs_location,
};

#[test]
fn device_locations() {
    assert_eq!(sysfs_location(2, &[]), "usb2");
    assert_eq!(sysfs_location(2, &[1]), "2-1");
    assert_eq!(sysfs_location(2, &[1, 2, 3]), "2-1.2.3");
}

#[test]
fn device_class_is_hex() {
    assert_eq!(parse_device_class("09\n"), Some(0x09));
    assert_eq!(parse_device_class("ff"), Some(0xff));
    assert_eq!(parse_device_class(""), None);
    assert_eq!(parse_device_class("hub"), None);
}

#[test]
fn child_locations() {
    assert_eq!(child_location("usb3", 3, 2), "3-2");
    assert_eq!(child_location("2-1", 2, 3), "2-1.3");
    assert_eq!(child_location("2-1.2", 2, 4), "2-1.2.4");
}

#[test]
fn a_child_is_one_port_further_down() {
    let path: [u8; 3] = [1, 12, 255];
    let hub = sysfs_location(17, &path[..2]);
    assert_eq!(child_location(&hub, 17, 255), sysfs_location(17, &path));
    let root = sysfs_location(17, &[]);
    assert_eq!(child_location(&root, 17, 1), sysfs_location(17, &path[..1]));
}

#[test]
fn locations_that_look_alike_differ() {
    assert_ne!(sysfs_location(1, &[1, 2]), sysfs_location(1, &[12]));
    assert_ne!(sysfs_location(11, &[1]), sysfs_location(1, &[11]));
    assert_ne!(sysfs_location(2, &[]), sysfs_location(2, &[0]));
}

#[test]
fn attributes_are_trimmed_text() {
    assert_eq!(
        attribute_path("2-1.2", "serial"),
        "/sys/bus/usb/devices/2-1.2/serial"
    );
    assert_eq!(read_sysfs(&Some("  ab c\n".to_string())), "ab c");
    assert_eq!(read_sysfs(&None), "");
}

#[test]
fn the_number_of_ports_is_decimal() {
    assert_eq!(read_max_child(&Some("4\n".to_string())), Some(4));
    assert_eq!(read_max_child(&Some("255".to_string())), Some(255));
    assert_eq!(read_max_child(&Some("256".to_string())), None);
    assert_eq!(read_max_child(&Some("0a".to_string())), None);
    assert_eq!(read_max_child(&Some(String::new())), None);
    assert_eq!(read_max_child(&None), None);
}

#[test]
fn the_class_is_read_where_there_is_one() {
    assert_eq!(read_device_class(&Some("09\n".to_string())), Some(9));
    assert_eq!(read_device_class(&Some("EF".to_string())), Some(0xef));
    assert_eq!(read_device_class(&None), None);
}
