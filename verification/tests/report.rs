//! What left the bus while a device was off.

use powercycling::command::primary_only;
use powercycling::device::{Descriptor, Device, DeviceId};
use powercycling::pairs::HubPairs;
use powercycling::port::Socket;
use powercycling::power::{HubAnswer, PowerPorts, Search};
use powercycling::report::{bus_snapshot, expectation, expected, verify};
use powercycling::version::Version;

fn list(names: &[&str]) -> Vec<String> {
    names.iter().map(|n| n.to_string()).collect()
}

#[test]
fn a_snapshot_holds_devices_in_order() {
    let names = list(&["usb2", "2-1:1.0", "2-1.10", "2-1", "2-0:1.0", "2-1.2", "2-1"]);
    assert_eq!(
        bus_snapshot(&names),
        list(&["2-1", "2-1.10", "2-1.2", "usb2"])
    );
    assert_eq!(bus_snapshot(&Vec::new()), list(&[]));
}

#[test]
fn a_snapshot_does_not_depend_on_the_order_of_the_names() {
    let one = list(&["3-2", "2-1", "usb3", "2-10", "2-1"]);
    let other = list(&["usb3", "2-10", "2-1", "3-2"]);
    assert_eq!(bus_snapshot(&one), bus_snapshot(&other));
}

const CUT: &str = "3ms";
const RESTORE: &str = "1s";

#[test]
fn all_well_where_only_the_target_and_what_is_below_dropped() {
    let before = list(&["2-1", "2-1.3", "2-1.3.1", "2-1.4", "usb2"]);
    let during = list(&["2-1", "2-1.4", "usb2"]);
    assert_eq!(
        verify(&before, &during, &before, &list(&["2-1.3"]), CUT, RESTORE, 1),
        "left the bus while powered off:\n   \
         2-1.3              intended\n   \
         2-1.3.1            intended\n\
         \nOK: only the intended port's subtree dropped, everything came back\n\
         \ncut took 3ms, restore took 1s (1 ports held down)\n"
    );
}

#[test]
fn collateral_and_missing_devices_are_listed() {
    let before = list(&["2-1", "2-1.3", "2-1.30", "2-1.4", "usb2"]);
    let during = list(&["2-1", "usb2"]);
    let after = list(&["2-1", "2-1.3", "2-1.30", "usb2"]);
    assert_eq!(
        verify(&before, &during, &after, &list(&["2-1.3"]), CUT, RESTORE, 0),
        "left the bus while powered off:\n   \
         2-1.3              intended\n   \
         2-1.30             <== COLLATERAL\n   \
         2-1.4              <== COLLATERAL\n\
         \ndid not come back:\n   2-1.4\n\
         \nPROBLEM: 2 unrelated device(s) lost their connection\n\
         \ncut took 3ms, restore took 1s (0 ports held down)\n"
    );
}

#[test]
fn a_target_that_stays_is_a_warning() {
    let before = list(&["2-1", "2-1.3", "usb2"]);
    assert_eq!(
        verify(&before, &before, &before, &list(&["2-1.3"]), CUT, RESTORE, 0),
        "left the bus while powered off:\n\
         \nWARNING: the target never left the bus - power was not cut at all\n\
         \ncut took 3ms, restore took 1s (0 ports held down)\n"
    );
}

fn hub(bus: u8, path: &[u8], version: Version) -> Device {
    Device {
        bus,
        path: Ok(path.to_vec()),
        descriptor: Ok(Descriptor {
            vid: 0x0bda,
            pid: 0x5411,
            version,
            class: 9,
        }),
        serial: None,
        product: None,
        max_child: Some("4".to_string()),
        controller: None,
    }
}

fn found() -> PowerPorts {
    let mut board = hub(2, &[1, 3], Version(2, 0, 0));
    board.descriptor = Ok(Descriptor {
        vid: 0x0483,
        pid: 0x374e,
        version: Version(2, 0, 0),
        class: 0,
    });
    let bus = Ok(vec![
        hub(2, &[1], Version(2, 1, 0)),
        hub(3, &[1], Version(3, 0, 0)),
        board,
    ]);
    let id = DeviceId::new(0x0483, 0x374e, None);
    let pairs = HubPairs::none().pair("2-1", "3-1");
    let mut search = PowerPorts::find(&id, &pairs, &bus);
    loop {
        search = match search {
            Search::OpenHub(question) => question.answer(&HubAnswer {
                reply: Ok(vec![9, 0x29, 4, 1, 0, 50, 0, 0, 0xff]),
                config: Ok(1),
            }),
            Search::LookAt(question) => {
                let empty = Socket {
                    occupied: false,
                    class: None,
                };
                question.answer(&empty, &empty)
            }
            Search::Done(outcome) => return outcome.ok().unwrap(),
        };
    }
}

#[test]
fn what_should_drop_is_what_the_ports_feed_and_is_there() {
    let ports = found();
    let before = list(&["2-1", "2-1.3", "3-1", "usb2"]);
    let drops = expected(&ports, &before);
    assert_eq!(drops, list(&["2-1.3"]));
    assert_eq!(
        expectation(&drops),
        "expecting only 2-1.3 (and anything below) to drop\n\nwatch the board's power LED: dark \
         => VBUS was cut, lit => only the link dropped\n\n"
    );
    // The other half of a hub that is cut drops along with it.
    let before = list(&["2-1", "2-1.3", "3-1", "3-1.3", "usb2"]);
    assert_eq!(expected(&ports, &before), list(&["2-1.3", "3-1.3"]));
}

#[test]
fn cutting_one_port_alone_says_so() {
    assert_eq!(
        primary_only(&found(), "2s"),
        "cutting ONLY 2-1 port 3 (HS), leaving 1 port(s) powered\nwatch the board's power LED for \
         2s...\n"
    );
}
