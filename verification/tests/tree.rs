//! The USB tree, and troubleshooting output.

use powercycling::debug::{candidate, debug_scan, search_report};
use powercycling::device::{Descriptor, Device, DeviceId};
use powercycling::error::Error;
use powercycling::pairs::HubPairs;
use powercycling::power::Search;
use powercycling::tree::{identity, tree};
use powercycling::usb::UsbError;
use powercycling::version::Version;

const LINUX: u16 = 0x1d6b;
const VIA: u16 = 0x2109;

type Reply = Result<Vec<u8>, UsbError>;

fn device(location: &str, version: (u8, u8), vid: u16, nports: u8) -> Device {
    let (bus, path): (u8, Vec<u8>) = match location.strip_prefix("usb") {
        Some(bus) => (bus.parse().unwrap(), Vec::new()),
        None => {
            let (bus, path) = location.split_once('-').unwrap();
            (
                bus.parse().unwrap(),
                path.split('.').map(|p| p.parse().unwrap()).collect(),
            )
        }
    };
    Device {
        controller: path.is_empty().then_some("the controller".to_string()),
        bus,
        path: Ok(path),
        descriptor: Ok(Descriptor {
            vid,
            pid: 0x0002,
            version: Version(version.0, version.1, 0),
            class: if nports > 0 { 9 } else { 0 },
        }),
        serial: None,
        product: None,
        max_child: (nports > 0).then_some(format!("{nports}\n")),
    }
}

fn hub(location: &str, version: (u8, u8), vid: u16, nports: u8, per_port: bool) -> (Device, Reply) {
    (
        device(location, version, vid, nports),
        Ok(vec![9, 0x29, nports, u8::from(per_port), 0, 50, 0, 0, 0xff]),
    )
}

fn board(location: &str, product: &str, serial: &str) -> (Device, Reply) {
    let mut dev = device(location, (2, 0), 0x0483, 0);
    dev.product = Some(product.to_string());
    dev.serial = Some(serial.to_string());
    (dev, Err(UsbError::NotSupported))
}

fn small() -> (Vec<Device>, Vec<Reply>) {
    let (mut unreadable, _) = hub("2-2.1", (2, 1), VIA, 4, true);
    unreadable.product = Some("quiet\n".to_string());
    vec![
        hub("usb3", (3, 0), LINUX, 2, true),
        hub("usb2", (2, 0), LINUX, 2, true),
        board("2-1", "a \"b\"\n", "S1\n"),
        hub("2-2", (2, 1), VIA, 2, false),
        (unreadable, Err(UsbError::Access)),
        board("2-2.1.3", "", ""),
        board("2-2.1.1", "", "S2"),
    ]
    .into_iter()
    .unzip()
}

const SMALL: &str = "\
usb2         1d6b:0002  USB 2.00  2 ports  ppps    <-> usb3 (same host controller)
├─ port 1: 2-1          0483:0002  \"a \\\"b\\\"\"  serial S1
└─ port 2: 2-2          2109:0002  USB 2.10  2 ports  ganged  UNPAIRED - other half unknown
   ├─ port 1: 2-2.1        2109:0002  \"quiet\"  USB 2.10  unreadable  UNPAIRED - other half unknown
   │  ├─ port 1: 2-2.1.1      0483:0002  serial S2
   │  └─ port 3: 2-2.1.3      0483:0002
   └─ port 2: -
usb3         1d6b:0002  USB 3.00  2 ports  ppps    <-> usb2 (same host controller)
├─ port 1: -
└─ port 2: -
note: 9-9 is declared as a pair but not on the bus

2-2, 2-2.1 are each one half of a USB 3.x hub whose other half could not be identified. Both halves keep a receptacle
powered, so a device on such a hub cannot be power-cycled until the pair is known. The bus cannot tell;
probe the hub with a device that has a power LED, and declare the pair it finds in your hub pairs.
";

#[test]
fn the_tree_shows_every_bus_from_its_root_down() {
    let (devices, replies) = small();
    let pairs = HubPairs::none().alone("9-9");
    assert_eq!(tree(&pairs, &Ok(devices), &replies), SMALL);
}

#[test]
fn one_unpaired_hub_is_named_alone() {
    let (devices, replies): (Vec<Device>, Vec<Reply>) = vec![
        hub("usb2", (2, 0), LINUX, 1, true),
        hub("2-1", (2, 1), VIA, 1, false),
    ]
    .into_iter()
    .unzip();
    let text = tree(&HubPairs::none(), &Ok(devices), &replies);
    assert!(text.contains("\n2-1 is one half of a USB 3.x hub"));
    // A single port in ganged mode is a port switched on its own.
    assert!(text.contains("1 ports  ppps  "));
}

#[test]
fn nothing_is_said_of_pairs_where_there_is_nothing_to_say() {
    let (devices, replies): (Vec<Device>, Vec<Reply>) =
        vec![hub("usb2", (2, 0), LINUX, 1, true)].into_iter().unzip();
    assert_eq!(
        tree(&HubPairs::none(), &Ok(devices), &replies),
        "usb2         1d6b:0002  USB 2.00  1 ports  ppps    no other half (USB 2.0 hub)\n\
         └─ port 1: -\n"
    );
}

#[test]
fn a_bus_that_cannot_be_enumerated_has_no_tree() {
    assert_eq!(
        tree(&HubPairs::none(), &Err(UsbError::Access), &Vec::new()),
        "bus could not be enumerated: Access denied (insufficient permissions)\n"
    );
}

#[test]
fn a_scan_shows_the_candidates_the_tree_and_the_search() {
    let (devices, replies) = small();
    let bus = Ok(devices);
    let pairs = HubPairs::none().alone("9-9");
    let id = DeviceId::new(0x0483, 0x0002, Some("S2"));
    let scan = debug_scan(&id, &pairs, &bus, &replies);
    assert_eq!(
        scan.say,
        format!(
            "-- devices matching 0483:0002\n   \
             2-1  serial=\"S1\"  (serial differs)\n   \
             2-2.1.3  serial=\"\"  (serial unreadable - permissions?)\n   \
             2-2.1.1  serial=\"S2\"  <= MATCH\n\
             -- usb tree\n{SMALL}"
        )
    );
    let question = match scan.search {
        Some(Search::OpenHub(question)) => question,
        _ => panic!("no search"),
    };
    assert_eq!(question.location(), "2-2.1");
}

#[test]
fn a_scan_says_where_nothing_matches() {
    let (devices, replies) = small();
    let bus = Ok(devices);
    let id = DeviceId::new(0x1234, 0xabcd, None);
    let scan = debug_scan(&id, &HubPairs::none(), &bus, &replies);
    assert!(scan
        .say
        .starts_with("-- devices matching 1234:abcd\n   none - not enumerated at all\n-- usb tree\n"));
    let outcome = match scan.search {
        Some(Search::Done(outcome)) => outcome,
        _ => panic!("no outcome"),
    };
    assert_eq!(
        search_report(&outcome),
        "-- search failed: no device matching 1234:abcd on the bus\n"
    );
}

#[test]
fn a_scan_of_a_bus_that_cannot_be_enumerated_ends_there() {
    let bus = Err(UsbError::Io);
    let id = DeviceId::new(0x1234, 0xabcd, None);
    let scan = debug_scan(&id, &HubPairs::none(), &bus, &Vec::new());
    assert_eq!(
        scan.say,
        "-- devices matching 1234:abcd\n   bus could not be enumerated: Input/Output Error\n"
    );
    assert!(scan.search.is_none());
    assert_eq!(
        search_report(&Err(Error::Usb(UsbError::Io))),
        "-- search failed: usb error: Input/Output Error\n"
    );
}

#[test]
fn an_identity_shows_what_is_known() {
    assert_eq!(identity(0x0483, 0x374e, None, ""), "0483:374e");
    assert_eq!(
        identity(0x0483, 0x374e, Some("<p>"), "S"),
        "0483:374e  <p>  serial S"
    );
}

#[test]
fn a_candidate_shows_why_it_does_not_match() {
    let (dev, _) = board("2-1", "", "S1\n");
    let id = DeviceId::new(0x0483, 0x0002, Some("S1"));
    assert_eq!(
        candidate(&dev, &id, "<s>"),
        "   2-1  serial=<s>  <= MATCH\n"
    );
    let id = DeviceId::new(0x0483, 0x0002, Some("S2"));
    assert_eq!(
        candidate(&dev, &id, "<s>"),
        "   2-1  serial=<s>  (serial differs)\n"
    );
}
