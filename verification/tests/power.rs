//! Searching for the ports that feed a device, and switching them.

use powercycling::cycle::{power_cycle, PowerCycle};
use powercycling::device::{
    find_device, wait_for_device, Descriptor, Device, DeviceId, WaitStep,
};
use powercycling::error::Error;
use powercycling::hub::Hub;
use powercycling::pairs::HubPairs;
use powercycling::port::{HubPort, Socket, SysfsOutcome};
use powercycling::power::{HubAnswer, PowerPorts, Search};
use powercycling::span::Span;
use powercycling::switching::{looked, Mode, Report, Step, Switching, Which};
use powercycling::usb::UsbError;
use powercycling::version::Version;

const LINUX: u16 = 0x1d6b;
const REALTEK: u16 = 0x0bda;

fn device(location: &str, version: (u8, u8), vid: u16, nports: u8) -> Device {
    let (bus, path): (u8, Vec<u8>) = match location.strip_prefix("usb") {
        Some(bus) => (bus.parse().unwrap(), Vec::new()),
        None => {
            let (bus, path) = location.split_once('-').unwrap();
            (
                bus.parse().unwrap(),
                path.split('.').map(|p| p.parse().unwrap()).collect(),
            )
        }
    };
    Device {
        controller: path
            .is_empty()
            .then_some(format!("controller-of-bus-{}", bus / 2)),
        bus,
        path: Ok(path),
        descriptor: Ok(Descriptor {
            vid,
            pid: 0x5411,
            version: Version(version.0, version.1, 0),
            class: if nports > 0 { 9 } else { 0 },
        }),
        serial: None,
        product: None,
        max_child: (nports > 0).then_some(format!("{nports}\n")),
    }
}

fn board(location: &str, serial: &str) -> Device {
    let mut dev = device(location, (2, 0), 0x0483, 0);
    dev.serial = Some(format!("{serial}\n"));
    dev
}

/// Two roots of one controller, a USB 3.x hub in receptacle 1, and on its port 2
/// another one, of which each carries a board.
fn devices() -> Vec<Device> {
    vec![
        device("usb2", (2, 0), LINUX, 4),
        device("usb3", (3, 0), LINUX, 4),
        device("2-1", (2, 1), REALTEK, 4),
        device("3-1", (3, 2), REALTEK, 4),
        device("2-1.2", (2, 1), REALTEK, 4),
        device("3-1.2", (3, 2), REALTEK, 4),
        board("2-1.3", "A"),
        board("2-1.2.4", "B"),
        board("2-4", "C"),
    ]
}

fn mcu(serial: &str) -> DeviceId {
    DeviceId::new(0x0483, 0x5411, Some(serial))
}

fn descriptor(nports: u8, per_port: bool) -> Vec<u8> {
    vec![9, 0x29, nports, u8::from(per_port), 0, 50, 0, 0, 0xff]
}

/// Answer every question of a search: hubs have four ports and switch power per
/// port unless they are listed as ganged, and ports hold what is enumerated.
fn drive(search: Search<'_>, devices: &[Device], ganged: &[&str]) -> Result<PowerPorts, Error> {
    let mut search = search;
    loop {
        search = match search {
            Search::Done(outcome) => return outcome,
            Search::OpenHub(question) => {
                assert!(question.hub().is_some());
                let per_port = !ganged.contains(&question.location());
                question.answer(&HubAnswer {
                    reply: Ok(descriptor(4, per_port)),
                    config: Ok(1),
                })
            }
            Search::LookAt(question) => {
                let peer = socket(question.peer(), devices);
                let primary = socket(question.primary(), devices);
                question.answer(&peer, &primary)
            }
        };
    }
}

fn socket(port: &HubPort, devices: &[Device]) -> Socket {
    let location = port.child_location();
    let found = devices
        .iter()
        .find(|d| powercycling::device::device_location(d) == location);
    Socket {
        occupied: found.is_some(),
        class: found.map(|d| format!("{:02x}\n", d.descriptor.unwrap().class)),
    }
}

fn search(
    id: &DeviceId,
    levels: u8,
    pairs: &HubPairs,
    devices: Vec<Device>,
    ganged: &[&str],
) -> Result<PowerPorts, Error> {
    let copy = self::devices_like(&devices);
    let bus = Ok(devices);
    let found = PowerPorts::find_above(id, levels, pairs, &bus);
    drive(found, &copy, ganged)
}

fn devices_like(devices: &[Device]) -> Vec<Device> {
    devices
        .iter()
        .map(|d| Device {
            bus: d.bus,
            path: d.path.clone(),
            descriptor: d.descriptor,
            serial: d.serial.clone(),
            product: d.product.clone(),
            max_child: d.max_child.clone(),
            controller: d.controller.clone(),
        })
        .collect()
}

#[test]
fn a_device_on_a_paired_hub_is_cut_with_the_other_half_held_down() {
    let ports = search(&mcu("A"), 0, &HubPairs::none(), devices(), &[]).unwrap();
    assert_eq!(ports.primary().to_text(), "2-1 port 3");
    assert_eq!(ports.primary().to_debug_text(), "2-1 port 3 (HS)");
    assert_eq!(ports.primary().child_location(), "2-1.3");
    assert_eq!(ports.primary().hub_location(), "2-1");
    assert_eq!(ports.primary().port(), 3);
    assert_eq!(ports.held().len(), 1);
    assert_eq!(ports.held()[0].to_debug_text(), "3-1 port 3 (SS)");
    assert_eq!(
        ports.to_text(),
        "cutting 2-1 port 3 (HS)\n   holding down 3-1 port 3 (SS)"
    );
    assert_eq!(ports.port(Which::Primary).unwrap().to_text(), "2-1 port 3");
    assert_eq!(ports.port(Which::Held(0)).unwrap().to_text(), "3-1 port 3");
    assert!(ports.port(Which::Held(1)).is_none());
}

#[test]
fn find_is_find_above_with_no_levels() {
    let bus = Ok(devices());
    let found = PowerPorts::find(&mcu("A"), &HubPairs::none(), &bus);
    let ports = drive(found, &devices(), &[]).unwrap();
    assert_eq!(ports.primary().to_text(), "2-1 port 3");
}

#[test]
fn a_usb2_hub_has_nothing_to_hold_down() {
    let mut all = devices();
    all.push(device("2-3", (2, 0), 0x1a40, 4));
    all.push(board("2-3.1", "D"));
    let ports = search(&mcu("D"), 0, &HubPairs::none(), all, &[]).unwrap();
    assert_eq!(ports.held().len(), 0);
    assert_eq!(
        ports.to_text(),
        "cutting 2-3 port 1 (HS)\n   nothing held down (receptacle has no other half)"
    );
}

#[test]
fn a_hub_declared_alone_has_nothing_to_hold_down() {
    let pairs = HubPairs::none().alone("2-1");
    let ports = search(&mcu("A"), 0, &pairs, devices(), &[]).unwrap();
    assert_eq!(ports.primary().to_text(), "2-1 port 3");
    assert_eq!(ports.held().len(), 0);
}

#[test]
fn a_device_behind_a_ganged_hub_is_refused_and_the_hub_can_be_asked_for() {
    let ganged = ["2-1.2", "3-1.2"];
    match search(&mcu("B"), 0, &HubPairs::none(), devices(), &ganged) {
        Err(Error::BehindHub {
            device,
            hub,
            hub_id,
            levels,
        }) => {
            assert_eq!(device, "2-1.2.4");
            assert_eq!(hub, "2-1.2");
            assert_eq!(hub_id, Some(DeviceId::new(REALTEK, 0x5411, None)));
            assert_eq!(levels, 1);
        }
        _ => panic!("not refused"),
    }
    // The hub one level up: both ports of its receptacle hold a hub.
    let ports = search(&mcu("B"), 1, &HubPairs::none(), devices(), &ganged).unwrap();
    assert_eq!(ports.primary().child_location(), "2-1.2");
    assert_eq!(ports.held()[0].to_text(), "3-1 port 2");
}

#[test]
fn levels_count_from_the_device() {
    match search(&mcu("B"), 3, &HubPairs::none(), devices(), &[]) {
        Err(Error::NothingAbove { device, levels }) => {
            assert_eq!(device, "2-1.2.4");
            assert_eq!(levels, 3);
        }
        _ => panic!("not refused"),
    }
    // Two levels up is the hub on the root port, which is not switched.
    match search(&mcu("B"), 2, &HubPairs::none(), devices(), &[]) {
        Err(Error::NoSwitchableHub { device }) => assert_eq!(device, "2-1"),
        _ => panic!("not refused"),
    }
}

#[test]
fn a_device_on_a_root_port_is_refused() {
    match search(&mcu("C"), 0, &HubPairs::none(), devices(), &[]) {
        Err(Error::NoSwitchableHub { device }) => assert_eq!(device, "2-4"),
        _ => panic!("not refused"),
    }
}

#[test]
fn ganged_hubs_all_the_way_up_are_no_switchable_hub() {
    let ganged = ["2-1", "3-1", "2-1.2", "3-1.2"];
    match search(&mcu("B"), 0, &HubPairs::none(), devices(), &ganged) {
        Err(Error::NoSwitchableHub { device }) => assert_eq!(device, "2-1.2.4"),
        _ => panic!("not refused"),
    }
}

#[test]
fn the_device_must_be_there_just_once() {
    match search(&mcu("Z"), 0, &HubPairs::none(), devices(), &[]) {
        Err(Error::NotFound { device }) => assert_eq!(device, mcu("Z")),
        _ => panic!("found"),
    }
    let any = DeviceId::new(0x0483, 0x5411, None);
    match search(&any, 0, &HubPairs::none(), devices(), &[]) {
        Err(Error::Ambiguous { device, count }) => {
            assert_eq!(device, any);
            assert_eq!(count, 3);
        }
        _ => panic!("found"),
    }
}

#[test]
fn an_unpaired_hub_is_refused() {
    let mut all = devices();
    all.retain(|d| powercycling::device::device_location(d) != "3-1");
    match search(&mcu("A"), 0, &HubPairs::none(), all, &[]) {
        Err(Error::HubUnpaired {
            port,
            hub,
            other_side,
        }) => {
            assert_eq!(port, "2-1 port 3");
            assert_eq!(hub, "2-1");
            assert_eq!(other_side, "SuperSpeed");
        }
        _ => panic!("not refused"),
    }
}

#[test]
fn a_declared_hub_that_is_not_there_is_missing() {
    let pairs = HubPairs::none().pair("2-1", "3-7");
    match search(&mcu("A"), 0, &pairs, devices(), &[]) {
        Err(Error::HubMissing { location }) => assert_eq!(location, "3-7"),
        _ => panic!("found"),
    }
}

#[test]
fn a_hub_missing_on_the_way_is_missing() {
    let mut all = devices();
    all.retain(|d| powercycling::device::device_location(d) != "2-1.2");
    match search(&mcu("B"), 0, &HubPairs::none(), all, &[]) {
        Err(Error::HubMissing { location }) => assert_eq!(location, "2-1.2"),
        _ => panic!("found"),
    }
}

#[test]
fn a_ganged_other_half_is_refused() {
    match search(&mcu("A"), 0, &HubPairs::none(), devices(), &["3-1"]) {
        Err(Error::PeerNotSwitchable { port, peer }) => {
            assert_eq!(port, "2-1 port 3");
            assert_eq!(peer, "3-1 port 3");
        }
        _ => panic!("not refused"),
    }
}

#[test]
fn an_occupied_other_half_is_refused() {
    let mut all = devices();
    all.push(device("3-1.3", (3, 0), 0x1234, 0));
    match search(&mcu("A"), 0, &HubPairs::none(), all, &[]) {
        Err(Error::PeerNotFound { port, candidate }) => {
            assert_eq!(port, "2-1 port 3");
            assert_eq!(candidate, "3-1 port 3");
        }
        _ => panic!("not refused"),
    }
}

#[test]
fn usb_failures_end_the_search() {
    let bus = Err(UsbError::NoMem);
    match drive(
        PowerPorts::find(&mcu("A"), &HubPairs::none(), &bus),
        &[],
        &[],
    ) {
        Err(Error::Usb(e)) => assert_eq!(e, UsbError::NoMem),
        _ => panic!("found"),
    }
    let mut all = devices();
    all[6].path = Err(UsbError::Overflow);
    match search(&mcu("A"), 0, &HubPairs::none(), all, &[]) {
        Err(Error::Usb(e)) => assert_eq!(e, UsbError::Overflow),
        _ => panic!("found"),
    }
    let bus = Ok(devices());
    match PowerPorts::find(&mcu("A"), &HubPairs::none(), &bus) {
        Search::OpenHub(question) => match question.answer(&HubAnswer {
            reply: Ok(descriptor(4, true)),
            config: Err(UsbError::NotFound),
        }) {
            Search::Done(Err(Error::Usb(e))) => assert_eq!(e, UsbError::NotFound),
            _ => panic!("went on"),
        },
        _ => panic!("asked nothing"),
    }
    match PowerPorts::find(&mcu("A"), &HubPairs::none(), &bus) {
        Search::OpenHub(question) => match question.answer(&HubAnswer {
            reply: Err(UsbError::Access),
            config: Ok(1),
        }) {
            Search::Done(Err(Error::HubUnreadable { location, source })) => {
                assert_eq!(location, "2-1");
                assert_eq!(source, UsbError::Access);
            }
            _ => panic!("went on"),
        },
        _ => panic!("asked nothing"),
    };
}

#[test]
fn a_device_is_gone_once_nothing_carries_its_identity() {
    let ports = search(&mcu("A"), 0, &HubPairs::none(), devices(), &[]).unwrap();
    assert_eq!(ports.is_gone(&Ok(devices())).ok(), Some(false));
    let mut fewer = devices();
    fewer.remove(6);
    assert_eq!(ports.is_gone(&Ok(fewer)).ok(), Some(true));
    match ports.is_gone(&Err(UsbError::Io)) {
        Err(Error::Usb(e)) => assert_eq!(e, UsbError::Io),
        _ => panic!("no error"),
    }
}

#[test]
fn identities_match_by_serial() {
    let all = devices();
    assert!(mcu("A").matches(&all[6]));
    assert!(!mcu("A").matches(&all[7]));
    assert!(DeviceId::new(0x0483, 0x5411, None).matches(&all[7]));
    assert!(!DeviceId::new(0x0483, 0x5412, None).matches(&all[7]));
    assert_eq!(mcu("A").to_text(), "0483:5411:A");
    assert_eq!(find_device(&mcu("B"), &Ok(devices())).ok(), Some(7));
    let mut unreadable = board("2-9", "A");
    unreadable.descriptor = Err(UsbError::Io);
    assert!(!mcu("A").matches(&unreadable));
}

#[test]
fn waiting_polls_until_the_deadline() {
    let timeout = Span { secs: 10, nanos: 0 };
    let early = Span {
        secs: 9,
        nanos: 999_999_999,
    };
    match wait_for_device(&mcu("Z"), &Ok(devices()), early, timeout) {
        WaitStep::Again(span) => assert_eq!((span.secs, span.nanos), (0, 50_000_000)),
        _ => panic!("gave up"),
    }
    match wait_for_device(&mcu("Z"), &Err(UsbError::Io), timeout, timeout) {
        WaitStep::GiveUp(Error::NotBack { device }) => assert_eq!(device, mcu("Z")),
        _ => panic!("went on"),
    }
    match wait_for_device(&mcu("B"), &Ok(devices()), timeout, timeout) {
        WaitStep::Back(i) => assert_eq!(i, 7),
        _ => panic!("not found"),
    }
}

// ---------------------------------------------------------------------------
// Switching
// ---------------------------------------------------------------------------

/// Take every step of a run, and give what was done.
fn play(
    run: Switching,
    holdable: bool,
    gone: bool,
    fails: impl Fn(Which, bool) -> bool,
) -> (Vec<String>, Result<(), Error>) {
    let mut run = run;
    let mut done = Vec::new();
    loop {
        let report = match run.step() {
            Step::Finished => return (done, run.outcome()),
            Step::Look(i) => {
                done.push(format!("look {i}"));
                Report::Holdable(holdable)
            }
            Step::Switch { port, on } => {
                let name = match port {
                    Which::Primary => "primary".to_string(),
                    Which::Held(i) => format!("held {i}"),
                };
                done.push(format!("{name} {}", if on { "on" } else { "off" }));
                Report::Switched(if fails(port, on) {
                    Err(Error::Io(format!("{name} {on}")))
                } else {
                    Ok(())
                })
            }
            Step::Wait(span) => {
                done.push(format!("wait {}.{:09}", span.secs, span.nanos));
                Report::Waited
            }
            Step::Check => {
                done.push("check".to_string());
                Report::Gone(Ok(gone))
            }
        };
        run = run.report(report);
    }
}

fn found() -> PowerPorts {
    search(&mcu("A"), 0, &HubPairs::none(), devices(), &[]).unwrap()
}

const SHORT: Span = Span {
    secs: 0,
    nanos: 1_000_000,
};

#[test]
fn a_cycle_holds_the_other_half_down_and_restores_it() {
    let off_time = Span { secs: 2, nanos: 0 };
    let (done, outcome) = play(found().cycle(off_time), true, true, |_, _| false);
    assert!(outcome.is_ok());
    assert_eq!(
        done,
        [
            "look 0",
            "held 0 off",
            "primary off",
            "wait 2.000000000",
            "check",
            "primary on",
            "held 0 on"
        ]
    );
}

#[test]
fn a_super_speed_port_stays_off_for_a_fifth_of_a_second() {
    let (done, _) = play(found().cycle(SHORT), true, true, |_, _| false);
    assert!(done.contains(&"wait 0.200000000".to_string()));
    let pairs = HubPairs::none().alone("2-1");
    let alone = search(&mcu("A"), 0, &pairs, devices(), &[]).unwrap();
    let (done, _) = play(alone.cycle(SHORT), true, true, |_, _| false);
    assert_eq!(
        done,
        ["primary off", "wait 0.001000000", "check", "primary on"]
    );
}

#[test]
fn a_device_that_stays_is_reported_and_power_restored() {
    let (done, outcome) = play(found().cycle(SHORT), true, false, |_, _| false);
    assert!(done.ends_with(&["primary on".to_string(), "held 0 on".to_string()]));
    match outcome {
        Err(Error::PowerOffIneffective { port }) => assert_eq!(port, "2-1 port 3"),
        _ => panic!("no error"),
    }
}

#[test]
fn a_cut_that_fails_stops_and_everything_is_restored() {
    let (done, outcome) = play(found().cycle(SHORT), true, true, |port, on| {
        port == Which::Held(0) && !on
    });
    assert_eq!(done, ["look 0", "held 0 off", "primary on", "held 0 on"]);
    match outcome {
        Err(Error::Io(what)) => assert_eq!(what, "held 0 false"),
        _ => panic!("no error"),
    }
}

#[test]
fn restoring_tries_every_port_and_reports_the_first_failure() {
    let (done, outcome) = play(found().cycle(SHORT), true, true, |_, on| on);
    assert!(done.ends_with(&["primary on".to_string(), "held 0 on".to_string()]));
    match outcome {
        Err(Error::Io(what)) => assert_eq!(what, "primary true"),
        _ => panic!("no error"),
    }
    let (_, outcome) = play(found().set_power(true), true, true, |port, _| {
        port == Which::Held(0)
    });
    match outcome {
        Err(Error::Io(what)) => assert_eq!(what, "held 0 true"),
        _ => panic!("no error"),
    }
}

#[test]
fn a_port_that_is_occupied_by_now_is_not_cut() {
    let (done, outcome) = play(found().set_power(false), false, true, |_, _| false);
    assert!(outcome.is_ok());
    assert_eq!(done, ["look 0", "primary off"]);
    let (done, _) = play(found().set_power(false), true, true, |_, _| false);
    assert_eq!(done, ["look 0", "held 0 off", "primary off"]);
    let (done, _) = play(found().set_power(true), true, true, |_, _| false);
    assert_eq!(done, ["primary on", "held 0 on"]);
}

#[test]
fn a_held_port_is_cut_only_where_nothing_is_stranded() {
    let empty = || Socket {
        occupied: false,
        class: None,
    };
    let hub = || Socket {
        occupied: true,
        class: Some("09\n".to_string()),
    };
    let other = || Socket {
        occupied: true,
        class: Some("00\n".to_string()),
    };
    let unread = || Socket {
        occupied: true,
        class: None,
    };
    for (held, primary, cut) in [
        (empty(), empty(), true),
        (empty(), other(), true),
        (hub(), hub(), true),
        (hub(), other(), false),
        (other(), hub(), false),
        (other(), empty(), false),
        (unread(), hub(), false),
        (hub(), unread(), false),
    ] {
        for mode in [Mode::Off, Mode::Cycle] {
            // Two ports are held down; the second is empty.
            let mut run = Switching::start(mode, 2, SHORT, "c".to_string());
            let mut cuts = Vec::new();
            while run.step() != Step::Finished {
                let report = match run.step() {
                    Step::Look(0) => looked(&held, &primary),
                    Step::Look(_) => looked(&empty(), &primary),
                    Step::Switch { port, on } => {
                        if !on {
                            cuts.push(port);
                        }
                        Report::Switched(Ok(()))
                    }
                    Step::Wait(_) => Report::Waited,
                    Step::Check => Report::Gone(Ok(true)),
                    Step::Finished => panic!("went on"),
                };
                run = run.report(report);
            }
            if cut {
                assert_eq!(cuts, [Which::Held(0), Which::Held(1), Which::Primary]);
            } else {
                assert_eq!(cuts, [Which::Held(1), Which::Primary]);
            }
        }
    }
}

#[test]
fn a_blink_restores_in_reverse() {
    let run = || Switching::start(Mode::Blink, 2, SHORT, "c".to_string());
    let (done, outcome) = play(run(), true, true, |_, _| false);
    assert!(outcome.is_ok());
    assert_eq!(
        done,
        [
            "held 0 off",
            "held 1 off",
            "primary off",
            "wait 0.001000000",
            "primary on",
            "held 1 on",
            "held 0 on"
        ]
    );
    // Whatever the cut did, and reporting the first failure of either.
    let (done, outcome) = play(run(), true, true, |port, on| {
        port == if on { Which::Primary } else { Which::Held(1) }
    });
    assert_eq!(
        done,
        [
            "held 0 off",
            "held 1 off",
            "primary on",
            "held 1 on",
            "held 0 on"
        ]
    );
    match outcome {
        Err(Error::Io(what)) => assert_eq!(what, "held 1 false"),
        _ => panic!("no error"),
    }
}

#[test]
fn a_cycle_restores_first_to_last() {
    let run = Switching::start(Mode::Cycle, 2, SHORT, "c".to_string());
    let (done, _) = play(run, true, true, |_, _| false);
    assert!(done.ends_with(&[
        "primary on".to_string(),
        "held 0 on".to_string(),
        "held 1 on".to_string()
    ]));
    let run = Switching::start(Mode::On, 2, SHORT, "c".to_string());
    let (done, _) = play(run, true, true, |_, _| false);
    assert_eq!(done, ["primary on", "held 0 on", "held 1 on"]);
}

#[test]
fn a_report_on_another_step_changes_nothing() {
    let run = found().cycle(SHORT);
    assert_eq!(run.step(), Step::Look(0));
    let run = run.report(Report::Waited);
    assert_eq!(run.step(), Step::Look(0));
    let run = run.report(Report::Switched(Err(Error::Io("lost".to_string()))));
    assert_eq!(run.step(), Step::Look(0));
    assert!(run.outcome().is_ok());
}

// ---------------------------------------------------------------------------
// One port
// ---------------------------------------------------------------------------

fn port(location: &str, number: u8) -> HubPort {
    let dev = device(location, (2, 1), REALTEK, 4);
    let hub = Hub::open(&dev, &Ok(descriptor(4, true))).unwrap();
    HubPort::new(hub, number, Ok(1)).ok().unwrap()
}

#[test]
fn a_port_is_switched_by_its_attribute_or_over_usbfs() {
    let port = port("2-1", 3);
    assert_eq!(
        port.disable_attr(),
        "/sys/bus/usb/devices/2-1:1.0/2-1-port3/disable"
    );
    assert_eq!(HubPort::disable_value(true), "0");
    assert_eq!(HubPort::disable_value(false), "1");
    assert_eq!(port.fallback(false, &SysfsOutcome::Written), None);
    let request = port.fallback(false, &SysfsOutcome::NoAttribute).unwrap();
    assert_eq!((request.request, request.index), (1, 3));
    let request = port
        .fallback(true, &SysfsOutcome::Failed("denied".to_string()))
        .unwrap();
    assert_eq!((request.request, request.index), (3, 3));
    assert!(port
        .set_power(SysfsOutcome::Written, Err(UsbError::Io))
        .is_ok());
    assert!(port.set_power(SysfsOutcome::NoAttribute, Ok(())).is_ok());
    match port.set_power(
        SysfsOutcome::Failed("denied".to_string()),
        Err(UsbError::Access),
    ) {
        Err(Error::SwitchFailed { port, sysfs, usbfs }) => {
            assert_eq!(port, "2-1 port 3");
            assert_eq!(sysfs, Some("denied".to_string()));
            assert_eq!(usbfs, UsbError::Access);
        }
        _ => panic!("no error"),
    }
    match port.set_power(SysfsOutcome::NoAttribute, Err(UsbError::Access)) {
        Err(Error::SwitchFailed { sysfs, .. }) => assert_eq!(sysfs, None),
        _ => panic!("no error"),
    }
}

#[test]
fn a_port_can_be_held_down_if_empty_or_if_both_hold_a_hub() {
    let empty = || Socket {
        occupied: false,
        class: None,
    };
    let hub = || Socket {
        occupied: true,
        class: Some("09\n".to_string()),
    };
    let other = || Socket {
        occupied: true,
        class: Some("00\n".to_string()),
    };
    assert!(empty().is_holdable_for(&other()));
    assert!(hub().is_holdable_for(&hub()));
    assert!(!hub().is_holdable_for(&other()));
    assert!(!other().is_holdable_for(&hub()));
    assert!(!other().is_holdable_for(&empty()));
    assert!(hub().holds_hub());
    assert!(!other().holds_hub());
}

// ---------------------------------------------------------------------------
// From beginning to end
// ---------------------------------------------------------------------------

#[test]
fn a_power_cycle_searches_then_switches_then_waits() {
    let bus = Ok(devices());
    let two = Span { secs: 2, nanos: 0 };
    let ten = Span { secs: 10, nanos: 0 };
    let mut cycle = power_cycle(&mcu("A"), &HubPairs::none(), two, ten, &bus);
    let mut steps = 0;
    let waiting = loop {
        cycle = match cycle {
            PowerCycle::Seek(seeking) => {
                if let Search::LookAt(question) = seeking.search() {
                    let peer = socket(question.peer(), &devices());
                    let primary = socket(question.primary(), &devices());
                    seeking.looked(&peer, &primary)
                } else {
                    seeking.opened(&HubAnswer {
                        reply: Ok(descriptor(4, true)),
                        config: Ok(1),
                    })
                }
            }
            PowerCycle::Switch(cycling) => {
                steps += 1;
                assert_eq!(cycling.ports().primary().to_text(), "2-1 port 3");
                let report = match cycling.step() {
                    Step::Look(_) => Report::Holdable(true),
                    Step::Switch { .. } => Report::Switched(Ok(())),
                    Step::Wait(_) => Report::Waited,
                    Step::Check => Report::Gone(Ok(true)),
                    Step::Finished => panic!("went on"),
                };
                cycling.report(report)
            }
            PowerCycle::Wait(waiting) => break waiting,
            PowerCycle::Failed(e) => panic!("{}", e.to_text()),
        };
    };
    assert_eq!(steps, 7);
    match waiting.look(&Ok(devices()), two) {
        WaitStep::Back(i) => assert_eq!(i, 6),
        _ => panic!("not back"),
    }
}

#[test]
fn a_power_cycle_fails_with_what_went_wrong_first() {
    let two = Span { secs: 2, nanos: 0 };
    let bus = Ok(devices());
    match power_cycle(&mcu("Z"), &HubPairs::none(), two, two, &bus) {
        PowerCycle::Failed(Error::NotFound { .. }) => {}
        _ => panic!("found"),
    }
    let mut cycle = power_cycle(&mcu("A"), &HubPairs::none(), two, two, &bus);
    let mut switches = 0;
    loop {
        cycle = match cycle {
            PowerCycle::Seek(seeking) => {
                let empty = Socket {
                    occupied: false,
                    class: None,
                };
                match seeking.search() {
                    Search::LookAt(_) => seeking.looked(&empty, &empty),
                    _ => seeking.opened(&HubAnswer {
                        reply: Ok(descriptor(4, true)),
                        config: Ok(1),
                    }),
                }
            }
            PowerCycle::Switch(cycling) => {
                let report = match cycling.step() {
                    Step::Look(_) => Report::Holdable(true),
                    Step::Switch { on, .. } => {
                        switches += 1;
                        Report::Switched(if on {
                            Ok(())
                        } else {
                            Err(Error::Io("stuck".to_string()))
                        })
                    }
                    _ => panic!("went on"),
                };
                cycling.report(report)
            }
            PowerCycle::Wait(_) => panic!("went on"),
            PowerCycle::Failed(e) => {
                assert_eq!(e.to_text(), "i/o error: stuck");
                break;
            }
        };
    }
    // One cut that failed, and both ports restored.
    assert_eq!(switches, 3);
}
