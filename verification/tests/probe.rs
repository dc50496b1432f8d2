//! Finding a hub's other half by watching a power LED.

use powercycling::device::{device_location, Descriptor, Device};
use powercycling::error::Error;
use powercycling::hub::Hub;
use powercycling::pairs::HubPairs;
use powercycling::port::{HubPort, Socket};
use powercycling::power::HubAnswer;
use powercycling::probe::{likelihood, plan, print_plan, probe, Answer, Probe};
use powercycling::span::Span;
use powercycling::switching::{Report, Step, Which};
use powercycling::usb::UsbError;
use powercycling::version::Version;

const LINUX: u16 = 0x1d6b;
const VIA: u16 = 0x2109;
const REALTEK: u16 = 0x0bda;

const OFF_TIME: Span = Span { secs: 2, nanos: 0 };

fn device(location: &str, version: (u8, u8), vid: u16, nports: u8) -> Device {
    let (bus, path): (u8, Vec<u8>) = match location.strip_prefix("usb") {
        Some(bus) => (bus.parse().unwrap(), Vec::new()),
        None => {
            let (bus, path) = location.split_once('-').unwrap();
            (
                bus.parse().unwrap(),
                path.split('.').map(|p| p.parse().unwrap()).collect(),
            )
        }
    };
    Device {
        // Each bus has a controller of its own, so that nothing is paired.
        controller: path.is_empty().then_some(format!("controller-{bus}")),
        bus,
        path: Ok(path),
        descriptor: Ok(Descriptor {
            vid,
            pid: 0x5411,
            version: Version(version.0, version.1, 0),
            class: if nports > 0 { 9 } else { 0 },
        }),
        serial: None,
        product: None,
        max_child: (nports > 0).then_some(format!("{nports}\n")),
    }
}

/// The number of ports of each hub of [`devices`].
fn nports(location: &str) -> u8 {
    match location {
        "usb2" => 1,
        "3-2" => 7,
        _ => 4,
    }
}

/// A Realtek hub at `2-1.2` with a board on port 4, and several hubs of the
/// opposite speed.
fn devices() -> Vec<Device> {
    vec![
        device("usb2", (2, 0), LINUX, 1),
        device("usb3", (3, 0), LINUX, 4),
        device("2-1", (2, 0), VIA, 4),
        device("2-1.2", (2, 1), REALTEK, 4),
        device("2-1.2.4", (2, 0), 0x0483, 0),
        device("3-1", (3, 2), VIA, 4),
        device("3-2", (3, 2), REALTEK, 7),
        device("3-4", (3, 2), REALTEK, 4),
        device("3-3", (3, 2), REALTEK, 4),
    ]
}

fn descriptor(nports: u8, per_port: bool) -> Vec<u8> {
    vec![9, 0x29, nports, u8::from(per_port), 0, 50, 0, 0, 0xff]
}

fn answer(location: &str, ganged: &[&str]) -> HubAnswer {
    HubAnswer {
        reply: Ok(descriptor(nports(location), !ganged.contains(&location))),
        config: Ok(1),
    }
}

fn socket(location: &str, devices: &[Device]) -> Socket {
    let found = devices.iter().find(|d| device_location(d) == location);
    Socket {
        occupied: found.is_some(),
        class: found.map(|d| format!("{:02x}\n", d.descriptor.unwrap().class)),
    }
}

/// What a probe said and did, and its outcome.
struct Seen {
    text: String,
    done: Vec<String>,
    off: Vec<String>,
    outcome: Result<Option<String>, Error>,
}

/// Play a probe with these answers to its prompts.
fn play(
    hub: &str,
    port: u8,
    pairs: &HubPairs,
    ganged: &[&str],
    answers: &[&str],
    fails: impl Fn(Which, bool) -> bool,
) -> Seen {
    let bus = Ok(devices());
    let mut answers = answers.iter();
    let mut text = String::new();
    let mut done = Vec::new();
    let mut off: Vec<String> = Vec::new();
    let mut now = probe(hub, port, OFF_TIME, pairs, &bus);
    loop {
        now = match now {
            Probe::OpenHub(p) => {
                let location = device_location(p.hub().unwrap());
                p.answer(&answer(&location, ganged))
            }
            Probe::LookAt(p) => {
                let here = socket(&p.port().child_location(), &devices());
                p.answer(&here)
            }
            Probe::Survey(p) => {
                let location = device_location(p.hub().unwrap());
                let peer = socket(&p.child_location().unwrap(), &devices());
                let primary = socket(&p.probed().child_location(), &devices());
                p.answer(&answer(&location, ganged), &peer, &primary)
            }
            Probe::Ask(p) => {
                assert!(off.is_empty());
                text += p.say();
                text += &p.prompt();
                let typed = *answers.next().unwrap();
                text += typed;
                text += "\n";
                p.answer(Ok(typed))
            }
            Probe::Cut(p) => {
                let report = match p.step() {
                    Step::Switch { port, on } => {
                        let name = p.port(port).unwrap().to_text();
                        done.push(format!("{name} {}", if on { "on" } else { "off" }));
                        if !on {
                            off.push(name);
                        } else if !fails(port, on) {
                            off.retain(|other| *other != name);
                        }
                        Report::Switched(if fails(port, on) {
                            Err(Error::Io("stuck".to_string()))
                        } else {
                            Ok(())
                        })
                    }
                    Step::Wait(span) => {
                        assert_eq!(span, OFF_TIME);
                        done.push("wait".to_string());
                        Report::Waited
                    }
                    _ => panic!("an unexpected step"),
                };
                p.report(report)
            }
            Probe::Done(end) => {
                text += &end.say;
                return Seen {
                    text,
                    done,
                    off,
                    outcome: end.outcome,
                };
            }
        };
    }
}

fn never(_: Which, _: bool) -> bool {
    false
}

const PLAN: &str = "probing 2-1.2 port 4 - watch the power LED of the device on it
plan, most likely first; each step cuts for 2s, restores, then asks:
    1. 2-1.2 port 4                             => \"2-1.2 none\"  \n    2. 3-3 port 4 + 2-1.2 port 4                => \"2-1.2 3-3\"  same vendor and size
    3. 3-4 port 4 + 2-1.2 port 4                => \"2-1.2 3-4\"  same vendor and size
    4. 3-2 port 4 + 2-1.2 port 4                => \"2-1.2 3-2\"  same vendor
    5. 3-1 port 4 + 2-1.2 port 4                => \"2-1.2 3-1\"  same size
Enter runs a step, n skips it, q quits. Ctrl-C during a cut would leave ports off - use q.

";

#[test]
fn the_plan_is_most_likely_first() {
    let seen = play("2-1.2", 4, &HubPairs::none(), &[], &["q"], never);
    assert_eq!(
        seen.text,
        format!(
            "{PLAN}step 1/5: cut 2-1.2 port 4 [Enter=cut, n=skip, q=quit] q\n\
             quit - every port is restored\n"
        )
    );
    assert_eq!(seen.done.len(), 0);
    assert_eq!(seen.outcome.ok(), Some(None));
}

#[test]
fn a_port_that_cuts_by_itself_has_no_other_half() {
    let seen = play("2-1.2", 4, &HubPairs::none(), &[], &["", "y"], never);
    assert_eq!(seen.done, ["2-1.2 port 4 off", "wait", "2-1.2 port 4 on"]);
    assert!(seen.text.ends_with(
        "   restored. LED went dark? [y=dark, Enter=lit, q=quit] y\n\n2-1.2 port 4 cuts VBUS by \
         itself. Declare this line in your hub pairs:\n\n    2-1.2 none\n\n"
    ));
    let line = seen.outcome.ok().unwrap().unwrap();
    assert_eq!(line, "2-1.2 none");
    assert_eq!(
        line.parse::<HubPairs>().unwrap(),
        HubPairs::none().alone("2-1.2")
    );
}

#[test]
fn a_pair_that_goes_dark_is_the_line_to_declare() {
    let typed = ["n", " No ", "", "YES\n"];
    let seen = play("2-1.2", 4, &HubPairs::none(), &[], &typed, never);
    assert_eq!(
        seen.done,
        [
            "3-4 port 4 off",
            "2-1.2 port 4 off",
            "wait",
            "2-1.2 port 4 on",
            "3-4 port 4 on"
        ]
    );
    assert!(seen.text.ends_with(
        "\n3-4 port 4 + 2-1.2 port 4 share a receptacle. Declare this line in your hub \
         pairs:\n\n    2-1.2 3-4\n\n"
    ));
    let line = seen.outcome.ok().unwrap().unwrap();
    assert_eq!(
        line.parse::<HubPairs>().unwrap(),
        HubPairs::none().pair("2-1.2", "3-4")
    );
    // What was declared is not probed again.
    let pairs: HubPairs = line.parse().unwrap();
    let seen = play("2-1.2", 4, &pairs, &[], &[], never);
    assert_eq!(
        seen.text,
        "2-1.2 is already paired with 3-4 - nothing to probe. To probe it again, drop the \
         declaration that pairs them.\n"
    );
}

#[test]
fn a_plan_that_finds_nothing_says_what_it_may_be() {
    let typed = ["", "", "", "", "n", "n", "", "x"];
    let seen = play("2-1.2", 4, &HubPairs::none(), &[], &typed, never);
    assert_eq!(seen.done.iter().filter(|d| *d == "wait").count(), 3);
    assert!(seen.text.ends_with(
        "\nno step cut the power. Either the other half is on a hub that switches power in ganged \
         mode (then this receptacle cannot be cut at all), or its port 4 is occupied, or the hub \
         does not act on PORT_POWER (check with a meter)\n"
    ));
    assert_eq!(seen.outcome.ok(), Some(None));
}

#[test]
fn ganged_candidates_are_left_out() {
    let ganged = ["3-1", "3-2", "3-3", "3-4", "usb3"];
    let seen = play("2-1.2", 4, &HubPairs::none(), &ganged, &["q"], never);
    assert!(seen.text.contains(
        "   (no SuperSpeed hub that switches power per port has port 4 free)\nEnter runs a step"
    ));
    assert!(seen.text.contains("step 1/1: cut"));
}

#[test]
fn a_switch_that_fails_ends_the_probe_with_every_port_restored() {
    let seen = play(
        "2-1.2",
        4,
        &HubPairs::none(),
        &[],
        &["n", ""],
        |port, on| port == Which::Primary && !on,
    );
    assert_eq!(
        seen.done,
        [
            "3-3 port 4 off",
            "2-1.2 port 4 off",
            "2-1.2 port 4 on",
            "3-3 port 4 on"
        ]
    );
    match seen.outcome {
        Err(Error::Io(what)) => assert_eq!(what, "stuck"),
        _ => panic!("no error"),
    }
}

#[test]
fn no_port_is_off_outside_a_cut() {
    let none = HubPairs::none();
    // Every course that the answers can take, with every switch working.
    for typed in [
        vec!["", "", "", "", "", "", "", "", "", ""],
        vec!["", "n", "n", "", "y"],
        vec!["n", "n", "", "q"],
        vec!["", "y"],
    ] {
        let seen = play("2-1.2", 4, &none, &[], &typed, never);
        assert!(seen.off.is_empty());
        assert!(seen.outcome.is_ok());
    }
    // A cut that fails is undone.
    for fails in [Which::Held(0), Which::Primary] {
        let seen = play("2-1.2", 4, &none, &[], &["n", ""], |port, on| {
            port == fails && !on
        });
        assert!(seen.off.is_empty());
        assert!(seen.outcome.is_err());
    }
    // A port that cannot be switched on stays off, and that is a failure.
    let seen = play("2-1.2", 4, &none, &[], &["n", ""], |port, on| {
        port == Which::Held(0) && on
    });
    assert_eq!(seen.off, ["3-3 port 4"]);
    assert!(seen.outcome.is_err());
}

#[test]
fn nothing_is_cut_without_a_yes() {
    let none = HubPairs::none();
    let seen = play("2-1.2", 4, &none, &[], &["n", "n", "n", "n", "n"], never);
    assert!(seen.done.is_empty());
    // One yes is for one cut only.
    let seen = play("2-1.2", 4, &none, &[], &["n", "", "n", "n", "n", "n"], never);
    assert_eq!(
        seen.done,
        [
            "3-3 port 4 off",
            "2-1.2 port 4 off",
            "wait",
            "2-1.2 port 4 on",
            "3-3 port 4 on"
        ]
    );
}

#[test]
fn the_probed_port_must_be_there_and_switched_alone_and_occupied() {
    let none = HubPairs::none();
    let seen = play("2-1.2", 5, &none, &[], &[], never);
    assert_eq!(seen.text, "2-1.2 has 4 ports, no port 5\n");
    let seen = play("2-1.2", 4, &none, &["2-1.2"], &[], never);
    assert_eq!(
        seen.text,
        "2-1.2 switches power in ganged mode, so its ports cannot be cut one at a time and there \
         is nothing to pair it for\n"
    );
    let seen = play("2-1.2", 3, &none, &[], &[], never);
    assert_eq!(
        seen.text,
        "nothing is plugged into 2-1.2 port 3 - plug in a device with a power LED and watch it\n"
    );
    assert_eq!(seen.outcome.ok(), Some(None));
    match play("9-9", 1, &none, &[], &[], never).outcome {
        Err(Error::HubMissing { location }) => assert_eq!(location, "9-9"),
        _ => panic!("found"),
    }
}

#[test]
fn failures_of_the_bus_and_of_prompts_end_the_probe() {
    let bus = Err(UsbError::NoMem);
    match probe("2-1", 1, OFF_TIME, &HubPairs::none(), &bus) {
        Probe::Done(end) => match end.outcome {
            Err(Error::Usb(e)) => assert_eq!(e, UsbError::NoMem),
            _ => panic!("no error"),
        },
        _ => panic!("went on"),
    }
    let bus = Ok(devices());
    let opening = match probe("2-1.2", 4, OFF_TIME, &HubPairs::none(), &bus) {
        Probe::OpenHub(p) => p,
        _ => panic!("asked nothing"),
    };
    let mut now = opening.answer(&answer("2-1.2", &[]));
    loop {
        now = match now {
            Probe::LookAt(p) => p.answer(&socket("2-1.2.4", &devices())),
            Probe::Survey(p) => p.answer(
                &HubAnswer {
                    reply: Err(UsbError::Access),
                    config: Ok(1),
                },
                &socket("none", &[]),
                &socket("none", &[]),
            ),
            Probe::Ask(p) => {
                assert_eq!(
                    p.prompt(),
                    "step 1/1: cut 2-1.2 port 4 [Enter=cut, n=skip, q=quit] "
                );
                p.answer(Err("end of file".to_string()))
            }
            Probe::Done(end) => {
                match end.outcome {
                    Err(Error::Io(e)) => assert_eq!(e, "end of file"),
                    _ => panic!("no error"),
                }
                break;
            }
            _ => panic!("an unexpected step"),
        };
    }
    match probe("2-1.2", 4, OFF_TIME, &HubPairs::none(), &bus) {
        Probe::OpenHub(p) => match p.answer(&HubAnswer {
            reply: Err(UsbError::Access),
            config: Ok(1),
        }) {
            Probe::Done(end) => match end.outcome {
                Err(Error::HubUnreadable { location, source }) => {
                    assert_eq!(location, "2-1.2");
                    assert_eq!(source, UsbError::Access);
                }
                _ => panic!("no error"),
            },
            _ => panic!("went on"),
        },
        _ => panic!("asked nothing"),
    }
}

#[test]
fn answers_ignore_case_and_space() {
    assert_eq!(Answer::parse("", true), Answer::Yes);
    assert_eq!(Answer::parse(" \n", false), Answer::No);
    assert_eq!(Answer::parse("Y\n", false), Answer::Yes);
    assert_eq!(Answer::parse("yEs", false), Answer::Yes);
    assert_eq!(Answer::parse("  Quit ", true), Answer::Quit);
    assert_eq!(Answer::parse("q", true), Answer::Quit);
    assert_eq!(Answer::parse("n", true), Answer::No);
    assert_eq!(Answer::parse("yes please", true), Answer::No);
}

#[test]
fn likelihood_goes_by_vendor_then_size() {
    let open = |vid: u16, n: u8| {
        Hub::open(
            &device("2-1", (2, 1), vid, 4),
            &Ok(descriptor(n, true)),
        )
        .unwrap()
    };
    let hub = open(REALTEK, 4);
    assert_eq!(
        likelihood(&hub, &open(REALTEK, 4)),
        (0, "same vendor and size")
    );
    assert_eq!(likelihood(&hub, &open(REALTEK, 7)), (1, "same vendor"));
    assert_eq!(likelihood(&hub, &open(VIA, 4)), (2, "same size"));
    assert_eq!(likelihood(&hub, &open(VIA, 7)), (3, ""));
}

#[test]
fn a_plan_is_written_out_step_by_step() {
    let port = |location: &str, version: (u8, u8), vid: u16| {
        let dev = device(location, version, vid, 4);
        let hub = Hub::open(&dev, &Ok(descriptor(4, true))).unwrap();
        HubPort::new(hub, 2, Ok(1)).ok().unwrap()
    };
    let probed = port("3-1", (3, 0), VIA);
    let candidates = vec![
        port("2-1.1", (2, 1), VIA),
        port("2-2", (2, 1), REALTEK),
        port("2-1", (2, 1), VIA),
    ];
    let steps = plan(&probed, candidates);
    assert_eq!(
        print_plan(&steps, &probed, "<off>"),
        "probing 3-1 port 2 - watch the power LED of the device on it\n\
         plan, most likely first; each step cuts for <off>, restores, then asks:\n    \
         1. 3-1 port 2                               => \"3-1 none\"  \n    \
         2. 2-1 port 2 + 3-1 port 2                  => \"2-1 3-1\"  same vendor and size\n    \
         3. 2-1.1 port 2 + 3-1 port 2                => \"2-1.1 3-1\"  same vendor and size\n    \
         4. 2-2 port 2 + 3-1 port 2                  => \"2-2 3-1\"  same size\n\
         Enter runs a step, n skips it, q quits. Ctrl-C during a cut would leave ports off - use \
         q.\n\n"
    );
    let steps = plan(&probed, Vec::new());
    assert!(print_plan(&steps, &probed, "<off>")
        .contains("   (no USB 2.0 hub that switches power per port has port 2 free)\n"));
}
