//! Pairing hubs, and the text that declares pairs.

use powercycling::error::Error;
use powercycling::pairing::{Evidence, Node, Pairing, Verdict};
use powercycling::pairs::HubPairs;
use powercycling::version::Version;

/// A hub on the bus, for building topologies without hardware.
fn hub(location: &str, version: (u8, u8), vid: u16, nports: u8) -> Node {
    let (bus, path): (u8, Vec<u8>) = location.strip_prefix("usb").map_or_else(
        || {
            let (bus, path) = location.split_once('-').unwrap();
            (
                bus.parse().unwrap(),
                path.split('.').map(|p| p.parse().unwrap()).collect(),
            )
        },
        |bus| (bus.parse().unwrap(), Vec::new()),
    );
    Node {
        controller: path
            .is_empty()
            .then_some(format!("controller-of-bus-{}", bus / 2)),
        location: location.to_string(),
        bus,
        path,
        version: Version(version.0, version.1, 0),
        vid,
        nports: Some(nports),
    }
}

const LINUX: u16 = 0x1d6b;
const VIA: u16 = 0x2109;
const REALTEK: u16 = 0x0bda;

/// Raspberry Pi CM5 IO board: the controller's USB 2.0 root has one
/// port, holding a 4-port VIA hub; its `SuperSpeed` root has four ports.
/// Three identical Realtek hubs hang below, one carrying two more.
fn cm5() -> Vec<Node> {
    vec![
        hub("usb2", (2, 0), LINUX, 1),
        hub("usb3", (3, 0), LINUX, 4),
        hub("2-1", (2, 1), VIA, 4),
        hub("2-1.4", (2, 1), REALTEK, 4),
        hub("2-1.4.3", (2, 1), REALTEK, 4),
        hub("2-1.4.4", (2, 1), REALTEK, 4),
        hub("3-4", (3, 2), REALTEK, 4),
        hub("3-4.3", (3, 2), REALTEK, 4),
        hub("3-4.4", (3, 2), REALTEK, 4),
    ]
}

#[test]
fn expansion_pairs_the_stand_in_hub_with_the_larger_root() {
    let pairing = Pairing::from_nodes(cm5(), &HubPairs::none());
    assert_eq!(pairing.other_half("2-1"), Some("usb3"));
    assert_eq!(pairing.other_half("usb3"), Some("2-1"));
    assert_eq!(
        pairing.verdict("2-1"),
        Verdict::Paired {
            other: "usb3",
            evidence: &Evidence::Expansion {
                root: "usb2".to_string(),
                ports: 4,
            },
        }
    );
    // The small root is spoken for, but pairs with nothing itself.
    assert_eq!(
        pairing.verdict("usb2"),
        Verdict::StoodInFor {
            other: "usb3",
            via: "2-1",
        }
    );
    assert_eq!(pairing.other_half("usb2"), None);
    // Everything below follows by descent, identical hubs included.
    assert_eq!(pairing.other_half("2-1.4"), Some("3-4"));
    assert_eq!(pairing.other_half("3-4.3"), Some("2-1.4.3"));
    assert_eq!(pairing.other_half("2-1.4.4"), Some("3-4.4"));
    assert!(pairing.unpaired().is_empty());
}

#[test]
fn a_declared_pair_wins_over_expansion() {
    let declared = HubPairs::none().pair("2-1", "usb3");
    let pairing = Pairing::from_nodes(cm5(), &declared);
    assert_eq!(
        pairing.verdict("2-1"),
        Verdict::Paired {
            other: "usb3",
            evidence: &Evidence::Declared,
        }
    );
    assert_eq!(pairing.other_half("2-1.4"), Some("3-4"));
}

#[test]
fn symmetric_pc_pairs_by_descent_only() {
    // Both roots have four ports; a Realtek hub in receptacle 1 shows up
    // on both. Nothing to expand.
    let pairing = Pairing::from_nodes(
        vec![
            hub("usb2", (2, 0), LINUX, 4),
            hub("usb3", (3, 0), LINUX, 4),
            hub("2-1", (2, 1), REALTEK, 4),
            hub("3-1", (3, 2), REALTEK, 4),
        ],
        &HubPairs::none(),
    );
    assert_eq!(pairing.other_half("usb2"), Some("usb3"));
    assert_eq!(
        pairing.verdict("2-1"),
        Verdict::Paired {
            other: "3-1",
            evidence: &Evidence::Descent(1),
        }
    );
}

#[test]
fn expansion_needs_matching_port_counts_and_no_twin() {
    // Single-port root, but the hub on it has 7 ports, not the root's 4.
    let pairing = Pairing::from_nodes(
        vec![
            hub("usb2", (2, 0), LINUX, 1),
            hub("usb3", (3, 0), LINUX, 4),
            hub("2-1", (2, 1), VIA, 7),
        ],
        &HubPairs::none(),
    );
    assert_eq!(pairing.other_half("2-1"), None);
    assert_eq!(pairing.unpaired(), vec!["2-1"]);

    // Counts match, but the hub's own SuperSpeed twin is on the bus, so
    // it is a real USB 3.x hub in a real receptacle, not a stand-in.
    let pairing = Pairing::from_nodes(
        vec![
            hub("usb2", (2, 0), LINUX, 1),
            hub("usb3", (3, 0), LINUX, 4),
            hub("2-1", (2, 1), VIA, 4),
            hub("3-2", (3, 2), VIA, 4),
        ],
        &HubPairs::none(),
    );
    assert_eq!(pairing.other_half("2-1"), None);
}

#[test]
fn a_plain_usb2_hub_has_no_other_half() {
    let pairing = Pairing::from_nodes(
        vec![
            hub("usb2", (2, 0), LINUX, 4),
            hub("usb3", (3, 0), LINUX, 4),
            hub("2-1", (2, 0), 0x1a40, 4),
        ],
        &HubPairs::none(),
    );
    assert_eq!(pairing.verdict("2-1"), Verdict::Usb2Hub);
    assert!(pairing.unpaired().is_empty());
}

#[test]
fn declared_alone_and_unknown_hubs() {
    let pairing = Pairing::from_nodes(
        vec![hub("2-1", (2, 1), VIA, 4)],
        &HubPairs::none().alone("2-1").alone("9-9"),
    );
    assert_eq!(pairing.verdict("2-1"), Verdict::DeclaredAlone);
    // A declaration stands even for a hub that is not on the bus - the
    // report just notes that - and nothing is known about the undeclared.
    assert_eq!(pairing.verdict("9-9"), Verdict::DeclaredAlone);
    assert_eq!(pairing.declared_absent(), ["9-9".to_string()]);
    assert_eq!(pairing.verdict("8-8"), Verdict::Unknown);
}

#[test]
fn parses_pairs_comments_and_none() {
    let text = "# CM5\n2-1 usb3  # trailing\n\nnone 2-4\n2-3 none\n";
    let pairs: HubPairs = text.parse().unwrap();
    assert_eq!(
        pairs,
        HubPairs::none()
            .pair("2-1", "usb3")
            .alone("2-4")
            .alone("2-3")
    );
}

#[test]
fn rejects_malformed_lines() {
    for bad in ["2-1", "2-1 usb3 extra", "none none", "2-1 2-1"] {
        let err = format!("# ok\n{bad}\n").parse::<HubPairs>().unwrap_err();
        match err {
            Error::PairsSyntax { line, text } => {
                assert_eq!(line, 2);
                assert_eq!(text, bad);
            }
            other => panic!("unexpected {}", other.to_text()),
        }
    }
}

#[test]
fn empty_file_declares_nothing() {
    assert_eq!("".parse::<HubPairs>().unwrap(), HubPairs::none());
    assert_eq!(
        "# only comments\n".parse::<HubPairs>().unwrap(),
        HubPairs::none()
    );
}

#[test]
fn a_text_and_a_builder_declare_the_same() {
    let from_text: HubPairs = "2-1 usb3".parse().unwrap();
    let built = HubPairs::none().pair("2-1", "usb3");
    assert_eq!(from_text, built);
    assert_eq!(
        HubPairs::from(
            vec![("2-1".to_string(), "usb3".to_string())],
            vec!["2-2".to_string()]
        ),
        built.alone("2-2")
    );
    assert_eq!(HubPairs::default(), HubPairs::none());
}

#[test]
fn a_file_is_read_or_says_why_not() {
    let loaded = HubPairs::load("cm5.pairs", Ok("2-1 usb3\n".to_string())).unwrap();
    assert_eq!(loaded, HubPairs::none().pair("2-1", "usb3"));
    match HubPairs::load("cm5.pairs", Err("no such file".to_string())) {
        Err(Error::PairsUnreadable { path, source }) => {
            assert_eq!(path, "cm5.pairs");
            assert_eq!(source, "no such file");
        }
        _ => panic!("loaded"),
    }
    match HubPairs::load("cm5.pairs", Ok("2-1\n".to_string())) {
        Err(Error::PairsSyntax { line, text }) => {
            assert_eq!(line, 1);
            assert_eq!(text, "2-1");
        }
        _ => panic!("loaded"),
    }
}

#[test]
fn none_may_stand_on_either_side_and_line_ends_may_be_dos() {
    let a: HubPairs = "2-1 none\r\n".parse().unwrap();
    let b: HubPairs = "  none\t2-1  ".parse().unwrap();
    assert_eq!(a, b);
    assert_eq!(a, HubPairs::none().alone("2-1"));
}

#[test]
fn a_line_written_for_two_hubs_reads_back() {
    for (a, b) in [("2-1", "usb3"), ("2-1.4.3", "3-4.3"), ("usb10", "11-1")] {
        let read: HubPairs = format!("{a} {b}").parse().unwrap();
        assert_eq!(read, HubPairs::none().pair(a, b));
        let lone: HubPairs = format!("{a} none").parse().unwrap();
        assert_eq!(lone, HubPairs::none().alone(a));
    }
}

#[test]
fn a_pair_has_no_order() {
    let one = Pairing::from_nodes(cm5(), &HubPairs::none().pair("2-1", "usb3"));
    let other = Pairing::from_nodes(cm5(), &HubPairs::none().pair("usb3", "2-1"));
    for location in ["usb2", "usb3", "2-1", "2-1.4", "3-4", "2-1.4.3", "3-4.4"] {
        assert_eq!(one.verdict(location), other.verdict(location));
    }
}

#[test]
fn the_order_of_the_hubs_does_not_matter() {
    let declared = HubPairs::none().alone("2-1.4.4");
    let other_declared = HubPairs::none().pair("2-1.4", "9-9");
    for declared in [HubPairs::none(), declared, other_declared] {
        let pairing = Pairing::from_nodes(cm5(), &declared);
        for turn in 0..cm5().len() {
            let mut turned = cm5();
            turned.rotate_left(turn);
            let mut backwards = cm5();
            backwards.reverse();
            backwards.rotate_left(turn);
            for hubs in [turned, backwards] {
                let other = Pairing::from_nodes(hubs, &declared);
                for node in cm5() {
                    assert_eq!(
                        other.verdict(&node.location),
                        pairing.verdict(&node.location)
                    );
                }
            }
        }
    }
}

#[test]
fn pairs_are_mutual_and_have_opposite_speeds() {
    let pairing = Pairing::from_nodes(cm5(), &HubPairs::none());
    for node in cm5() {
        if let Some(other) = pairing.other_half(&node.location) {
            assert_eq!(pairing.other_half(other), Some(node.location.as_str()));
            let other = cm5().into_iter().find(|n| n.location == other).unwrap();
            assert_ne!(node.version >= Version(3, 0, 0), other.version >= Version(3, 0, 0));
        }
    }
}

#[test]
fn a_declaration_stands_against_every_rule() {
    // The rules would pair 2-1.4 with 3-4.
    let declared = HubPairs::none().pair("2-1.4", "9-9").alone("2-1");
    let pairing = Pairing::from_nodes(cm5(), &declared);
    assert_eq!(pairing.other_half("2-1.4"), Some("9-9"));
    assert_eq!(pairing.verdict("2-1"), Verdict::DeclaredAlone);
    assert_eq!(pairing.declared_absent(), ["9-9".to_string()]);
}

#[test]
fn descent_asks_for_the_same_vendor_and_size() {
    let pairing = Pairing::from_nodes(
        vec![
            hub("usb2", (2, 0), LINUX, 4),
            hub("usb3", (3, 0), LINUX, 4),
            hub("2-1", (2, 1), REALTEK, 4),
            hub("3-1", (3, 2), VIA, 4),
            hub("2-2", (2, 1), REALTEK, 4),
            hub("3-2", (3, 2), REALTEK, 7),
        ],
        &HubPairs::none(),
    );
    assert_eq!(pairing.verdict("2-1"), Verdict::Unpaired);
    assert_eq!(pairing.verdict("3-2"), Verdict::Unpaired);
    assert_eq!(pairing.unpaired(), vec!["2-1", "3-1", "2-2", "3-2"]);
}

#[test]
fn verdicts_in_words() {
    let pairing = Pairing::from_nodes(cm5(), &HubPairs::none().alone("9-9"));
    assert_eq!(
        pairing.verdict("2-1").to_text(),
        "<-> usb3 (expands usb2's single port to 4)"
    );
    assert_eq!(
        pairing.verdict("usb2").to_text(),
        "same host controller as usb3; 2-1 stands in for it"
    );
    assert_eq!(
        pairing.verdict("3-4").to_text(),
        "<-> 2-1.4 (port 4 of paired parents)"
    );
    assert_eq!(pairing.verdict("9-9").to_text(), "no other half (declared)");
    assert_eq!(pairing.verdict("8-8").to_text(), "unreadable");
    let pairing = Pairing::from_nodes(
        vec![
            hub("usb2", (2, 0), LINUX, 2),
            hub("usb3", (3, 0), LINUX, 2),
            hub("2-1", (2, 0), VIA, 4),
            hub("2-2", (2, 1), VIA, 4),
        ],
        &HubPairs::none().pair("2-7", "3-7"),
    );
    assert_eq!(
        pairing.verdict("usb2").to_text(),
        "<-> usb3 (same host controller)"
    );
    assert_eq!(
        pairing.verdict("2-1").to_text(),
        "no other half (USB 2.0 hub)"
    );
    assert_eq!(
        pairing.verdict("2-2").to_text(),
        "UNPAIRED - other half unknown"
    );
    assert_eq!(pairing.verdict("2-7").to_text(), "<-> 3-7 (declared)");
}
