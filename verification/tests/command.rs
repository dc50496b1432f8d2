//! The command line, and what it says.

use powercycling::command::{
    hint, location, take_option, timing, timing_line, Action, Command, Refusal, NOT_HEX, PRIMARY_ONLY_DONE,
    USAGE,
};
use powercycling::device::{Descriptor, Device, DeviceId};
use powercycling::error::Error;
use powercycling::span::Span;
use powercycling::usb::UsbError;
use powercycling::version::Version;

fn args(words: &[&str]) -> Vec<String> {
    words.iter().map(|w| w.to_string()).collect()
}

fn parse(words: &[&str]) -> Result<Command, Refusal> {
    Command::parse(args(words))
}

#[test]
fn an_option_is_taken_from_anywhere() {
    let mut list = args(&["0483", "--above", "1", "374e"]);
    assert_eq!(
        take_option(&mut list, "--above"),
        Ok(Some("1".to_string()))
    );
    assert_eq!(list, args(&["0483", "374e"]));
    assert_eq!(take_option(&mut list, "--above"), Ok(None));
    assert_eq!(list, args(&["0483", "374e"]));
    let mut list = args(&["0483", "--above"]);
    assert_eq!(
        take_option(&mut list, "--above"),
        Err("--above needs a value".to_string())
    );
    // Only the first is taken, whatever its value looks like.
    let mut list = args(&["--above", "--above", "2"]);
    assert_eq!(
        take_option(&mut list, "--above"),
        Ok(Some("--above".to_string()))
    );
    assert_eq!(list, args(&["2"]));
}

#[test]
fn the_forms_of_the_command_line() {
    assert!(matches!(parse(&["--tree"]), Ok(Command::Tree)));
    match parse(&["--probe", "2-1.2", "4"]) {
        Ok(Command::Probe { hub, port }) => {
            assert_eq!(hub, "2-1.2");
            assert_eq!(port, 4);
        }
        _ => panic!("refused"),
    }
    match parse(&["0483", "374e", "0050", "--verify", "--above", "2"]) {
        Ok(Command::Device {
            device,
            above,
            action,
        }) => {
            assert_eq!(device, DeviceId::new(0x0483, 0x374e, Some("0050")));
            assert_eq!(above, 2);
            assert_eq!(action, Action::Verify);
        }
        _ => panic!("refused"),
    }
    match parse(&["483", "374E"]) {
        Ok(Command::Device {
            device,
            above,
            action,
        }) => {
            assert_eq!(device, DeviceId::new(0x0483, 0x374e, None));
            assert_eq!(above, 0);
            assert_eq!(action, Action::Cycle);
        }
        _ => panic!("refused"),
    }
}

#[test]
fn flags_have_an_order_of_their_own() {
    let action = |words: &[&str]| match parse(words) {
        Ok(Command::Device { action, device, .. }) => (action, device.serial),
        _ => panic!("refused"),
    };
    assert_eq!(
        action(&["1", "2", "--primary-only"]),
        (Action::PrimaryOnly, None)
    );
    assert_eq!(
        action(&["1", "2", "--primary-only", "--verify", "--debug"]),
        (Action::Debug, None)
    );
    assert_eq!(
        action(&["1", "2", "S", "--primary-only", "--verify"]),
        (Action::Verify, Some("S".to_string()))
    );
    assert_eq!(
        action(&["1", "2", "S", "--unknown"]),
        (Action::Cycle, Some("S".to_string()))
    );
}

#[test]
fn refusals() {
    assert!(matches!(parse(&[]), Err(Refusal::Usage)));
    assert!(matches!(parse(&["0483"]), Err(Refusal::Usage)));
    assert!(matches!(parse(&["0483", "xyz"]), Err(Refusal::NotHex)));
    assert!(matches!(parse(&["10000", "1"]), Err(Refusal::NotHex)));
    assert!(matches!(parse(&["--tree", "x"]), Err(Refusal::NotHex)));
    match parse(&["--probe", "2-1", "256"]) {
        Err(Refusal::NotANumber(value)) => assert_eq!(value, "256"),
        _ => panic!("accepted"),
    }
    match parse(&["--above", "-1", "--tree"]) {
        Err(Refusal::NotANumber(value)) => assert_eq!(value, "-1"),
        _ => panic!("accepted"),
    }
    match parse(&["--tree", "--above"]) {
        Err(Refusal::NoValue(message)) => assert_eq!(message, "--above needs a value"),
        _ => panic!("accepted"),
    }
}

#[test]
fn what_is_said_to_those_who_are_refused() {
    assert_eq!(
        USAGE,
        "usage: <vid-hex> <pid-hex> [serial] [--debug|--verify|--primary-only]\n       --tree\n       \
         --probe <hub> <port>\n       each with an optional --pairs-file <path>, the first also \
         --above <n>"
    );
    assert_eq!(NOT_HEX, "vid and pid must be hex, e.g. 0483 374e");
    assert_eq!(
        PRIMARY_ONLY_DONE,
        "done - LED dark => VBUS is gated on this port alone\n       LED lit  => the other half \
         kept it alive, hold-down is needed\n"
    );
}

#[test]
fn hints_spell_out_the_flag() {
    let behind = Error::BehindHub {
        device: "2-1.2.3.4".to_string(),
        hub: "2-1.2".to_string(),
        hub_id: None,
        levels: 2,
    };
    assert_eq!(
        hint(&behind, 1),
        Some("hint: add `--above 3` to cycle 2-1.2 and everything on it".to_string())
    );
    let unpaired = Error::HubUnpaired {
        port: "2-1.2 port 4".to_string(),
        hub: "2-1.2".to_string(),
        other_side: "SuperSpeed",
    };
    assert_eq!(
        hint(&unpaired, 0),
        Some(
            "hint: `--tree` shows the hubs and their pairing, `--probe 2-1.2 <port>` finds the \
             missing pair, then pass the file with `--pairs-file <path>`"
                .to_string()
        )
    );
    assert_eq!(hint(&Error::Usb(UsbError::Io), 0), None);
}

#[test]
fn a_place_is_its_bus_and_ports() {
    let mut dev = Device {
        bus: 2,
        path: Ok(vec![1, 2, 3, 3]),
        descriptor: Ok(Descriptor {
            vid: 1,
            pid: 2,
            version: Version(2, 0, 0),
            class: 0,
        }),
        serial: None,
        product: None,
        max_child: None,
        controller: None,
    };
    assert_eq!(location(&dev), "2-1.2.3.3");
    dev.path = Err(UsbError::Io);
    assert_eq!(location(&dev), "2-");
}

#[test]
fn the_times_of_a_cycle() {
    let at = |millis: u64| Span::from_millis(millis);
    assert_eq!(
        timing(at(5), at(2250), at(3000), at(3001), at(2000)),
        "find 5ms, cycle 2.245s (off 2s), re-enumerate 750ms, total 3.001s"
    );
    assert_eq!(
        timing_line("a", "b", "c", "d", "e"),
        "find a, cycle b (off c), re-enumerate d, total e"
    );
    // Times that run backwards count as nothing.
    assert_eq!(
        timing(at(5), at(4), at(3), at(2), at(1)),
        "find 5ms, cycle 0ns (off 1ms), re-enumerate 0ns, total 2ms"
    );
}

#[test]
fn spans_add_up() {
    let long = Span {
        secs: 3,
        nanos: 100,
    };
    let short = Span {
        secs: 1,
        nanos: 200,
    };
    assert_eq!(
        long.less(short),
        Span {
            secs: 1,
            nanos: 999_999_900
        }
    );
    assert_eq!(short.less(long), Span { secs: 0, nanos: 0 });
    assert_eq!(short.longer(long), long);
    assert!(short.is_shorter(long));
    assert!(!long.is_shorter(long));
    assert_eq!(
        Span::from_millis(1234),
        Span {
            secs: 1,
            nanos: 234_000_000
        }
    );
    assert_eq!(Span::from_millis(2000).to_text(), "2s");
}
