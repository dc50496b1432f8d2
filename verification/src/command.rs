//! The command line: what its arguments ask for, and what it says.

use vstd::prelude::*;

use crate::device;
use crate::device::{Device, DeviceId, DeviceIdView, DeviceView};
use crate::error::{Error, ErrorView};
use crate::power::{PowerPorts, PowerPortsView};
use crate::span;
use crate::span::Span;
use crate::text;
use crate::text::{dec_text, join, put_dec, read_number, same_text, starts_with};

verus! {

// ---------------------------------------------------------------------------
// Arguments
// ---------------------------------------------------------------------------

/// The place of the first argument that is `flag`, or how many there are.
pub open spec fn place_of(args: Seq<Seq<char>>, flag: Seq<char>) -> nat
    decreases args.len(),
{
    if args.len() == 0 || args[0] == flag {
        0
    } else {
        1 + place_of(args.drop_first(), flag)
    }
}

/// What is taken out of the arguments for `flag`: its value, if it is there.
pub open spec fn option_in(args: Seq<Seq<char>>, flag: Seq<char>) -> Result<
    Option<Seq<char>>,
    Seq<char>,
> {
    let i = place_of(args, flag) as int;
    if i >= args.len() {
        Ok(None)
    } else if i + 1 >= args.len() {
        Err(flag + " needs a value"@)
    } else {
        Ok(Some(args[i + 1]))
    }
}

/// What is left of the arguments once `flag` and its value were taken out.
pub open spec fn without_option(args: Seq<Seq<char>>, flag: Seq<char>) -> Seq<Seq<char>> {
    let i = place_of(args, flag) as int;
    if i + 1 < args.len() {
        args.remove(i + 1).remove(i)
    } else {
        args
    }
}

/// The place of the first of the arguments that is `flag`.
fn position(args: &Vec<String>, flag: &str) -> (i: usize)
    ensures
        i == place_of(text::texts(args@), flag@),
        i <= args.len(),
{
    let ghost all = text::texts(args@);
    let mut i: usize = 0;
    assert(all.skip(0) =~= all);
    while i < args.len()
        invariant
            i <= args.len(),
            all == text::texts(args@),
            place_of(all, flag@) == i + place_of(all.skip(i as int), flag@),
        decreases args.len() - i,
    {
        assert(all.skip(i as int)[0] == args@[i as int]@);
        if same_text(args[i].as_str(), flag) {
            return i;
        }
        assert(all.skip(i as int).drop_first() =~= all.skip(i + 1));
        i = i + 1;
    }
    i
}

/// Remove `--flag <value>` from `args` and return the value, if present.
///
/// # Errors
///
/// What is wrong, if the value is missing.
pub fn take_option(args: &mut Vec<String>, flag: &str) -> (value: Result<Option<String>, String>)
    ensures
        match value {
            Ok(Some(value)) => option_in(text::texts(old(args)@), flag@) == Ok::<
                Option<Seq<char>>,
                Seq<char>,
            >(Some(value@)),
            Ok(None) => option_in(text::texts(old(args)@), flag@) == Ok::<
                Option<Seq<char>>,
                Seq<char>,
            >(None),
            Err(e) => option_in(text::texts(old(args)@), flag@) == Err::<
                Option<Seq<char>>,
                Seq<char>,
            >(e@),
        },
        text::texts(final(args)@) == without_option(text::texts(old(args)@), flag@),
{
    let ghost all = text::texts(args@);
    let i: usize = position(args, flag);
    if i >= args.len() {
        return Ok(None);
    }
    if i + 1 >= args.len() {
        let mut message: String = flag.to_owned();
        message.append(" needs a value");
        return Err(message);
    }
    let value: String = args.remove(i + 1);
    assert(text::texts(args@) =~= all.remove(i + 1));
    args.remove(i);
    assert(text::texts(args@) =~= all.remove(i + 1).remove(i as int));
    Ok(Some(value))
}

/// What to do with a device.
#[derive(Debug, Clone, Copy, PartialEq, Eq, Structural)]
pub enum Action {
    /// Power-cycle it.
    Cycle,
    /// Show what the search sees.
    Debug,
    /// Power-cycle it, and report what left the bus.
    Verify,
    /// Cut its own port alone.
    PrimaryOnly,
}

/// What the arguments ask for.
#[derive(Debug)]
pub enum Command {
    /// Show the USB tree.
    Tree,
    /// Find a hub's other half.
    Probe {
        /// The sysfs location of the hub.
        hub: String,
        /// The number of the port with a device to watch.
        port: u8,
    },
    /// Do something with a device.
    Device {
        /// The device.
        device: DeviceId,
        /// How many hubs above the device the target is.
        above: u8,
        /// What to do.
        action: Action,
    },
}

/// What a [`Command`] holds.
pub enum CommandView {
    /// Show the USB tree.
    Tree,
    /// Find a hub's other half.
    Probe { hub: Seq<char>, port: u8 },
    /// Do something with a device.
    Device { device: DeviceIdView, above: u8, action: Action },
}

impl View for Command {
    type V = CommandView;

    open spec fn view(&self) -> CommandView {
        match *self {
            Command::Tree => CommandView::Tree,
            Command::Probe { hub, port } => CommandView::Probe { hub: hub@, port },
            Command::Device { device, above, action } => CommandView::Device {
                device: device@,
                above,
                action,
            },
        }
    }
}

/// Why the arguments ask for nothing.
#[derive(Debug)]
pub enum Refusal {
    /// A flag has no value.
    NoValue(String),
    /// This is not a number from 0 to 255.
    NotANumber(String),
    /// They have none of the forms there are.
    Usage,
    /// The vendor or the product is not hexadecimal.
    NotHex,
}

/// What a [`Refusal`] holds.
pub enum RefusalView {
    /// A flag has no value.
    NoValue(Seq<char>),
    /// This is not a number from 0 to 255.
    NotANumber(Seq<char>),
    /// They have none of the forms there are.
    Usage,
    /// The vendor or the product is not hexadecimal.
    NotHex,
}

impl View for Refusal {
    type V = RefusalView;

    open spec fn view(&self) -> RefusalView {
        match *self {
            Refusal::NoValue(message) => RefusalView::NoValue(message@),
            Refusal::NotANumber(value) => RefusalView::NotANumber(value@),
            Refusal::Usage => RefusalView::Usage,
            Refusal::NotHex => RefusalView::NotHex,
        }
    }
}

/// How the command line is used.
pub const USAGE: &'static str = "usage: <vid-hex> <pid-hex> [serial] [--debug|--verify|--primary-only]\n       --tree\n       --probe <hub> <port>\n       each with an optional --pairs-file <path>, the first also --above <n>";

/// What is said where the vendor or the product is not hexadecimal.
pub const NOT_HEX: &'static str = "vid and pid must be hex, e.g. 0483 374e";

/// What to do with a device, as the first of the flags that is there in this
/// order says: `--debug`, `--verify`, `--primary-only`.
pub open spec fn action_in(rest: Seq<Seq<char>>) -> Action {
    if rest.contains("--debug"@) {
        Action::Debug
    } else if rest.contains("--verify"@) {
        Action::Verify
    } else if rest.contains("--primary-only"@) {
        Action::PrimaryOnly
    } else {
        Action::Cycle
    }
}

/// The serial that follows vendor and product: the next argument, unless that
/// is a flag.
pub open spec fn serial_in(rest: Seq<Seq<char>>) -> Option<Seq<char>> {
    if rest.len() > 0 && !text::begins_with(rest[0], "--"@) {
        Some(rest[0])
    } else {
        None
    }
}

/// What the arguments ask for once `--above` was taken out.
pub open spec fn form_of(args: Seq<Seq<char>>, above: u8) -> Result<CommandView, RefusalView> {
    if args.len() == 1 && args[0] == "--tree"@ {
        Ok(CommandView::Tree)
    } else if args.len() == 3 && args[0] == "--probe"@ {
        match text::number(args[2], 10, 255) {
            Some(port) => Ok(CommandView::Probe { hub: args[1], port: port as u8 }),
            None => Err(RefusalView::NotANumber(args[2])),
        }
    } else if args.len() < 2 {
        Err(RefusalView::Usage)
    } else {
        match (text::number(args[0], 16, 65535), text::number(args[1], 16, 65535)) {
            (Some(vid), Some(pid)) => Ok(
                CommandView::Device {
                    device: DeviceIdView {
                        vid: vid as u16,
                        pid: pid as u16,
                        serial: serial_in(args.skip(2)),
                    },
                    above,
                    action: action_in(args.skip(2)),
                },
            ),
            _ => Err(RefusalView::NotHex),
        }
    }
}

/// What the arguments ask for.
pub open spec fn command_in(args: Seq<Seq<char>>) -> Result<CommandView, RefusalView> {
    match option_in(args, "--above"@) {
        Err(message) => Err(RefusalView::NoValue(message)),
        Ok(None) => form_of(args, 0),
        Ok(Some(n)) => match text::number(n, 10, 255) {
            None => Err(RefusalView::NotANumber(n)),
            Some(above) => form_of(without_option(args, "--above"@), above as u8),
        },
    }
}

/// Whether `flag` is among the arguments from the third on.
fn has(args: &Vec<String>, flag: &str) -> (yes: bool)
    requires
        args.len() >= 2,
    ensures
        yes == text::texts(args@).skip(2).contains(flag@),
{
    let ghost rest = text::texts(args@).skip(2);
    let mut i: usize = 2;
    while i < args.len()
        invariant
            2 <= i <= args.len(),
            rest == text::texts(args@).skip(2),
            forall|k: int| 0 <= k < i - 2 ==> #[trigger] rest[k] != flag@,
        decreases args.len() - i,
    {
        assert(rest[i - 2] == args@[i as int]@);
        if same_text(args[i].as_str(), flag) {
            return true;
        }
        i = i + 1;
    }
    false
}

impl Command {
    /// What the arguments ask for, once `--pairs-file` was taken out.
    ///
    /// # Errors
    ///
    /// A [`Refusal`], if they ask for nothing.
    pub fn parse(args: Vec<String>) -> (command: Result<Self, Refusal>)
        ensures
            match command {
                Ok(command) => command_in(text::texts(args@)) == Ok::<CommandView, RefusalView>(
                    command@,
                ),
                Err(refusal) => command_in(text::texts(args@)) == Err::<CommandView, RefusalView>(
                    refusal@,
                ),
            },
    {
        let ghost all = text::texts(args@);
        let mut args: Vec<String> = args;
        let above: u8 = match take_option(&mut args, "--above") {
            Err(message) => {
                return Err(Refusal::NoValue(message));
            },
            Ok(None) => {
                assert(without_option(all, "--above"@) == all) by {
                    lemma_place_of(all, "--above"@);
                }
                0
            },
            Ok(Some(n)) => match read_number(n.as_str(), 10, 255) {
                None => {
                    return Err(Refusal::NotANumber(n));
                },
                Some(above) => above as u8,
            },
        };
        Command::form(&args, above)
    }

    /// What the arguments ask for once `--above` was taken out.
    fn form(args: &Vec<String>, above: u8) -> (command: Result<Self, Refusal>)
        ensures
            match command {
                Ok(command) => form_of(text::texts(args@), above) == Ok::<
                    CommandView,
                    RefusalView,
                >(command@),
                Err(refusal) => form_of(text::texts(args@), above) == Err::<
                    CommandView,
                    RefusalView,
                >(refusal@),
            },
    {
        let ghost all = text::texts(args@);
        assert(forall|i: int| 0 <= i < all.len() ==> #[trigger] all[i] == args@[i]@);
        if args.len() == 1 && same_text(args[0].as_str(), "--tree") {
            return Ok(Command::Tree);
        }
        if args.len() == 3 && same_text(args[0].as_str(), "--probe") {
            return match read_number(args[2].as_str(), 10, 255) {
                Some(port) => Ok(Command::Probe { hub: args[1].clone(), port: port as u8 }),
                None => Err(Refusal::NotANumber(args[2].clone())),
            };
        }
        if args.len() < 2 {
            return Err(Refusal::Usage);
        }
        let vid: u16 = match read_number(args[0].as_str(), 16, 65535) {
            Some(vid) => vid as u16,
            None => {
                return Err(Refusal::NotHex);
            },
        };
        let pid: u16 = match read_number(args[1].as_str(), 16, 65535) {
            Some(pid) => pid as u16,
            None => {
                return Err(Refusal::NotHex);
            },
        };
        let serial: Option<&str> = if args.len() > 2 && !starts_with(args[2].as_str(), "--") {
            Some(args[2].as_str())
        } else {
            None
        };
        let device: DeviceId = DeviceId::new(vid, pid, serial);
        let action: Action = if has(args, "--debug") {
            Action::Debug
        } else if has(args, "--verify") {
            Action::Verify
        } else if has(args, "--primary-only") {
            Action::PrimaryOnly
        } else {
            Action::Cycle
        };
        Ok(Command::Device { device, above, action })
    }
}

proof fn lemma_place_of(args: Seq<Seq<char>>, flag: Seq<char>)
    ensures
        place_of(args, flag) <= args.len(),
        place_of(args, flag) < args.len() ==> args[place_of(args, flag) as int] == flag,
    decreases args.len(),
{
    if args.len() > 0 && args[0] != flag {
        lemma_place_of(args.drop_first(), flag);
    }
}

// ---------------------------------------------------------------------------
// What is said
// ---------------------------------------------------------------------------

/// The command-line way out of an error whose fix is a flag.
pub open spec fn hint_text(error: ErrorView, above: u8) -> Option<Seq<char>> {
    match error {
        ErrorView::BehindHub { hub, levels, .. } => Some(
            "hint: add `--above "@ + text::dec((above + levels) as nat) + "` to cycle "@ + hub
                + " and everything on it"@,
        ),
        ErrorView::HubUnpaired { hub, .. } => Some(
            "hint: `--tree` shows the hubs and their pairing, `--probe "@ + hub
                + " <port>` finds the missing pair, then pass the file with `--pairs-file <path>`"@,
        ),
        _ => None,
    }
}

/// The command-line way out of an error whose fix is a flag rather than a change
/// of hardware, for a search `above` levels above a device.
pub fn hint(error: &Error, above: u8) -> (hint: Option<String>)
    ensures
        match hint {
            Some(s) => hint_text(error@, above) == Some(s@),
            None => hint_text(error@, above) is None,
        },
{
    match error {
        Error::BehindHub { hub, levels, .. } => {
            let mut s: String = "hint: add `--above ".to_owned();
            put_dec(&mut s, above as u64 + *levels as u64);
            s.append("` to cycle ");
            s.append(hub.as_str());
            s.append(" and everything on it");
            Some(s)
        },
        Error::HubUnpaired { hub, .. } => {
            let mut s: String =
                "hint: `--tree` shows the hubs and their pairing, `--probe ".to_owned();
            s.append(hub.as_str());
            s.append(
                " <port>` finds the missing pair, then pass the file with `--pairs-file <path>`",
            );
            Some(s)
        },
        _ => None,
    }
}

/// The ports of a path as numbers.
pub open spec fn port_texts(path: Seq<u8>) -> Seq<Seq<char>> {
    path.map_values(|p: u8| text::dec(p as nat))
}

/// Where a device is: its bus and the ports down to it.
pub open spec fn place_text(dev: DeviceView) -> Seq<char> {
    text::dec(dev.bus as nat) + "-"@ + text::joined(port_texts(dev.ports()), "."@)
}

/// e.g. `2-1.2.3.3`.
pub fn location(dev: &Device) -> (s: String)
    ensures
        s@ == place_text(dev@),
{
    let mut path: Vec<String> = Vec::new();
    let ghost all = port_texts(dev@.ports());
    match &dev.path {
        Ok(ports) => {
            let mut i: usize = 0;
            while i < ports.len()
                invariant
                    i <= ports.len(),
                    all == port_texts(ports@),
                    text::texts(path@) =~= all.take(i as int),
                decreases ports.len() - i,
            {
                let ghost before = path@;
                path.push(dec_text(ports[i] as u64));
                assert(text::texts(path@) =~= text::texts(before).push(all[i as int]));
                i = i + 1;
            }
            assert(all.take(all.len() as int) =~= all);
        },
        Err(_) => {
            assert(text::texts(path@) =~= all);
        },
    }
    let mut s: String = dec_text(dev.bus as u64);
    s.append("-");
    s.append(join(&path, ".").as_str());
    s
}

/// A span in words.
pub open spec fn span_text(span: Span) -> Seq<char> {
    span::duration_debug(span.secs, span.nanos)
}

/// How long each part of a cycle took, each in words.
pub open spec fn timing_text(
    find: Seq<char>,
    cycle: Seq<char>,
    off_time: Seq<char>,
    back: Seq<char>,
    total: Seq<char>,
) -> Seq<char> {
    "find "@ + find + ", cycle "@ + cycle + " (off "@ + off_time + "), re-enumerate "@ + back
        + ", total "@ + total
}

/// How long each part of a cycle took, each in words.
pub fn timing_line(find: &str, cycle: &str, off_time: &str, back: &str, total: &str) -> (s: String)
    ensures
        s@ == timing_text(find@, cycle@, off_time@, back@, total@),
{
    let mut s: String = "find ".to_owned();
    s.append(find);
    s.append(", cycle ");
    s.append(cycle);
    s.append(" (off ");
    s.append(off_time);
    s.append("), re-enumerate ");
    s.append(back);
    s.append(", total ");
    s.append(total);
    s
}

/// How long each part of a cycle took, from the time since it began when the
/// ports were found, when they were switched on again, when the device was back,
/// and now.
pub fn timing(found: Span, cycled: Span, back: Span, now: Span, off_time: Span) -> (s: String)
    requires
        found.wf(),
        cycled.wf(),
        back.wf(),
        now.wf(),
        off_time.wf(),
    ensures
        s@ == timing_text(
            span_text(found),
            span_text(cycled.minus(found)),
            span_text(off_time),
            span_text(back.minus(cycled)),
            span_text(now),
        ),
{
    timing_line(
        found.to_text().as_str(),
        cycled.less(found).to_text().as_str(),
        off_time.to_text().as_str(),
        back.less(cycled).to_text().as_str(),
        now.to_text().as_str(),
    )
}

/// What is said before the device's own port is cut alone, for a time in words.
pub open spec fn primary_only_text(ports: PowerPortsView, off_time: Seq<char>) -> Seq<char> {
    "cutting ONLY "@ + ports.primary.debug_text() + ", leaving "@ + text::dec(ports.held.len())
        + " port(s) powered\n"@ + "watch the board's power LED for "@ + off_time + "...\n"@
}

/// What is said before the device's own port is cut alone, deliberately skipping
/// the other half, for `off_time` in words.
///
/// If the LED goes dark anyway, this hub gates VBUS on that port alone and the
/// whole hold-down mechanism is unnecessary for it. Watch the board, not the
/// bus: it drops off USB either way.
pub fn primary_only(ports: &PowerPorts, off_time: &str) -> (s: String)
    ensures
        s@ == primary_only_text(ports@, off_time@),
{
    let mut s: String = "cutting ONLY ".to_owned();
    s.append(ports.primary().to_debug_text().as_str());
    s.append(", leaving ");
    put_dec(&mut s, ports.held().len() as u64);
    s.append(" port(s) powered\n");
    s.append("watch the board's power LED for ");
    s.append(off_time);
    s.append("...\n");
    s
}

/// What is said once the device's own port was cut alone.
pub const PRIMARY_ONLY_DONE: &'static str = "done - LED dark => VBUS is gated on this port alone\n       LED lit  => the other half kept it alive, hold-down is needed\n";

} // verus!
