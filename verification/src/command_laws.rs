//! What holds of every command line.

use vstd::prelude::*;

use crate::command;
use crate::command::{Action, CommandView, RefusalView};
use crate::device::{DeviceIdView, DeviceView};
use crate::device_laws;
use crate::error::ErrorView;
use crate::power::PowerPortsView;
use crate::sysfs;
use crate::text;
use crate::text_laws;

verus! {

// ---------------------------------------------------------------------------
// Options
// ---------------------------------------------------------------------------

proof fn lemma_place(before: Seq<Seq<char>>, flag: Seq<char>, after: Seq<Seq<char>>)
    requires
        !before.contains(flag),
    ensures
        command::place_of(before + seq![flag] + after, flag) == before.len(),
        command::place_of(before, flag) == before.len(),
    decreases before.len(),
{
    let all = before + seq![flag] + after;
    if before.len() > 0 {
        let rest = before.drop_first();
        assert(all[0] == before[0]);
        assert(before.contains(before[0]));
        assert(!rest.contains(flag)) by {
            if rest.contains(flag) {
                let i = choose|i: int| 0 <= i < rest.len() && rest[i] == flag;
                assert(before[i + 1] == flag);
            }
        }
        lemma_place(rest, flag, after);
        assert(all.drop_first() =~= rest + seq![flag] + after);
    } else {
        assert(all[0] == flag);
    }
}

/// An option is the argument behind the first such flag, wherever the two stand,
/// and what is left is everything else, in order. A flag in the last place has no
/// value. Without the flag nothing is taken.
pub proof fn law_an_option_is_taken_out(
    before: Seq<Seq<char>>,
    flag: Seq<char>,
    value: Seq<char>,
    after: Seq<Seq<char>>,
)
    requires
        !before.contains(flag),
    ensures
        command::option_in(before + seq![flag, value] + after, flag) == Ok::<
            Option<Seq<char>>,
            Seq<char>,
        >(Some(value)),
        command::without_option(before + seq![flag, value] + after, flag) == before + after,
        command::option_in(before.push(flag), flag) == Err::<Option<Seq<char>>, Seq<char>>(
            flag + " needs a value"@,
        ),
        command::option_in(before, flag) == Ok::<Option<Seq<char>>, Seq<char>>(None),
        command::without_option(before, flag) == before,
{
    let all = before + seq![flag, value] + after;
    lemma_place(before, flag, seq![value] + after);
    assert(all =~= before + seq![flag] + (seq![value] + after));
    let n = before.len() as int;
    assert(all[n + 1] == value);
    assert(all.remove(n + 1).remove(n) =~= before + after);
    lemma_place(before, flag, Seq::empty());
    assert(before.push(flag) =~= before + seq![flag] + Seq::<Seq<char>>::empty());
}

/// How many hubs above the device the target is can be said anywhere on the
/// command line, and changes nothing else. It must be said, as a number from 0 to
/// 255, where the flag stands.
pub proof fn law_above_can_stand_anywhere(
    before: Seq<Seq<char>>,
    n: Seq<char>,
    after: Seq<Seq<char>>,
)
    requires
        !(before + after).contains("--above"@),
    ensures
        ({
            let with = command::command_in(before + seq!["--above"@, n] + after);
            match text::number(n, 10, 255) {
                None => with == Err::<CommandView, RefusalView>(RefusalView::NotANumber(n)),
                Some(above) => match command::command_in(before + after) {
                    Ok(CommandView::Device { device, action, .. }) => with == Ok::<
                        CommandView,
                        RefusalView,
                    >(CommandView::Device { device, above: above as u8, action }),
                    other => with == other,
                },
            }
        }),
        command::command_in(before.push("--above"@)) == Err::<CommandView, RefusalView>(
            RefusalView::NoValue("--above"@ + " needs a value"@),
        ),
{
    let flag = "--above"@;
    assert(!before.contains(flag)) by {
        if before.contains(flag) {
            let i = choose|i: int| 0 <= i < before.len() && before[i] == flag;
            assert((before + after)[i] == flag);
        }
    }
    law_an_option_is_taken_out(before, flag, n, after);
    law_an_option_is_taken_out(before + after, flag, n, Seq::empty());
}

// ---------------------------------------------------------------------------
// What is asked for
// ---------------------------------------------------------------------------

/// Whether an argument begins like a flag.
pub open spec fn flag_like(s: Seq<char>) -> bool {
    s.len() >= 2 && s[0] == '-' && s[1] == '-'
}

proof fn lemma_flag_like(s: Seq<char>)
    ensures
        text::begins_with(s, "--"@) == flag_like(s),
        flag_like(s) ==> text::number(s, 16, 65535) is None,
{
    reveal_strlit("--");
    if flag_like(s) {
        assert(s.take(2) =~= "--"@);
        text_laws::law_what_is_no_number(s, 16, 65535, 0);
    }
    if text::begins_with(s, "--"@) {
        assert(s.take(2)[0] == '-' && s.take(2)[1] == '-');
    }
}

proof fn lemma_no_above(args: Seq<Seq<char>>)
    requires
        !args.contains("--above"@),
    ensures
        command::command_in(args) == command::form_of(args, 0),
{
    law_an_option_is_taken_out(args, "--above"@, Seq::empty(), Seq::empty());
}

/// The device asked for: vendor and product in hexadecimal, and the argument
/// behind them as the serial, unless that begins like a flag or is not there.
/// What follows does not change which device it is.
pub proof fn law_the_device_asked_for(
    vid: Seq<char>,
    pid: Seq<char>,
    serial: Seq<char>,
    rest: Seq<Seq<char>>,
    v: nat,
    p: nat,
)
    requires
        text::number(vid, 16, 65535) == Some(v),
        text::number(pid, 16, 65535) == Some(p),
        serial != "--above"@,
        !rest.contains("--above"@),
    ensures
        command::command_in(seq![vid, pid, serial] + rest) matches Ok(
            CommandView::Device { device, above, .. },
        ) && {
            &&& device.vid == v
            &&& device.pid == p
            &&& device.serial == (if flag_like(serial) {
                None
            } else {
                Some(serial)
            })
            &&& above == 0
        },
        command::command_in(seq![vid, pid]) == Ok::<CommandView, RefusalView>(
            CommandView::Device {
                device: DeviceIdView { vid: v as u16, pid: p as u16, serial: None },
                above: 0,
                action: Action::Cycle,
            },
        ),
{
    let args = seq![vid, pid, serial] + rest;
    let two = seq![vid, pid];
    reveal_strlit("--above");
    reveal_strlit("--probe");
    lemma_flag_like(vid);
    lemma_flag_like(pid);
    lemma_flag_like(serial);
    assert(!flag_like(vid) && !flag_like(pid));
    assert(flag_like("--above"@) && flag_like("--probe"@));
    assert(!args.contains("--above"@)) by {
        if args.contains("--above"@) {
            let i = choose|i: int| 0 <= i < args.len() && args[i] == "--above"@;
            if i >= 3 {
                assert(rest[i - 3] == "--above"@);
            }
        }
    }
    assert(!two.contains("--above"@)) by {
        if two.contains("--above"@) {
            let i = choose|i: int| 0 <= i < two.len() && two[i] == "--above"@;
            assert(i == 0 || i == 1);
        }
    }
    lemma_no_above(args);
    lemma_no_above(two);
    assert(args.skip(2)[0] == serial);
    assert(text::number(vid, 16, 65535)->0 <= 65535);
    assert(text::number(pid, 16, 65535)->0 <= 65535);
    assert(two.skip(2) =~= Seq::<Seq<char>>::empty());
}

/// What is done with the device: to debug comes before to verify, and that before
/// cutting its own port alone; without any of these flags it is cycled. The flags
/// can stand in any order.
pub proof fn law_the_action_asked_for(
    vid: Seq<char>,
    pid: Seq<char>,
    rest: Seq<Seq<char>>,
    v: nat,
    p: nat,
)
    requires
        text::number(vid, 16, 65535) == Some(v),
        text::number(pid, 16, 65535) == Some(p),
        !rest.contains("--above"@),
    ensures
        command::command_in(seq![vid, pid] + rest) matches Ok(
            CommandView::Device { action, .. },
        ) && {
            &&& action == Action::Debug <==> rest.contains("--debug"@)
            &&& action == Action::Verify <==> rest.contains("--verify"@) && !rest.contains(
                "--debug"@,
            )
            &&& action == Action::PrimaryOnly <==> rest.contains("--primary-only"@)
                && !rest.contains("--debug"@) && !rest.contains("--verify"@)
            &&& action == Action::Cycle <==> !rest.contains("--debug"@) && !rest.contains(
                "--verify"@,
            ) && !rest.contains("--primary-only"@)
        },
{
    let args = seq![vid, pid] + rest;
    reveal_strlit("--above");
    reveal_strlit("--probe");
    lemma_flag_like(vid);
    lemma_flag_like(pid);
    assert(flag_like("--above"@) && flag_like("--probe"@));
    assert(!args.contains("--above"@)) by {
        if args.contains("--above"@) {
            let i = choose|i: int| 0 <= i < args.len() && args[i] == "--above"@;
            if i >= 2 {
                assert(rest[i - 2] == "--above"@);
            }
        }
    }
    lemma_no_above(args);
    assert(args.skip(2) =~= rest);
}

/// The tree is asked for by its flag alone, and a probe by its flag, a hub and the
/// number of a port.
pub proof fn law_the_other_commands(args: Seq<Seq<char>>, hub: Seq<char>, port: Seq<char>)
    requires
        !args.contains("--above"@),
        hub != "--above"@,
        port != "--above"@,
    ensures
        command::command_in(args) == Ok::<CommandView, RefusalView>(CommandView::Tree) <==> args
            == seq!["--tree"@],
        command::command_in(seq!["--probe"@, hub, port]) == (match text::number(port, 10, 255) {
            Some(n) => Ok::<CommandView, RefusalView>(CommandView::Probe { hub, port: n as u8 }),
            None => Err(RefusalView::NotANumber(port)),
        }),
        command::command_in(args) matches Ok(CommandView::Probe { .. }) ==> args.len() == 3
            && args[0] == "--probe"@,
{
    let probe = seq!["--probe"@, hub, port];
    reveal_strlit("--probe");
    reveal_strlit("--above");
    reveal_strlit("--tree");
    assert("--probe"@[2] == 'p' && "--above"@[2] == 'a');
    assert(!probe.contains("--above"@)) by {
        if probe.contains("--above"@) {
            let i = choose|i: int| 0 <= i < probe.len() && probe[i] == "--above"@;
            assert(i == 0 || i == 1 || i == 2);
        }
    }
    lemma_no_above(probe);
    lemma_no_above(args);
    if args.len() == 1 && args[0] == "--tree"@ {
        assert(args =~= seq!["--tree"@]);
    }
}

/// What is refused: fewer than two arguments that are not the flag for the tree,
/// and anything else that begins with no vendor and product in hexadecimal.
pub proof fn law_what_is_refused(args: Seq<Seq<char>>)
    requires
        !args.contains("--above"@),
    ensures
        args.len() == 0 ==> command::command_in(args) == Err::<CommandView, RefusalView>(
            RefusalView::Usage,
        ),
        args.len() == 1 && args[0] != "--tree"@ ==> command::command_in(args) == Err::<
            CommandView,
            RefusalView,
        >(RefusalView::Usage),
        args.len() >= 2 && !(args.len() == 3 && args[0] == "--probe"@) && (text::number(
            args[0],
            16,
            65535,
        ) is None || text::number(args[1], 16, 65535) is None) ==> command::command_in(args)
            == Err::<CommandView, RefusalView>(RefusalView::NotHex),
{
    lemma_no_above(args);
}

// ---------------------------------------------------------------------------
// What is said
// ---------------------------------------------------------------------------

/// The hint to a device behind a hub says how far above the device that hub is,
/// from the device itself, and which hub; the hint to an unpaired hub says which
/// to probe. No other error has a hint.
pub proof fn law_hints_name_the_way_out(
    above: u8,
    device: Seq<char>,
    hub: Seq<char>,
    hub_id: Option<DeviceIdView>,
    levels: u8,
    port: Seq<char>,
    other_side: Seq<char>,
    error: ErrorView,
)
    ensures
        command::hint_text(ErrorView::BehindHub { device, hub, hub_id, levels }, above) == Some(
            "hint: add `--above "@ + text::dec((above + levels) as nat) + "` to cycle "@ + hub
                + " and everything on it"@,
        ),
        command::hint_text(ErrorView::HubUnpaired { port, hub, other_side }, above) == Some(
            "hint: `--tree` shows the hubs and their pairing, `--probe "@ + hub
                + " <port>` finds the missing pair, then pass the file with `--pairs-file <path>`"@,
        ),
        command::hint_text(error, above) is Some <==> error is BehindHub || error is HubUnpaired,
{
}

proof fn lemma_dotted_is_joined(path: Seq<u8>)
    ensures
        text::joined(command::port_texts(path), "."@) == sysfs::dotted(path),
    decreases path.len(),
{
    let parts = command::port_texts(path);
    if path.len() == 0 {
        assert(parts =~= Seq::<Seq<char>>::empty());
        assert(text::joined(parts, "."@) =~= Seq::<char>::empty());
    } else {
        lemma_dotted_is_joined(path.drop_last());
        assert(parts.drop_last() =~= command::port_texts(path.drop_last()));
        assert(parts.last() == text::dec(path.last() as nat));
    }
}

/// A device is said to be where sysfs has it.
pub proof fn law_a_device_is_said_to_be_where_it_is(dev: DeviceView)
    ensures
        dev.path is Ok && dev.path->Ok_0.len() > 0 ==> command::place_text(dev)
            == sysfs::location_of(dev.bus, dev.path->Ok_0),
{
    lemma_dotted_is_joined(dev.ports());
}

/// The timing names each part once, in the order they were gone through.
pub proof fn law_timing_is_written_out(
    find: Seq<char>,
    cycle: Seq<char>,
    off_time: Seq<char>,
    back: Seq<char>,
    total: Seq<char>,
)
    ensures
        command::timing_text(find, cycle, off_time, back, total) == "find "@ + find + ", cycle "@
            + cycle + " (off "@ + off_time + "), re-enumerate "@ + back + ", total "@ + total,
{
}

/// Before one port is cut alone, it is named with its speed, and how many others
/// stay powered.
pub proof fn law_what_is_cut_alone_is_named(ports: PowerPortsView, off_time: Seq<char>)
    ensures
        text_laws::holds(
            command::primary_only_text(ports, off_time),
            "cutting ONLY "@ + (ports.primary.hub.location + " port "@ + text::dec(
                ports.primary.port as nat,
            ) + " ("@ + (if device_laws::version_number(ports.primary.hub.version) >= 0x030000 {
                "SS"@
            } else {
                "HS"@
            }) + ")"@) + ", leaving "@ + text::dec(ports.held.len()) + " port(s) powered\n"@,
        ),
        text_laws::holds(
            command::primary_only_text(ports, off_time),
            "watch the board's power LED for "@ + off_time,
        ),
{
    let s = command::primary_only_text(ports, off_time);
    let name = ports.primary.debug_text();
    device_laws::law_a_port_is_written_out(ports.primary);
    let head = "cutting ONLY "@ + name + ", leaving "@ + text::dec(ports.held.len())
        + " port(s) powered\n"@;
    let watch = "watch the board's power LED for "@ + off_time;
    assert(s =~= Seq::<char>::empty() + head + (watch + "...\n"@));
    assert(s =~= head + watch + "...\n"@);
}

} // verus!
