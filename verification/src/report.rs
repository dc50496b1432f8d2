//! What left the bus while a device was off, and whether it should have.
//!
//! This measures USB enumeration, not VBUS. A device that stays enumerated
//! definitely kept its power, which is exactly what "did I disturb my other
//! boards?" asks. Proving the *target* lost VBUS rather than just its link still
//! needs an LED or a meter.

use vstd::prelude::*;

use crate::port;
use crate::port::{HubPort, HubPortView};
use crate::power::{PowerPorts, PowerPortsView};
use crate::text;
use crate::text::{cut_at, join, put_dec, put_padded, same_text, starts_with, text_less};

verus! {

// ---------------------------------------------------------------------------
// Snapshots of the bus
// ---------------------------------------------------------------------------

/// Whether a name in the sysfs directory of USB devices is that of a device.
/// Interface directories (`2-1:1.0`) are not; root hubs (`usb2`) are.
pub open spec fn names_device(name: Seq<char>) -> bool {
    !name.contains(':')
}

/// Whether each text sorts before those behind it.
pub open spec fn ascending(list: Seq<Seq<char>>) -> bool {
    forall|i: int, j: int|
        0 <= i < j < list.len() ==> text::sorts_before(#[trigger] list[i], #[trigger] list[j])
}

/// Whether `list` is what a snapshot of the bus shows that found `names`.
pub open spec fn snapshot_of(list: Seq<Seq<char>>, names: Seq<Seq<char>>) -> bool {
    &&& ascending(list)
    &&& forall|name: Seq<char>| #[trigger]
        list.contains(name) <==> names.contains(name) && names_device(name)
}

/// Whether `name` is that of a device.
fn is_device(name: &str) -> (yes: bool)
    ensures
        yes == names_device(name@),
{
    proof {
        text::lemma_find_char(name@, ':');
        let n = text::find_char(name@, ':');
        if n < name@.len() {
            assert(name@[n as int] == ':');
        }
    }
    cut_at(name, ':').unicode_len() == name.unicode_len()
}

/// Whether `s` is among the texts of `list`.
fn listed(list: &Vec<String>, s: &str) -> (yes: bool)
    ensures
        yes == text::texts(list@).contains(s@),
{
    let ghost all = text::texts(list@);
    let mut i: usize = 0;
    while i < list.len()
        invariant
            i <= list.len(),
            all == text::texts(list@),
            forall|k: int| 0 <= k < i ==> #[trigger] all[k] != s@,
        decreases list.len() - i,
    {
        assert(all[i as int] == list@[i as int]@);
        if same_text(list[i].as_str(), s) {
            return true;
        }
        i = i + 1;
    }
    false
}

/// Put `name` in its place, unless it is there.
fn put_in_place(list: &mut Vec<String>, name: &str)
    requires
        ascending(text::texts(old(list)@)),
    ensures
        ascending(text::texts(final(list)@)),
        forall|s: Seq<char>| #[trigger]
            text::texts(final(list)@).contains(s) <==> s == name@ || text::texts(
                old(list)@,
            ).contains(s),
{
    let ghost all = text::texts(list@);
    let mut n: usize = 0;
    while n < list.len() && text_less(list[n].as_str(), name)
        invariant
            n <= list.len(),
            all == text::texts(list@),
            forall|k: int| 0 <= k < n ==> text::sorts_before(#[trigger] all[k], name@),
        decreases list.len() - n,
    {
        assert(all[n as int] == list@[n as int]@);
        n = n + 1;
    }
    if n < list.len() {
        assert(all[n as int] == list@[n as int]@);
        if same_text(list[n].as_str(), name) {
            return;
        }
    }
    list.insert(n, name.to_owned());
    let ghost new = text::texts(list@);
    proof {
        assert(new =~= all.insert(n as int, name@));
        assert forall|i: int, j: int| 0 <= i < j < new.len() implies text::sorts_before(
            #[trigger] new[i],
            #[trigger] new[j],
        ) by {
            if n < all.len() {
                text::lemma_sorts_all(name@, all[n as int], all[n as int]);
                if j > n + 1 {
                    assert(text::sorts_before(all[n as int], all[j - 1]));
                    text::lemma_sorts_all(name@, all[n as int], all[j - 1]);
                }
            }
            if i < n && j < n {
                assert(text::sorts_before(all[i], all[j]));
            } else if i < n && j > n {
                assert(text::sorts_before(all[i], all[j - 1]));
            } else if i > n {
                assert(text::sorts_before(all[i - 1], all[j - 1]));
            }
        }
        assert forall|s: Seq<char>| #[trigger] new.contains(s) <==> s == name@ || all.contains(
            s,
        ) by {
            if new.contains(s) {
                let i = choose|i: int| 0 <= i < new.len() && new[i] == s;
                if i < n {
                    assert(all[i] == s);
                } else if i > n {
                    assert(all[i - 1] == s);
                }
            }
            if s == name@ {
                assert(new[n as int] == s);
            }
            if all.contains(s) {
                let i = choose|i: int| 0 <= i < all.len() && all[i] == s;
                if i < n {
                    assert(new[i] == s);
                } else {
                    assert(new[i + 1] == s);
                }
            }
        }
    }
}

/// Every USB *device* currently enumerated, by sysfs location, from the names
/// in the sysfs directory of USB devices. Interface directories (`2-1:1.0`) are
/// skipped; root hubs (`usb2`) are kept.
pub fn bus_snapshot(names: &Vec<String>) -> (list: Vec<String>)
    ensures
        snapshot_of(text::texts(list@), text::texts(names@)),
{
    let ghost all = text::texts(names@);
    let mut list: Vec<String> = Vec::new();
    let mut i: usize = 0;
    assert(snapshot_of(text::texts(list@), all.take(0)));
    while i < names.len()
        invariant
            i <= names.len(),
            all == text::texts(names@),
            snapshot_of(text::texts(list@), all.take(i as int)),
        decreases names.len() - i,
    {
        let ghost before = text::texts(list@);
        let name: &str = names[i].as_str();
        assert(all[i as int] == name@);
        if is_device(name) {
            put_in_place(&mut list, name);
        }
        proof {
            let more = all.take(i + 1);
            let fewer = all.take(i as int);
            assert(more =~= fewer.push(name@));
            assert forall|s: Seq<char>| #[trigger] text::texts(list@).contains(s)
                <==> more.contains(s) && names_device(s) by {
                if more.contains(s) {
                    let k = choose|k: int| 0 <= k < more.len() && more[k] == s;
                    if k < fewer.len() {
                        assert(fewer[k] == s);
                    }
                }
                if fewer.contains(s) {
                    let k = choose|k: int| 0 <= k < fewer.len() && fewer[k] == s;
                    assert(more[k] == s);
                }
                if s == name@ {
                    assert(more[fewer.len() as int] == s);
                }
            }
        }
        i = i + 1;
    }
    assert(all.take(all.len() as int) =~= all);
    list
}

// ---------------------------------------------------------------------------
// What should drop
// ---------------------------------------------------------------------------

impl PowerPortsView {
    /// Where a device would be on each of the ports.
    pub open spec fn feeds(self) -> Seq<Seq<char>> {
        seq![self.primary.child_location()] + self.held.map_values(
            |p: HubPortView| p.child_location(),
        )
    }
}

/// Those of the places that the ports feed at which something is.
pub open spec fn expected_in(ports: PowerPortsView, before: Seq<Seq<char>>) -> Seq<Seq<char>> {
    ports.feeds().filter(|location: Seq<char>| before.contains(location))
}

/// What should drop, of what was on the bus before.
///
/// Held-down ports are empty, unless the target is a hub: then one of them feeds
/// its other half, which drops along with it.
pub fn expected(ports: &PowerPorts, before: &Vec<String>) -> (list: Vec<String>)
    ensures
        text::texts(list@) == expected_in(ports@, text::texts(before@)),
{
    let ghost feeds = ports@.feeds();
    let ghost keep = |location: Seq<char>| text::texts(before@).contains(location);
    let held: &[HubPort] = ports.held();
    let mut list: Vec<String> = Vec::new();
    let first: String = ports.primary().child_location();
    proof {
        reveal(Seq::filter);
        assert(feeds.take(0) =~= Seq::<Seq<char>>::empty());
        assert(feeds.take(1).drop_last() =~= feeds.take(0));
        assert(feeds.take(1).last() == first@);
        assert(text::texts(list@) =~= feeds.take(0).filter(keep));
    }
    if listed(before, first.as_str()) {
        let ghost none = list@;
        list.push(first);
        assert(text::texts(list@) =~= text::texts(none).push(first@));
    }
    let mut i: usize = 0;
    while i < held.len()
        invariant
            i <= held.len(),
            ports@.held == port::port_views(held@),
            feeds == ports@.feeds(),
            keep == (|location: Seq<char>| text::texts(before@).contains(location)),
            text::texts(list@) == feeds.take(i + 1).filter(keep),
        decreases held.len() - i,
    {
        reveal(Seq::filter);
        let ghost sofar = list@;
        let location: String = held[i].child_location();
        assert(feeds.take(i + 2).drop_last() =~= feeds.take(i + 1));
        assert(feeds.take(i + 2).last() == location@);
        if listed(before, location.as_str()) {
            list.push(location);
            assert(text::texts(list@) =~= text::texts(sofar).push(location@));
        }
        i = i + 1;
    }
    assert(feeds.take(feeds.len() as int) =~= feeds);
    list
}

/// What is expected to drop, in words.
pub open spec fn expectation_text(expected: Seq<Seq<char>>) -> Seq<char> {
    "expecting only "@ + text::joined(expected, ", "@) + " (and anything below) to drop\n\n"@
        + "watch the board's power LED: dark => VBUS was cut, lit => only the link dropped\n\n"@
}

/// What is expected to drop, in words.
pub fn expectation(expected: &Vec<String>) -> (s: String)
    ensures
        s@ == expectation_text(text::texts(expected@)),
{
    let mut s: String = "expecting only ".to_owned();
    s.append(join(expected, ", ").as_str());
    s.append(" (and anything below) to drop\n\n");
    s.append("watch the board's power LED: dark => VBUS was cut, lit => only the link dropped\n\n");
    s
}

// ---------------------------------------------------------------------------
// What did drop
// ---------------------------------------------------------------------------

/// Whether a device that drops is expected, or below one that is.
pub open spec fn intended(device: Seq<char>, expected: Seq<Seq<char>>) -> bool {
    exists|i: int| 0 <= i < expected.len() && #[trigger] at_or_below(device, expected[i])
}

/// Whether a location is another, or below it.
pub open spec fn at_or_below(device: Seq<char>, location: Seq<char>) -> bool {
    device == location || text::begins_with(device, location + "."@)
}

/// Those that were there and no longer are.
pub open spec fn lost(before: Seq<Seq<char>>, now: Seq<Seq<char>>) -> Seq<Seq<char>> {
    before.filter(|device: Seq<char>| !now.contains(device))
}

/// Those of the devices that should not have dropped.
pub open spec fn collateral(dropped: Seq<Seq<char>>, expected: Seq<Seq<char>>) -> Seq<Seq<char>> {
    dropped.filter(|device: Seq<char>| !intended(device, expected))
}

/// Whether one of the devices should have dropped.
pub open spec fn any_intended(dropped: Seq<Seq<char>>, expected: Seq<Seq<char>>) -> bool {
    exists|i: int| 0 <= i < dropped.len() && intended(#[trigger] dropped[i], expected)
}

/// A line for each device that dropped.
pub open spec fn dropped_lines(dropped: Seq<Seq<char>>, expected: Seq<Seq<char>>) -> Seq<char>
    decreases dropped.len(),
{
    if dropped.len() == 0 {
        Seq::empty()
    } else {
        dropped_lines(dropped.drop_last(), expected) + ("   "@ + text::padded(dropped.last(), 18)
            + (if intended(dropped.last(), expected) {
            " intended\n"@
        } else {
            " <== COLLATERAL\n"@
        }))
    }
}

/// A line for each device.
pub open spec fn plain_lines(devices: Seq<Seq<char>>) -> Seq<char>
    decreases devices.len(),
{
    if devices.len() == 0 {
        Seq::empty()
    } else {
        plain_lines(devices.drop_last()) + ("   "@ + devices.last() + "\n"@)
    }
}

/// Whether the target dropped, nothing else did, and all of it came back.
pub open spec fn all_well(
    before: Seq<Seq<char>>,
    during: Seq<Seq<char>>,
    after: Seq<Seq<char>>,
    expected: Seq<Seq<char>>,
) -> bool {
    let dropped = lost(before, during);
    &&& any_intended(dropped, expected)
    &&& collateral(dropped, expected).len() == 0
    &&& lost(before, after).len() == 0
}

/// What came of cutting the power, from what was on the bus before, during and
/// after the cut, and how long the cut and the restore took, in words.
pub open spec fn verify_text(
    before: Seq<Seq<char>>,
    during: Seq<Seq<char>>,
    after: Seq<Seq<char>>,
    expected: Seq<Seq<char>>,
    cut: Seq<char>,
    restore: Seq<char>,
    held: nat,
) -> Seq<char> {
    let dropped = lost(before, during);
    let missing = lost(before, after);
    let strays = collateral(dropped, expected);
    "left the bus while powered off:\n"@ + dropped_lines(dropped, expected) + (if missing.len()
        == 0 {
        Seq::empty()
    } else {
        "\ndid not come back:\n"@ + plain_lines(missing)
    }) + "\n"@ + (if !any_intended(dropped, expected) {
        "WARNING: the target never left the bus - power was not cut at all\n"@
    } else if all_well(before, during, after, expected) {
        "OK: only the intended port's subtree dropped, everything came back\n"@
    } else {
        Seq::empty()
    }) + (if strays.len() > 0 {
        "PROBLEM: "@ + text::dec(strays.len()) + " unrelated device(s) lost their connection\n"@
    } else {
        Seq::empty()
    }) + "\ncut took "@ + cut + ", restore took "@ + restore + " ("@ + text::dec(held)
        + " ports held down)\n"@
}

/// Whether a device that drops is expected, or below one that is.
fn is_intended(device: &str, expected: &Vec<String>) -> (yes: bool)
    ensures
        yes == intended(device@, text::texts(expected@)),
{
    let ghost all = text::texts(expected@);
    let mut i: usize = 0;
    while i < expected.len()
        invariant
            i <= expected.len(),
            all == text::texts(expected@),
            forall|k: int| 0 <= k < i ==> !#[trigger] at_or_below(device@, all[k]),
        decreases expected.len() - i,
    {
        let location: &str = expected[i].as_str();
        assert(all[i as int] == location@);
        let mut below: String = location.to_owned();
        below.append(".");
        if same_text(device, location) || starts_with(device, below.as_str()) {
            assert(at_or_below(device@, all[i as int]));
            return true;
        }
        i = i + 1;
    }
    false
}

/// Those that were there and no longer are.
fn difference(before: &Vec<String>, now: &Vec<String>) -> (list: Vec<String>)
    ensures
        text::texts(list@) == lost(text::texts(before@), text::texts(now@)),
{
    let ghost all = text::texts(before@);
    let ghost keep = |device: Seq<char>| !text::texts(now@).contains(device);
    let mut list: Vec<String> = Vec::new();
    let mut i: usize = 0;
    reveal(Seq::filter);
    assert(all.take(0) =~= Seq::<Seq<char>>::empty());
    assert(text::texts(list@) =~= all.take(0).filter(keep));
    while i < before.len()
        invariant
            i <= before.len(),
            all == text::texts(before@),
            keep == (|device: Seq<char>| !text::texts(now@).contains(device)),
            text::texts(list@) == all.take(i as int).filter(keep),
        decreases before.len() - i,
    {
        reveal(Seq::filter);
        let ghost sofar = list@;
        assert(all.take(i + 1).drop_last() =~= all.take(i as int));
        assert(all.take(i + 1).last() == before@[i as int]@);
        if !listed(now, before[i].as_str()) {
            list.push(before[i].clone());
            assert(text::texts(list@) =~= text::texts(sofar).push(before@[i as int]@));
        }
        i = i + 1;
    }
    assert(all.take(all.len() as int) =~= all);
    list
}

/// A line for each device that dropped, how many of them should not have, and
/// whether one should have.
fn write_dropped(dropped: &Vec<String>, expected: &Vec<String>, out: &mut String) -> (counts: (
    usize,
    bool,
))
    ensures
        final(out)@ == old(out)@ + dropped_lines(text::texts(dropped@), text::texts(expected@)),
        counts.0 == collateral(text::texts(dropped@), text::texts(expected@)).len(),
        counts.1 == any_intended(text::texts(dropped@), text::texts(expected@)),
{
    let ghost all = text::texts(dropped@);
    let ghost wanted = text::texts(expected@);
    let ghost stray = |device: Seq<char>| !intended(device, wanted);
    let ghost start = out@;
    let mut strays: usize = 0;
    let mut any: bool = false;
    let mut i: usize = 0;
    reveal(Seq::filter);
    assert(all.take(0) =~= Seq::<Seq<char>>::empty());
    assert(out@ =~= start + dropped_lines(all.take(0), wanted));
    while i < dropped.len()
        invariant
            strays <= i <= dropped.len(),
            all == text::texts(dropped@),
            wanted == text::texts(expected@),
            stray == (|device: Seq<char>| !intended(device, wanted)),
            out@ == start + dropped_lines(all.take(i as int), wanted),
            strays == all.take(i as int).filter(stray).len(),
            any == exists|k: int| 0 <= k < i && intended(#[trigger] all[k], wanted),
        decreases dropped.len() - i,
    {
        reveal(Seq::filter);
        let device: &str = dropped[i].as_str();
        assert(all.take(i + 1).drop_last() =~= all.take(i as int));
        assert(all.take(i + 1).last() == device@);
        assert(all[i as int] == device@);
        let mut line: String = "   ".to_owned();
        put_padded(&mut line, device, 18);
        if is_intended(device, expected) {
            any = true;
            line.append(" intended\n");
        } else {
            strays = strays + 1;
            line.append(" <== COLLATERAL\n");
        }
        out.append(line.as_str());
        assert(out@ =~= start + dropped_lines(all.take(i + 1), wanted));
        i = i + 1;
    }
    assert(all.take(all.len() as int) =~= all);
    (strays, any)
}

/// A line for each device.
fn write_plain(devices: &Vec<String>, out: &mut String)
    ensures
        final(out)@ == old(out)@ + plain_lines(text::texts(devices@)),
{
    let ghost all = text::texts(devices@);
    let ghost start = out@;
    let mut i: usize = 0;
    assert(all.take(0) =~= Seq::<Seq<char>>::empty());
    assert(out@ =~= start + plain_lines(all.take(0)));
    while i < devices.len()
        invariant
            i <= devices.len(),
            all == text::texts(devices@),
            out@ == start + plain_lines(all.take(i as int)),
        decreases devices.len() - i,
    {
        assert(all.take(i + 1).drop_last() =~= all.take(i as int));
        assert(all.take(i + 1).last() == devices@[i as int]@);
        let mut line: String = "   ".to_owned();
        line.append(devices[i].as_str());
        line.append("\n");
        out.append(line.as_str());
        assert(out@ =~= start + plain_lines(all.take(i + 1)));
        i = i + 1;
    }
    assert(all.take(all.len() as int) =~= all);
}

/// What came of cutting the power, from what was on the bus before, during and
/// after the cut: what left, flagging anything that should not have, and what
/// did not come back. `cut` and `restore` are how long each took, in words, `held`
/// is how many ports were held down.
pub fn verify(
    before: &Vec<String>,
    during: &Vec<String>,
    after: &Vec<String>,
    expected: &Vec<String>,
    cut: &str,
    restore: &str,
    held: usize,
) -> (s: String)
    ensures
        s@ == verify_text(
            text::texts(before@),
            text::texts(during@),
            text::texts(after@),
            text::texts(expected@),
            cut@,
            restore@,
            held as nat,
        ),
{
    let dropped: Vec<String> = difference(before, during);
    let missing: Vec<String> = difference(before, after);
    let mut s: String = "left the bus while powered off:\n".to_owned();
    let (strays, any) = write_dropped(&dropped, expected, &mut s);
    let ghost so_far = s@;
    if missing.len() > 0 {
        let mut part: String = "\ndid not come back:\n".to_owned();
        write_plain(&missing, &mut part);
        s.append(part.as_str());
    } else {
        assert(so_far + Seq::<char>::empty() =~= so_far);
    }
    s.append("\n");
    let ghost so_far = s@;
    if !any {
        s.append("WARNING: the target never left the bus - power was not cut at all\n");
    } else if strays == 0 && missing.len() == 0 {
        s.append("OK: only the intended port's subtree dropped, everything came back\n");
    } else {
        assert(so_far + Seq::<char>::empty() =~= so_far);
    }
    let ghost so_far = s@;
    if strays > 0 {
        let mut part: String = "PROBLEM: ".to_owned();
        put_dec(&mut part, strays as u64);
        part.append(" unrelated device(s) lost their connection\n");
        s.append(part.as_str());
    } else {
        assert(so_far + Seq::<char>::empty() =~= so_far);
    }
    s.append("\ncut took ");
    s.append(cut);
    s.append(", restore took ");
    s.append(restore);
    s.append(" (");
    put_dec(&mut s, held as u64);
    s.append(" ports held down)\n");
    s
}

// ---------------------------------------------------------------------------
// Laws
// ---------------------------------------------------------------------------

/// A snapshot is settled by the names it was taken from, whatever their order
/// and however often each occurs.
pub proof fn law_a_snapshot_has_one_order(
    list: Seq<Seq<char>>,
    other: Seq<Seq<char>>,
    names: Seq<Seq<char>>,
    other_names: Seq<Seq<char>>,
)
    requires
        snapshot_of(list, names),
        snapshot_of(other, other_names),
        forall|name: Seq<char>| #[trigger] names.contains(name) <==> other_names.contains(name),
    ensures
        list == other,
{
    assert forall|name: Seq<char>| #[trigger] list.contains(name) <==> other.contains(name) by {
        assert(names.contains(name) <==> other_names.contains(name));
    }
    lemma_ascending(list, other);
}

proof fn lemma_ascending(a: Seq<Seq<char>>, b: Seq<Seq<char>>)
    requires
        ascending(a),
        ascending(b),
        forall|s: Seq<char>| #[trigger] a.contains(s) <==> b.contains(s),
    ensures
        a == b,
    decreases a.len(),
{
    if a.len() == 0 {
        if b.len() > 0 {
            assert(b.contains(b[0]));
            assert(a.contains(b[0]));
        }
        assert(a =~= b);
    } else {
        assert(a.contains(a[0]));
        assert(b.contains(a[0]));
        let j = choose|j: int| 0 <= j < b.len() && b[j] == a[0];
        assert(b.contains(b[0]));
        assert(a.contains(b[0]));
        let i = choose|i: int| 0 <= i < a.len() && a[i] == b[0];
        if j > 0 && i > 0 {
            assert(text::sorts_before(b[0], b[j]));
            assert(text::sorts_before(a[0], a[i]));
            text::lemma_sorts_one_way(a[0], b[0]);
        }
        assert(a[0] == b[0]);
        let (x, y) = (a.drop_first(), b.drop_first());
        assert forall|s: Seq<char>| #[trigger] x.contains(s) <==> y.contains(s) by {
            lemma_drop_first(a, s);
            lemma_drop_first(b, s);
        }
        assert forall|k: int, l: int| 0 <= k < l < x.len() implies text::sorts_before(
            #[trigger] x[k],
            #[trigger] x[l],
        ) by {
            assert(text::sorts_before(a[k + 1], a[l + 1]));
        }
        assert forall|k: int, l: int| 0 <= k < l < y.len() implies text::sorts_before(
            #[trigger] y[k],
            #[trigger] y[l],
        ) by {
            assert(text::sorts_before(b[k + 1], b[l + 1]));
        }
        lemma_ascending(x, y);
        assert(a =~= seq![a[0]] + x);
        assert(b =~= seq![b[0]] + y);
    }
}

proof fn lemma_drop_first(a: Seq<Seq<char>>, s: Seq<char>)
    requires
        ascending(a),
        a.len() > 0,
    ensures
        a.drop_first().contains(s) <==> a.contains(s) && s != a[0],
{
    let x = a.drop_first();
    if x.contains(s) {
        let k = choose|k: int| 0 <= k < x.len() && x[k] == s;
        assert(a[k + 1] == s);
        assert(text::sorts_before(a[0], a[k + 1]));
        text::lemma_sorts_one_way(a[0], a[k + 1]);
    }
    if a.contains(s) && s != a[0] {
        let k = choose|k: int| 0 <= k < a.len() && a[k] == s;
        assert(x[k - 1] == s);
    }
}

/// The report says that all is well just where the target left the bus while it
/// was off, every other device that left was below it, and every device that was
/// on the bus before is on it afterwards.
pub proof fn law_all_well_means_only_the_target_dropped(
    before: Seq<Seq<char>>,
    during: Seq<Seq<char>>,
    after: Seq<Seq<char>>,
    expected: Seq<Seq<char>>,
)
    ensures
        all_well(before, during, after, expected) <==> {
            &&& exists|d: Seq<char>|
                before.contains(d) && !during.contains(d) && #[trigger] intended(d, expected)
            &&& forall|d: Seq<char>|
                before.contains(d) && !during.contains(d) ==> #[trigger] intended(d, expected)
            &&& forall|d: Seq<char>| #[trigger] before.contains(d) ==> after.contains(d)
        },
{
    let dropped = lost(before, during);
    let missing = lost(before, after);
    let strays = collateral(dropped, expected);
    assert forall|d: Seq<char>| #[trigger] dropped.contains(d) <==> before.contains(d)
        && !during.contains(d) by {
        lemma_filtered(before, |device: Seq<char>| !during.contains(device), d);
    }
    assert forall|d: Seq<char>| #[trigger] missing.contains(d) <==> before.contains(d)
        && !after.contains(d) by {
        lemma_filtered(before, |device: Seq<char>| !after.contains(device), d);
    }
    assert forall|d: Seq<char>| #[trigger] strays.contains(d) <==> dropped.contains(d) && !intended(
        d,
        expected,
    ) by {
        lemma_filtered(dropped, |device: Seq<char>| !intended(device, expected), d);
    }
    if strays.len() > 0 {
        assert(strays.contains(strays[0]));
    }
    if missing.len() > 0 {
        assert(missing.contains(missing[0]));
        assert(before.contains(missing[0]));
    }
    if any_intended(dropped, expected) {
        let i = choose|i: int|
            0 <= i < dropped.len() && intended(#[trigger] dropped[i], expected);
        assert(dropped.contains(dropped[i]));
    }
    if exists|d: Seq<char>|
        before.contains(d) && !during.contains(d) && #[trigger] intended(d, expected) {
        let d = choose|d: Seq<char>|
            before.contains(d) && !during.contains(d) && #[trigger] intended(d, expected);
        assert(dropped.contains(d));
        let i = choose|i: int| 0 <= i < dropped.len() && dropped[i] == d;
        assert(intended(dropped[i], expected));
    }
    assert forall|d: Seq<char>|
        strays.len() == 0 && before.contains(d) && !during.contains(
            d,
        ) implies #[trigger] intended(d, expected) by {
        assert(dropped.contains(d));
        assert(!strays.contains(d));
    }
    assert forall|d: Seq<char>| missing.len() == 0 && #[trigger] before.contains(
        d,
    ) implies after.contains(d) by {
        assert(!missing.contains(d));
    }
}

proof fn lemma_filtered(list: Seq<Seq<char>>, keep: spec_fn(Seq<char>) -> bool, d: Seq<char>)
    ensures
        list.filter(keep).contains(d) <==> list.contains(d) && keep(d),
    decreases list.len(),
{
    reveal(Seq::filter);
    if list.len() > 0 {
        let fewer = list.drop_last();
        lemma_filtered(fewer, keep, d);
        let kept = list.filter(keep);
        if list.contains(d) {
            let i = choose|i: int| 0 <= i < list.len() && list[i] == d;
            if i < fewer.len() {
                assert(fewer[i] == d);
            }
        }
        if fewer.contains(d) {
            let i = choose|i: int| 0 <= i < fewer.len() && fewer[i] == d;
            assert(list[i] == d);
        }
        assert(list[list.len() - 1] == list.last());
        if keep(list.last()) {
            let less = fewer.filter(keep);
            assert(kept == less.push(list.last()));
            assert(kept[kept.len() - 1] == list.last());
            if kept.contains(d) {
                let i = choose|i: int| 0 <= i < kept.len() && kept[i] == d;
                if i < less.len() {
                    assert(less[i] == d);
                }
            }
            if less.contains(d) {
                let i = choose|i: int| 0 <= i < less.len() && less[i] == d;
                assert(kept[i] == d);
            }
        }
    }
}

} // verus!
