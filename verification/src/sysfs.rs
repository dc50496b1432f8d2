//! sysfs facts about devices: locations, attributes, port directories.
//!
//! Reading an attribute is the caller's; what was read comes in as
//! `Option<String>`, `None` where the file could not be read.

use vstd::prelude::*;

use crate::text;
use crate::text::{put_dec, read_number, starts_with, trim};

verus! {

/// The directory in which sysfs lists every USB device.
pub const SYSFS_USB: &'static str = "/sys/bus/usb/devices";

/// A port path as sysfs writes it: the port numbers, separated by dots.
pub open spec fn dotted(path: Seq<u8>) -> Seq<char>
    decreases path.len(),
{
    if path.len() == 0 {
        Seq::empty()
    } else if path.len() == 1 {
        text::dec(path[0] as nat)
    } else {
        dotted(path.drop_last()) + "."@ + text::dec(path.last() as nat)
    }
}

/// sysfs location of the device at the end of `path` on `bus`, e.g.
/// `2-1.2.1.1`, or `usb2` for a root hub, whose path is empty.
pub open spec fn location_of(bus: u8, path: Seq<u8>) -> Seq<char> {
    if path.len() == 0 {
        "usb"@ + text::dec(bus as nat)
    } else {
        text::dec(bus as nat) + "-"@ + dotted(path)
    }
}

/// sysfs location of a device, e.g. `2-1.2.1.1`, or `usb2` for a root hub.
pub fn sysfs_location(bus: u8, path: &[u8]) -> (location: String)
    ensures
        location@ == location_of(bus, path@),
{
    let mut s: String = String::new();
    if path.len() == 0 {
        s.append("usb");
        put_dec(&mut s, bus as u64);
        assert(s@ =~= location_of(bus, path@));
        return s;
    }
    put_dec(&mut s, bus as u64);
    s.append("-");
    let ghost head = s@;
    assert(head =~= text::dec(bus as nat) + "-"@);
    let mut i: usize = 0;
    assert(path@.take(0) =~= Seq::<u8>::empty());
    while i < path.len()
        invariant
            i <= path.len(),
            s@ == head + dotted(path@.take(i as int)),
        decreases path.len() - i,
    {
        let ghost longer = path@.take(i + 1);
        assert(longer.drop_last() =~= path@.take(i as int));
        if i > 0 {
            s.append(".");
        }
        put_dec(&mut s, path[i] as u64);
        assert(s@ =~= head + dotted(longer));
        i = i + 1;
    }
    assert(path@.take(path@.len() as int) =~= path@);
    s
}

/// sysfs location of the device on port `port` of the hub at `hub`.
pub open spec fn location_below(hub: Seq<char>, bus: u8, port: u8) -> Seq<char> {
    if text::begins_with(hub, "usb"@) {
        text::dec(bus as nat) + "-"@ + text::dec(port as nat)
    } else {
        hub + "."@ + text::dec(port as nat)
    }
}

/// sysfs location of the device on port `port` of the hub at `hub`, e.g.
/// `2-1.3` below `2-1`, or `3-2` below the root hub `usb3`.
pub fn child_location(hub: &str, bus: u8, port: u8) -> (location: String)
    ensures
        location@ == location_below(hub@, bus, port),
{
    let mut s: String = String::new();
    if starts_with(hub, "usb") {
        put_dec(&mut s, bus as u64);
        s.append("-");
        put_dec(&mut s, port as u64);
    } else {
        s.append(hub);
        s.append(".");
        put_dec(&mut s, port as u64);
    }
    assert(s@ =~= location_below(hub@, bus, port));
    s
}

/// The path of `attribute` of the device at `location`.
pub open spec fn path_of_attribute(location: Seq<char>, attribute: Seq<char>) -> Seq<char> {
    SYSFS_USB@ + "/"@ + location + "/"@ + attribute
}

/// The path of `attribute` of the device at `location`.
pub fn attribute_path(location: &str, attribute: &str) -> (path: String)
    ensures
        path@ == path_of_attribute(location@, attribute@),
{
    let mut s: String = SYSFS_USB.to_owned();
    s.append("/");
    s.append(location);
    s.append("/");
    s.append(attribute);
    s
}

/// What the string in an option holds.
pub open spec fn opt_text(s: Option<String>) -> Option<Seq<char>> {
    match s {
        Some(s) => Some(s@),
        None => None,
    }
}

/// An attribute as trimmed text, or empty if it was unreadable.
pub open spec fn attribute_text(content: Option<Seq<char>>) -> Seq<char> {
    match content {
        Some(s) => text::trimmed(s),
        None => Seq::empty(),
    }
}

/// A device's sysfs attribute as trimmed text, or empty if unreadable.
pub fn read_sysfs(content: &Option<String>) -> (s: String)
    ensures
        s@ == attribute_text(opt_text(*content)),
{
    match content {
        Some(s) => trim(s.as_str()).to_owned(),
        None => String::new(),
    }
}

/// A `u8` that text writes in `radix`.
pub open spec fn byte(s: Seq<char>, radix: nat) -> Option<u8> {
    match text::number(s, radix, 255) {
        Some(n) => Some(n as u8),
        None => None,
    }
}

/// Read text as a `u8` in `radix`.
pub fn read_byte(s: &str, radix: u32) -> (n: Option<u8>)
    requires
        2 <= radix <= 16,
    ensures
        n == byte(s@, radix as nat),
{
    match read_number(s, radix, 255) {
        Some(n) => Some(n as u8),
        None => None,
    }
}

/// A hub's `bNbrPorts` from the content of its `maxchild` attribute, or `None`
/// if that was unreadable.
pub fn read_max_child(content: &Option<String>) -> (nports: Option<u8>)
    ensures
        nports == byte(attribute_text(opt_text(*content)), 10),
{
    let s: String = read_sysfs(content);
    read_byte(s.as_str(), 10)
}

/// `bDeviceClass` as sysfs prints it: two hex digits and a newline.
pub fn parse_device_class(s: &str) -> (class: Option<u8>)
    ensures
        class == byte(text::trimmed(s@), 16),
{
    read_byte(trim(s), 16)
}

/// The class in the content of a `bDeviceClass` attribute.
pub open spec fn class_in(content: Option<Seq<char>>) -> Option<u8> {
    match content {
        Some(s) => byte(text::trimmed(s), 16),
        None => None,
    }
}

/// A device's `bDeviceClass` from the content of that attribute, or `None` if
/// it could not be read.
pub fn read_device_class(content: &Option<String>) -> (class: Option<u8>)
    ensures
        class == class_in(opt_text(*content)),
{
    match content {
        Some(s) => parse_device_class(s.as_str()),
        None => None,
    }
}

// ---------------------------------------------------------------------------
// Laws
// ---------------------------------------------------------------------------

/// A location begins with the letter `u` for a root hub and with a digit for
/// any other device.
pub proof fn lemma_location_start(bus: u8, path: Seq<u8>)
    ensures
        location_of(bus, path).len() > 0,
        text::begins_with(location_of(bus, path), "usb"@) == (path.len() == 0),
{
    text::lemma_dec(bus as nat);
    reveal_strlit("usb");
    let s = location_of(bus, path);
    if path.len() == 0 {
        assert(s.take(3) =~= "usb"@);
    } else {
        assert(s[0] == text::dec(bus as nat)[0]);
        if text::begins_with(s, "usb"@) {
            assert(s.take(3)[0] == 'u');
        }
    }
}

/// The device on port `port` of the hub at the end of `path` is at the end of
/// `path` and `port`: the two ways to name a location agree.
pub proof fn law_child_location_extends_the_path(bus: u8, path: Seq<u8>, port: u8)
    ensures
        location_below(location_of(bus, path), bus, port) == location_of(bus, path.push(port)),
{
    lemma_location_start(bus, path);
    assert(path.push(port).drop_last() =~= path);
    assert(location_below(location_of(bus, path), bus, port) =~= location_of(bus, path.push(port)));
}

/// What a dotted path is made of.
proof fn lemma_dotted(path: Seq<u8>)
    ensures
        path.len() > 0 ==> dotted(path).len() > 0,
        forall|i: int|
            0 <= i < dotted(path).len() ==> {
                let c = #[trigger] dotted(path)[i];
                '0' <= c <= '9' || c == '.'
            },
        path.len() > 1 ==> dotted(path).contains('.'),
        path.len() == 1 ==> !dotted(path).contains('.'),
    decreases path.len(),
{
    reveal_strlit(".");
    if path.len() > 0 {
        text::lemma_dec(path.last() as nat);
    }
    if path.len() > 1 {
        lemma_dotted(path.drop_last());
        let head = dotted(path.drop_last());
        assert(dotted(path)[head.len() as int] == '.');
        assert forall|i: int| 0 <= i < dotted(path).len() implies ({
            let c = #[trigger] dotted(path)[i];
            '0' <= c <= '9' || c == '.'
        }) by {
            let c = dotted(path)[i];
            if i < head.len() {
                assert(c == head[i]);
            } else if i > head.len() {
                assert(c == text::dec(path.last() as nat)[i - head.len() - 1]);
            }
        }
    }
}

/// Two texts that agree, each split at a separator which the tail does not
/// hold, agree on both sides of it.
proof fn lemma_split_last(a: Seq<char>, x: Seq<char>, b: Seq<char>, y: Seq<char>, sep: char)
    requires
        a.push(sep) + x == b.push(sep) + y,
        !x.contains(sep),
        !y.contains(sep),
    ensures
        a == b,
        x == y,
{
    let s = a.push(sep) + x;
    let t = b.push(sep) + y;
    assert(s.len() == a.len() + 1 + x.len());
    assert(t.len() == b.len() + 1 + y.len());
    assert(s[a.len() as int] == sep);
    assert(t[b.len() as int] == sep);
    if a.len() < b.len() {
        assert(s[b.len() as int] == x[b.len() - a.len() - 1]);
    } else if b.len() < a.len() {
        assert(t[a.len() as int] == y[a.len() - b.len() - 1]);
    }
    assert(a =~= s.take(a.len() as int));
    assert(b =~= t.take(b.len() as int));
    assert(x =~= s.skip(a.len() as int + 1));
    assert(y =~= t.skip(b.len() as int + 1));
}

/// Two texts that agree, each split at a separator which the head does not
/// hold, agree on both sides of it.
proof fn lemma_split_first(a: Seq<char>, x: Seq<char>, b: Seq<char>, y: Seq<char>, sep: char)
    requires
        a.push(sep) + x == b.push(sep) + y,
        !a.contains(sep),
        !b.contains(sep),
    ensures
        a == b,
        x == y,
{
    let s = a.push(sep) + x;
    let t = b.push(sep) + y;
    assert(s.len() == a.len() + 1 + x.len());
    assert(t.len() == b.len() + 1 + y.len());
    assert(s[a.len() as int] == sep);
    assert(t[b.len() as int] == sep);
    if a.len() < b.len() {
        assert(t[a.len() as int] == b[a.len() as int]);
    } else if b.len() < a.len() {
        assert(s[b.len() as int] == a[b.len() as int]);
    }
    assert(a =~= s.take(a.len() as int));
    assert(b =~= t.take(b.len() as int));
    assert(x =~= s.skip(a.len() as int + 1));
    assert(y =~= t.skip(b.len() as int + 1));
}

/// Different paths are written differently.
proof fn lemma_dotted_injective(p: Seq<u8>, q: Seq<u8>)
    requires
        dotted(p) == dotted(q),
    ensures
        p == q,
    decreases p.len(),
{
    reveal_strlit(".");
    lemma_dotted(p);
    lemma_dotted(q);
    if p.len() == 0 || q.len() == 0 {
        assert(p =~= q);
    } else {
        text::lemma_dec(p.last() as nat);
        text::lemma_dec(q.last() as nat);
        if p.len() == 1 && q.len() == 1 {
            assert(p =~= q);
        } else {
            assert(p.len() > 1 && q.len() > 1);
            assert(dotted(p) =~= dotted(p.drop_last()).push('.') + text::dec(p.last() as nat));
            assert(dotted(q) =~= dotted(q.drop_last()).push('.') + text::dec(q.last() as nat));
            lemma_split_last(
                dotted(p.drop_last()),
                text::dec(p.last() as nat),
                dotted(q.drop_last()),
                text::dec(q.last() as nat),
                '.',
            );
            lemma_dotted_injective(p.drop_last(), q.drop_last());
            assert(p =~= p.drop_last().push(p.last()));
            assert(q =~= q.drop_last().push(q.last()));
        }
    }
}

/// A location names one place: two devices at one location are on the same bus,
/// behind the same ports.
pub proof fn law_a_location_names_one_place(bus1: u8, path1: Seq<u8>, bus2: u8, path2: Seq<u8>)
    requires
        location_of(bus1, path1) == location_of(bus2, path2),
    ensures
        bus1 == bus2,
        path1 == path2,
{
    reveal_strlit("usb");
    reveal_strlit("-");
    let s = location_of(bus1, path1);
    let t = location_of(bus2, path2);
    lemma_location_start(bus1, path1);
    lemma_location_start(bus2, path2);
    text::lemma_dec(bus1 as nat);
    text::lemma_dec(bus2 as nat);
    if path1.len() == 0 {
        assert(text::dec(bus1 as nat) =~= s.skip(3));
        assert(text::dec(bus2 as nat) =~= t.skip(3));
        assert(path1 =~= path2);
    } else {
        assert(s =~= text::dec(bus1 as nat).push('-') + dotted(path1));
        assert(t =~= text::dec(bus2 as nat).push('-') + dotted(path2));
        lemma_split_first(
            text::dec(bus1 as nat),
            dotted(path1),
            text::dec(bus2 as nat),
            dotted(path2),
            '-',
        );
        lemma_dotted_injective(path1, path2);
    }
}

/// What a location is made of: no white space, and nothing that begins a
/// comment.
pub proof fn lemma_location_chars(bus: u8, path: Seq<u8>)
    ensures
        forall|i: int|
            0 <= i < location_of(bus, path).len() ==> {
                let c = #[trigger] location_of(bus, path)[i];
                !text::white(c) && c != '#' && c != '\n'
            },
{
    reveal_strlit("usb");
    reveal_strlit("-");
    text::lemma_dec(bus as nat);
    lemma_dotted(path);
    let s = location_of(bus, path);
    let number = text::dec(bus as nat);
    assert forall|i: int| 0 <= i < s.len() implies ({
        let c = #[trigger] s[i];
        !text::white(c) && c != '#' && c != '\n'
    }) by {
        if path.len() == 0 {
            if i >= 3 {
                assert(s[i] == number[i - 3]);
            }
        } else if i < number.len() {
            assert(s[i] == number[i]);
        } else if i > number.len() {
            assert(s[i] == dotted(path)[i - number.len() - 1]);
        }
    }
}

} // verus!
