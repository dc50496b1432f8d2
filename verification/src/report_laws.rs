//! What holds of every report on what left the bus.

use vstd::prelude::*;

use crate::port::HubPortView;
use crate::power::PowerPortsView;
use crate::report;
use crate::sysfs;
use crate::text;
use crate::text_laws;

verus! {

// ---------------------------------------------------------------------------
// What the laws speak of
// ---------------------------------------------------------------------------

/// Whether a device is at a location, or below it.
pub open spec fn under(device: Seq<char>, location: Seq<char>) -> bool {
    ||| device == location
    ||| device.len() > location.len() && device.take(location.len() as int) == location
        && device[location.len() as int] == '.'
}

/// Whether a device is at one of the locations, or below one.
pub open spec fn under_any(device: Seq<char>, locations: Seq<Seq<char>>) -> bool {
    exists|i: int| 0 <= i < locations.len() && under(device, #[trigger] locations[i])
}

/// Whether a device was there and no longer is.
pub open spec fn went(device: Seq<char>, before: Seq<Seq<char>>, now: Seq<Seq<char>>) -> bool {
    before.contains(device) && !now.contains(device)
}

/// Whether a text has no capital letters, as locations and spans of time have
/// none.
pub open spec fn small(s: Seq<char>) -> bool {
    forall|i: int| 0 <= i < s.len() ==> !('A' <= #[trigger] s[i] <= 'Z')
}

/// What the report says where all is well.
pub open spec fn ok_line() -> Seq<char> {
    "OK: only the intended port's subtree dropped, everything came back\n"@
}

/// What the report says where the target never left the bus.
pub open spec fn warning_line() -> Seq<char> {
    "WARNING: the target never left the bus - power was not cut at all\n"@
}

/// Being below a location is beginning with it and a dot.
proof fn lemma_under(device: Seq<char>, location: Seq<char>)
    ensures
        report::at_or_below(device, location) == under(device, location),
{
    reveal_strlit(".");
    let n = location.len() as int;
    let dotted = location + "."@;
    if text::begins_with(device, dotted) {
        assert(device.take(n + 1)[n] == dotted[n]);
        assert(device.take(n) =~= dotted.take(n));
        assert(dotted.take(n) =~= location);
    }
    if device.len() > n && device.take(n) == location && device[n] == '.' {
        assert(device.take(n + 1) =~= dotted) by {
            assert forall|i: int| 0 <= i < n implies device[i] == location[i] by {
                assert(device.take(n)[i] == location[i]);
            }
        }
    }
}

proof fn lemma_under_any(device: Seq<char>, locations: Seq<Seq<char>>)
    ensures
        report::intended(device, locations) == under_any(device, locations),
{
    assert forall|i: int| 0 <= i < locations.len() implies report::at_or_below(
        device,
        #[trigger] locations[i],
    ) == under(device, locations[i]) by {
        lemma_under(device, locations[i]);
    }
    if report::intended(device, locations) {
        let i = choose|i: int|
            0 <= i < locations.len() && #[trigger] report::at_or_below(device, locations[i]);
        assert(under(device, locations[i]));
    }
    if under_any(device, locations) {
        let i = choose|i: int| 0 <= i < locations.len() && under(device, #[trigger] locations[i]);
        assert(report::at_or_below(device, locations[i]));
    }
}

// ---------------------------------------------------------------------------
// What dropped
// ---------------------------------------------------------------------------

/// What was lost is what was there and no longer is, in order; what should not
/// have dropped is what is neither at nor below what was expected to.
pub proof fn law_what_was_lost(
    before: Seq<Seq<char>>,
    device: Seq<char>,
    now: Seq<Seq<char>>,
    expected: Seq<Seq<char>>,
)
    ensures
        report::lost(Seq::empty(), now) == Seq::<Seq<char>>::empty(),
        report::lost(before.push(device), now) == (if now.contains(device) {
            report::lost(before, now)
        } else {
            report::lost(before, now).push(device)
        }),
        report::collateral(Seq::empty(), expected) == Seq::<Seq<char>>::empty(),
        report::collateral(before.push(device), expected) == (if under_any(device, expected) {
            report::collateral(before, expected)
        } else {
            report::collateral(before, expected).push(device)
        }),
{
    reveal(Seq::filter);
    assert(before.push(device).drop_last() =~= before);
    lemma_under_any(device, expected);
    assert(report::lost(Seq::empty(), now) =~= Seq::<Seq<char>>::empty());
    assert(report::collateral(Seq::empty(), expected) =~= Seq::<Seq<char>>::empty());
}

proof fn lemma_kept(list: Seq<Seq<char>>, keep: spec_fn(Seq<char>) -> bool, d: Seq<char>)
    ensures
        list.filter(keep).contains(d) <==> list.contains(d) && keep(d),
    decreases list.len(),
{
    reveal(Seq::filter);
    if list.len() > 0 {
        let fewer = list.drop_last();
        lemma_kept(fewer, keep, d);
        let kept = list.filter(keep);
        let less = fewer.filter(keep);
        assert(list[list.len() - 1] == list.last());
        if list.contains(d) {
            let i = choose|i: int| 0 <= i < list.len() && list[i] == d;
            if i < fewer.len() {
                assert(fewer[i] == d);
            }
        }
        if fewer.contains(d) {
            let i = choose|i: int| 0 <= i < fewer.len() && fewer[i] == d;
            assert(list[i] == d);
        }
        if keep(list.last()) {
            assert(kept == less.push(list.last()));
            assert(kept[kept.len() - 1] == list.last());
            if kept.contains(d) {
                let i = choose|i: int| 0 <= i < kept.len() && kept[i] == d;
                if i < less.len() {
                    assert(less[i] == d);
                }
            }
            if less.contains(d) {
                let i = choose|i: int| 0 <= i < less.len() && less[i] == d;
                assert(kept[i] == d);
            }
        }
    }
}

proof fn lemma_lost(before: Seq<Seq<char>>, now: Seq<Seq<char>>, d: Seq<char>)
    ensures
        report::lost(before, now).contains(d) <==> went(d, before, now),
{
    lemma_kept(before, |device: Seq<char>| !now.contains(device), d);
}

proof fn lemma_strays(dropped: Seq<Seq<char>>, expected: Seq<Seq<char>>, d: Seq<char>)
    ensures
        report::collateral(dropped, expected).contains(d) <==> dropped.contains(d) && !under_any(
            d,
            expected,
        ),
{
    lemma_kept(dropped, |device: Seq<char>| !report::intended(device, expected), d);
    lemma_under_any(d, expected);
}

/// Whether a text has none of a character.
spec fn free_of(s: Seq<char>, c: char) -> bool {
    forall|i: int| 0 <= i < s.len() ==> #[trigger] s[i] != c
}

proof fn lemma_free(a: Seq<char>, b: Seq<char>, c: char)
    requires
        free_of(a, c),
        free_of(b, c),
    ensures
        free_of(a + b, c),
{
    assert forall|i: int| 0 <= i < (a + b).len() implies #[trigger] (a + b)[i] != c by {
        if i < a.len() {
            assert((a + b)[i] == a[i]);
        } else {
            assert((a + b)[i] == b[i - a.len()]);
        }
    }
}

proof fn lemma_not_held(s: Seq<char>, part: Seq<char>, i: int, c: char)
    requires
        free_of(s, c),
        0 <= i < part.len(),
        part[i] == c,
    ensures
        !text_laws::holds(s, part),
{
    if text_laws::holds(s, part) {
        let (a, b) = choose|a: Seq<char>, b: Seq<char>| s == #[trigger] (a + part + b);
        assert(s[a.len() + i] == c);
    }
}

proof fn lemma_small_is_free(s: Seq<char>, c: char)
    requires
        small(s),
        'A' <= c <= 'Z',
    ensures
        free_of(s, c),
{
}

proof fn lemma_padded_is_free(s: Seq<char>, width: nat, c: char)
    requires
        free_of(s, c),
        c != ' ',
    ensures
        free_of(text::padded(s, width), c),
{
    assert forall|i: int| 0 <= i < text::padded(s, width).len() implies #[trigger] text::padded(
        s,
        width,
    )[i] != c by {
        text_laws::law_columns(s, width, i);
        if i < s.len() {
            assert(s[i] != c);
        }
    }
}

/// The lines of what dropped have a line for each, and are free of what neither
/// the names nor the marks have.
proof fn lemma_dropped_lines(dropped: Seq<Seq<char>>, expected: Seq<Seq<char>>, c: char)
    requires
        c == 'K' || c == 'W' || c == 'P',
        forall|i: int| 0 <= i < dropped.len() ==> free_of(#[trigger] dropped[i], c),
    ensures
        free_of(report::dropped_lines(dropped, expected), c),
    decreases dropped.len(),
{
    reveal_strlit("   ");
    reveal_strlit(" intended\n");
    reveal_strlit(" <== COLLATERAL\n");
    if dropped.len() > 0 {
        let fewer = dropped.drop_last();
        assert forall|i: int| 0 <= i < fewer.len() implies free_of(#[trigger] fewer[i], c) by {
            assert(fewer[i] == dropped[i]);
        }
        lemma_dropped_lines(fewer, expected, c);
        assert(free_of(dropped[dropped.len() - 1], c));
        lemma_padded_is_free(dropped.last(), 18, c);
        let mark = if report::intended(dropped.last(), expected) {
            " intended\n"@
        } else {
            " <== COLLATERAL\n"@
        };
        lemma_free("   "@, text::padded(dropped.last(), 18), c);
        lemma_free("   "@ + text::padded(dropped.last(), 18), mark, c);
        lemma_free(
            report::dropped_lines(fewer, expected),
            "   "@ + text::padded(dropped.last(), 18) + mark,
            c,
        );
    }
}

/// Where nothing is collateral, the mark for it does not occur.
proof fn lemma_no_mark(dropped: Seq<Seq<char>>, expected: Seq<Seq<char>>)
    requires
        forall|i: int|
            0 <= i < dropped.len() ==> small(#[trigger] dropped[i]) && under_any(
                dropped[i],
                expected,
            ),
    ensures
        small(report::dropped_lines(dropped, expected)),
    decreases dropped.len(),
{
    reveal_strlit("   ");
    reveal_strlit(" intended\n");
    if dropped.len() > 0 {
        let fewer = dropped.drop_last();
        assert forall|i: int| 0 <= i < fewer.len() implies small(#[trigger] fewer[i]) && under_any(
            fewer[i],
            expected,
        ) by {
            assert(fewer[i] == dropped[i]);
        }
        lemma_no_mark(fewer, expected);
        let last = dropped[dropped.len() - 1];
        assert(small(last) && under_any(last, expected));
        lemma_under_any(last, expected);
        let line = "   "@ + text::padded(last, 18) + " intended\n"@;
        assert forall|i: int| 0 <= i < line.len() implies !('A' <= #[trigger] line[i] <= 'Z') by {
            let middle = text::padded(last, 18);
            if 3 <= i < 3 + middle.len() {
                assert(line[i] == middle[i - 3]);
                text_laws::law_columns(last, 18, i - 3);
            }
        }
        let lines = report::dropped_lines(fewer, expected);
        assert forall|i: int| 0 <= i < (lines + line).len() implies !('A' <= #[trigger] (lines
            + line)[i] <= 'Z') by {
            if i < lines.len() {
                assert((lines + line)[i] == lines[i]);
            } else {
                assert((lines + line)[i] == line[i - lines.len()]);
            }
        }
    } else {
        assert(report::dropped_lines(dropped, expected) =~= Seq::<char>::empty());
    }
}

proof fn lemma_plain_lines(devices: Seq<Seq<char>>)
    requires
        forall|i: int| 0 <= i < devices.len() ==> small(#[trigger] devices[i]),
    ensures
        small(report::plain_lines(devices)),
    decreases devices.len(),
{
    reveal_strlit("   ");
    reveal_strlit("\n");
    if devices.len() > 0 {
        let fewer = devices.drop_last();
        assert forall|i: int| 0 <= i < fewer.len() implies small(#[trigger] fewer[i]) by {
            assert(fewer[i] == devices[i]);
        }
        lemma_plain_lines(fewer);
        let last = devices[devices.len() - 1];
        assert(small(last));
        let lines = report::plain_lines(fewer);
        let line = "   "@ + last + "\n"@;
        assert forall|i: int| 0 <= i < (lines + line).len() implies !('A' <= #[trigger] (lines
            + line)[i] <= 'Z') by {
            if i < lines.len() {
                assert((lines + line)[i] == lines[i]);
            } else {
                let k = i - lines.len();
                assert((lines + line)[i] == line[k]);
                if 3 <= k < 3 + last.len() {
                    assert(line[k] == last[k - 3]);
                }
            }
        }
    } else {
        assert(report::plain_lines(devices) =~= Seq::<char>::empty());
    }
}

proof fn lemma_line_held(dropped: Seq<Seq<char>>, expected: Seq<Seq<char>>, i: int)
    requires
        0 <= i < dropped.len(),
    ensures
        text_laws::holds(
            report::dropped_lines(dropped, expected),
            "   "@ + text::padded(dropped[i], 18) + (if under_any(dropped[i], expected) {
                " intended\n"@
            } else {
                " <== COLLATERAL\n"@
            }),
        ),
    decreases dropped.len(),
{
    let fewer = dropped.drop_last();
    let last = dropped.len() - 1;
    lemma_under_any(dropped[i], expected);
    let line = "   "@ + text::padded(dropped[i], 18) + (if under_any(dropped[i], expected) {
        " intended\n"@
    } else {
        " <== COLLATERAL\n"@
    });
    if i == last {
        text_laws::lemma_holds_itself(line);
        text_laws::lemma_holds_behind(report::dropped_lines(fewer, expected), line, line);
    } else {
        assert(fewer[i] == dropped[i]);
        lemma_line_held(fewer, expected, i);
        lemma_under_any(dropped[last], expected);
        let rest = "   "@ + text::padded(dropped.last(), 18) + (if report::intended(
            dropped.last(),
            expected,
        ) {
            " intended\n"@
        } else {
            " <== COLLATERAL\n"@
        });
        text_laws::lemma_holds_before(report::dropped_lines(fewer, expected), rest, line);
    }
}

proof fn lemma_plain_line_held(devices: Seq<Seq<char>>, i: int)
    requires
        0 <= i < devices.len(),
    ensures
        text_laws::holds(report::plain_lines(devices), "   "@ + devices[i] + "\n"@),
    decreases devices.len(),
{
    let fewer = devices.drop_last();
    let line = "   "@ + devices[i] + "\n"@;
    if i == devices.len() - 1 {
        text_laws::lemma_holds_itself(line);
        text_laws::lemma_holds_behind(report::plain_lines(fewer), line, line);
    } else {
        assert(fewer[i] == devices[i]);
        lemma_plain_line_held(fewer, i);
        text_laws::lemma_holds_before(
            report::plain_lines(fewer),
            "   "@ + devices.last() + "\n"@,
            line,
        );
    }
}

// ---------------------------------------------------------------------------
// The report
// ---------------------------------------------------------------------------

/// The parts of a report.
spec fn dropped_part(
    before: Seq<Seq<char>>,
    during: Seq<Seq<char>>,
    expected: Seq<Seq<char>>,
) -> Seq<char> {
    "left the bus while powered off:\n"@ + report::dropped_lines(
        report::lost(before, during),
        expected,
    )
}

spec fn missing_part(before: Seq<Seq<char>>, after: Seq<Seq<char>>) -> Seq<char> {
    let missing = report::lost(before, after);
    if missing.len() == 0 {
        Seq::empty()
    } else {
        "\ndid not come back:\n"@ + report::plain_lines(missing)
    }
}

spec fn verdict_part(any: bool, strays: nat, missing: nat) -> Seq<char> {
    if !any {
        warning_line()
    } else if strays == 0 && missing == 0 {
        ok_line()
    } else {
        Seq::empty()
    }
}

spec fn problem_part(strays: nat) -> Seq<char> {
    if strays > 0 {
        "PROBLEM: "@ + text::dec(strays) + " unrelated device(s) lost their connection\n"@
    } else {
        Seq::empty()
    }
}

spec fn time_part(cut: Seq<char>, restore: Seq<char>, held: nat) -> Seq<char> {
    "\ncut took "@ + cut + ", restore took "@ + restore + " ("@ + text::dec(held)
        + " ports held down)\n"@
}

proof fn lemma_parts(
    before: Seq<Seq<char>>,
    during: Seq<Seq<char>>,
    after: Seq<Seq<char>>,
    expected: Seq<Seq<char>>,
    cut: Seq<char>,
    restore: Seq<char>,
    held: nat,
)
    ensures
        ({
            let dropped = report::lost(before, during);
            let strays = report::collateral(dropped, expected).len();
            let missing = report::lost(before, after).len();
            let any = exists|d: Seq<char>| went(d, before, during) && #[trigger] under_any(
                d,
                expected,
            );
            &&& report::verify_text(before, during, after, expected, cut, restore, held)
                == dropped_part(before, during, expected) + missing_part(before, after) + "\n"@
                + verdict_part(any, strays, missing) + problem_part(strays) + time_part(
                cut,
                restore,
                held,
            )
            &&& strays == 0 <==> forall|d: Seq<char>|
                went(d, before, during) ==> #[trigger] under_any(d, expected)
            &&& missing == 0 <==> forall|d: Seq<char>| #[trigger]
                before.contains(d) ==> after.contains(d)
        }),
{
    let dropped = report::lost(before, during);
    let strays = report::collateral(dropped, expected);
    let missing = report::lost(before, after);
    let any = exists|d: Seq<char>| went(d, before, during) && #[trigger] under_any(d, expected);
    assert forall|d: Seq<char>| #[trigger] dropped.contains(d) <==> went(d, before, during) by {
        lemma_lost(before, during, d);
    }
    assert forall|d: Seq<char>| #[trigger] missing.contains(d) <==> went(d, before, after) by {
        lemma_lost(before, after, d);
    }
    assert forall|d: Seq<char>| #[trigger] strays.contains(d) <==> dropped.contains(d)
        && !under_any(d, expected) by {
        lemma_strays(dropped, expected, d);
    }
    assert(report::any_intended(dropped, expected) == any) by {
        if report::any_intended(dropped, expected) {
            let i = choose|i: int|
                0 <= i < dropped.len() && report::intended(#[trigger] dropped[i], expected);
            lemma_under_any(dropped[i], expected);
            assert(dropped.contains(dropped[i]));
            assert(went(dropped[i], before, during) && under_any(dropped[i], expected));
        }
        if any {
            let d = choose|d: Seq<char>| went(d, before, during) && #[trigger] under_any(d, expected);
            lemma_under_any(d, expected);
            assert(dropped.contains(d));
            let i = choose|i: int| 0 <= i < dropped.len() && dropped[i] == d;
            assert(report::intended(dropped[i], expected));
        }
    }
    if strays.len() > 0 {
        assert(strays.contains(strays[0]));
        assert(went(strays[0], before, during) && !under_any(strays[0], expected));
    } else {
        assert forall|d: Seq<char>| went(d, before, during) implies #[trigger] under_any(
            d,
            expected,
        ) by {
            assert(dropped.contains(d));
            assert(!strays.contains(d));
        }
    }
    if missing.len() > 0 {
        assert(missing.contains(missing[0]));
        assert(before.contains(missing[0]) && !after.contains(missing[0]));
    } else {
        assert forall|d: Seq<char>| #[trigger] before.contains(d) implies after.contains(d) by {
            assert(!missing.contains(d));
        }
    }
    let whole = report::verify_text(before, during, after, expected, cut, restore, held);
    assert(whole =~= dropped_part(before, during, expected) + missing_part(before, after) + "\n"@
        + verdict_part(any, strays.len(), missing.len()) + problem_part(strays.len()) + time_part(
        cut,
        restore,
        held,
    ));
}

/// The report says that all is well exactly where some of what was expected to
/// drop did, nothing else did, and everything that was there before is there
/// afterwards. It warns exactly where nothing that was expected to drop did, and
/// speaks of a problem exactly where something else did.
pub proof fn law_the_report_says_what_came_of_it(
    before: Seq<Seq<char>>,
    during: Seq<Seq<char>>,
    after: Seq<Seq<char>>,
    expected: Seq<Seq<char>>,
    cut: Seq<char>,
    restore: Seq<char>,
    held: nat,
)
    requires
        forall|i: int| 0 <= i < before.len() ==> small(#[trigger] before[i]),
        small(cut),
        small(restore),
    ensures
        ({
            let said = report::verify_text(before, during, after, expected, cut, restore, held);
            let target = exists|d: Seq<char>|
                went(d, before, during) && #[trigger] under_any(d, expected);
            let alone = forall|d: Seq<char>|
                went(d, before, during) ==> #[trigger] under_any(d, expected);
            let back = forall|d: Seq<char>| #[trigger] before.contains(d) ==> after.contains(d);
            &&& text_laws::holds(said, ok_line()) <==> target && alone && back
            &&& text_laws::holds(said, warning_line()) <==> !target
            &&& text_laws::holds(said, "PROBLEM: "@) <==> !alone
            &&& text_laws::holds(said, "<== COLLATERAL"@) <==> !alone
            &&& text_laws::holds(
                said,
                "\ncut took "@ + cut + ", restore took "@ + restore + " ("@ + text::dec(held)
                    + " ports held down)\n"@,
            )
        }),
{
    let said = report::verify_text(before, during, after, expected, cut, restore, held);
    let dropped = report::lost(before, during);
    let missing = report::lost(before, after);
    let strays = report::collateral(dropped, expected);
    let any = exists|d: Seq<char>| went(d, before, during) && #[trigger] under_any(d, expected);
    lemma_parts(before, during, after, expected, cut, restore, held);
    let a = dropped_part(before, during, expected);
    let b = missing_part(before, after);
    let v = verdict_part(any, strays.len(), missing.len());
    let p = problem_part(strays.len());
    let t = time_part(cut, restore, held);
    assert(said == a + b + "\n"@ + v + p + t);
    assert forall|i: int| 0 <= i < dropped.len() implies small(#[trigger] dropped[i]) by {
        assert(dropped.contains(dropped[i]));
        lemma_lost(before, during, dropped[i]);
        let k = choose|k: int| 0 <= k < before.len() && before[k] == dropped[i];
        assert(small(before[k]));
    }
    assert forall|i: int| 0 <= i < missing.len() implies small(#[trigger] missing[i]) by {
        assert(missing.contains(missing[i]));
        lemma_lost(before, after, missing[i]);
        let k = choose|k: int| 0 <= k < before.len() && before[k] == missing[i];
        assert(small(before[k]));
    }
    lemma_plain_lines(missing);
    reveal_strlit("left the bus while powered off:\n");
    reveal_strlit("\ndid not come back:\n");
    reveal_strlit("\n");
    reveal_strlit("OK: only the intended port's subtree dropped, everything came back\n");
    reveal_strlit("WARNING: the target never left the bus - power was not cut at all\n");
    reveal_strlit("PROBLEM: ");
    reveal_strlit(" unrelated device(s) lost their connection\n");
    reveal_strlit("<== COLLATERAL");
    reveal_strlit(" <== COLLATERAL\n");
    reveal_strlit("\ncut took ");
    reveal_strlit(", restore took ");
    reveal_strlit(" (");
    reveal_strlit(" ports held down)\n");
    text::lemma_dec(strays.len());
    text::lemma_dec(held);
    // What stands where
    text_laws::lemma_holds_itself(t);
    text_laws::lemma_holds_behind(a + b + "\n"@ + v + p, t, t);
    if v.len() > 0 {
        text_laws::lemma_holds(a + b + "\n"@, v, p + t);
        assert(said =~= a + b + "\n"@ + v + (p + t));
    }
    if strays.len() > 0 {
        let rest = text::dec(strays.len()) + " unrelated device(s) lost their connection\n"@ + t;
        text_laws::lemma_holds(a + b + "\n"@ + v, "PROBLEM: "@, rest);
        assert(said =~= a + b + "\n"@ + v + "PROBLEM: "@ + rest);
        assert(strays.contains(strays[0]));
        lemma_strays(dropped, expected, strays[0]);
        let i = choose|i: int| 0 <= i < dropped.len() && dropped[i] == strays[0];
        lemma_line_held(dropped, expected, i);
        let line = "   "@ + text::padded(dropped[i], 18) + " <== COLLATERAL\n"@;
        assert(line =~= ("   "@ + text::padded(dropped[i], 18) + " "@) + "<== COLLATERAL"@ + "\n"@)
            by {
            reveal_strlit(" ");
        }
        text_laws::lemma_holds(
            "   "@ + text::padded(dropped[i], 18) + " "@,
            "<== COLLATERAL"@,
            "\n"@,
        );
        let lines = report::dropped_lines(dropped, expected);
        assert(text_laws::holds(lines, "<== COLLATERAL"@)) by {
            let (x, y) = choose|x: Seq<char>, y: Seq<char>| lines == #[trigger] (x + line + y);
            text_laws::lemma_holds_part(x, line, y, "<== COLLATERAL"@);
        }
        text_laws::lemma_holds_part(
            "left the bus while powered off:\n"@,
            lines,
            b + "\n"@ + v + p + t,
            "<== COLLATERAL"@,
        );
        assert(said =~= "left the bus while powered off:\n"@ + lines + (b + "\n"@ + v + p + t));
    }
    // and what does not
    assert(ok_line()[1] == 'K');
    assert(warning_line()[0] == 'W');
    assert("PROBLEM: "@[0] == 'P');
    assert("<== COLLATERAL"@[4] == 'C');
    lemma_small_parts(a, b, v, p, t, dropped, expected, missing, cut, restore, held, strays.len());
}

/// What stands in a report only where it should.
proof fn lemma_small_parts(
    a: Seq<char>,
    b: Seq<char>,
    v: Seq<char>,
    p: Seq<char>,
    t: Seq<char>,
    dropped: Seq<Seq<char>>,
    expected: Seq<Seq<char>>,
    missing: Seq<Seq<char>>,
    cut: Seq<char>,
    restore: Seq<char>,
    held: nat,
    strays: nat,
)
    requires
        forall|i: int| 0 <= i < dropped.len() ==> small(#[trigger] dropped[i]),
        small(report::plain_lines(missing)),
        small(cut),
        small(restore),
        strays == report::collateral(dropped, expected).len(),
        a == "left the bus while powered off:\n"@ + report::dropped_lines(dropped, expected),
        b == (if missing.len() == 0 {
            Seq::empty()
        } else {
            "\ndid not come back:\n"@ + report::plain_lines(missing)
        }),
        v == Seq::<char>::empty() || v == ok_line() || v == warning_line(),
        p == problem_part(strays),
        t == time_part(cut, restore, held),
    ensures
        ({
            let said = a + b + "\n"@ + v + p + t;
            &&& v != ok_line() ==> !text_laws::holds(said, ok_line())
            &&& v != warning_line() ==> !text_laws::holds(said, warning_line())
            &&& strays == 0 ==> !text_laws::holds(said, "PROBLEM: "@)
            &&& strays == 0 ==> !text_laws::holds(said, "<== COLLATERAL"@)
        }),
{
    reveal_strlit("left the bus while powered off:\n");
    reveal_strlit("\ndid not come back:\n");
    reveal_strlit("\n");
    reveal_strlit("OK: only the intended port's subtree dropped, everything came back\n");
    reveal_strlit("WARNING: the target never left the bus - power was not cut at all\n");
    reveal_strlit("PROBLEM: ");
    reveal_strlit(" unrelated device(s) lost their connection\n");
    reveal_strlit("<== COLLATERAL");
    reveal_strlit("\ncut took ");
    reveal_strlit(", restore took ");
    reveal_strlit(" (");
    reveal_strlit(" ports held down)\n");
    let said = a + b + "\n"@ + v + p + t;
    text::lemma_dec(strays);
    text::lemma_dec(held);
    assert forall|c: char|
        (c == 'K' || c == 'W' || c == 'P' || (c == 'C' && strays == 0)) && free_of(v, c) && free_of(
            p,
            c,
        ) implies #[trigger] free_of(said, c) by {
        let lines = report::dropped_lines(dropped, expected);
        if c == 'C' {
            assert forall|i: int| 0 <= i < dropped.len() implies small(#[trigger] dropped[i])
                && under_any(dropped[i], expected) by {
                assert(dropped.contains(dropped[i]));
                lemma_strays(dropped, expected, dropped[i]);
            }
            lemma_no_mark(dropped, expected);
            lemma_small_is_free(lines, c);
        } else {
            assert forall|i: int| 0 <= i < dropped.len() implies free_of(#[trigger] dropped[i], c) by {
                lemma_small_is_free(dropped[i], c);
            }
            lemma_dropped_lines(dropped, expected, c);
        }
        lemma_free("left the bus while powered off:\n"@, lines, c);
        lemma_small_is_free(report::plain_lines(missing), c);
        lemma_free("\ndid not come back:\n"@, report::plain_lines(missing), c);
        lemma_free(a, b, c);
        lemma_free(a + b, "\n"@, c);
        lemma_free(a + b + "\n"@, v, c);
        lemma_free(a + b + "\n"@ + v, p, c);
        lemma_small_is_free(cut, c);
        lemma_small_is_free(restore, c);
        lemma_free("\ncut took "@, cut, c);
        lemma_free("\ncut took "@ + cut, ", restore took "@, c);
        lemma_free("\ncut took "@ + cut + ", restore took "@, restore, c);
        lemma_free("\ncut took "@ + cut + ", restore took "@ + restore, " ("@, c);
        assert forall|i: int| 0 <= i < text::dec(held).len() implies #[trigger] text::dec(
            held,
        )[i] != c by {
            assert('0' <= text::dec(held)[i] <= '9');
        }
        lemma_free("\ncut took "@ + cut + ", restore took "@ + restore + " ("@, text::dec(held), c);
        lemma_free(
            "\ncut took "@ + cut + ", restore took "@ + restore + " ("@ + text::dec(held),
            " ports held down)\n"@,
            c,
        );
        lemma_free(a + b + "\n"@ + v + p, t, c);
    }
    let (k, w, x, y) = ('K', 'W', 'P', 'C');
    if strays > 0 {
        let number = text::dec(strays);
        assert forall|c: char| c == 'K' || c == 'W' implies #[trigger] free_of(p, c) by {
            assert forall|i: int| 0 <= i < number.len() implies #[trigger] number[i] != c by {
                assert('0' <= number[i] <= '9');
            }
            lemma_free("PROBLEM: "@, number, c);
            lemma_free(
                "PROBLEM: "@ + number,
                " unrelated device(s) lost their connection\n"@,
                c,
            );
        }
    }
    assert(free_of(p, k) && free_of(p, w));
    if v != ok_line() {
        assert(free_of(v, k));
        assert(free_of(said, k));
        assert(ok_line()[1] == k);
        lemma_not_held(said, ok_line(), 1, k);
    }
    if v != warning_line() {
        assert(free_of(v, w));
        assert(free_of(said, w));
        assert(warning_line()[0] == w);
        lemma_not_held(said, warning_line(), 0, w);
    }
    if strays == 0 {
        assert(free_of(v, x) && free_of(p, x));
        assert(free_of(said, x));
        assert("PROBLEM: "@[0] == x);
        lemma_not_held(said, "PROBLEM: "@, 0, x);
        assert(free_of(v, y) && free_of(p, y));
        assert(free_of(said, y));
        assert("<== COLLATERAL"@[4] == y);
        lemma_not_held(said, "<== COLLATERAL"@, 4, y);
    }
}

/// The report lists every device that left, marked as intended or not, and every
/// device that did not come back. What else is on the bus does not matter to it.
pub proof fn law_the_report_lists_every_device(
    before: Seq<Seq<char>>,
    during: Seq<Seq<char>>,
    after: Seq<Seq<char>>,
    other: Seq<Seq<char>>,
    expected: Seq<Seq<char>>,
    cut: Seq<char>,
    restore: Seq<char>,
    held: nat,
    d: Seq<char>,
)
    ensures
        ({
            let said = report::verify_text(before, during, after, expected, cut, restore, held);
            &&& went(d, before, during) ==> text_laws::holds(
                said,
                "   "@ + text::padded(d, 18) + (if under_any(d, expected) {
                    " intended\n"@
                } else {
                    " <== COLLATERAL\n"@
                }),
            )
            &&& went(d, before, after) ==> text_laws::holds(said, "\ndid not come back:\n"@)
            &&& went(d, before, after) ==> text_laws::holds(said, "   "@ + d + "\n"@)
            &&& (forall|x: Seq<char>| #[trigger]
                before.contains(x) ==> after.contains(x) == other.contains(x)) ==> said
                == report::verify_text(before, during, other, expected, cut, restore, held)
        }),
{
    let said = report::verify_text(before, during, after, expected, cut, restore, held);
    let dropped = report::lost(before, during);
    let missing = report::lost(before, after);
    let strays = report::collateral(dropped, expected).len();
    let any = exists|d: Seq<char>| went(d, before, during) && #[trigger] under_any(d, expected);
    lemma_parts(before, during, after, expected, cut, restore, held);
    lemma_lost(before, during, d);
    lemma_lost(before, after, d);
    let head = "left the bus while powered off:\n"@;
    let lines = report::dropped_lines(dropped, expected);
    let b = missing_part(before, after);
    let rest = "\n"@ + verdict_part(any, strays, missing.len()) + problem_part(strays) + time_part(
        cut,
        restore,
        held,
    );
    assert(said =~= head + lines + (b + rest));
    assert(said =~= (head + lines) + b + rest);
    if went(d, before, during) {
        let i = choose|i: int| 0 <= i < dropped.len() && dropped[i] == d;
        lemma_line_held(dropped, expected, i);
        let line = "   "@ + text::padded(d, 18) + (if under_any(d, expected) {
            " intended\n"@
        } else {
            " <== COLLATERAL\n"@
        });
        text_laws::lemma_holds_part(head, lines, b + rest, line);
    }
    if went(d, before, after) {
        let i = choose|i: int| 0 <= i < missing.len() && missing[i] == d;
        lemma_plain_line_held(missing, i);
        let title = "\ndid not come back:\n"@;
        let list = report::plain_lines(missing);
        text_laws::lemma_holds_behind(title, list, "   "@ + d + "\n"@);
        text_laws::lemma_holds_itself(title);
        text_laws::lemma_holds_before(title, list, title);
        text_laws::lemma_holds_part(head + lines, b, rest, "   "@ + d + "\n"@);
        text_laws::lemma_holds_part(head + lines, b, rest, title);
    }
    if forall|x: Seq<char>| #[trigger]
        before.contains(x) ==> after.contains(x) == other.contains(x) {
        lemma_lost_alike(before, after, other);
    }
}

proof fn lemma_lost_alike(before: Seq<Seq<char>>, after: Seq<Seq<char>>, other: Seq<Seq<char>>)
    requires
        forall|x: Seq<char>| #[trigger]
            before.contains(x) ==> after.contains(x) == other.contains(x),
    ensures
        report::lost(before, after) == report::lost(before, other),
    decreases before.len(),
{
    reveal(Seq::filter);
    if before.len() > 0 {
        let fewer = before.drop_last();
        assert forall|x: Seq<char>| #[trigger] fewer.contains(x) implies after.contains(x)
            == other.contains(x) by {
            let i = choose|i: int| 0 <= i < fewer.len() && fewer[i] == x;
            assert(before[i] == x);
            assert(before.contains(x));
        }
        lemma_lost_alike(fewer, after, other);
        assert(before[before.len() - 1] == before.last());
        assert(before.contains(before.last()));
    }
}

// ---------------------------------------------------------------------------
// What is expected, and snapshots
// ---------------------------------------------------------------------------

/// What is expected to drop is what the primary and the held-down ports feed, as
/// far as something is there, the primary first.
pub proof fn law_what_is_expected_to_drop(
    ports: PowerPortsView,
    before: Seq<Seq<char>>,
    d: Seq<char>,
)
    ensures
        ({
            let list = report::expected_in(ports, before);
            let below = |p: HubPortView| sysfs::location_below(p.hub.location, p.hub.bus, p.port);
            let first = below(ports.primary);
            &&& list.contains(d) <==> before.contains(d) && (d == first || exists|i: int|
                0 <= i < ports.held.len() && d == below(#[trigger] ports.held[i]))
            &&& before.contains(first) ==> list.len() > 0 && list[0] == first
        }),
{
    let feeds = ports.feeds();
    let keep = |location: Seq<char>| before.contains(location);
    let below = |p: HubPortView| sysfs::location_below(p.hub.location, p.hub.bus, p.port);
    let first = below(ports.primary);
    lemma_kept(feeds, keep, d);
    assert(feeds[0] == first);
    if feeds.contains(d) {
        let i = choose|i: int| 0 <= i < feeds.len() && feeds[i] == d;
        if i > 0 {
            assert(d == below(ports.held[i - 1]));
        }
    }
    if exists|i: int| 0 <= i < ports.held.len() && d == below(#[trigger] ports.held[i]) {
        let i = choose|i: int| 0 <= i < ports.held.len() && d == below(#[trigger] ports.held[i]);
        assert(feeds[i + 1] == d);
    }
    if before.contains(first) {
        lemma_first_kept(feeds, keep);
    }
}

proof fn lemma_first_kept(list: Seq<Seq<char>>, keep: spec_fn(Seq<char>) -> bool)
    requires
        list.len() > 0,
        keep(list[0]),
    ensures
        list.filter(keep).len() > 0,
        list.filter(keep)[0] == list[0],
    decreases list.len(),
{
    reveal(Seq::filter);
    if list.len() > 1 {
        assert(list.drop_last()[0] == list[0]);
        lemma_first_kept(list.drop_last(), keep);
    } else {
        assert(list.drop_last() =~= Seq::<Seq<char>>::empty());
        assert(list.drop_last().filter(keep) =~= Seq::<Seq<char>>::empty());
    }
}

/// What is expected to drop is announced, all of it.
pub proof fn law_what_is_expected_is_announced(expected: Seq<Seq<char>>, i: int)
    ensures
        text_laws::holds(
            report::expectation_text(expected),
            "expecting only "@ + text::joined(expected, ", "@) + " (and anything below) to drop\n"@,
        ),
        0 <= i < expected.len() ==> text_laws::holds(
            report::expectation_text(expected),
            expected[i],
        ),
{
    let said = report::expectation_text(expected);
    let list = text::joined(expected, ", "@);
    reveal_strlit(" (and anything below) to drop\n\n");
    reveal_strlit(" (and anything below) to drop\n");
    reveal_strlit("\n");
    let watch = "watch the board's power LED: dark => VBUS was cut, lit => only the link dropped\n\n"@;
    let head = "expecting only "@ + list + " (and anything below) to drop\n"@;
    assert(said =~= Seq::<char>::empty() + head + ("\n"@ + watch));
    let rest = " (and anything below) to drop\n\n"@ + watch;
    assert(said =~= "expecting only "@ + list + rest);
    if 0 <= i < expected.len() {
        text_laws::law_a_list_holds_its_parts(expected, ", "@, i);
        text_laws::lemma_holds_part("expecting only "@, list, rest, expected[i]);
    }
}

/// A snapshot shows every device that was found, once and sorted, and nothing
/// that is named like an interface.
pub proof fn law_a_snapshot_shows_every_device(
    list: Seq<Seq<char>>,
    names: Seq<Seq<char>>,
    name: Seq<char>,
    i: int,
    j: int,
)
    requires
        report::snapshot_of(list, names),
    ensures
        list.contains(name) <==> names.contains(name) && forall|k: int|
            0 <= k < name.len() ==> #[trigger] name[k] != ':',
        0 <= i < j < list.len() ==> text::sorts_before(list[i], list[j]),
{
    if names.contains(name) && (forall|k: int| 0 <= k < name.len() ==> #[trigger] name[k] != ':') {
        assert(!name.contains(':'));
    }
    if list.contains(name) {
        assert forall|k: int| 0 <= k < name.len() implies #[trigger] name[k] != ':' by {
            if name[k] == ':' {
                assert(name.contains(':'));
            }
        }
    }
}

} // verus!
