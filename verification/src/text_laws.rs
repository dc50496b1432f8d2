//! What holds of all text: how numbers, words, lines and columns are read and
//! written.

use vstd::prelude::*;

use crate::text;

verus! {

// ---------------------------------------------------------------------------
// What the laws speak of
// ---------------------------------------------------------------------------

/// Whether one text stands somewhere in another.
pub open spec fn holds(s: Seq<char>, part: Seq<char>) -> bool {
    exists|before: Seq<char>, after: Seq<char>| s == #[trigger] (before + part + after)
}

/// Whether a character is the digit for a value below sixteen, in either case.
pub open spec fn writes_digit(c: char, v: nat) -> bool {
    ||| v < 10 && c as int == 48 + v
    ||| 10 <= v < 16 && (c as int == 87 + v || c as int == 55 + v)
}

/// What stands in a text stands in every text that holds it.
pub proof fn lemma_holds(before: Seq<char>, part: Seq<char>, after: Seq<char>)
    ensures
        holds(before + part + after, part),
{
}

/// What a part holds, the whole holds.
pub proof fn lemma_holds_part(before: Seq<char>, part: Seq<char>, after: Seq<char>, x: Seq<char>)
    requires
        holds(part, x),
    ensures
        holds(before + part + after, x),
{
    let (a, b) = choose|a: Seq<char>, b: Seq<char>| part == #[trigger] (a + x + b);
    assert(before + part + after =~= (before + a) + x + (b + after));
}

/// What a text holds, it holds with more behind it.
pub proof fn lemma_holds_before(part: Seq<char>, after: Seq<char>, x: Seq<char>)
    requires
        holds(part, x),
    ensures
        holds(part + after, x),
{
    lemma_holds_part(Seq::empty(), part, after, x);
    assert(Seq::<char>::empty() + part + after =~= part + after);
}

/// What a text holds, it holds with more in front of it.
pub proof fn lemma_holds_behind(before: Seq<char>, part: Seq<char>, x: Seq<char>)
    requires
        holds(part, x),
    ensures
        holds(before + part, x),
{
    lemma_holds_part(before, part, Seq::empty(), x);
    assert(before + part + Seq::<char>::empty() =~= before + part);
}

/// A text holds itself.
pub proof fn lemma_holds_itself(x: Seq<char>)
    ensures
        holds(x, x),
{
    assert(x =~= Seq::<char>::empty() + x + Seq::<char>::empty());
}

// ---------------------------------------------------------------------------
// Comparing
// ---------------------------------------------------------------------------

/// A text begins with what something can follow to give the text.
pub proof fn law_begins_with(s: Seq<char>, prefix: Seq<char>, rest: Seq<char>)
    ensures
        text::begins_with(prefix + rest, prefix),
        text::begins_with(s, prefix) ==> s == prefix + s.skip(prefix.len() as int),
{
    assert((prefix + rest).take(prefix.len() as int) =~= prefix);
    if text::begins_with(s, prefix) {
        assert(s =~= s.take(prefix.len() as int) + s.skip(prefix.len() as int));
    }
}

/// A text sorts before another where, after all that they have in common, it
/// ends first or has the smaller character.
pub proof fn law_texts_sort_at_the_first_difference(
    common: Seq<char>,
    x: char,
    a: Seq<char>,
    y: char,
    b: Seq<char>,
)
    ensures
        text::sorts_before(common, common.push(y) + b),
        !text::sorts_before(common.push(x) + a, common),
        !text::sorts_before(common, common),
        x < y ==> text::sorts_before(common.push(x) + a, common.push(y) + b),
        x > y ==> !text::sorts_before(common.push(x) + a, common.push(y) + b),
    decreases common.len(),
{
    let (s, t) = (common.push(x) + a, common.push(y) + b);
    if common.len() > 0 {
        let rest = common.drop_first();
        law_texts_sort_at_the_first_difference(rest, x, a, y, b);
        assert(s.drop_first() =~= rest.push(x) + a);
        assert(t.drop_first() =~= rest.push(y) + b);
        assert(s[0] == common[0] && t[0] == common[0]);
    } else {
        assert(s[0] == x && t[0] == y);
    }
}

/// Letters from `A` to `Z` are put in lower case, and nothing else changes.
pub proof fn law_lower_case(s: Seq<char>, i: int)
    requires
        0 <= i < s.len(),
    ensures
        text::lowered(s).len() == s.len(),
        65 <= s[i] as int <= 90 ==> text::lowered(s)[i] as int == s[i] as int + 32,
        !(65 <= s[i] as int <= 90) ==> text::lowered(s)[i] == s[i],
{
}

// ---------------------------------------------------------------------------
// Numbers
// ---------------------------------------------------------------------------

/// Decimal has one digit for each power of ten, and no leading zeros.
pub proof fn law_decimal_has_one_digit_for_each_ten(n: nat, d: nat)
    requires
        d < 10,
    ensures
        text::dec(d) == seq![(48 + d) as char],
        n > 0 ==> text::dec(10 * n + d) == text::dec(n).push((48 + d) as char),
{
    if n > 0 {
        assert((10 * n + d) / 10 == n);
        assert((10 * n + d) % 10 == d);
    }
}

/// Hexadecimal is four digits in lower case, and reads back.
pub proof fn law_hexadecimal_reads_back(n: u16)
    ensures
        text::hex4(n).len() == 4,
        forall|i: int|
            0 <= i < 4 ==> {
                let c = #[trigger] text::hex4(n)[i];
                '0' <= c <= '9' || 'a' <= c <= 'f'
            },
        text::number(text::hex4(n), 16, 65535) == Some(n as nat),
{
    let s = text::hex4(n);
    let (a, b, c, d) = (
        (n / 4096) as nat,
        (n / 256 % 16) as nat,
        (n / 16 % 16) as nat,
        (n % 16) as nat,
    );
    assert(a < 16);
    assert(n as nat == ((a * 16 + b) * 16 + c) * 16 + d);
    law_a_number_is_its_digits(Seq::empty(), s[0], a, 16, 65535, 0);
    assert(seq![s[0]].push(s[1]) =~= seq![s[0], s[1]]);
    law_a_number_is_its_digits(seq![s[0]], s[1], b, 16, 65535, a);
    assert(seq![s[0], s[1]].push(s[2]) =~= seq![s[0], s[1], s[2]]);
    law_a_number_is_its_digits(seq![s[0], s[1]], s[2], c, 16, 65535, a * 16 + b);
    assert(seq![s[0], s[1], s[2]].push(s[3]) =~= s);
    law_a_number_is_its_digits(
        seq![s[0], s[1], s[2]],
        s[3],
        d,
        16,
        65535,
        (a * 16 + b) * 16 + c,
    );
}

/// What a number reads as, digit by digit: one digit is its value, and each
/// further one counts the rest `radix` times. A number above `max` is refused,
/// and stays refused with more digits.
pub proof fn law_a_number_is_its_digits(
    s: Seq<char>,
    c: char,
    v: nat,
    radix: nat,
    max: nat,
    n: nat,
)
    requires
        2 <= radix <= 16,
        v < radix,
        writes_digit(c, v),
    ensures
        text::number(seq![c], radix, max) == (if v <= max {
            Some(v)
        } else {
            None
        }),
        text::number(s, radix, max) == Some(n) ==> text::number(s.push(c), radix, max) == (if n
            * radix + v <= max {
            Some((n * radix + v) as nat)
        } else {
            None
        }),
        s.len() > 0 && s != seq!['+'] && text::number(s, radix, max) is None ==> text::number(
            s.push(c),
            radix,
            max,
        ) is None,
{
    let one = seq![c];
    assert(text::digit_value(c, radix) == Some(v));
    assert(text::without_plus(one) == one);
    assert(one.drop_last() =~= Seq::<char>::empty());
    assert(text::digits_value(one.drop_last(), radix) == 0);
    assert(0 * radix == 0) by (nonlinear_arith);
    assert(text::digits_value(one, radix) == v);
    assert(text::all_digits(one, radix));
    let more = s.push(c);
    let digits = text::without_plus(s);
    if s.len() > 0 {
        assert(text::without_plus(more) =~= digits.push(c));
        let longer = digits.push(c);
        assert(longer.drop_last() =~= digits);
        assert(text::digits_value(longer, radix) == text::digits_value(digits, radix) * radix + v);
        if text::all_digits(digits, radix) {
            assert forall|i: int| 0 <= i < longer.len() implies (#[trigger] text::digit_value(
                longer[i],
                radix,
            )) is Some by {
                if i < digits.len() {
                    assert(longer[i] == digits[i]);
                    assert(text::digit_value(digits[i], radix) is Some);
                }
            }
            let before = text::digits_value(digits, radix);
            assert(before <= before * radix) by (nonlinear_arith)
                requires
                    radix >= 1,
            ;
        } else {
            let i = choose|i: int|
                0 <= i < digits.len() && !((#[trigger] text::digit_value(
                    digits[i],
                    radix,
                )) is Some);
            assert(longer[i] == digits[i]);
            assert(!(text::digit_value(longer[i], radix) is Some));
        }
        if digits.len() == 0 {
            assert(s =~= seq!['+']);
        }
    }
}

/// What is no number: nothing, a sign alone, and anything with a character in it
/// that is no digit below `radix`, but for one `+` in front, which changes
/// nothing.
pub proof fn law_what_is_no_number(s: Seq<char>, radix: nat, max: nat, i: int)
    requires
        2 <= radix <= 16,
    ensures
        text::number(Seq::empty(), radix, max) is None,
        text::number(seq!['+'], radix, max) is None,
        s.len() == 0 || s[0] != '+' ==> text::number(seq!['+'] + s, radix, max) == text::number(
            s,
            radix,
            max,
        ),
        0 <= i < s.len() && (i > 0 || s[0] != '+') && (forall|v: nat|
            v < radix ==> !writes_digit(s[i], v)) ==> text::number(s, radix, max) is None,
{
    assert(text::without_plus(seq!['+']) =~= Seq::<char>::empty());
    let signed = seq!['+'] + s;
    assert(text::without_plus(signed) =~= s);
    if s.len() == 0 || s[0] != '+' {
        assert(text::without_plus(s) == s);
    }
    if 0 <= i < s.len() && (i > 0 || s[0] != '+') && (forall|v: nat|
        v < radix ==> !writes_digit(s[i], v)) {
        let digits = text::without_plus(s);
        let k = i - (s.len() - digits.len());
        assert(digits[k] == s[i]);
        if text::digit_value(digits[k], radix) is Some {
            let v = text::digit_value(digits[k], radix)->0;
            assert(v < radix && writes_digit(s[i], v));
        }
    }
}

// ---------------------------------------------------------------------------
// White space, words and lines
// ---------------------------------------------------------------------------

/// The characters that are white space.
pub proof fn law_white_space(c: char)
    ensures
        text::white(c) <==> {
            ||| 9 <= c as int <= 13
            ||| 0x2000 <= c as int <= 0x200a
            ||| seq![0x20int, 0x85, 0xa0, 0x1680, 0x2028, 0x2029, 0x202f, 0x205f, 0x3000].contains(
                c as int,
            )
        },
{
    let list = seq![0x20int, 0x85, 0xa0, 0x1680, 0x2028, 0x2029, 0x202f, 0x205f, 0x3000];
    assert(list[0] == 0x20 && list[1] == 0x85 && list[2] == 0xa0 && list[3] == 0x1680 && list[4]
        == 0x2028 && list[5] == 0x2029 && list[6] == 0x202f && list[7] == 0x205f && list[8]
        == 0x3000);
    assert(list.contains(c as int) <==> (c as int == 0x20 || c as int == 0x85 || c as int == 0xa0
        || c as int == 0x1680 || c as int == 0x2028 || c as int == 0x2029 || c as int == 0x202f
        || c as int == 0x205f || c as int == 0x3000));
}

/// Trimming takes the white space around a text, all of it, and nothing else.
pub proof fn law_trimming_takes_the_white_space_around(
    before: Seq<char>,
    core: Seq<char>,
    after: Seq<char>,
)
    requires
        forall|i: int| 0 <= i < before.len() ==> text::white(#[trigger] before[i]),
        forall|i: int| 0 <= i < after.len() ==> text::white(#[trigger] after[i]),
        core.len() > 0 ==> !text::white(core[0]) && !text::white(core.last()),
    ensures
        text::trimmed(before + core + after) == core,
    decreases before.len() + after.len(),
{
    let s = before + core + after;
    if before.len() > 0 {
        assert(s[0] == before[0]);
        assert(s.skip(1) =~= before.skip(1) + core + after);
        law_trimming_takes_the_white_space_around(before.skip(1), core, after);
    } else {
        assert(s =~= core + after);
        if core.len() > 0 {
            assert(s[0] == core[0]);
            assert(text::trim_start(s) == s);
            lemma_trim_end(core, after);
        } else {
            lemma_trim_white(after);
            assert(s =~= after);
            assert(text::trim_end(Seq::<char>::empty()) =~= Seq::<char>::empty());
            assert(core =~= Seq::<char>::empty());
        }
    }
}

proof fn lemma_trim_end(core: Seq<char>, after: Seq<char>)
    requires
        forall|i: int| 0 <= i < after.len() ==> text::white(#[trigger] after[i]),
        core.len() > 0,
        !text::white(core.last()),
    ensures
        text::trim_end(core + after) == core,
    decreases after.len(),
{
    let s = core + after;
    if after.len() > 0 {
        assert(s.last() == after[after.len() - 1]);
        assert(s.drop_last() =~= core + after.drop_last());
        lemma_trim_end(core, after.drop_last());
    } else {
        assert(s =~= core);
    }
}

proof fn lemma_trim_white(s: Seq<char>)
    requires
        forall|i: int| 0 <= i < s.len() ==> text::white(#[trigger] s[i]),
    ensures
        text::trim_start(s) == Seq::<char>::empty(),
    decreases s.len(),
{
    if s.len() > 0 {
        assert(text::white(s[0]));
        lemma_trim_white(s.skip(1));
    } else {
        assert(s =~= Seq::<char>::empty());
    }
}

/// White space parts words, and nothing else does.
pub proof fn law_white_space_parts_words(a: Seq<char>, c: char, b: Seq<char>)
    ensures
        text::white(c) ==> text::words(a.push(c) + b) == text::words(a) + text::words(b),
        text::words(Seq::empty()) == Seq::<Seq<char>>::empty(),
        a.len() > 0 && (forall|i: int| 0 <= i < a.len() ==> !text::white(#[trigger] a[i]))
            ==> text::words(a) == seq![a],
    decreases a.len(),
{
    let s = a.push(c) + b;
    assert(text::words(Seq::<char>::empty()) =~= Seq::<Seq<char>>::empty());
    text::lemma_word_len(a);
    let n = text::word_len(a);
    if a.len() > 0 && n == a.len() {
        assert(!text::white(a[0]));
        assert(a.take(n as int) =~= a);
        assert(a.skip(n as int) =~= Seq::<char>::empty());
        assert(text::words(a) =~= seq![a]);
    }
    if a.len() > 0 && (forall|i: int| 0 <= i < a.len() ==> !text::white(#[trigger] a[i])) {
        if n < a.len() {
            assert(text::white(a[n as int]));
        }
    }
    if text::white(c) {
        if a.len() == 0 {
            assert(s[0] == c);
            assert(s.skip(1) =~= b);
            assert(text::words(a) + text::words(b) =~= text::words(b));
        } else if text::white(a[0]) {
            assert(s[0] == a[0]);
            assert(s.skip(1) =~= a.skip(1).push(c) + b);
            law_white_space_parts_words(a.skip(1), c, b);
        } else {
            assert(s[0] == a[0]);
            text::lemma_word_len(s);
            let m = text::word_len(s);
            assert(s[n as int] == if n < a.len() { a[n as int] } else { c });
            if m > n {
                assert(!text::white(s[n as int]));
            }
            if m < n {
                assert(s[m as int] == a[m as int]);
            }
            assert(s.take(m as int) =~= a.take(n as int));
            let rest = a.skip(n as int);
            assert(s.skip(m as int) =~= rest.push(c) + b);
            assert(n > 0) by {
                assert(text::word_len(a) == 1 + text::word_len(a.skip(1)));
            }
            law_white_space_parts_words(rest, c, b);
            assert(text::words(s) =~= seq![a.take(n as int)] + (text::words(rest) + text::words(
                b,
            )));
            assert(text::words(s) =~= text::words(a) + text::words(b));
        }
    }
}

/// A line feed ends a line, with a carriage return in front of it or without.
/// The last line need not end in one.
pub proof fn law_line_feeds_part_lines(a: Seq<char>, b: Seq<char>)
    requires
        !a.contains('\n'),
    ensures
        text::lines(a + "\r\n"@ + b) == seq![a] + text::lines(b),
        a.len() == 0 || a.last() != '\r' ==> text::lines(a + "\n"@ + b) == seq![a] + text::lines(b),
        a.len() > 0 ==> text::lines(a) == seq![a],
        text::lines(Seq::empty()) == Seq::<Seq<char>>::empty(),
{
    reveal_strlit("\r\n");
    reveal_strlit("\n");
    let s = a + "\r\n"@ + b;
    let t = a + "\n"@ + b;
    let r = a.push('\r');
    assert(text::lines(Seq::<char>::empty()) =~= Seq::<Seq<char>>::empty());
    assert(!r.contains('\n')) by {
        if r.contains('\n') {
            let i = choose|i: int| 0 <= i < r.len() && r[i] == '\n';
            assert(a[i] == '\n');
        }
    }
    assert(s =~= r.push('\n') + b);
    assert(t =~= a.push('\n') + b);
    lemma_first_line(r, b);
    lemma_first_line(a, b);
    assert(r.drop_last() =~= a);
    text::lemma_find_char(a, '\n');
    let n = text::find_char(a, '\n');
    if n < a.len() {
        assert(a[n as int] == '\n');
    }
}

proof fn lemma_first_line(a: Seq<char>, b: Seq<char>)
    requires
        !a.contains('\n'),
    ensures
        text::lines(a.push('\n') + b) == seq![text::without_return(a)] + text::lines(b),
{
    let s = a.push('\n') + b;
    lemma_found(a, '\n', b);
    assert(s.take(a.len() as int) =~= a);
    assert(s.skip(a.len() as int + 1) =~= b);
}

proof fn lemma_found(a: Seq<char>, c: char, b: Seq<char>)
    requires
        !a.contains(c),
    ensures
        text::find_char(a.push(c) + b, c) == a.len(),
        text::find_char(a, c) == a.len(),
{
    let s = a.push(c) + b;
    text::lemma_find_char(s, c);
    text::lemma_find_char(a, c);
    let n = text::find_char(s, c);
    assert(s[a.len() as int] == c);
    if n < a.len() {
        assert(a[n as int] == c);
    }
    let m = text::find_char(a, c);
    if m < a.len() {
        assert(a[m as int] == c);
    }
}

/// What stands before the first of a character stands before it, whatever
/// follows.
pub proof fn law_before_the_first(a: Seq<char>, c: char, b: Seq<char>)
    requires
        !a.contains(c),
    ensures
        text::before_char(a.push(c) + b, c) == a,
        text::before_char(a, c) == a,
{
    lemma_found(a, c, b);
    assert((a.push(c) + b).take(a.len() as int) =~= a);
    assert(a.take(a.len() as int) =~= a);
}

// ---------------------------------------------------------------------------
// Columns and lists
// ---------------------------------------------------------------------------

/// A column is as wide as asked for, or as the text where that is wider; beside
/// the text it holds spaces only, behind it or in front of it.
pub proof fn law_columns(s: Seq<char>, width: nat, i: int)
    ensures
        text::padded(s, width).len() == (if s.len() < width {
            width
        } else {
            s.len()
        }),
        text::right_aligned(s, width).len() == text::padded(s, width).len(),
        0 <= i < text::padded(s, width).len() ==> text::padded(s, width)[i] == (if i < s.len() {
            s[i]
        } else {
            ' '
        }),
        0 <= i < text::right_aligned(s, width).len() ==> ({
            let r = text::right_aligned(s, width);
            r[r.len() - 1 - i] == (if i < s.len() {
                s[s.len() - 1 - i]
            } else {
                ' '
            })
        }),
{
}

/// A list has a separator between each two of its parts, and nowhere else.
pub proof fn law_separators_stand_between(
    parts: Seq<Seq<char>>,
    part: Seq<char>,
    separator: Seq<char>,
)
    ensures
        text::joined(Seq::empty(), separator) == Seq::<char>::empty(),
        text::joined(seq![part], separator) == part,
        parts.len() > 0 ==> text::joined(parts.push(part), separator) == text::joined(
            parts,
            separator,
        ) + separator + part,
{
    assert(text::joined(Seq::<Seq<char>>::empty(), separator) =~= Seq::<char>::empty());
    assert(parts.push(part).drop_last() =~= parts);
}

/// A list holds each of its parts.
pub proof fn law_a_list_holds_its_parts(parts: Seq<Seq<char>>, separator: Seq<char>, i: int)
    requires
        0 <= i < parts.len(),
    ensures
        holds(text::joined(parts, separator), parts[i]),
    decreases parts.len(),
{
    if parts.len() == 1 {
        lemma_holds_itself(parts[0]);
    } else {
        let fewer = parts.drop_last();
        let whole = text::joined(fewer, separator) + separator + parts.last();
        if i == parts.len() - 1 {
            lemma_holds_itself(parts.last());
            lemma_holds_behind(
                text::joined(fewer, separator) + separator,
                parts.last(),
                parts.last(),
            );
        } else {
            law_a_list_holds_its_parts(fewer, separator, i);
            lemma_holds_before(text::joined(fewer, separator), separator, parts[i]);
            lemma_holds_before(
                text::joined(fewer, separator) + separator,
                parts.last(),
                parts[i],
            );
        }
    }
}

} // verus!
