//! Text: numbers in and out, words, lines and columns.
//!
//! A string is modelled as its sequence of characters.

use vstd::prelude::*;

verus! {

// ---------------------------------------------------------------------------
// Comparing and copying
// ---------------------------------------------------------------------------

/// The characters of `s`, for indexed access.
pub fn chars_of(s: &str) -> (chars: Vec<char>)
    ensures
        chars@ == s@,
{
    let mut chars: Vec<char> = Vec::new();
    for c in it: s.chars()
        invariant
            chars@ == s@.take(it.index()),
            it.seq() == s@,
    {
        assert(s@.take(it.index() + 1) =~= s@.take(it.index()).push(c));
        chars.push(c);
    }
    assert(s@.take(s@.len() as int) =~= s@);
    chars
}

/// Whether two strings hold the same characters.
pub fn same_text(a: &str, b: &str) -> (same: bool)
    ensures
        same == (a@ == b@),
{
    let a: String = a.to_owned();
    let b: String = b.to_owned();
    a == b
}

/// Whether `s` begins with `prefix`.
pub open spec fn begins_with(s: Seq<char>, prefix: Seq<char>) -> bool {
    prefix.len() <= s.len() && s.take(prefix.len() as int) == prefix
}

/// Whether `s` begins with `prefix`.
pub fn starts_with(s: &str, prefix: &str) -> (yes: bool)
    ensures
        yes == begins_with(s@, prefix@),
{
    let n: usize = prefix.unicode_len();
    if n <= s.unicode_len() {
        same_text(s.substring_char(0, n), prefix)
    } else {
        false
    }
}

/// Whether `a` sorts before `b`: at the first place where they differ, `a` has
/// ended or has the smaller character.
pub open spec fn sorts_before(a: Seq<char>, b: Seq<char>) -> bool
    decreases a.len(),
{
    if b.len() == 0 {
        false
    } else if a.len() == 0 {
        true
    } else if a[0] != b[0] {
        a[0] < b[0]
    } else {
        sorts_before(a.drop_first(), b.drop_first())
    }
}

/// Whether `a` sorts before `b`.
pub fn text_less(a: &str, b: &str) -> (less: bool)
    ensures
        less == sorts_before(a@, b@),
{
    let x: Vec<char> = chars_of(a);
    let y: Vec<char> = chars_of(b);
    let mut i: usize = 0;
    assert(x@.skip(0) =~= x@);
    assert(y@.skip(0) =~= y@);
    while i < x.len() && i < y.len()
        invariant
            i <= x.len(),
            i <= y.len(),
            x@ == a@,
            y@ == b@,
            sorts_before(x@, y@) == sorts_before(x@.skip(i as int), y@.skip(i as int)),
        decreases x.len() - i,
    {
        let c: char = x[i];
        let d: char = y[i];
        assert(x@.skip(i as int)[0] == c);
        assert(y@.skip(i as int)[0] == d);
        if c != d {
            return c < d;
        }
        assert(x@.skip(i as int).drop_first() =~= x@.skip(i + 1));
        assert(y@.skip(i as int).drop_first() =~= y@.skip(i + 1));
        i = i + 1;
    }
    i < y.len()
}

/// No two texts sort before each other, and none before itself.
pub proof fn lemma_sorts_one_way(a: Seq<char>, b: Seq<char>)
    requires
        sorts_before(a, b),
    ensures
        !sorts_before(b, a),
        a != b,
    decreases a.len(),
{
    if a.len() > 0 && a[0] == b[0] {
        lemma_sorts_one_way(a.drop_first(), b.drop_first());
    }
}

/// Sorting is transitive, and any two texts that differ sort one way or the
/// other.
pub proof fn lemma_sorts_all(a: Seq<char>, b: Seq<char>, c: Seq<char>)
    ensures
        a != b ==> sorts_before(a, b) || sorts_before(b, a),
        sorts_before(a, b) && sorts_before(b, c) ==> sorts_before(a, c),
    decreases a.len() + b.len() + c.len(),
{
    if a.len() == 0 || b.len() == 0 {
        if a.len() == 0 && b.len() == 0 {
            assert(a =~= b);
        }
    } else {
        let rest = if c.len() == 0 {
            c
        } else {
            c.drop_first()
        };
        lemma_sorts_all(a.drop_first(), b.drop_first(), rest);
        if a[0] == b[0] && a != b {
            if a.drop_first() == b.drop_first() {
                assert(a =~= seq![a[0]] + a.drop_first());
                assert(b =~= seq![b[0]] + b.drop_first());
            }
        }
    }
}

/// `c` in lower case, where it is an ASCII letter.
pub open spec fn lower(c: char) -> char {
    if 'A' <= c <= 'Z' {
        (c as u32 + 32) as char
    } else {
        c
    }
}

/// `s` with its ASCII letters in lower case.
pub open spec fn lowered(s: Seq<char>) -> Seq<char> {
    s.map_values(|c: char| lower(c))
}

/// Whether `s`, with its ASCII letters in lower case, is `t`.
pub fn same_lowered(s: &str, t: &str) -> (same: bool)
    ensures
        same == (lowered(s@) == t@),
{
    let a: Vec<char> = chars_of(s);
    let b: Vec<char> = chars_of(t);
    if a.len() != b.len() {
        assert(lowered(s@).len() != t@.len());
        return false;
    }
    let mut i: usize = 0;
    while i < a.len()
        invariant
            i <= a.len(),
            a@ == s@,
            b@ == t@,
            a.len() == b.len(),
            forall|k: int| 0 <= k < i ==> lower(#[trigger] s@[k]) == t@[k],
        decreases a.len() - i,
    {
        let c: char = a[i];
        let d: char = b[i];
        let same: bool = if 'A' <= c && c <= 'Z' {
            'a' <= d && d <= 'z' && c as u32 + 32 == d as u32
        } else {
            c == d
        };
        if !same {
            assert(lowered(s@)[i as int] != t@[i as int]);
            return false;
        }
        i = i + 1;
    }
    assert(lowered(s@) =~= t@);
    true
}

// ---------------------------------------------------------------------------
// Writing numbers
// ---------------------------------------------------------------------------

/// The digit for a value below sixteen, in lower case.
pub open spec fn digit_char(d: nat) -> char {
    if d < 10 {
        (48 + d) as char
    } else {
        (87 + d) as char
    }
}

/// `n` in decimal, without leading zeros.
pub open spec fn dec(n: nat) -> Seq<char>
    decreases n,
{
    if n < 10 {
        seq![digit_char(n)]
    } else {
        dec(n / 10).push(digit_char(n % 10))
    }
}

/// `n` in hexadecimal, four digits wide.
pub open spec fn hex4(n: u16) -> Seq<char> {
    seq![
        digit_char((n / 4096) as nat),
        digit_char((n / 256 % 16) as nat),
        digit_char((n / 16 % 16) as nat),
        digit_char((n % 16) as nat),
    ]
}

/// The digit for a value below sixteen, as a one-character string.
fn digit_text(d: u8) -> (s: &'static str)
    requires
        d < 16,
    ensures
        s@ == seq![digit_char(d as nat)],
{
    let all: &'static str = "0123456789abcdef";
    proof {
        reveal_strlit("0123456789abcdef");
    }
    let s: &'static str = all.substring_ascii(d as usize, d as usize + 1);
    assert(s@ =~= seq![digit_char(d as nat)]);
    s
}

/// Append `n` in decimal.
pub fn put_dec(out: &mut String, n: u64)
    ensures
        final(out)@ == old(out)@ + dec(n as nat),
    decreases n,
{
    let ghost start = out@;
    if n >= 10 {
        put_dec(out, n / 10);
    }
    let last: &str = digit_text((n % 10) as u8);
    out.append(last);
    assert(out@ =~= start + dec(n as nat));
}

/// `n` in decimal.
pub fn dec_text(n: u64) -> (s: String)
    ensures
        s@ == dec(n as nat),
{
    let mut s: String = String::new();
    put_dec(&mut s, n);
    assert(s@ =~= dec(n as nat));
    s
}

/// Append `n` as four hexadecimal digits.
pub fn put_hex4(out: &mut String, n: u16)
    ensures
        final(out)@ == old(out)@ + hex4(n),
{
    let ghost start = out@;
    out.append(digit_text((n / 4096) as u8));
    out.append(digit_text((n / 256 % 16) as u8));
    out.append(digit_text((n / 16 % 16) as u8));
    out.append(digit_text((n % 16) as u8));
    assert(out@ =~= start + hex4(n));
}

// ---------------------------------------------------------------------------
// Reading numbers
// ---------------------------------------------------------------------------

/// The value of a digit in either case, or `None` if `c` is no digit below
/// `radix`.
pub open spec fn digit_value(c: char, radix: nat) -> Option<nat> {
    let v: int = if '0' <= c <= '9' {
        c as int - 48
    } else if 'a' <= c <= 'f' {
        c as int - 87
    } else if 'A' <= c <= 'F' {
        c as int - 55
    } else {
        radix as int
    };
    if v < radix {
        Some(v as nat)
    } else {
        None
    }
}

/// Whether `s` is made of digits below `radix` only.
pub open spec fn all_digits(s: Seq<char>, radix: nat) -> bool {
    forall|i: int| 0 <= i < s.len() ==> (#[trigger] digit_value(s[i], radix)) is Some
}

/// The number that the digits `s` write.
pub open spec fn digits_value(s: Seq<char>, radix: nat) -> nat
    decreases s.len(),
{
    if s.len() == 0 {
        0
    } else {
        digits_value(s.drop_last(), radix) * radix + digit_value(s.last(), radix).unwrap_or(0)
    }
}

/// What follows an optional `+`.
pub open spec fn without_plus(s: Seq<char>) -> Seq<char> {
    if s.len() > 0 && s[0] == '+' {
        s.skip(1)
    } else {
        s
    }
}

/// The number that `s` writes in `radix`: an optional `+`, then at least one
/// digit and nothing else, for a value of at most `max`.
pub open spec fn number(s: Seq<char>, radix: nat, max: nat) -> Option<nat> {
    let digits = without_plus(s);
    if digits.len() > 0 && all_digits(digits, radix) && digits_value(digits, radix) <= max {
        Some(digits_value(digits, radix))
    } else {
        None
    }
}

/// The value of a digit, up to hexadecimal.
fn read_digit(c: char, radix: u32) -> (v: Option<u32>)
    requires
        radix <= 16,
    ensures
        v is Some == digit_value(c, radix as nat) is Some,
        v is Some ==> v->0 as nat == digit_value(c, radix as nat)->0,
{
    let v: u32 = if '0' <= c && c <= '9' {
        c as u32 - 48
    } else if 'a' <= c && c <= 'f' {
        c as u32 - 87
    } else if 'A' <= c && c <= 'F' {
        c as u32 - 55
    } else {
        radix
    };
    if v < radix {
        Some(v)
    } else {
        None
    }
}

/// Digits only add to what the digits before them write.
proof fn lemma_digits_value_grows(s: Seq<char>, n: int, radix: nat)
    requires
        0 <= n <= s.len(),
        radix >= 1,
    ensures
        digits_value(s.take(n), radix) <= digits_value(s, radix),
    decreases s.len(),
{
    if n == s.len() {
        assert(s.take(n) =~= s);
    } else {
        lemma_digits_value_grows(s.drop_last(), n, radix);
        assert(s.drop_last().take(n) =~= s.take(n));
        let before = digits_value(s.drop_last(), radix);
        assert(before <= before * radix) by (nonlinear_arith)
            requires
                radix >= 1,
        ;
    }
}

/// Read `s` as a number in `radix` of at most `max`.
pub fn read_number(s: &str, radix: u32, max: u32) -> (n: Option<u32>)
    requires
        2 <= radix <= 16,
        max <= 65535,
    ensures
        n is Some == number(s@, radix as nat, max as nat) is Some,
        n is Some ==> n->0 as nat == number(s@, radix as nat, max as nat)->0,
{
    let chars: Vec<char> = chars_of(s);
    let start: usize = if chars.len() > 0 && chars[0] == '+' {
        1
    } else {
        0
    };
    let ghost digits = without_plus(s@);
    assert(digits =~= s@.skip(start as int));
    if start == chars.len() {
        return None;
    }
    let mut value: u32 = 0;
    let mut i: usize = start;
    assert(digits.take(0) =~= Seq::<char>::empty());
    while i < chars.len()
        invariant
            start <= i <= chars.len(),
            chars@ == s@,
            digits == without_plus(s@),
            digits == s@.skip(start as int),
            digits.len() > 0,
            2 <= radix <= 16,
            value <= max <= 65535,
            value == digits_value(digits.take(i - start), radix as nat),
            all_digits(digits.take(i - start), radix as nat),
        decreases chars.len() - i,
    {
        let ghost n = i - start;
        let ghost seen = digits.take(n);
        let ghost longer = digits.take(n + 1);
        assert(longer.drop_last() =~= seen);
        assert(longer.last() == digits[n] == chars@[i as int]);
        match read_digit(chars[i], radix) {
            None => {
                assert(digit_value(digits[n], radix as nat) is None);
                return None;
            },
            Some(d) => {
                assert(value * radix <= 65535 * 16) by (nonlinear_arith)
                    requires
                        value <= 65535,
                        radix <= 16,
                ;
                let next: u32 = value * radix + d;
                assert(next == digits_value(longer, radix as nat));
                if next > max {
                    proof {
                        lemma_digits_value_grows(digits, n + 1, radix as nat);
                    }
                    return None;
                }
                assert(all_digits(longer, radix as nat)) by {
                    assert forall|k: int| 0 <= k < longer.len() implies (#[trigger] digit_value(
                        longer[k],
                        radix as nat,
                    )) is Some by {
                        if k < n {
                            assert(longer[k] == seen[k]);
                            assert(digit_value(seen[k], radix as nat) is Some);
                        }
                    }
                }
                value = next;
            },
        }
        i = i + 1;
    }
    assert(digits.take(digits.len() as int) =~= digits);
    Some(value)
}

/// A number in decimal is made of digits, and reads as that number.
pub proof fn lemma_dec(n: nat)
    ensures
        dec(n).len() > 0,
        forall|i: int| 0 <= i < dec(n).len() ==> '0' <= #[trigger] dec(n)[i] <= '9',
        digits_value(dec(n), 10) == n,
    decreases n,
{
    if n < 10 {
        let s = dec(n);
        assert(s.drop_last() =~= Seq::<char>::empty());
        assert(digits_value(s.drop_last(), 10) == 0);
    } else {
        lemma_dec(n / 10);
        let s = dec(n);
        assert(s.drop_last() =~= dec(n / 10));
        assert forall|i: int| 0 <= i < s.len() implies '0' <= #[trigger] s[i] <= '9' by {
            if i < dec(n / 10).len() {
                assert(s[i] == dec(n / 10)[i]);
            }
        }
    }
}

/// Writing a number in decimal and reading it gives the number back.
pub proof fn law_decimal_reads_back(n: nat, max: nat)
    requires
        n <= max,
    ensures
        number(dec(n), 10, max) == Some(n),
{
    lemma_dec(n);
    assert(without_plus(dec(n)) == dec(n));
    assert forall|i: int| 0 <= i < dec(n).len() implies (#[trigger] digit_value(
        dec(n)[i],
        10,
    )) is Some by {
        assert('0' <= dec(n)[i] <= '9');
    }
}

// ---------------------------------------------------------------------------
// White space, words and lines
// ---------------------------------------------------------------------------

/// Whether `c` has the Unicode property White_Space.
pub open spec fn white(c: char) -> bool {
    ||| '\u{9}' <= c <= '\u{d}'
    ||| c == ' '
    ||| c == '\u{85}'
    ||| c == '\u{a0}'
    ||| c == '\u{1680}'
    ||| '\u{2000}' <= c <= '\u{200a}'
    ||| c == '\u{2028}'
    ||| c == '\u{2029}'
    ||| c == '\u{202f}'
    ||| c == '\u{205f}'
    ||| c == '\u{3000}'
}

/// Whether `c` has the Unicode property White_Space.
fn is_white(c: char) -> (yes: bool)
    ensures
        yes == white(c),
{
    ('\u{9}' <= c && c <= '\u{d}') || c == ' ' || c == '\u{85}' || c == '\u{a0}' || c
        == '\u{1680}' || ('\u{2000}' <= c && c <= '\u{200a}') || c == '\u{2028}' || c == '\u{2029}'
        || c == '\u{202f}' || c == '\u{205f}' || c == '\u{3000}'
}

/// `s` without the white space it begins with.
pub open spec fn trim_start(s: Seq<char>) -> Seq<char>
    decreases s.len(),
{
    if s.len() > 0 && white(s[0]) {
        trim_start(s.skip(1))
    } else {
        s
    }
}

/// `s` without the white space it ends with.
pub open spec fn trim_end(s: Seq<char>) -> Seq<char>
    decreases s.len(),
{
    if s.len() > 0 && white(s.last()) {
        trim_end(s.drop_last())
    } else {
        s
    }
}

/// `s` without the white space around it.
pub open spec fn trimmed(s: Seq<char>) -> Seq<char> {
    trim_end(trim_start(s))
}

/// `s` without the white space around it.
pub fn trim(s: &str) -> (t: &str)
    ensures
        t@ == trimmed(s@),
{
    let chars: Vec<char> = chars_of(s);
    let mut i: usize = 0;
    assert(s@.skip(0) =~= s@);
    while i < chars.len() && is_white(chars[i])
        invariant
            i <= chars.len(),
            chars@ == s@,
            trim_start(s@) == trim_start(s@.skip(i as int)),
        decreases chars.len() - i,
    {
        assert(s@.skip(i as int).skip(1) =~= s@.skip(i + 1));
        i = i + 1;
    }
    assert(trim_start(s@) == s@.skip(i as int));
    let mut j: usize = chars.len();
    assert(s@.subrange(i as int, j as int) =~= s@.skip(i as int));
    while j > i && is_white(chars[j - 1])
        invariant
            i <= j <= chars.len(),
            chars@ == s@,
            trimmed(s@) == trim_end(s@.subrange(i as int, j as int)),
        decreases j - i,
    {
        assert(s@.subrange(i as int, j as int).drop_last() =~= s@.subrange(i as int, j - 1));
        j = j - 1;
    }
    s.substring_char(i, j)
}

/// How many characters `s` begins with that are no white space.
pub open spec fn word_len(s: Seq<char>) -> nat
    decreases s.len(),
{
    if s.len() == 0 || white(s[0]) {
        0
    } else {
        1 + word_len(s.skip(1))
    }
}

/// A word is no longer than the text it begins.
pub proof fn lemma_word_len(s: Seq<char>)
    ensures
        word_len(s) <= s.len(),
        forall|i: int| 0 <= i < word_len(s) ==> !white(#[trigger] s[i]),
        word_len(s) < s.len() ==> white(s[word_len(s) as int]),
    decreases s.len(),
{
    if s.len() > 0 && !white(s[0]) {
        let rest = s.skip(1);
        lemma_word_len(rest);
        assert forall|i: int| 0 <= i < word_len(s) implies !white(#[trigger] s[i]) by {
            if i > 0 {
                assert(s[i] == rest[i - 1]);
            }
        }
        if word_len(s) < s.len() {
            assert(s[word_len(s) as int] == rest[word_len(rest) as int]);
        }
    }
}

/// The words of `s`: its longest stretches without white space, in order.
pub open spec fn words(s: Seq<char>) -> Seq<Seq<char>>
    decreases s.len(),
{
    if s.len() == 0 {
        Seq::empty()
    } else if white(s[0]) {
        words(s.skip(1))
    } else {
        proof {
            lemma_word_len(s);
        }
        seq![s.take(word_len(s) as int)] + words(s.skip(word_len(s) as int))
    }
}

/// What the strings of a list hold.
pub open spec fn texts(list: Seq<String>) -> Seq<Seq<char>> {
    list.map_values(|s: String| s@)
}

/// Split `s` into its words.
pub fn split_words(s: &str) -> (list: Vec<String>)
    ensures
        texts(list@) == words(s@),
{
    let chars: Vec<char> = chars_of(s);
    let mut list: Vec<String> = Vec::new();
    let mut i: usize = 0;
    assert(s@.skip(0) =~= s@);
    assert(texts(list@) + words(s@) =~= words(s@));
    while i < chars.len()
        invariant
            i <= chars.len(),
            chars@ == s@,
            words(s@) == texts(list@) + words(s@.skip(i as int)),
        decreases chars.len() - i,
    {
        let ghost rest = s@.skip(i as int);
        if is_white(chars[i]) {
            assert(rest.skip(1) =~= s@.skip(i + 1));
            i = i + 1;
        } else {
            let start: usize = i;
            let ghost before = list@;
            while i < chars.len() && !is_white(chars[i])
                invariant
                    start <= i <= chars.len(),
                    chars@ == s@,
                    rest == s@.skip(start as int),
                    word_len(rest) == (i - start) + word_len(s@.skip(i as int)),
                decreases chars.len() - i,
            {
                assert(s@.skip(i as int).skip(1) =~= s@.skip(i + 1));
                i = i + 1;
            }
            assert(word_len(rest) == i - start);
            let word: String = s.substring_char(start, i).to_owned();
            assert(word@ =~= rest.take(i - start));
            assert(rest.skip(i - start) =~= s@.skip(i as int));
            list.push(word);
            assert(texts(list@) =~= texts(before).push(word@));
            assert(words(s@) =~= texts(list@) + words(s@.skip(i as int)));
        }
    }
    assert(s@.skip(i as int) =~= Seq::<char>::empty());
    assert(texts(list@) + Seq::<Seq<char>>::empty() =~= texts(list@));
    list
}

/// How many characters stand before the first `c` in `s`, or all of them.
pub open spec fn find_char(s: Seq<char>, c: char) -> nat
    decreases s.len(),
{
    if s.len() == 0 || s[0] == c {
        0
    } else {
        1 + find_char(s.skip(1), c)
    }
}

/// Where the first `c` in `s` stands.
pub proof fn lemma_find_char(s: Seq<char>, c: char)
    ensures
        find_char(s, c) <= s.len(),
        forall|i: int| 0 <= i < find_char(s, c) ==> #[trigger] s[i] != c,
        find_char(s, c) < s.len() ==> s[find_char(s, c) as int] == c,
    decreases s.len(),
{
    if s.len() > 0 && s[0] != c {
        let rest = s.skip(1);
        lemma_find_char(rest, c);
        assert forall|i: int| 0 <= i < find_char(s, c) implies #[trigger] s[i] != c by {
            if i > 0 {
                assert(s[i] == rest[i - 1]);
            }
        }
        if find_char(s, c) < s.len() {
            assert(s[find_char(s, c) as int] == rest[find_char(rest, c) as int]);
        }
    }
}

/// What stands in `s` before the first `c`, or all of it.
pub open spec fn before_char(s: Seq<char>, c: char) -> Seq<char> {
    s.take(find_char(s, c) as int)
}

/// What stands in `s` before the first `c`, or all of it.
pub fn cut_at(s: &str, c: char) -> (t: &str)
    ensures
        t@ == before_char(s@, c),
{
    let chars: Vec<char> = chars_of(s);
    let mut i: usize = 0;
    assert(s@.skip(0) =~= s@);
    while i < chars.len() && chars[i] != c
        invariant
            i <= chars.len(),
            chars@ == s@,
            find_char(s@, c) == i + find_char(s@.skip(i as int), c),
        decreases chars.len() - i,
    {
        assert(s@.skip(i as int).skip(1) =~= s@.skip(i + 1));
        i = i + 1;
    }
    s.substring_char(0, i)
}

/// A line without the carriage return that may end it.
pub open spec fn without_return(s: Seq<char>) -> Seq<char> {
    if s.len() > 0 && s.last() == '\r' {
        s.drop_last()
    } else {
        s
    }
}

/// The lines of `s`. A line ends in a line feed, which may follow a carriage
/// return; neither is part of it. The last line need not end in one.
pub open spec fn lines(s: Seq<char>) -> Seq<Seq<char>>
    decreases s.len(),
{
    let n = find_char(s, '\n');
    if s.len() == 0 {
        Seq::empty()
    } else if n >= s.len() {
        seq![s]
    } else {
        seq![without_return(s.take(n as int))] + lines(s.skip(n as int + 1))
    }
}

/// Split `s` into its lines.
pub fn split_lines(s: &str) -> (list: Vec<String>)
    ensures
        texts(list@) == lines(s@),
{
    let chars: Vec<char> = chars_of(s);
    let mut list: Vec<String> = Vec::new();
    let mut start: usize = 0;
    assert(s@.skip(0) =~= s@);
    assert(texts(list@) + lines(s@) =~= lines(s@));
    while start < chars.len()
        invariant
            start <= chars.len(),
            chars@ == s@,
            lines(s@) == texts(list@) + lines(s@.skip(start as int)),
        decreases chars.len() - start,
    {
        let ghost rest = s@.skip(start as int);
        let ghost before = list@;
        let mut i: usize = start;
        while i < chars.len() && chars[i] != '\n'
            invariant
                start <= i <= chars.len(),
                chars@ == s@,
                rest == s@.skip(start as int),
                find_char(rest, '\n') == (i - start) + find_char(s@.skip(i as int), '\n'),
            decreases chars.len() - i,
        {
            assert(s@.skip(i as int).skip(1) =~= s@.skip(i + 1));
            i = i + 1;
        }
        assert(find_char(rest, '\n') == i - start);
        if i == chars.len() {
            let line: String = s.substring_char(start, i).to_owned();
            assert(line@ =~= rest);
            list.push(line);
            assert(texts(list@) =~= texts(before).push(line@));
            start = i;
            assert(s@.skip(start as int) =~= Seq::<char>::empty());
            assert(lines(s@) =~= texts(list@) + lines(s@.skip(start as int)));
        } else {
            let end: usize = if i > start && chars[i - 1] == '\r' {
                i - 1
            } else {
                i
            };
            let line: String = s.substring_char(start, end).to_owned();
            assert(line@ =~= without_return(rest.take(i - start)));
            assert(rest.skip(i - start + 1) =~= s@.skip(i + 1));
            list.push(line);
            assert(texts(list@) =~= texts(before).push(line@));
            start = i + 1;
            assert(lines(s@) =~= texts(list@) + lines(s@.skip(start as int)));
        }
    }
    assert(s@.skip(start as int) =~= Seq::<char>::empty());
    assert(texts(list@) + Seq::<Seq<char>>::empty() =~= texts(list@));
    list
}

// ---------------------------------------------------------------------------
// Columns and lists
// ---------------------------------------------------------------------------

/// `n` spaces.
pub open spec fn spaces(n: nat) -> Seq<char> {
    Seq::new(n, |i: int| ' ')
}

/// `s`, followed by spaces up to a width of `width` characters.
pub open spec fn padded(s: Seq<char>, width: nat) -> Seq<char> {
    if s.len() < width {
        s + spaces((width - s.len()) as nat)
    } else {
        s
    }
}

/// `s`, preceded by spaces up to a width of `width` characters.
pub open spec fn right_aligned(s: Seq<char>, width: nat) -> Seq<char> {
    if s.len() < width {
        spaces((width - s.len()) as nat) + s
    } else {
        s
    }
}

/// Append `n` spaces.
fn put_spaces(out: &mut String, n: usize)
    ensures
        final(out)@ == old(out)@ + spaces(n as nat),
{
    let ghost start = out@;
    let mut i: usize = 0;
    assert(out@ =~= start + spaces(0));
    while i < n
        invariant
            i <= n,
            out@ == start + spaces(i as nat),
        decreases n - i,
    {
        proof {
            reveal_strlit(" ");
        }
        out.append(" ");
        i = i + 1;
        assert(out@ =~= start + spaces(i as nat));
    }
}

/// Append `s`, followed by spaces up to a width of `width` characters.
pub fn put_padded(out: &mut String, s: &str, width: usize)
    ensures
        final(out)@ == old(out)@ + padded(s@, width as nat),
{
    let ghost start = out@;
    out.append(s);
    let n: usize = s.unicode_len();
    if n < width {
        put_spaces(out, width - n);
        assert(out@ =~= start + padded(s@, width as nat));
    }
}

/// Append `s`, preceded by spaces up to a width of `width` characters.
pub fn put_right_aligned(out: &mut String, s: &str, width: usize)
    ensures
        final(out)@ == old(out)@ + right_aligned(s@, width as nat),
{
    let ghost start = out@;
    let n: usize = s.unicode_len();
    if n < width {
        put_spaces(out, width - n);
    }
    out.append(s);
    assert(out@ =~= start + right_aligned(s@, width as nat));
}

/// `parts` with `separator` between each two.
pub open spec fn joined(parts: Seq<Seq<char>>, separator: Seq<char>) -> Seq<char>
    decreases parts.len(),
{
    if parts.len() == 0 {
        Seq::empty()
    } else if parts.len() == 1 {
        parts[0]
    } else {
        joined(parts.drop_last(), separator) + separator + parts.last()
    }
}

/// The strings of `parts` with `separator` between each two.
pub fn join(parts: &Vec<String>, separator: &str) -> (s: String)
    ensures
        s@ == joined(texts(parts@), separator@),
{
    let mut s: String = String::new();
    let ghost all = texts(parts@);
    let mut i: usize = 0;
    assert(all.take(0) =~= Seq::<Seq<char>>::empty());
    while i < parts.len()
        invariant
            i <= parts.len(),
            all == texts(parts@),
            s@ == joined(all.take(i as int), separator@),
        decreases parts.len() - i,
    {
        let ghost longer = all.take(i + 1);
        assert(longer.drop_last() =~= all.take(i as int));
        assert(longer.last() == parts@[i as int]@);
        if i > 0 {
            s.append(separator);
        }
        s.append(parts[i].as_str());
        assert(s@ =~= joined(longer, separator@));
        i = i + 1;
    }
    assert(all.take(all.len() as int) =~= all);
    s
}

/// How `str` prints itself under `{:?}`.
pub uninterp spec fn str_debug(s: Seq<char>) -> Seq<char>;

/// The `Debug` of `str`: the text in quotes, with escapes, which depends on the
/// text alone. Which characters it escapes is left unsaid.
#[verifier::external_body]
pub(crate) fn quoted(s: &str) -> (q: String)
    ensures
        q@ == str_debug(s@),
{
    format!("{:?}", s)
}

} // verus!
