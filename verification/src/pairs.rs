//! Hub pairs declared for a machine, and their text format.

use vstd::prelude::*;

use crate::error::{Error, ErrorView};
use crate::sysfs;
use crate::text;
use crate::text::{cut_at, same_text, split_lines, split_words};

verus! {

/// The word that declares a hub to have no other half.
pub const NONE: &'static str = "none";

/// Hub pairs declared for a machine, for what the bus cannot tell.
///
/// Needed only where a board wires the two halves of its receptacles in a way
/// the rules of [`crate::pairing`] do not recognize. Everything below a pair is
/// derived.
///
/// The pairs are the caller's to supply: built with [`Self::pair`] and
/// [`Self::alone`], or parsed from text with [`str::parse`]. The library reads
/// no file on its own.
///
/// # Text format
///
/// One pair per line, as two sysfs hub locations in either order, or one
/// location and `none` for a hub whose receptacles have no other half.
/// `#` starts a comment.
///
/// ```text
/// # The USB 2.0 side of the receptacles goes through an on-board hub, the
/// # SuperSpeed side straight to the controller.
/// 2-1 usb3
/// ```
#[derive(Debug, Clone, PartialEq, Eq)]
pub struct HubPairs {
    pairs: Vec<(String, String)>,
    alone: Vec<String>,
}

/// What a [`HubPairs`] declares.
pub struct HubPairsView {
    /// Hubs whose ports of one number share a receptacle.
    pub pairs: Seq<(Seq<char>, Seq<char>)>,
    /// Hubs whose receptacles have no other half.
    pub alone: Seq<Seq<char>>,
}

/// What the pairs of a list hold.
pub open spec fn pair_texts(list: Seq<(String, String)>) -> Seq<(Seq<char>, Seq<char>)> {
    list.map_values(|p: (String, String)| (p.0@, p.1@))
}

impl View for HubPairs {
    type V = HubPairsView;

    closed spec fn view(&self) -> HubPairsView {
        HubPairsView { pairs: pair_texts(self.pairs@), alone: text::texts(self.alone@) }
    }
}

/// No declared pairs.
pub open spec fn nothing_declared() -> HubPairsView {
    HubPairsView { pairs: Seq::empty(), alone: Seq::empty() }
}

impl HubPairsView {
    /// With one more pair.
    pub open spec fn with_pair(self, a: Seq<char>, b: Seq<char>) -> HubPairsView {
        HubPairsView { pairs: self.pairs.push((a, b)), alone: self.alone }
    }

    /// With one more hub that has no other half.
    pub open spec fn with_alone(self, hub: Seq<char>) -> HubPairsView {
        HubPairsView { pairs: self.pairs, alone: self.alone.push(hub) }
    }
}

/// What one line of the text format says.
pub enum Meaning {
    /// It is blank, but for a comment.
    Nothing,
    /// It is not a pair.
    Malformed,
    /// The hub's receptacles have no other half.
    Alone(Seq<char>),
    /// The two hubs share receptacles.
    Pair(Seq<char>, Seq<char>),
}

/// What the words of a line say: exactly two, `a b`, `a none` or `none a`.
/// `none none` names no hub, `a a` pairs a hub with itself.
pub open spec fn words_meaning(words: Seq<Seq<char>>) -> Meaning {
    if words.len() == 0 {
        Meaning::Nothing
    } else if words.len() != 2 {
        Meaning::Malformed
    } else if words[0] == NONE@ && words[1] == NONE@ {
        Meaning::Malformed
    } else if words[0] == NONE@ {
        Meaning::Alone(words[1])
    } else if words[1] == NONE@ {
        Meaning::Alone(words[0])
    } else if words[0] == words[1] {
        Meaning::Malformed
    } else {
        Meaning::Pair(words[0], words[1])
    }
}

/// What one line says: what its words before the first `#` say.
pub open spec fn meaning(line: Seq<char>) -> Meaning {
    words_meaning(text::words(text::before_char(line, '#')))
}

/// What is declared once a line was read.
pub open spec fn with_line(pairs: HubPairsView, meaning: Meaning) -> HubPairsView {
    match meaning {
        Meaning::Alone(hub) => pairs.with_alone(hub),
        Meaning::Pair(a, b) => pairs.with_pair(a, b),
        _ => pairs,
    }
}

/// What the lines declare, in order.
pub open spec fn declared(lines: Seq<Seq<char>>) -> HubPairsView
    decreases lines.len(),
{
    if lines.len() == 0 {
        nothing_declared()
    } else {
        with_line(declared(lines.drop_last()), meaning(lines.last()))
    }
}

/// What a text declares, or the number and the text of the first line that is
/// not a pair.
pub open spec fn parses_to(text: Seq<char>, parsed: Result<HubPairsView, ErrorView>) -> bool {
    let lines = text::lines(text);
    match parsed {
        Ok(pairs) => {
            &&& forall|i: int|
                0 <= i < lines.len() ==> !(meaning(#[trigger] lines[i]) is Malformed)
            &&& pairs == declared(lines)
        },
        Err(ErrorView::PairsSyntax { line, text }) => {
            &&& 1 <= line <= lines.len()
            &&& meaning(lines[line - 1]) is Malformed
            &&& text == lines[line - 1]
            &&& forall|i: int|
                0 <= i < line - 1 ==> !(meaning(#[trigger] lines[i]) is Malformed)
        },
        Err(_) => false,
    }
}

impl HubPairs {
    /// Construct from a Vec of `pairs` and a Vec of hubs that are `alone`
    #[must_use]
    pub fn from(pairs: Vec<(String, String)>, alone: Vec<String>) -> (declared: Self)
        ensures
            declared@.pairs == pair_texts(pairs@),
            declared@.alone == text::texts(alone@),
    {
        HubPairs { pairs, alone }
    }

    /// No declared pairs.
    #[must_use]
    pub fn none() -> (declared: Self)
        ensures
            declared@ == nothing_declared(),
    {
        let declared: HubPairs = HubPairs { pairs: Vec::new(), alone: Vec::new() };
        assert(declared@.pairs =~= Seq::empty());
        assert(declared@.alone =~= Seq::empty());
        declared
    }

    /// Add a mapping: port N of `a` and port N of `b` share a receptacle.
    #[must_use]
    pub fn pair(self, a: &str, b: &str) -> (declared: Self)
        ensures
            declared@ == self@.with_pair(a@, b@),
    {
        let mut pairs: Vec<(String, String)> = self.pairs;
        pairs.push((a.to_owned(), b.to_owned()));
        let declared: HubPairs = HubPairs { pairs, alone: self.alone };
        assert(declared@.pairs =~= self@.pairs.push((a@, b@)));
        declared
    }

    /// Add an empty mapping: `hub`'s receptacles have **no** other half.
    #[must_use]
    pub fn alone(self, hub: &str) -> (declared: Self)
        ensures
            declared@ == self@.with_alone(hub@),
    {
        let mut alone: Vec<String> = self.alone;
        alone.push(hub.to_owned());
        let declared: HubPairs = HubPairs { pairs: self.pairs, alone };
        assert(declared@.alone =~= self@.alone.push(hub@));
        declared
    }

    /// The declared pairs.
    pub fn declared_pairs(&self) -> (pairs: &Vec<(String, String)>)
        ensures
            pair_texts(pairs@) == self@.pairs,
    {
        &self.pairs
    }

    /// The hubs declared to have no other half.
    pub fn declared_alone(&self) -> (alone: &Vec<String>)
        ensures
            text::texts(alone@) == self@.alone,
    {
        &self.alone
    }

    /// The pairs in a file in the text format: `content` is what reading the file
    /// at `path` gave, or why it could not be read, as the system describes it.
    ///
    /// # Errors
    ///
    /// [`Error::PairsUnreadable`] if the file could not be read,
    /// [`Error::PairsSyntax`] if a line is not a pair.
    pub fn load(path: &str, content: Result<String, String>) -> (loaded: Result<Self, Error>)
        ensures
            match content {
                Ok(text) => parses_to(text@, match loaded {
                    Ok(pairs) => Ok(pairs@),
                    Err(e) => Err(e@),
                }),
                Err(source) => loaded is Err && loaded->Err_0@ == (ErrorView::PairsUnreadable {
                    path: path@,
                    source: source@,
                }),
            },
    {
        match content {
            Ok(text) => HubPairs::from_text(text.as_str()),
            Err(source) => Err(Error::PairsUnreadable { path: path.to_owned(), source }),
        }
    }

    /// Parse the text format.
    ///
    /// # Errors
    ///
    /// [`Error::PairsSyntax`] naming the first line that is not a pair.
    pub fn from_text(text: &str) -> (parsed: Result<Self, Error>)
        ensures
            parses_to(text@, match parsed {
                Ok(pairs) => Ok(pairs@),
                Err(e) => Err(e@),
            }),
    {
        let mut pairs: HubPairs = HubPairs::none();
        let lines: Vec<String> = split_lines(text);
        let ghost all = text::lines(text@);
        let mut i: usize = 0;
        assert(all.take(0) =~= Seq::<Seq<char>>::empty());
        while i < lines.len()
            invariant
                i <= lines.len(),
                all == text::lines(text@),
                all == text::texts(lines@),
                pairs@ == declared(all.take(i as int)),
                forall|j: int| 0 <= j < i ==> !(meaning(#[trigger] all[j]) is Malformed),
            decreases lines.len() - i,
        {
            assert(all[i as int] == lines@[i as int]@);
            assert(all.take(i + 1).drop_last() =~= all.take(i as int));
            // Drop the comment, i.e., anything after the first `#`. Blank lines
            // and comment-only lines declare nothing.
            let raw: &str = lines[i].as_str();
            let words: Vec<String> = split_words(cut_at(raw, '#'));
            let ghost w = text::texts(words@);
            assert(w == text::words(text::before_char(raw@, '#')));
            if words.len() > 0 {
                // Errors quote the line as written, comment included, numbered
                // from 1 as editors do.
                if words.len() != 2 {
                    return Err(Error::PairsSyntax { line: i + 1, text: raw.to_owned() });
                }
                let a: &str = words[0].as_str();
                let b: &str = words[1].as_str();
                assert(w[0] == a@ && w[1] == b@);
                if same_text(a, NONE) {
                    if same_text(b, NONE) {
                        return Err(Error::PairsSyntax { line: i + 1, text: raw.to_owned() });
                    }
                    pairs = pairs.alone(b);
                } else if same_text(b, NONE) {
                    pairs = pairs.alone(a);
                } else if same_text(a, b) {
                    return Err(Error::PairsSyntax { line: i + 1, text: raw.to_owned() });
                } else {
                    pairs = pairs.pair(a, b);
                }
            }
            i = i + 1;
        }
        assert(all.take(all.len() as int) =~= all);
        Ok(pairs)
    }
}

impl Default for HubPairs {
    fn default() -> (declared: Self)
        ensures
            declared@ == nothing_declared(),
    {
        HubPairs::none()
    }
}

impl core::str::FromStr for HubPairs {
    type Err = Error;

    fn from_str(text: &str) -> (parsed: Result<Self, Error>)
        ensures
            parses_to(text@, match parsed {
                Ok(pairs) => Ok(pairs@),
                Err(e) => Err(e@),
            }),
    {
        HubPairs::from_text(text)
    }
}

// ---------------------------------------------------------------------------
// Laws
// ---------------------------------------------------------------------------

/// `none` may stand on either side of a hub.
pub proof fn law_none_stands_on_either_side(hub: Seq<char>)
    ensures
        words_meaning(seq![hub, NONE@]) == words_meaning(seq![NONE@, hub]),
        hub != NONE@ ==> words_meaning(seq![hub, NONE@]) == Meaning::Alone(hub),
{
}

/// A comment changes nothing: a line means what it means without the first `#`
/// and what follows it.
pub proof fn law_a_comment_means_nothing(line: Seq<char>, comment: Seq<char>)
    requires
        !line.contains('#'),
    ensures
        meaning(line + "#"@ + comment) == meaning(line),
{
    reveal_strlit("#");
    let whole = line + "#"@ + comment;
    text::lemma_find_char(line, '#');
    text::lemma_find_char(whole, '#');
    let n = text::find_char(whole, '#');
    let m = text::find_char(line, '#');
    assert(whole[line.len() as int] == '#');
    if n < line.len() {
        assert(whole[n as int] == line[n as int]);
    }
    if m < line.len() {
        assert(line[m as int] == '#');
    }
    assert(text::before_char(whole, '#') =~= line);
    assert(text::before_char(line, '#') =~= line);
}

/// A line that declares nothing can stand anywhere, or be left out.
pub proof fn law_blank_lines_can_be_left_out(
    before: Seq<Seq<char>>,
    blank: Seq<char>,
    after: Seq<Seq<char>>,
)
    requires
        meaning(blank) is Nothing,
    ensures
        declared(before.push(blank) + after) == declared(before + after),
    decreases after.len(),
{
    if after.len() == 0 {
        assert(before.push(blank) + after =~= before.push(blank));
        assert(before + after =~= before);
        assert(before.push(blank).drop_last() =~= before);
    } else {
        law_blank_lines_can_be_left_out(before, blank, after.drop_last());
        assert((before.push(blank) + after).drop_last() =~= before.push(blank) + after.drop_last());
        assert((before + after).drop_last() =~= before + after.drop_last());
    }
}

/// The words of one word and what follows it after a space.
proof fn lemma_two_words(a: Seq<char>, b: Seq<char>)
    requires
        a.len() > 0,
        b.len() > 0,
        forall|i: int| 0 <= i < a.len() ==> !text::white(#[trigger] a[i]),
        forall|i: int| 0 <= i < b.len() ==> !text::white(#[trigger] b[i]),
    ensures
        text::words(a + " "@ + b) == seq![a, b],
{
    reveal_strlit(" ");
    let s = a + " "@ + b;
    text::lemma_word_len(s);
    let n = text::word_len(s);
    assert(s[a.len() as int] == ' ');
    if n > a.len() {
        assert(!text::white(s[a.len() as int]));
    }
    if n < a.len() {
        assert(s[n as int] == a[n as int]);
    }
    assert(s.take(n as int) =~= a);
    let rest = s.skip(n as int);
    assert(rest[0] == ' ');
    assert(rest.skip(1) =~= b);
    text::lemma_word_len(b);
    let m = text::word_len(b);
    assert(b.take(m as int) =~= b);
    assert(b.skip(m as int) =~= Seq::<char>::empty());
    assert(text::words(b.skip(m as int)) =~= Seq::<Seq<char>>::empty());
    assert(!text::white(b[0]));
    assert(text::words(b) =~= seq![b]);
    assert(text::words(rest) == text::words(b));
    assert(s[0] == a[0]);
    assert(!text::white(a[0]));
    assert(text::words(s) =~= seq![a, b]);
}

/// Whether text can name a hub on a line: not empty, without white space and
/// `#`.
pub open spec fn nameable(hub: Seq<char>) -> bool {
    &&& hub.len() > 0
    &&& forall|i: int|
        0 <= i < hub.len() ==> {
            let c = #[trigger] hub[i];
            !text::white(c) && c != '#' && c != '\n'
        }
}

/// The only line of a text that holds no line feed.
proof fn lemma_one_line(s: Seq<char>)
    requires
        s.len() > 0,
        forall|i: int| 0 <= i < s.len() ==> #[trigger] s[i] != '\n',
    ensures
        text::lines(s) == seq![s],
{
    text::lemma_find_char(s, '\n');
    let n = text::find_char(s, '\n');
    if n < s.len() {
        assert(s[n as int] == '\n');
    }
}

/// What a line of two names says.
proof fn lemma_line_of_two(a: Seq<char>, b: Seq<char>)
    requires
        nameable(a),
        nameable(b),
    ensures
        meaning(a + " "@ + b) == words_meaning(seq![a, b]),
        text::lines(a + " "@ + b) == seq![a + " "@ + b],
{
    reveal_strlit(" ");
    let s = a + " "@ + b;
    lemma_two_words(a, b);
    assert forall|i: int| 0 <= i < s.len() implies #[trigger] s[i] != '#' && s[i] != '\n' by {
        if i < a.len() {
            assert(s[i] == a[i]);
        } else if i > a.len() {
            assert(s[i] == b[i - a.len() - 1]);
        }
    }
    text::lemma_find_char(s, '#');
    let n = text::find_char(s, '#');
    if n < s.len() {
        assert(s[n as int] == '#');
    }
    assert(text::before_char(s, '#') =~= s);
    lemma_one_line(s);
}

/// A line of two hub locations reads as their pair, and as nothing else.
pub proof fn law_a_pair_line_reads_back(a: Seq<char>, b: Seq<char>)
    requires
        nameable(a),
        nameable(b),
        a != b,
        a != NONE@,
        b != NONE@,
    ensures
        parses_to(a + " "@ + b, Ok(nothing_declared().with_pair(a, b))),
{
    let s = a + " "@ + b;
    lemma_line_of_two(a, b);
    let lines = text::lines(s);
    assert(lines.drop_last() =~= Seq::<Seq<char>>::empty());
    assert(declared(lines.drop_last()) == nothing_declared());
    assert(lines.last() == s);
}

/// A line of a hub location and `none` reads as that hub having no other half,
/// and as nothing else.
pub proof fn law_an_alone_line_reads_back(hub: Seq<char>)
    requires
        nameable(hub),
        hub != NONE@,
    ensures
        parses_to(hub + " "@ + NONE@, Ok(nothing_declared().with_alone(hub))),
{
    reveal_strlit("none");
    assert(nameable(NONE@));
    let s = hub + " "@ + NONE@;
    lemma_line_of_two(hub, NONE@);
    let lines = text::lines(s);
    assert(lines.drop_last() =~= Seq::<Seq<char>>::empty());
    assert(declared(lines.drop_last()) == nothing_declared());
    assert(lines.last() == s);
}

/// Every sysfs location can be named in a line, and none of them is `none`.
pub proof fn law_locations_are_nameable(bus: u8, path: Seq<u8>)
    ensures
        nameable(sysfs::location_of(bus, path)),
        sysfs::location_of(bus, path) != NONE@,
{
    sysfs::lemma_location_start(bus, path);
    sysfs::lemma_location_chars(bus, path);
    reveal_strlit("none");
    reveal_strlit("usb");
    let s = sysfs::location_of(bus, path);
    text::lemma_dec(bus as nat);
    if path.len() == 0 {
        assert(s[0] == 'u');
    } else {
        assert(s[0] == text::dec(bus as nat)[0]);
    }
}

/// What the words of a line declare: none nothing, and two a pair, or a hub that
/// has no other half where one of them is `none`. Any other number of words is
/// malformed, and so is the same word twice.
pub proof fn law_what_a_line_declares(words: Seq<Seq<char>>)
    ensures
        words_meaning(words) is Nothing <==> words.len() == 0,
        words_meaning(words) is Malformed <==> words.len() == 1 || words.len() > 2 || (words.len()
            == 2 && words[0] == words[1]),
        words.len() == 2 && words[0] == "none"@ && words[1] != "none"@ ==> words_meaning(words)
            == Meaning::Alone(words[1]),
        words.len() == 2 && words[1] == "none"@ && words[0] != "none"@ ==> words_meaning(words)
            == Meaning::Alone(words[0]),
        words.len() == 2 && words[0] != "none"@ && words[1] != "none"@ && words[0] != words[1]
            ==> words_meaning(words) == Meaning::Pair(words[0], words[1]),
{
}

/// Lines add up: what two texts declare one after the other is what the first
/// declares followed by what the second does, and a line alone declares what it
/// means.
pub proof fn law_declarations_add_up(a: Seq<Seq<char>>, b: Seq<Seq<char>>, line: Seq<char>)
    ensures
        declared(a + b).pairs == declared(a).pairs + declared(b).pairs,
        declared(a + b).alone == declared(a).alone + declared(b).alone,
        declared(seq![line]).pairs == (match meaning(line) {
            Meaning::Pair(x, y) => seq![(x, y)],
            _ => Seq::empty(),
        }),
        declared(seq![line]).alone == (match meaning(line) {
            Meaning::Alone(x) => seq![x],
            _ => Seq::empty(),
        }),
    decreases b.len(),
{
    assert(seq![line].drop_last() =~= Seq::<Seq<char>>::empty());
    assert(declared(seq![line].drop_last()) == nothing_declared());
    assert(declared(seq![line]).pairs =~= (match meaning(line) {
        Meaning::Pair(x, y) => seq![(x, y)],
        _ => Seq::empty(),
    }));
    assert(declared(seq![line]).alone =~= (match meaning(line) {
        Meaning::Alone(x) => seq![x],
        _ => Seq::empty(),
    }));
    if b.len() == 0 {
        assert(a + b =~= a);
        assert(declared(a).pairs + declared(b).pairs =~= declared(a).pairs);
        assert(declared(a).alone + declared(b).alone =~= declared(a).alone);
    } else {
        law_declarations_add_up(a, b.drop_last(), line);
        assert((a + b).drop_last() =~= a + b.drop_last());
        assert((a + b).last() == b.last());
        assert(declared(a + b).pairs =~= declared(a).pairs + declared(b).pairs);
        assert(declared(a + b).alone =~= declared(a).alone + declared(b).alone);
    }
}

/// A text reads in one way only: where line `k` is the first malformed one, as the
/// error that quotes it and numbers it from one; and where none is, as what its
/// lines declare.
pub proof fn law_the_first_malformed_line_is_named(
    text: Seq<char>,
    parsed: Result<HubPairsView, ErrorView>,
    k: int,
)
    requires
        text::lines(text).len() <= usize::MAX,
    ensures
        ({
            let lines = text::lines(text);
            &&& 0 <= k < lines.len() && meaning(lines[k]) is Malformed && (forall|i: int|
                0 <= i < k ==> !(meaning(#[trigger] lines[i]) is Malformed)) ==> (parses_to(
                text,
                parsed,
            ) <==> parsed == Err::<HubPairsView, ErrorView>(
                ErrorView::PairsSyntax { line: (k + 1) as usize, text: lines[k] },
            ))
            &&& (forall|i: int|
                0 <= i < lines.len() ==> !(meaning(#[trigger] lines[i]) is Malformed)) ==> (
            parses_to(text, parsed) <==> parsed == Ok::<HubPairsView, ErrorView>(
                declared(lines),
            ))
        }),
{
    let lines = text::lines(text);
    if let Err(ErrorView::PairsSyntax { line, .. }) = parsed {
        if 1 <= line <= lines.len() {
            assert(lines[line - 1] == lines[line - 1]);
        }
    }
}

} // verus!
