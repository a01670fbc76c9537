//! Text handling on Unicode strings: whitespace, trimming, splitting and joining.
use vstd::prelude::*;
use vstd::string::*;

verus! {

/// The characters with the Unicode property `White_Space`.
pub open spec fn white(c: char) -> bool {
    let u = c as u32;
    ||| 0x9 <= u <= 0xd
    ||| u == 0x20
    ||| u == 0x85
    ||| u == 0xa0
    ||| u == 0x1680
    ||| 0x2000 <= u <= 0x200a
    ||| u == 0x2028
    ||| u == 0x2029
    ||| u == 0x202f
    ||| u == 0x205f
    ||| u == 0x3000
}

/// Tells whether `c` is Unicode white space.
pub fn is_white(c: char) -> (r: bool)
    ensures
        r == white(c),
{
    let u: u32 = c as u32;
    (0x9 <= u && u <= 0xd) || u == 0x20 || u == 0x85 || u == 0xa0 || u == 0x1680 || (0x2000 <= u
        && u <= 0x200a) || u == 0x2028 || u == 0x2029 || u == 0x202f || u == 0x205f || u == 0x3000
}

/// What separates the pieces of a text.
#[derive(Clone, Copy, PartialEq, Eq, Structural, Debug)]
pub enum Separator {
    /// Any Unicode white space.
    White,
    /// A comma.
    Comma,
    /// A line feed.
    Feed,
}

impl Separator {
    /// Tells whether `c` separates.
    pub open spec fn splits(self, c: char) -> bool {
        match self {
            Separator::White => white(c),
            Separator::Comma => c == ',',
            Separator::Feed => c == '\n',
        }
    }

    /// Tells whether `c` separates.
    pub fn is_at(self, c: char) -> (r: bool)
        ensures
            r == self.splits(c),
    {
        match self {
            Separator::White => is_white(c),
            Separator::Comma => c == ',',
            Separator::Feed => c == '\n',
        }
    }
}

/// `s` without the white space it starts with.
pub open spec fn trimmed_start(s: Seq<char>) -> Seq<char>
    decreases s.len(),
{
    if s.len() > 0 && white(s[0]) {
        trimmed_start(s.drop_first())
    } else {
        s
    }
}

/// `s` without the white space it ends with.
pub open spec fn trimmed_end(s: Seq<char>) -> Seq<char>
    decreases s.len(),
{
    if s.len() > 0 && white(s.last()) {
        trimmed_end(s.drop_last())
    } else {
        s
    }
}

/// `s` without the white space at its two ends.
pub open spec fn trimmed(s: Seq<char>) -> Seq<char> {
    trimmed_end(trimmed_start(s))
}

/// The pieces of `s` between the characters that separate: one more than there are of those.
pub open spec fn pieces(s: Seq<char>, sep: Separator) -> Seq<Seq<char>>
    decreases s.len(),
{
    if s.len() == 0 {
        seq![Seq::<char>::empty()]
    } else {
        let before = pieces(s.drop_last(), sep);
        if sep.splits(s.last()) {
            before.push(Seq::<char>::empty())
        } else {
            before.drop_last().push(before.last().push(s.last()))
        }
    }
}

/// The texts in `all` that are not empty, in their order.
pub open spec fn nonempty(all: Seq<Seq<char>>) -> Seq<Seq<char>>
    decreases all.len(),
{
    if all.len() == 0 {
        all
    } else if all.last().len() == 0 {
        nonempty(all.drop_last())
    } else {
        nonempty(all.drop_last()).push(all.last())
    }
}

/// The words of `s`: its longest runs without white space.
pub open spec fn words(s: Seq<char>) -> Seq<Seq<char>> {
    nonempty(pieces(s, Separator::White))
}

/// The texts in `all`, each without the white space at its ends.
pub open spec fn all_trimmed(all: Seq<Seq<char>>) -> Seq<Seq<char>> {
    Seq::new(all.len(), |i: int| trimmed(all[i]))
}

/// `s` without one carriage return at its end, if there is one.
pub open spec fn without_return(s: Seq<char>) -> Seq<char> {
    if s.len() > 0 && s.last() == '\r' {
        s.drop_last()
    } else {
        s
    }
}

/// The lines of `s`. A line ends at a line feed, or at a carriage return and a line feed; the
/// end of the last line may be left out.
pub open spec fn text_lines(s: Seq<char>) -> Seq<Seq<char>> {
    let all = pieces(s, Separator::Feed);
    let ended = Seq::new((all.len() - 1) as nat, |i: int| without_return(all[i]));
    if all.last().len() == 0 {
        ended
    } else {
        ended.push(all.last())
    }
}

/// The texts in `all` one after the other, with `glue` between them.
pub open spec fn joined(all: Seq<Seq<char>>, glue: Seq<char>) -> Seq<char>
    decreases all.len(),
{
    if all.len() == 0 {
        Seq::empty()
    } else if all.len() == 1 {
        all[0]
    } else {
        joined(all.drop_last(), glue) + glue + all.last()
    }
}

/// What the strings of `v` hold.
pub open spec fn texts(v: Seq<String>) -> Seq<Seq<char>> {
    Seq::new(v.len(), |i: int| v[i]@)
}

/// The characters of `s`.
pub fn to_chars(s: &str) -> (r: Vec<char>)
    ensures
        r@ == s@,
{
    let mut r: Vec<char> = Vec::new();
    for c in it: s.chars()
        invariant
            it.seq() == s@,
            r@ == s@.take(it.index() as int),
    {
        r.push(c);
    }
    r
}

/// Tells whether two strings hold the same text.
pub fn same_text(a: &str, b: &str) -> (r: bool)
    ensures
        r == (a@ == b@),
{
    let x = to_chars(a);
    let y = to_chars(b);
    if x.len() != y.len() {
        return false;
    }
    let mut i: usize = 0;
    while i < x.len()
        invariant
            i <= x.len(),
            x.len() == y.len(),
            x@ == a@,
            y@ == b@,
            forall|j: int| 0 <= j < i ==> x@[j] == y@[j],
        decreases x.len() - i,
    {
        if x[i] != y[i] {
            return false;
        }
        i = i + 1;
    }
    assert(x@ =~= y@);
    true
}

/// `s` without the white space at its two ends.
pub fn trim<'a>(s: &'a str) -> (r: &'a str)
    ensures
        r@ == trimmed(s@),
{
    let chars = to_chars(s);
    let n: usize = chars.len();
    let mut from: usize = 0;
    assert(s@.skip(0) =~= s@);
    while from < n && is_white(chars[from])
        invariant
            from <= n,
            n == chars@.len(),
            chars@ == s@,
            trimmed_start(s@) == trimmed_start(s@.skip(from as int)),
        decreases n - from,
    {
        assert(s@.skip(from as int).drop_first() =~= s@.skip(from + 1));
        from = from + 1;
    }
    assert(trimmed_start(s@) == s@.skip(from as int));
    let mut to: usize = n;
    assert(s@.subrange(from as int, n as int) =~= s@.skip(from as int));
    while to > from && is_white(chars[to - 1])
        invariant
            from <= to <= n,
            n == chars@.len(),
            chars@ == s@,
            trimmed(s@) == trimmed_end(s@.subrange(from as int, to as int)),
        decreases to,
    {
        assert(s@.subrange(from as int, to as int).drop_last() =~= s@.subrange(
            from as int,
            to - 1,
        ));
        to = to - 1;
    }
    s.substring_char(from, to)
}

/// The pieces of `s` between the characters that separate.
pub fn split(s: &str, sep: Separator) -> (r: Vec<String>)
    ensures
        texts(r@) == pieces(s@, sep),
{
    let chars = to_chars(s);
    let n: usize = chars.len();
    let mut r: Vec<String> = Vec::new();
    let mut from: usize = 0;
    let mut i: usize = 0;
    proof {
        assert(s@.subrange(0, 0) =~= Seq::<char>::empty());
        assert(texts(r@).push(Seq::<char>::empty()) =~= seq![Seq::<char>::empty()]);
    }
    while i < n
        invariant
            from <= i <= n,
            n == chars@.len(),
            chars@ == s@,
            pieces(s@.take(i as int), sep) == texts(r@).push(s@.subrange(from as int, i as int)),
        decreases n - i,
    {
        let ghost before = texts(r@);
        let ghost current = s@.subrange(from as int, i as int);
        assert(s@.take(i + 1).drop_last() =~= s@.take(i as int));
        assert(before.push(current).drop_last() =~= before);
        if sep.is_at(chars[i]) {
            r.push(s.substring_char(from, i).to_owned());
            from = i + 1;
            assert(texts(r@) =~= before.push(current));
            assert(s@.subrange(from as int, i + 1) =~= Seq::<char>::empty());
        } else {
            assert(s@.subrange(from as int, i + 1) =~= current.push(s@[i as int]));
        }
        i = i + 1;
    }
    assert(s@.take(n as int) =~= s@);
    let ghost before = texts(r@);
    r.push(s.substring_char(from, n).to_owned());
    assert(texts(r@) =~= before.push(s@.subrange(from as int, n as int)));
    r
}

/// The strings of `all` that are not empty, in their order.
pub fn keep_nonempty(all: &Vec<String>) -> (r: Vec<String>)
    ensures
        texts(r@) == nonempty(texts(all@)),
{
    let mut r: Vec<String> = Vec::new();
    let mut i: usize = 0;
    assert(texts(r@) =~= nonempty(texts(all@).take(0)));
    while i < all.len()
        invariant
            i <= all.len(),
            texts(r@) == nonempty(texts(all@).take(i as int)),
        decreases all.len() - i,
    {
        let ghost before = texts(r@);
        assert(texts(all@).take(i + 1).drop_last() =~= texts(all@).take(i as int));
        if !all[i].as_str().is_empty() {
            r.push(all[i].clone());
            assert(texts(r@) =~= before.push(all@[i as int]@));
        }
        i = i + 1;
    }
    assert(texts(all@).take(all@.len() as int) =~= texts(all@));
    r
}

/// The words of `s`.
pub fn split_words(s: &str) -> (r: Vec<String>)
    ensures
        texts(r@) == words(s@),
{
    keep_nonempty(&split(s, Separator::White))
}

/// The strings of `all`, each without the white space at its ends.
pub fn trim_all(all: &Vec<String>) -> (r: Vec<String>)
    ensures
        texts(r@) == all_trimmed(texts(all@)),
{
    let mut r: Vec<String> = Vec::new();
    let mut i: usize = 0;
    while i < all.len()
        invariant
            i <= all.len(),
            r.len() == i,
            forall|j: int| 0 <= j < i ==> (#[trigger] r@[j])@ == trimmed(all@[j]@),
        decreases all.len() - i,
    {
        r.push(trim(all[i].as_str()).to_owned());
        i = i + 1;
    }
    assert(texts(r@) =~= all_trimmed(texts(all@)));
    r
}

/// The lines of `s`.
pub fn split_lines(s: &str) -> (r: Vec<String>)
    ensures
        texts(r@) == text_lines(s@),
{
    let all = split(s, Separator::Feed);
    proof {
        lemma_pieces_some(s@, Separator::Feed);
    }
    let last: usize = all.len() - 1;
    let mut r: Vec<String> = Vec::new();
    let mut i: usize = 0;
    while i < last
        invariant
            i <= last,
            last == all.len() - 1,
            r.len() == i,
            forall|j: int| 0 <= j < i ==> (#[trigger] r@[j])@ == without_return(all@[j]@),
        decreases last - i,
    {
        let line = all[i].as_str();
        let n: usize = line.unicode_len();
        if n > 0 && line.get_char(n - 1) == '\r' {
            assert(line@.subrange(0, n - 1) =~= line@.drop_last());
            r.push(line.substring_char(0, n - 1).to_owned());
        } else {
            r.push(line.to_owned());
        }
        i = i + 1;
    }
    let ghost ended = Seq::new(last as nat, |j: int| without_return(texts(all@)[j]));
    assert(texts(r@) =~= ended);
    if !all[last].as_str().is_empty() {
        r.push(all[last].clone());
        assert(texts(r@) =~= ended.push(all@[last as int]@));
    }
    r
}

/// The strings of `all` one after the other, with `glue` between them.
pub fn join(all: &Vec<String>, glue: &str) -> (r: String)
    ensures
        r@ == joined(texts(all@), glue@),
{
    let mut r = String::new();
    let mut i: usize = 0;
    while i < all.len()
        invariant
            i <= all.len(),
            r@ == joined(texts(all@).take(i as int), glue@),
        decreases all.len() - i,
    {
        assert(texts(all@).take(i + 1).drop_last() =~= texts(all@).take(i as int));
        if i > 0 {
            r.append(glue);
        }
        r.append(all[i].as_str());
        assert(i == 0 ==> r@ =~= all@[0]@);
        i = i + 1;
    }
    assert(texts(all@).take(all@.len() as int) =~= texts(all@));
    r
}

/// A text has at least one piece.
pub proof fn lemma_pieces_some(s: Seq<char>, sep: Separator)
    ensures
        pieces(s, sep).len() >= 1,
    decreases s.len(),
{
    if s.len() > 0 {
        lemma_pieces_some(s.drop_last(), sep);
    }
}

/// No character of `s` separates.
pub open spec fn unbroken(s: Seq<char>, sep: Separator) -> bool {
    forall|i: int| 0 <= i < s.len() ==> !sep.splits(#[trigger] s[i])
}

/// A text in which nothing separates is its only piece.
pub proof fn lemma_pieces_unbroken(s: Seq<char>, sep: Separator)
    requires
        unbroken(s, sep),
    ensures
        pieces(s, sep) == seq![s],
    decreases s.len(),
{
    if s.len() == 0 {
        assert(s =~= Seq::empty());
    } else {
        lemma_pieces_unbroken(s.drop_last(), sep);
        assert(s.drop_last().push(s.last()) =~= s);
        assert(pieces(s, sep) =~= seq![s]);
    }
}

/// The pieces on the two sides of a character that separates.
pub proof fn lemma_pieces_concat(a: Seq<char>, c: char, b: Seq<char>, sep: Separator)
    requires
        sep.splits(c),
    ensures
        pieces(a.push(c) + b, sep) == pieces(a, sep) + pieces(b, sep),
    decreases b.len(),
{
    let s = a.push(c) + b;
    if b.len() == 0 {
        assert(s =~= a.push(c));
        assert(s.drop_last() =~= a);
        assert(pieces(s, sep) =~= pieces(a, sep) + pieces(b, sep));
    } else {
        lemma_pieces_concat(a, c, b.drop_last(), sep);
        lemma_pieces_some(b.drop_last(), sep);
        assert(s.drop_last() =~= a.push(c) + b.drop_last());
        assert(pieces(s, sep) =~= pieces(a, sep) + pieces(b, sep));
    }
}

/// No piece holds a character that separates.
pub proof fn lemma_pieces_are_unbroken(s: Seq<char>, sep: Separator, i: int)
    requires
        0 <= i < pieces(s, sep).len(),
    ensures
        unbroken(pieces(s, sep)[i], sep),
    decreases s.len(),
{
    if s.len() > 0 {
        let before = pieces(s.drop_last(), sep);
        lemma_pieces_some(s.drop_last(), sep);
        if i < before.len() {
            lemma_pieces_are_unbroken(s.drop_last(), sep, i);
        }
    }
}

/// The pieces of a text hold nothing that the text does not hold.
pub proof fn lemma_pieces_inherit(s: Seq<char>, sep: Separator, other: Separator, i: int)
    requires
        unbroken(s, other),
        0 <= i < pieces(s, sep).len(),
    ensures
        unbroken(pieces(s, sep)[i], other),
    decreases s.len(),
{
    if s.len() > 0 {
        let before = pieces(s.drop_last(), sep);
        lemma_pieces_some(s.drop_last(), sep);
        assert(unbroken(s.drop_last(), other));
        assert(!other.splits(s[s.len() - 1]));
        if i < before.len() {
            lemma_pieces_inherit(s.drop_last(), sep, other, i);
        }
    }
}

/// Texts without commas, with commas between them, fall into the same texts again.
pub proof fn lemma_pieces_joined(all: Seq<Seq<char>>)
    requires
        all.len() > 0,
        forall|i: int| 0 <= i < all.len() ==> unbroken(#[trigger] all[i], Separator::Comma),
    ensures
        pieces(joined(all, seq![',']), Separator::Comma) == all,
    decreases all.len(),
{
    lemma_pieces_unbroken(all.last(), Separator::Comma);
    if all.len() == 1 {
        assert(all =~= seq![all[0]]);
    } else {
        let first = all.drop_last();
        lemma_pieces_joined(first);
        let a = joined(first, seq![',']);
        lemma_pieces_concat(a, ',', all.last(), Separator::Comma);
        assert(joined(all, seq![',']) =~= a.push(',') + all.last());
        assert(all =~= first + seq![all.last()]);
    }
}

/// Texts without white space, with commas between them, make a text without white space, which
/// is not empty if one of them is not.
pub proof fn lemma_joined_unbroken(all: Seq<Seq<char>>)
    requires
        forall|i: int| 0 <= i < all.len() ==> unbroken(#[trigger] all[i], Separator::White),
    ensures
        unbroken(joined(all, seq![',']), Separator::White),
        all.len() > 0 && all.last().len() > 0 ==> joined(all, seq![',']).len() > 0,
    decreases all.len(),
{
    if all.len() > 1 {
        lemma_joined_unbroken(all.drop_last());
    }
}

/// Nothing is left out of texts none of which is empty.
pub proof fn lemma_nonempty_all(all: Seq<Seq<char>>)
    requires
        forall|i: int| 0 <= i < all.len() ==> (#[trigger] all[i]).len() > 0,
    ensures
        nonempty(all) == all,
    decreases all.len(),
{
    if all.len() > 0 {
        lemma_nonempty_all(all.drop_last());
        assert(all.drop_last().push(all.last()) =~= all);
    }
}

/// What is left of texts without the empty ones was among them and is not empty.
pub proof fn lemma_nonempty_members(all: Seq<Seq<char>>, i: int)
    requires
        0 <= i < nonempty(all).len(),
    ensures
        nonempty(all)[i].len() > 0,
        all.contains(nonempty(all)[i]),
    decreases all.len(),
{
    if all.len() > 0 {
        let first = all.drop_last();
        if i < nonempty(first).len() {
            lemma_nonempty_members(first, i);
            let k = choose|k: int| 0 <= k < first.len() && first[k] == nonempty(first)[i];
            assert(all[k] == nonempty(first)[i]);
        } else {
            assert(all[all.len() - 1] == all.last());
        }
    }
}

/// Nothing is trimmed from a text that neither starts nor ends with white space.
pub proof fn lemma_trimmed_same(s: Seq<char>)
    requires
        s.len() > 0 ==> !white(s[0]) && !white(s.last()),
    ensures
        trimmed(s) == s,
{
}

/// One white character at the end is trimmed.
pub proof fn lemma_trimmed_line(s: Seq<char>, c: char)
    requires
        s.len() > 0,
        !white(s[0]),
        !white(s.last()),
        white(c),
    ensures
        trimmed(s.push(c)) == s,
{
    assert(s.push(c)[0] == s[0]);
    assert(s.push(c).drop_last() =~= s);
    reveal_with_fuel(trimmed_end, 2);
}

/// A trimmed text neither starts nor ends with white space.
pub proof fn lemma_trimmed_ends(s: Seq<char>)
    ensures
        trimmed(s).len() > 0 ==> !white(trimmed(s)[0]) && !white(trimmed(s).last()),
{
    lemma_start(s);
    lemma_end(trimmed_start(s));
}

/// What is left starts with no white space.
proof fn lemma_start(s: Seq<char>)
    ensures
        trimmed_start(s).len() > 0 ==> !white(trimmed_start(s)[0]),
    decreases s.len(),
{
    if s.len() > 0 && white(s[0]) {
        lemma_start(s.drop_first());
    }
}

/// What is left ends with no white space and starts as before.
proof fn lemma_end(s: Seq<char>)
    ensures
        trimmed_end(s).len() > 0 ==> !white(trimmed_end(s).last()) && trimmed_end(s)[0] == s[0],
    decreases s.len(),
{
    if s.len() > 0 && white(s.last()) {
        lemma_end(s.drop_last());
    }
}

/// White space is the tab, the line feed, the vertical tab, the form feed, the carriage return,
/// the space, the next-line character, the no-break space, and the other spaces and line ends of
/// Unicode; nothing else is.
pub proof fn law_white_space(c: char)
    ensures
        white(c) <==> (c == '\t' || c == '\n' || c == '\u{b}' || c == '\u{c}' || c == '\r' || c
            == ' ' || c == '\u{85}' || c == '\u{a0}' || c == '\u{1680}' || c == '\u{2000}' || c
            == '\u{2001}' || c == '\u{2002}' || c == '\u{2003}' || c == '\u{2004}' || c
            == '\u{2005}' || c == '\u{2006}' || c == '\u{2007}' || c == '\u{2008}' || c
            == '\u{2009}' || c == '\u{200a}' || c == '\u{2028}' || c == '\u{2029}' || c
            == '\u{202f}' || c == '\u{205f}' || c == '\u{3000}'),
{
}

/// Words are parted by white space, tickers by commas and lines by line feeds.
pub proof fn law_what_separates(c: char)
    ensures
        Separator::White.splits(c) <==> white(c),
        Separator::Comma.splits(c) <==> c == ',',
        Separator::Feed.splits(c) <==> c == '\n',
{
}

/// Two strings are taken for the same if and only if they agree in every character.
pub proof fn law_same_text_agrees_throughout(a: &str, b: &str, r: bool)
    requires
        call_ensures(same_text, (a, b), r),
    ensures
        r <==> a@.len() == b@.len() && forall|i: int|
            0 <= i < a@.len() ==> #[trigger] a@[i] == b@[i],
{
    if a@.len() == b@.len() && (forall|i: int| 0 <= i < a@.len() ==> #[trigger] a@[i] == b@[i]) {
        assert(a@ =~= b@);
    }
}

/// Every character of `s` is white space.
pub open spec fn all_white(s: Seq<char>) -> bool {
    forall|i: int| 0 <= i < s.len() ==> white(#[trigger] s[i])
}

/// To trim is to take the white space away from both ends, all of it and nothing else: white
/// space, a text that neither starts nor ends with any, and white space again come to that text.
pub proof fn law_trimming_takes_white_space_alone(
    before: Seq<char>,
    text: Seq<char>,
    after: Seq<char>,
)
    requires
        all_white(before),
        all_white(after),
        text.len() > 0 ==> !white(text[0]) && !white(text.last()),
    ensures
        trimmed(before + text + after) == text,
    decreases before.len() + after.len(),
{
    let s = before + text + after;
    if before.len() > 0 {
        assert(white(before[0]));
        assert(s.drop_first() =~= before.drop_first() + text + after);
        assert(s[0] == before[0]);
        assert forall|i: int| 0 <= i < before.drop_first().len() implies white(
            #[trigger] before.drop_first()[i],
        ) by {
            assert(white(before[i + 1]));
        }
        law_trimming_takes_white_space_alone(before.drop_first(), text, after);
    } else if after.len() > 0 {
        assert(white(after[after.len() - 1]));
        assert(s =~= (before + text + after.drop_last()).push(after.last()));
        assert(all_white(after.drop_last()));
        law_trimming_takes_white_space_alone(before, text, after.drop_last());
        lemma_trimmed_push(before + text + after.drop_last(), after.last());
    } else {
        assert(s =~= text);
        lemma_trimmed_same(text);
    }
}

/// White space at the end makes no difference to a trimmed text.
pub proof fn lemma_trimmed_push(s: Seq<char>, c: char)
    requires
        white(c),
    ensures
        trimmed(s.push(c)) == trimmed(s),
    decreases s.len(),
{
    let t = s.push(c);
    if s.len() == 0 {
        assert(t.drop_first() =~= s);
        assert(trimmed_start(t) == trimmed_start(s));
    } else {
        assert(t[0] == s[0]);
        if white(s[0]) {
            assert(t.drop_first() =~= s.drop_first().push(c));
            lemma_trimmed_push(s.drop_first(), c);
        } else {
            assert(t.drop_last() =~= s);
        }
    }
}

/// Every text is white space, what is left when it is trimmed, and white space again.
pub proof fn lemma_trimmed_parts(s: Seq<char>) -> (r: (Seq<char>, Seq<char>))
    ensures
        all_white(r.0),
        all_white(r.1),
        s == r.0 + trimmed(s) + r.1,
    decreases s.len(),
{
    if s.len() > 0 && white(s[0]) {
        let r = lemma_trimmed_parts(s.drop_first());
        let t = trimmed(s.drop_first());
        assert(trimmed(s) == t);
        assert(s =~= seq![s[0]] + (r.0 + t + r.1));
        assert(s =~= seq![s[0]] + r.0 + t + r.1);
        (seq![s[0]] + r.0, r.1)
    } else if s.len() > 0 && white(s.last()) {
        let r = lemma_trimmed_parts(s.drop_last());
        lemma_trimmed_push(s.drop_last(), s.last());
        assert(s.drop_last().push(s.last()) =~= s);
        assert(s =~= r.0 + trimmed(s) + r.1.push(s.last()));
        (r.0, r.1.push(s.last()))
    } else {
        assert(trimmed(s) == s);
        assert(s =~= Seq::empty() + trimmed(s) + Seq::empty());
        (Seq::empty(), Seq::empty())
    }
}

/// To split is to cut at every character that separates, and nowhere else: the text up to the
/// first such character is the first piece, and what follows that character is split in the same
/// way. A text without such characters is one piece.
pub proof fn law_split_at_every_separator(
    first: Seq<char>,
    c: char,
    rest: Seq<char>,
    sep: Separator,
)
    requires
        unbroken(first, sep),
        sep.splits(c),
    ensures
        pieces(first, sep) == seq![first],
        pieces(first.push(c) + rest, sep) == seq![first] + pieces(rest, sep),
{
    lemma_pieces_unbroken(first, sep);
    lemma_pieces_concat(first, c, rest, sep);
}

/// Of two lists, one after the other, the texts that are not empty are those of the first and
/// then those of the second; of one text, that text unless it is empty.
pub proof fn law_only_empty_texts_are_left_out(
    a: Seq<Seq<char>>,
    b: Seq<Seq<char>>,
    text: Seq<char>,
)
    ensures
        nonempty(a + b) == nonempty(a) + nonempty(b),
        nonempty(seq![text]) == (if text.len() > 0 {
            seq![text]
        } else {
            Seq::empty()
        }),
    decreases b.len(),
{
    reveal_with_fuel(nonempty, 2);
    assert(seq![text].drop_last() =~= Seq::empty());
    assert(nonempty(seq![text]) =~= (if text.len() > 0 {
        seq![text]
    } else {
        Seq::empty()
    }));
    if b.len() == 0 {
        assert(a + b =~= a);
        assert(nonempty(a) + nonempty(b) =~= nonempty(a));
    } else {
        law_only_empty_texts_are_left_out(a, b.drop_last(), text);
        assert((a + b).drop_last() =~= a + b.drop_last());
        assert(nonempty(a + b) =~= nonempty(a) + nonempty(b));
    }
}

/// The words of a text are its longest runs without white space: white space in front adds no
/// word, and a run up to white space is one word.
pub proof fn law_words_are_runs(word: Seq<char>, c: char, rest: Seq<char>)
    requires
        unbroken(word, Separator::White),
        white(c),
    ensures
        words(Seq::empty()) == Seq::<Seq<char>>::empty(),
        words(seq![c] + rest) == words(rest),
        word.len() > 0 ==> words(word) == seq![word],
        word.len() > 0 ==> words(word.push(c) + rest) == seq![word] + words(rest),
{
    let none = Seq::<char>::empty();
    law_split_at_every_separator(none, c, rest, Separator::White);
    assert(none.push(c) =~= seq![c]);
    law_only_empty_texts_are_left_out(seq![none], pieces(rest, Separator::White), none);
    assert(Seq::<Seq<char>>::empty() + words(rest) =~= words(rest));
    law_split_at_every_separator(word, c, rest, Separator::White);
    law_only_empty_texts_are_left_out(seq![word], pieces(rest, Separator::White), word);
}

/// White space around a text makes no difference to its words.
pub proof fn law_words_of_a_trimmed_text(s: Seq<char>)
    ensures
        words(trimmed(s)) == words(s),
    decreases s.len(),
{
    if s.len() > 0 && white(s[0]) {
        law_words_of_a_trimmed_text(s.drop_first());
        assert(s =~= seq![s[0]] + s.drop_first());
        law_words_are_runs(Seq::empty(), s[0], s.drop_first());
    } else if s.len() > 0 && white(s.last()) {
        law_words_of_a_trimmed_text(s.drop_last());
        lemma_trimmed_push(s.drop_last(), s.last());
        assert(s.drop_last().push(s.last()) =~= s);
        let before = pieces(s.drop_last(), Separator::White);
        assert(pieces(s, Separator::White).drop_last() =~= before);
    } else {
        lemma_trimmed_same(s);
    }
}

/// A text is read line by line: up to the first line feed goes the first line, without a carriage
/// return just before the feed, and the rest is read in the same way. What follows the last line
/// feed is a line as it is, unless it is empty.
pub proof fn law_text_is_read_line_by_line(line: Seq<char>, rest: Seq<char>)
    requires
        unbroken(line, Separator::Feed),
    ensures
        text_lines(line.push('\n') + rest) == seq![
            if line.len() > 0 && line.last() == '\r' {
                line.drop_last()
            } else {
                line
            },
        ] + text_lines(rest),
        text_lines(line) == (if line.len() == 0 {
            Seq::empty()
        } else {
            seq![line]
        }),
{
    law_split_at_every_separator(line, '\n', rest, Separator::Feed);
    lemma_pieces_some(rest, Separator::Feed);
    let first = if line.len() > 0 && line.last() == '\r' {
        line.drop_last()
    } else {
        line
    };
    assert(text_lines(line.push('\n') + rest) =~= seq![first] + text_lines(rest));
    assert(text_lines(line) =~= (if line.len() == 0 {
        Seq::empty()
    } else {
        seq![line]
    }));
}

/// Texts are joined in their order, with the glue once between any two neighbours and nowhere
/// else.
pub proof fn law_glue_is_between(a: Seq<Seq<char>>, b: Seq<Seq<char>>, glue: Seq<char>)
    ensures
        a.len() == 0 ==> joined(a, glue) == Seq::<char>::empty(),
        a.len() == 1 ==> joined(a, glue) == a[0],
        a.len() > 0 && b.len() > 0 ==> joined(a + b, glue) == joined(a, glue) + glue + joined(
            b,
            glue,
        ),
    decreases b.len(),
{
    if a.len() > 0 && b.len() > 0 {
        assert((a + b).drop_last() =~= a + b.drop_last());
        if b.len() == 1 {
            assert(a + b.drop_last() =~= a);
        } else {
            law_glue_is_between(a, b.drop_last(), glue);
        }
        assert(joined(a + b, glue) =~= joined(a, glue) + glue + joined(b, glue));
    }
}

/// A list of strings is taken as the list of their texts, each at its place.
pub proof fn law_texts_keep_their_places(v: Seq<String>, all: Seq<Seq<char>>, i: int)
    ensures
        texts(v).len() == v.len(),
        0 <= i < v.len() ==> texts(v)[i] == v[i]@,
        all_trimmed(all).len() == all.len(),
        0 <= i < all.len() ==> all_trimmed(all)[i] == trimmed(all[i]),
{
}

} // verus!
