//! Ticker files: one ticker on each line.
use vstd::prelude::*;
use vstd::string::*;

use crate::command::{CommandView, SocketAddress};
use crate::protocol::{command_for, law_request_is_understood, plain_ticker, request_line};
use crate::text::{
    all_trimmed, join, joined, law_text_is_read_line_by_line, lemma_pieces_joined,
    lemma_trimmed_ends, lemma_trimmed_push, lemma_trimmed_same, pieces, split_lines, text_lines,
    texts, trim_all, trimmed, unbroken, Separator,
};

verus! {

/// Why a ticker file cannot be used.
#[derive(Clone, Copy, PartialEq, Eq, Structural, Debug)]
pub enum TickerFileError {
    /// It names no ticker.
    NoTickers,
}

/// `line` names a ticker: it is neither empty nor a comment.
pub open spec fn names_ticker(line: Seq<char>) -> bool {
    line.len() > 0 && line[0] != '#'
}

/// The lines in `all` that name a ticker, in their order.
pub open spec fn naming(all: Seq<Seq<char>>) -> Seq<Seq<char>>
    decreases all.len(),
{
    if all.len() == 0 {
        all
    } else if names_ticker(all.last()) {
        naming(all.drop_last()).push(all.last())
    } else {
        naming(all.drop_last())
    }
}

/// The tickers that a receiver's ticker file names: its lines without the white space at their
/// ends, but for those that are then empty or start with `#`.
pub open spec fn listed_tickers(contents: Seq<char>) -> Seq<Seq<char>> {
    naming(all_trimmed(text_lines(contents)))
}

/// The tickers that a receiver's ticker file names, with commas between them.
pub fn tickers_csv(contents: &str) -> (r: Result<String, TickerFileError>)
    ensures
        match r {
            Ok(csv) => listed_tickers(contents@).len() > 0 && csv@ == joined(
                listed_tickers(contents@),
                seq![','],
            ),
            Err(e) => e == TickerFileError::NoTickers && listed_tickers(contents@).len() == 0,
        },
{
    let lines = trim_all(&split_lines(contents));
    let mut tickers: Vec<String> = Vec::new();
    let mut i: usize = 0;
    assert(texts(tickers@) =~= naming(texts(lines@).take(0)));
    while i < lines.len()
        invariant
            i <= lines.len(),
            texts(tickers@) == naming(texts(lines@).take(i as int)),
        decreases lines.len() - i,
    {
        let ghost before = texts(tickers@);
        assert(texts(lines@).take(i + 1).drop_last() =~= texts(lines@).take(i as int));
        let line = lines[i].as_str();
        if !line.is_empty() && line.get_char(0) != '#' {
            tickers.push(line.to_owned());
            assert(texts(tickers@) =~= before.push(line@));
        }
        i = i + 1;
    }
    assert(texts(lines@).take(lines@.len() as int) =~= texts(lines@));
    if tickers.is_empty() {
        return Err(TickerFileError::NoTickers);
    }
    proof {
        reveal_strlit(",");
        assert(","@ =~= seq![',']);
    }
    Ok(join(&tickers, ","))
}

/// The tickers that a server's ticker file names: its lines as they are.
pub fn supported_tickers(contents: &str) -> (r: Vec<String>)
    ensures
        texts(r@) == text_lines(contents@),
{
    split_lines(contents)
}

/// The lines that name a ticker were among all lines.
proof fn lemma_naming(all: Seq<Seq<char>>, i: int)
    requires
        0 <= i < naming(all).len(),
    ensures
        names_ticker(naming(all)[i]),
        all.contains(naming(all)[i]),
    decreases all.len(),
{
    if all.len() > 0 {
        let first = all.drop_last();
        if i < naming(first).len() {
            lemma_naming(first, i);
            let k = choose|k: int| 0 <= k < first.len() && first[k] == naming(first)[i];
            assert(all[k] == naming(first)[i]);
        } else {
            assert(all[all.len() - 1] == all.last());
        }
    }
}

/// No ticker of a receiver's ticker file is empty, starts with `#`, or has white space at its
/// ends.
pub proof fn law_listed_tickers_are_clean(contents: Seq<char>, i: int)
    requires
        0 <= i < listed_tickers(contents).len(),
    ensures
        listed_tickers(contents)[i].len() > 0,
        listed_tickers(contents)[i][0] != '#',
        trimmed(listed_tickers(contents)[i]) == listed_tickers(contents)[i],
{
    let lines = text_lines(contents);
    let all = all_trimmed(lines);
    lemma_naming(all, i);
    let t = listed_tickers(contents)[i];
    let k = choose|k: int| 0 <= k < all.len() && all[k] == t;
    lemma_trimmed_ends(lines[k]);
    lemma_trimmed_same(t);
}

/// What a receiver's ticker file lists is what its stream gets: the request made from the file is
/// read by the server as a request for just the listed tickers, if none has white space or a
/// comma in it.
pub proof fn law_ticker_file_is_subscribed(
    contents: Seq<char>,
    udp_port: Seq<char>,
    address: SocketAddress,
)
    requires
        unbroken(udp_port, Separator::White),
        listed_tickers(contents).len() > 0,
        forall|i: int|
            0 <= i < listed_tickers(contents).len() ==> unbroken(
                #[trigger] listed_tickers(contents)[i],
                Separator::White,
            ) && unbroken(listed_tickers(contents)[i], Separator::Comma),
    ensures
        command_for(
            request_line(udp_port, joined(listed_tickers(contents), seq![','])),
            Some(address),
        ) == Some(CommandView::Stream(address, listed_tickers(contents))),
{
    let all = listed_tickers(contents);
    assert forall|i: int| 0 <= i < all.len() implies plain_ticker(#[trigger] all[i]) by {
        law_listed_tickers_are_clean(contents, i);
    }
    law_request_is_understood(udp_port, all, address);
}

/// Of two lists of lines, one after the other, the lines that name a ticker are those of the
/// first and then those of the second. One line names a ticker, itself, unless it is empty or
/// starts with `#`.
pub proof fn law_every_naming_line_counts(a: Seq<Seq<char>>, b: Seq<Seq<char>>, line: Seq<char>)
    ensures
        naming(a + b) == naming(a) + naming(b),
        naming(seq![line]) == (if line.len() > 0 && line[0] != '#' {
            seq![line]
        } else {
            Seq::empty()
        }),
    decreases b.len(),
{
    reveal_with_fuel(naming, 2);
    assert(seq![line].drop_last() =~= Seq::empty());
    assert(naming(seq![line]) =~= (if line.len() > 0 && line[0] != '#' {
        seq![line]
    } else {
        Seq::empty()
    }));
    if b.len() == 0 {
        assert(a + b =~= a);
        assert(naming(a) + naming(b) =~= naming(a));
    } else {
        law_every_naming_line_counts(a, b.drop_last(), line);
        assert((a + b).drop_last() =~= a + b.drop_last());
        assert(naming(a + b) =~= naming(a) + naming(b));
    }
}

/// A receiver's ticker file is read line by line: its first line gives its trimmed text, unless
/// that is empty or starts with `#`, and then the rest of the file gives what it lists. So every
/// ticker of the file is listed, as often as it is there and in the order of the file.
pub proof fn law_ticker_file_is_read_line_by_line(line: Seq<char>, rest: Seq<char>)
    requires
        unbroken(line, Separator::Feed),
    ensures
        ({
            let t = trimmed(line);
            let named = if t.len() > 0 && t[0] != '#' {
                seq![t]
            } else {
                Seq::empty()
            };
            &&& listed_tickers(line.push('\n') + rest) == named + listed_tickers(rest)
            &&& listed_tickers(line) == named
        }),
{
    let t = trimmed(line);
    let others = text_lines(rest);
    law_text_is_read_line_by_line(line, rest);
    let first = if line.len() > 0 && line.last() == '\r' {
        line.drop_last()
    } else {
        line
    };
    assert(trimmed(first) == t) by {
        if line.len() > 0 && line.last() == '\r' {
            assert(line.drop_last().push('\r') =~= line);
            lemma_trimmed_push(line.drop_last(), '\r');
        }
    }
    assert(all_trimmed(seq![first] + others) =~= seq![t] + all_trimmed(others));
    law_every_naming_line_counts(seq![t], all_trimmed(others), t);
    if line.len() == 0 {
        assert(all_trimmed(text_lines(line)) =~= Seq::empty());
    } else {
        assert(all_trimmed(text_lines(line)) =~= seq![t]);
    }
}

/// A line of a receiver's ticker file that is neither blank nor a comment is listed, and nothing
/// is listed that is not such a line.
pub proof fn law_listed_if_and_only_if_named(contents: Seq<char>, ticker: Seq<char>)
    ensures
        listed_tickers(contents).contains(ticker) <==> ticker.len() > 0 && ticker[0] != '#'
            && exists|k: int|
            0 <= k < text_lines(contents).len() && trimmed(#[trigger] text_lines(contents)[k])
                == ticker,
{
    let lines = text_lines(contents);
    let all = all_trimmed(lines);
    if listed_tickers(contents).contains(ticker) {
        let i = choose|i: int|
            0 <= i < listed_tickers(contents).len() && listed_tickers(contents)[i] == ticker;
        lemma_naming(all, i);
        let k = choose|k: int| 0 <= k < all.len() && all[k] == ticker;
        assert(trimmed(lines[k]) == ticker);
    }
    if ticker.len() > 0 && ticker[0] != '#' && exists|k: int|
        0 <= k < lines.len() && trimmed(#[trigger] lines[k]) == ticker {
        let k = choose|k: int| 0 <= k < lines.len() && trimmed(#[trigger] lines[k]) == ticker;
        assert(all[k] == ticker);
        let a = all.take(k);
        let b = all.skip(k + 1);
        assert(all =~= a + (seq![ticker] + b));
        law_every_naming_line_counts(a, seq![ticker] + b, ticker);
        law_every_naming_line_counts(seq![ticker], b, ticker);
        assert(naming(all)[naming(a).len() as int] == ticker);
    }
}

/// The list for the request is made if and only if the file names a ticker. It names the tickers
/// of the file and no others, in their order: cut at its commas it is the list of them again, if
/// none has a comma in it.
pub proof fn law_request_lists_the_file(
    contents: &str,
    r: Result<String, TickerFileError>,
    ticker: Seq<char>,
)
    requires
        call_ensures(tickers_csv, (contents,), r),
    ensures
        listed_tickers(contents@).contains(ticker) ==> r is Ok,
        r is Ok ==> listed_tickers(contents@).len() > 0,
        r is Ok ==> r->Ok_0@ == joined(listed_tickers(contents@), seq![',']),
        r is Ok && (forall|i: int|
            0 <= i < listed_tickers(contents@).len() ==> unbroken(
                #[trigger] listed_tickers(contents@)[i],
                Separator::Comma,
            )) ==> pieces(r->Ok_0@, Separator::Comma) == listed_tickers(contents@),
{
    let all = listed_tickers(contents@);
    if r is Ok && (forall|i: int|
        0 <= i < all.len() ==> unbroken(#[trigger] all[i], Separator::Comma)) {
        lemma_pieces_joined(all);
    }
}

/// A server knows every line of its ticker file as a ticker, as it stands there: the first line,
/// and then those of the rest of the file.
pub proof fn law_server_knows_every_line(
    contents: &str,
    r: Vec<String>,
    line: Seq<char>,
    rest: Seq<char>,
)
    requires
        call_ensures(supported_tickers, (contents,), r),
        unbroken(line, Separator::Feed),
        line.len() > 0 ==> line.last() != '\r',
    ensures
        contents@ == line.push('\n') + rest ==> texts(r@) == seq![line] + text_lines(rest),
        contents@ == line.push('\r').push('\n') + rest ==> texts(r@) == seq![line] + text_lines(
            rest,
        ),
        contents@ == line && line.len() > 0 ==> texts(r@) == seq![line],
        contents@.len() == 0 ==> texts(r@) == Seq::<Seq<char>>::empty(),
{
    law_text_is_read_line_by_line(line, rest);
    let ended = line.push('\r');
    assert(ended.drop_last() =~= line);
    assert(unbroken(ended, Separator::Feed));
    law_text_is_read_line_by_line(ended, rest);
    if contents@.len() == 0 {
        law_text_is_read_line_by_line(contents@, rest);
    }
}

} // verus!
