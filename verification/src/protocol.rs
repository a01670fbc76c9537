//! The line protocol between a receiver and the server.
use vstd::prelude::*;
use vstd::string::*;

use crate::command::{Command, CommandView, SocketAddress};
use crate::text::{
    all_trimmed, all_white, joined, keep_nonempty, law_only_empty_texts_are_left_out,
    law_split_at_every_separator, law_trimming_takes_white_space_alone,
    law_words_of_a_trimmed_text, lemma_joined_unbroken, lemma_nonempty_all, lemma_nonempty_members,
    lemma_pieces_are_unbroken, lemma_pieces_concat, lemma_pieces_inherit, lemma_pieces_joined,
    lemma_pieces_some, lemma_pieces_unbroken, lemma_trimmed_line, lemma_trimmed_parts,
    lemma_trimmed_same, nonempty, pieces, same_text, split, split_words, texts, trim, trim_all,
    trimmed, unbroken, words, Separator,
};

verus! {

/// What the server writes back to a line.
#[derive(Clone, Copy, PartialEq, Eq, Structural, Debug)]
pub enum Reply {
    /// The line was blank: nothing.
    Nothing,
    /// The stream was asked for.
    Accepted,
    /// The connection ends.
    Bye,
    /// The address of the receiver is missing or cannot be read.
    InvalidUri,
    /// The list of tickers is missing.
    NoTickerList,
    /// The list of tickers names none.
    EmptyTickerList,
    /// There is no such command.
    UnknownCommand,
}

impl Reply {
    /// The reply as it is written.
    pub open spec fn says(self) -> Seq<char> {
        match self {
            Reply::Nothing => ""@,
            Reply::Accepted => "OK\n"@,
            Reply::Bye => "BYE\n"@,
            Reply::InvalidUri => "ERR invalid URI\n"@,
            Reply::NoTickerList => "ERR no ticker list\n"@,
            Reply::EmptyTickerList => "ERR empty ticker list\n"@,
            Reply::UnknownCommand => "ERROR: unknown command\n"@,
        }
    }

    /// The reply as it is written.
    pub fn text(self) -> (r: &'static str)
        ensures
            r@ == self.says(),
    {
        match self {
            Reply::Nothing => "",
            Reply::Accepted => "OK\n",
            Reply::Bye => "BYE\n",
            Reply::InvalidUri => "ERR invalid URI\n",
            Reply::NoTickerList => "ERR no ticker list\n",
            Reply::EmptyTickerList => "ERR empty ticker list\n",
            Reply::UnknownCommand => "ERROR: unknown command\n",
        }
    }

    /// The connection ends after the reply.
    pub open spec fn ends(self) -> bool {
        self == Reply::Bye
    }

    /// Tells whether the connection ends after the reply.
    pub fn ends_connection(self) -> (r: bool)
        ensures
            r == self.ends(),
    {
        match self {
            Reply::Bye => true,
            _ => false,
        }
    }
}

/// What the server does about a line.
#[derive(Debug, PartialEq, Eq)]
pub struct Answer {
    /// What it writes back, once the command is passed on.
    pub reply: Reply,
    /// The command that it passes on.
    pub command: Option<Command>,
}

/// The words of a line.
pub open spec fn fields(line: Seq<char>) -> Seq<Seq<char>> {
    words(trimmed(line))
}

/// A line asks for a stream.
pub open spec fn asks_for_stream(line: Seq<char>) -> bool {
    fields(line).len() > 0 && fields(line)[0] == "STREAM"@
}

/// The text after `udp://` in the second word of a request for a stream.
pub open spec fn callback(line: Seq<char>) -> Option<Seq<char>> {
    let f = fields(line);
    if asks_for_stream(line) && f.len() > 1 && "udp://"@.is_prefix_of(f[1]) {
        Some(f[1].skip("udp://"@.len() as int))
    } else {
        None
    }
}

/// The tickers in a list with commas between them.
pub open spec fn tickers_in(list: Seq<char>) -> Seq<Seq<char>> {
    nonempty(all_trimmed(pieces(list, Separator::Comma)))
}

/// What the server writes back to a line, if `address` is what its callback was read as.
pub open spec fn reply_to(line: Seq<char>, address: Option<SocketAddress>) -> Reply {
    let f = fields(line);
    if f.len() == 0 {
        Reply::Nothing
    } else if f[0] == "STREAM"@ {
        if callback(line) is None || address is None {
            Reply::InvalidUri
        } else if f.len() < 3 {
            Reply::NoTickerList
        } else if tickers_in(f[2]).len() == 0 {
            Reply::EmptyTickerList
        } else {
            Reply::Accepted
        }
    } else if f[0] == "EXIT"@ {
        Reply::Bye
    } else {
        Reply::UnknownCommand
    }
}

/// The command that the server passes on for a line.
pub open spec fn command_for(line: Seq<char>, address: Option<SocketAddress>) -> Option<
    CommandView,
> {
    if reply_to(line, address) == Reply::Accepted {
        Some(CommandView::Stream(address->0, tickers_in(fields(line)[2])))
    } else {
        None
    }
}

/// What an optional command says.
pub open spec fn command_view(command: Option<Command>) -> Option<CommandView> {
    match command {
        Some(c) => Some(c@),
        None => None,
    }
}

/// `s` after `prefix`, if it starts with that.
fn after_prefix<'a>(s: &'a str, prefix: &str) -> (r: Option<&'a str>)
    ensures
        match r {
            Some(rest) => prefix@.is_prefix_of(s@) && rest@ == s@.skip(prefix@.len() as int),
            None => !prefix@.is_prefix_of(s@),
        },
{
    let n: usize = prefix.unicode_len();
    let all: usize = s.unicode_len();
    if n > all {
        return None;
    }
    if same_text(s.substring_char(0, n), prefix) {
        assert(s@.subrange(0, n as int) =~= s@.take(n as int));
        assert(s@.subrange(n as int, all as int) =~= s@.skip(n as int));
        Some(s.substring_char(n, all))
    } else {
        assert(prefix@.is_prefix_of(s@) ==> s@.subrange(0, n as int) =~= prefix@);
        None
    }
}

/// The address in a line's request for a stream, as the text that is to be read.
pub fn callback_target(line: &str) -> (r: Option<String>)
    ensures
        match r {
            Some(t) => callback(line@) == Some(t@),
            None => callback(line@) is None,
        },
{
    let f = split_words(trim(line));
    let ghost w = texts(f@);
    if f.len() < 2 || !same_text(f[0].as_str(), "STREAM") {
        return None;
    }
    assert(w[0] == f@[0]@ && w[1] == f@[1]@);
    match after_prefix(f[1].as_str(), "udp://") {
        Some(rest) => Some(rest.to_owned()),
        None => None,
    }
}

/// What the server does about a line, if `address` is what its callback was read as.
pub fn handle_line(line: &str, address: Option<SocketAddress>) -> (r: Answer)
    ensures
        r.reply == reply_to(line@, address),
        command_view(r.command) == command_for(line@, address),
{
    let f = split_words(trim(line));
    let ghost w = texts(f@);
    if f.len() == 0 {
        return Answer { reply: Reply::Nothing, command: None };
    }
    assert(w[0] == f@[0]@);
    if same_text(f[0].as_str(), "STREAM") {
        let target = callback_target(line);
        match (target, address) {
            (Some(_), Some(addr)) => {
                if f.len() < 3 {
                    return Answer { reply: Reply::NoTickerList, command: None };
                }
                assert(w[2] == f@[2]@);
                let tickers = keep_nonempty(&trim_all(&split(f[2].as_str(), Separator::Comma)));
                if tickers.len() == 0 {
                    assert(texts(tickers@).len() == 0);
                    return Answer { reply: Reply::EmptyTickerList, command: None };
                }
                assert(texts(tickers@).len() > 0);
                Answer { reply: Reply::Accepted, command: Some(Command::Stream(addr, tickers)) }
            },
            _ => Answer { reply: Reply::InvalidUri, command: None },
        }
    } else if same_text(f[0].as_str(), "EXIT") {
        Answer { reply: Reply::Bye, command: None }
    } else {
        Answer { reply: Reply::UnknownCommand, command: None }
    }
}

/// `address` is what `read` makes of the callback in a line; there is none without a callback.
pub open spec fn read_by<F: Fn(String) -> Option<SocketAddress>>(
    line: Seq<char>,
    read: F,
    address: Option<SocketAddress>,
) -> bool {
    match callback(line) {
        Some(target) => exists|t: String|
            t@ == target && #[trigger] call_ensures(read, (t,), address),
        None => address is None,
    }
}

/// What the server does about a line, if `read` reads the address in a callback.
pub fn answer_line<F: Fn(String) -> Option<SocketAddress>>(line: &str, read: F) -> (r: Answer)
    requires
        forall|t: String| #[trigger] call_requires(read, (t,)),
    ensures
        exists|a: Option<SocketAddress>| #[trigger]
            read_by(line@, read, a) && r.reply == reply_to(line@, a) && command_view(r.command)
                == command_for(line@, a),
{
    let address = match callback_target(line) {
        Some(target) => read(target),
        None => None,
    };
    assert(read_by(line@, read, address));
    handle_line(line, address)
}

/// What is written back, by whether the command of the answer was taken, if it has one. A command
/// that nobody takes ends the connection in failure, without a reply.
pub open spec fn written_back(reply: Reply, taken: Option<bool>) -> Option<Reply> {
    if taken == Some(false) {
        None
    } else {
        Some(reply)
    }
}

/// What is written back, by whether the command of the answer was taken, if it has one. A command
/// that nobody takes ends the connection in failure, without a reply.
pub fn written(reply: Reply, taken: Option<bool>) -> (r: Option<Reply>)
    ensures
        r == written_back(reply, taken),
{
    match taken {
        Some(false) => None,
        _ => Some(reply),
    }
}

/// The line that the server greets with.
pub open spec fn greeting_text() -> Seq<char> {
    "Quote server ready for requests\n"@
}

/// The line that the server greets with.
pub fn greeting() -> (r: &'static str)
    ensures
        r@ == greeting_text(),
{
    "Quote server ready for requests\n"
}

/// Tells whether a line is the greeting of the server.
pub fn is_greeting(response: &str) -> (r: bool)
    ensures
        r == (trimmed(response@) == "Quote server ready for requests"@),
{
    same_text(trim(response), "Quote server ready for requests")
}

/// Tells whether a line says that the stream was asked for.
pub fn is_accepted(response: &str) -> (r: bool)
    ensures
        r == (trimmed(response@) == "OK"@),
{
    same_text(trim(response), "OK")
}

/// The line that asks for a stream of `csv` to a port of this machine.
pub open spec fn request_line(udp_port: Seq<char>, csv: Seq<char>) -> Seq<char> {
    "STREAM udp://127.0.0.1:"@ + udp_port + " "@ + csv + "\n"@
}

/// The line that asks for a stream of `csv` to a port of this machine.
pub fn stream_request(udp_port: &str, csv: &str) -> (r: String)
    ensures
        r@ == request_line(udp_port@, csv@),
{
    let mut r = "STREAM udp://127.0.0.1:".to_owned();
    r.append(udp_port);
    r.append(" ");
    r.append(csv);
    r.append("\n");
    r
}

/// A command is passed on if and only if the reply says so: a line that is refused, or asks for
/// nothing, has no other effect.
pub proof fn law_refused_line_has_no_effect(line: Seq<char>, address: Option<SocketAddress>)
    ensures
        command_for(line, address) is Some <==> reply_to(line, address) == Reply::Accepted,
{
}

/// A ticker that can be asked for: it has a name, without white space or commas in it.
pub open spec fn plain_ticker(t: Seq<char>) -> bool {
    t.len() > 0 && unbroken(t, Separator::White) && unbroken(t, Separator::Comma)
}

/// A stream is never asked for without a ticker, and the tickers asked for have names without
/// white space or commas in them.
pub proof fn law_passed_on_tickers_are_plain(
    line: Seq<char>,
    address: Option<SocketAddress>,
    i: int,
)
    requires
        command_for(line, address) is Some,
    ensures
        command_for(line, address)->0 is Stream,
        (command_for(line, address)->0)->Stream_0 == address->0,
        (command_for(line, address)->0)->Stream_1.len() > 0,
        0 <= i < (command_for(line, address)->0)->Stream_1.len() ==> plain_ticker(
            (command_for(line, address)->0)->Stream_1[i],
        ),
{
    let list = fields(line)[2];
    if 0 <= i < tickers_in(list).len() {
        let parts = pieces(trimmed(line), Separator::White);
        lemma_nonempty_members(parts, 2);
        let w = choose|w: int| 0 <= w < parts.len() && parts[w] == list;
        lemma_pieces_are_unbroken(trimmed(line), Separator::White, w);
        let names = pieces(list, Separator::Comma);
        let all = all_trimmed(names);
        lemma_nonempty_members(all, i);
        let k = choose|k: int| 0 <= k < all.len() && all[k] == tickers_in(list)[i];
        lemma_pieces_are_unbroken(list, Separator::Comma, k);
        lemma_pieces_inherit(list, Separator::Comma, Separator::White, k);
        lemma_trimmed_same(names[k]);
    }
}

/// What a receiver asks for is what the server passes on: the receiver's line is read as a
/// request for a stream of just these tickers, in their order, to the address of its port.
pub proof fn law_request_is_understood(
    udp_port: Seq<char>,
    tickers: Seq<Seq<char>>,
    address: SocketAddress,
)
    requires
        unbroken(udp_port, Separator::White),
        tickers.len() > 0,
        forall|i: int| 0 <= i < tickers.len() ==> plain_ticker(#[trigger] tickers[i]),
    ensures
        ({
            let line = request_line(udp_port, joined(tickers, seq![',']));
            &&& callback(line) == Some("127.0.0.1:"@ + udp_port)
            &&& reply_to(line, Some(address)) == Reply::Accepted
            &&& command_for(line, Some(address)) == Some(CommandView::Stream(address, tickers))
        }),
{
    reveal_strlit("STREAM udp://127.0.0.1:");
    reveal_strlit("STREAM");
    reveal_strlit("udp://");
    reveal_strlit("127.0.0.1:");
    reveal_strlit(" ");
    reveal_strlit("\n");
    let csv = joined(tickers, seq![',']);
    let line = request_line(udp_port, csv);
    let verb = "STREAM"@;
    let uri = "udp://"@ + "127.0.0.1:"@ + udp_port;
    lemma_joined_unbroken(tickers);
    let inner = verb.push(' ') + (uri.push(' ') + csv);
    assert(line =~= inner.push('\n'));
    assert(inner[0] == 'S');
    assert(inner.last() == csv.last());
    lemma_trimmed_line(inner, '\n');
    lemma_pieces_unbroken(verb, Separator::White);
    lemma_pieces_unbroken(uri, Separator::White);
    lemma_pieces_unbroken(csv, Separator::White);
    lemma_pieces_concat(uri, ' ', csv, Separator::White);
    lemma_pieces_concat(verb, ' ', uri.push(' ') + csv, Separator::White);
    let f = seq![verb, uri, csv];
    assert(pieces(inner, Separator::White) =~= f);
    lemma_nonempty_all(f);
    assert(fields(line) == f);
    assert("udp://"@.is_prefix_of(uri));
    assert(uri.skip(6) =~= "127.0.0.1:"@ + udp_port);
    lemma_pieces_joined(tickers);
    assert forall|i: int| 0 <= i < tickers.len() implies trimmed(#[trigger] tickers[i])
        == tickers[i] by {
        lemma_trimmed_same(tickers[i]);
    }
    assert(all_trimmed(tickers) =~= tickers);
    lemma_nonempty_all(tickers);
}

/// A receiver takes the server's greeting for a greeting.
pub proof fn law_greeting_is_recognised()
    ensures
        trimmed(greeting_text()) == "Quote server ready for requests"@,
{
    reveal_strlit("Quote server ready for requests\n");
    reveal_strlit("Quote server ready for requests");
    let s = "Quote server ready for requests"@;
    assert(greeting_text() =~= s.push('\n'));
    lemma_trimmed_line(s, '\n');
}

/// A receiver goes on if and only if its request was accepted: no other reply looks like it.
pub proof fn law_only_acceptance_is_taken_as_such(reply: Reply)
    ensures
        trimmed(reply.says()) == "OK"@ <==> reply == Reply::Accepted,
{
    reveal_strlit("OK");
    reveal_strlit("");
    reveal_strlit("OK\n");
    reveal_strlit("BYE\n");
    reveal_strlit("ERR invalid URI\n");
    reveal_strlit("ERR no ticker list\n");
    reveal_strlit("ERR empty ticker list\n");
    reveal_strlit("ERROR: unknown command\n");
    let s = reply.says();
    if reply == Reply::Nothing {
        lemma_trimmed_same(s);
    } else {
        assert(s.drop_last().push('\n') =~= s);
        lemma_trimmed_line(s.drop_last(), '\n');
        if reply == Reply::Accepted {
            assert(s.drop_last() =~= "OK"@);
        } else {
            assert(s.drop_last()[0] != "OK"@[0]);
        }
    }
}

/// What the server answers is decided by the words of the line. A line without words gets no
/// reply, `EXIT` a farewell, and a first word that is neither `EXIT` nor `STREAM` is not known.
/// After `STREAM` the address must come and be readable, then a list; a list of nothing but commas
/// is empty, and any other is accepted. What follows the list makes no difference.
pub proof fn law_words_decide_the_reply(line: Seq<char>, address: Option<SocketAddress>)
    ensures
        ({
            let w = words(line);
            let reply = reply_to(line, address);
            let read = w.len() > 0 && w[0] == "STREAM"@ && callback(line) is Some && address
                is Some;
            let commas = forall|i: int| 0 <= i < w[2].len() ==> #[trigger] w[2][i] == ',';
            &&& reply == Reply::Nothing <==> w.len() == 0
            &&& reply == Reply::Bye <==> w.len() > 0 && w[0] == "EXIT"@
            &&& reply == Reply::UnknownCommand <==> w.len() > 0 && w[0] != "STREAM"@ && w[0]
                != "EXIT"@
            &&& reply == Reply::InvalidUri <==> w.len() > 0 && w[0] == "STREAM"@ && !read
            &&& reply == Reply::NoTickerList <==> read && w.len() < 3
            &&& reply == Reply::EmptyTickerList <==> read && w.len() >= 3 && commas
            &&& reply == Reply::Accepted <==> read && w.len() >= 3 && !commas
        }),
{
    law_words_of_a_trimmed_text(line);
    let w = words(line);
    if w.len() >= 3 {
        lemma_word_is_unbroken(line, 2);
        lemma_tickers_of_a_word(w[2]);
    }
    reveal_strlit("STREAM");
    reveal_strlit("EXIT");
    assert("STREAM"@.len() != "EXIT"@.len());
}

/// A word has no white space in it.
proof fn lemma_word_is_unbroken(line: Seq<char>, i: int)
    requires
        0 <= i < words(line).len(),
    ensures
        unbroken(words(line)[i], Separator::White),
{
    let parts = pieces(line, Separator::White);
    lemma_nonempty_members(parts, i);
    let k = choose|k: int| 0 <= k < parts.len() && parts[k] == words(line)[i];
    lemma_pieces_are_unbroken(line, Separator::White, k);
}

/// The tickers in a list without white space.
proof fn lemma_tickers_of_a_word(list: Seq<char>)
    requires
        unbroken(list, Separator::White),
    ensures
        tickers_in(list) == nonempty(pieces(list, Separator::Comma)),
        tickers_in(list).len() == 0 <==> forall|i: int|
            0 <= i < list.len() ==> #[trigger] list[i] == ',',
{
    let names = pieces(list, Separator::Comma);
    assert forall|k: int| 0 <= k < names.len() implies trimmed(#[trigger] names[k])
        == names[k] by {
        lemma_pieces_inherit(list, Separator::Comma, Separator::White, k);
        lemma_trimmed_same(names[k]);
    }
    assert(all_trimmed(names) =~= names);
    lemma_only_commas(list);
}

/// Only a list of commas names nothing.
proof fn lemma_only_commas(list: Seq<char>)
    ensures
        nonempty(pieces(list, Separator::Comma)).len() == 0 <==> forall|i: int|
            0 <= i < list.len() ==> #[trigger] list[i] == ',',
    decreases list.len(),
{
    reveal_with_fuel(nonempty, 2);
    if list.len() == 0 {
        assert(pieces(list, Separator::Comma).drop_last() =~= Seq::empty());
    } else {
        let first = list.drop_last();
        let before = pieces(first, Separator::Comma);
        lemma_pieces_some(first, Separator::Comma);
        lemma_only_commas(first);
        if list.last() == ',' {
            assert(pieces(list, Separator::Comma).drop_last() =~= before);
            assert forall|i: int|
                (forall|k: int| 0 <= k < first.len() ==> #[trigger] first[k] == ',') && 0 <= i
                    < list.len() implies #[trigger] list[i] == ',' by {
                if i < first.len() {
                    assert(first[i] == list[i]);
                }
            }
            assert forall|i: int|
                (forall|k: int| 0 <= k < list.len() ==> #[trigger] list[k] == ',') && 0 <= i
                    < first.len() implies #[trigger] first[i] == ',' by {
                assert(first[i] == list[i]);
            }
        } else {
            assert(list[list.len() - 1] != ',');
            assert(pieces(list, Separator::Comma).last().len() > 0);
        }
    }
}

/// The address of a receiver is what follows `udp://` in the second word of a request, all of it.
pub proof fn law_callback_follows_the_scheme(line: Seq<char>, target: Seq<char>)
    ensures
        callback(line) == Some(target) <==> words(line).len() > 1 && words(line)[0] == "STREAM"@
            && words(line)[1] == "udp://"@ + target,
{
    law_words_of_a_trimmed_text(line);
    let w = words(line);
    let scheme = "udp://"@;
    if w.len() > 1 {
        if w[1] == scheme + target {
            assert(scheme.is_prefix_of(w[1]));
            assert(w[1].skip(scheme.len() as int) =~= target);
        }
        if scheme.is_prefix_of(w[1]) {
            assert(w[1] =~= scheme + w[1].skip(scheme.len() as int));
        }
    }
}

/// A list is cut at its commas: its first name, trimmed, is a ticker unless nothing is left of it,
/// and the rest of the list gives the others in the same way.
pub proof fn law_list_is_cut_at_its_commas(name: Seq<char>, rest: Seq<char>)
    requires
        unbroken(name, Separator::Comma),
    ensures
        ({
            let first = if trimmed(name).len() > 0 {
                seq![trimmed(name)]
            } else {
                Seq::empty()
            };
            &&& tickers_in(name) == first
            &&& tickers_in(name.push(',') + rest) == first + tickers_in(rest)
        }),
{
    let others = pieces(rest, Separator::Comma);
    law_split_at_every_separator(name, ',', rest, Separator::Comma);
    assert(all_trimmed(seq![name]) =~= seq![trimmed(name)]);
    assert(all_trimmed(seq![name] + others) =~= seq![trimmed(name)] + all_trimmed(others));
    law_only_empty_texts_are_left_out(seq![trimmed(name)], all_trimmed(others), trimmed(name));
}

/// An accepted request is passed on whole: to the address that was read, for all the names in its
/// list, in their order.
pub proof fn law_request_is_passed_on_whole(line: Seq<char>, address: Option<SocketAddress>)
    ensures
        reply_to(line, address) == Reply::Accepted ==> command_for(line, address) == Some(
            CommandView::Stream(
                address->0,
                nonempty(pieces(words(line)[2], Separator::Comma)),
            ),
        ),
        reply_to(line, address) != Reply::Accepted ==> command_for(line, address) is None,
{
    law_words_of_a_trimmed_text(line);
    if words(line).len() >= 3 {
        lemma_word_is_unbroken(line, 2);
        lemma_tickers_of_a_word(words(line)[2]);
    }
}

/// What the server does about a line: the reply, and a command if and only if the request is
/// accepted, for the address that was read and the names of the list.
pub proof fn law_line_is_answered(line: &str, address: Option<SocketAddress>, r: Answer)
    requires
        call_ensures(handle_line, (line, address), r),
    ensures
        r.reply == reply_to(line@, address),
        r.command is Some <==> r.reply == Reply::Accepted,
        r.command is Some ==> (r.command->0) is Stream && Some((r.command->0)->Stream_0) == address
            && texts((r.command->0)->Stream_1@) == nonempty(
            pieces(words(line@)[2], Separator::Comma),
        ),
{
    law_request_is_passed_on_whole(line@, address);
}

/// A request whose address cannot be read is refused, and nothing is passed on for it.
pub proof fn law_unreadable_address_is_refused(line: Seq<char>)
    requires
        words(line).len() > 0,
        words(line)[0] == "STREAM"@,
    ensures
        reply_to(line, None) == Reply::InvalidUri,
        command_for(line, None) is None,
{
    law_words_decide_the_reply(line, None);
}

/// What an optional command says is what the command says, if there is one.
pub proof fn law_optional_command_says_the_same(c: Command)
    ensures
        command_view(Some(c)) == Some(c@),
        command_view(None) is None,
{
}

/// A reply is written unless its command was not taken; only a farewell ends the connection.
pub proof fn law_reply_is_written_unless_not_taken(
    reply: Reply,
    taken: Option<bool>,
    r: Option<Reply>,
    ends: bool,
)
    requires
        call_ensures(written, (reply, taken), r),
        call_ensures(Reply::ends_connection, (reply,), ends),
    ensures
        r is None <==> taken == Some(false),
        r is Some ==> r->0 == reply,
        ends <==> reply == Reply::Bye,
{
}

/// The replies read as the protocol has them.
pub proof fn law_replies_read_so(reply: Reply, r: &'static str)
    requires
        call_ensures(Reply::text, (reply,), r),
    ensures
        reply == Reply::Nothing ==> r@.len() == 0,
        reply == Reply::Accepted ==> r@ == "OK\n"@,
        reply == Reply::Bye ==> r@ == "BYE\n"@,
        reply == Reply::InvalidUri ==> r@ == "ERR invalid URI\n"@,
        reply == Reply::NoTickerList ==> r@ == "ERR no ticker list\n"@,
        reply == Reply::EmptyTickerList ==> r@ == "ERR empty ticker list\n"@,
        reply == Reply::UnknownCommand ==> r@ == "ERROR: unknown command\n"@,
        r@ == reply.says(),
{
    reveal_strlit("");
}

/// A receiver takes a line for an acceptance if and only if it reads `OK` with white space around
/// it, and for a greeting if and only if it reads so as the server greets.
pub proof fn law_receiver_knows_the_answers(response: &str, accepted: bool, greeted: bool)
    requires
        call_ensures(is_accepted, (response,), accepted),
        call_ensures(is_greeting, (response,), greeted),
    ensures
        accepted <==> exists|a: Seq<char>, b: Seq<char>|
            all_white(a) && all_white(b) && response@ == #[trigger] (a + "OK"@ + b),
        greeted <==> exists|a: Seq<char>, b: Seq<char>|
            all_white(a) && all_white(b) && response@ == #[trigger] (a
                + "Quote server ready for requests"@ + b),
{
    reveal_strlit("OK");
    reveal_strlit("Quote server ready for requests");
    let (a, b) = lemma_trimmed_parts(response@);
    if accepted {
        assert(response@ == a + "OK"@ + b);
    }
    if greeted {
        assert(response@ == a + "Quote server ready for requests"@ + b);
    }
    if exists|a: Seq<char>, b: Seq<char>|
        all_white(a) && all_white(b) && response@ == #[trigger] (a + "OK"@ + b) {
        let (a, b) = choose|a: Seq<char>, b: Seq<char>|
            all_white(a) && all_white(b) && response@ == #[trigger] (a + "OK"@ + b);
        law_trimming_takes_white_space_alone(a, "OK"@, b);
    }
    if exists|a: Seq<char>, b: Seq<char>|
        all_white(a) && all_white(b) && response@ == #[trigger] (a
            + "Quote server ready for requests"@ + b) {
        let (a, b) = choose|a: Seq<char>, b: Seq<char>|
            all_white(a) && all_white(b) && response@ == #[trigger] (a
                + "Quote server ready for requests"@ + b);
        law_trimming_takes_white_space_alone(a, "Quote server ready for requests"@, b);
    }
}

/// The server greets with one line.
pub proof fn law_greeting_reads_so(r: &'static str)
    requires
        call_ensures(greeting, (), r),
    ensures
        r@ == "Quote server ready for requests"@.push('\n'),
        r@ == greeting_text(),
{
    reveal_strlit("Quote server ready for requests\n");
    reveal_strlit("Quote server ready for requests");
    assert(r@ =~= "Quote server ready for requests"@.push('\n'));
}

/// A request is the verb, the address at this machine with the port as it is, and the list as it
/// is, with one space between them and a line feed at the end.
pub proof fn law_request_reads_so(udp_port: &str, csv: &str, r: String)
    requires
        call_ensures(stream_request, (udp_port, csv), r),
    ensures
        r@ == "STREAM"@.push(' ') + ("udp://127.0.0.1:"@ + udp_port@).push(' ') + csv@.push('\n'),
        r@ == request_line(udp_port@, csv@),
{
    reveal_strlit("STREAM udp://127.0.0.1:");
    reveal_strlit("udp://127.0.0.1:");
    reveal_strlit("STREAM");
    reveal_strlit(" ");
    reveal_strlit("\n");
    assert(r@ =~= "STREAM"@.push(' ') + ("udp://127.0.0.1:"@ + udp_port@).push(' ') + csv@.push(
        '\n',
    ));
}

/// The address that is to be read is what follows `udp://` in the second word of a request, and
/// there is none to read in any other line.
pub proof fn law_target_follows_the_scheme(line: &str, r: Option<String>)
    requires
        call_ensures(callback_target, (line,), r),
    ensures
        r is Some ==> words(line@).len() > 1 && words(line@)[0] == "STREAM"@ && words(line@)[1]
            == "udp://"@ + r->0@,
        r is None ==> forall|target: Seq<char>|
            words(line@).len() > 1 && words(line@)[0] == "STREAM"@ ==> words(line@)[1]
                != #[trigger] ("udp://"@ + target),
{
    if r is Some {
        law_callback_follows_the_scheme(line@, r->0@);
    } else {
        assert forall|target: Seq<char>|
            words(line@).len() > 1 && words(line@)[0] == "STREAM"@ implies words(line@)[1]
            != #[trigger] ("udp://"@ + target) by {
            law_callback_follows_the_scheme(line@, target);
        }
    }
}

/// A line is answered with the address that its reader makes of what follows `udp://`: by a reader
/// that reads each text as `meaning` says, a request is answered as one whose address means that,
/// and any other line as one without an address.
pub proof fn law_line_is_answered_as_it_is_read<F: Fn(String) -> Option<SocketAddress>>(
    line: &str,
    read: F,
    meaning: spec_fn(Seq<char>) -> Option<SocketAddress>,
    r: Answer,
    target: Seq<char>,
)
    requires
        forall|t: String, a: Option<SocketAddress>| #[trigger]
            call_ensures(read, (t,), a) ==> a == meaning(t@),
        call_ensures(answer_line, (line, read), r),
    ensures
        words(line@).len() > 1 && words(line@)[0] == "STREAM"@ && words(line@)[1] == "udp://"@
            + target ==> r.reply == reply_to(line@, meaning(target)) && command_view(r.command)
            == command_for(line@, meaning(target)),
        callback(line@) is None ==> r.reply == reply_to(line@, None) && r.command is None,
{
    law_callback_follows_the_scheme(line@, target);
}

} // verus!
