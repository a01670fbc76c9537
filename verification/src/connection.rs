//! A connection from its greeting to its end: what is written to it and passed on for it.
use vstd::prelude::*;

use crate::command::{CommandView, SocketAddress};
use crate::protocol::{
    command_for, fields, greeting_text, law_only_acceptance_is_taken_as_such,
    law_passed_on_tickers_are_plain, plain_ticker, reply_to, written_back, Reply,
};
use crate::text::{lemma_pieces_some, lemma_trimmed_ends, nonempty, pieces, trimmed, unbroken, Separator};

verus! {

/// One line of a connection, and what becomes of it outside.
pub struct Turn {
    /// The line.
    pub line: Seq<char>,
    /// What its callback was read as.
    pub address: Option<SocketAddress>,
    /// Whether somebody takes its command, if it gives one.
    pub taken: bool,
}

impl Turn {
    /// The answer to the line.
    pub open spec fn reply(self) -> Reply {
        reply_to(self.line, self.address)
    }

    /// The command that the line gives.
    pub open spec fn command(self) -> Option<CommandView> {
        command_for(self.line, self.address)
    }

    /// What is written back: nothing, not even the empty reply, if the command is not taken.
    pub open spec fn written(self) -> Option<Reply> {
        written_back(
            self.reply(),
            if self.command() is Some {
                Some(self.taken)
            } else {
                None
            },
        )
    }

    /// The line is blank.
    pub open spec fn blank(self) -> bool {
        trimmed(self.line).len() == 0
    }
}

/// What a connection has come to.
#[verifier::ext_equal]
pub struct ConnectionView {
    /// What was written to it.
    pub output: Seq<char>,
    /// The replies that were written, but for those to blank lines.
    pub replies: Seq<Reply>,
    /// The commands that were passed on and taken.
    pub commands: Seq<CommandView>,
    /// How many lines were answered, blank ones among them.
    pub answered: nat,
    /// Whether more lines are read.
    pub open: bool,
}

/// A connection that was greeted.
pub open spec fn greeted() -> ConnectionView {
    ConnectionView {
        output: greeting_text(),
        replies: Seq::empty(),
        commands: Seq::empty(),
        answered: 0,
        open: true,
    }
}

/// A connection after one more line.
pub open spec fn after_turn(c: ConnectionView, turn: Turn) -> ConnectionView {
    if !c.open {
        c
    } else {
        match turn.written() {
            None => ConnectionView { open: false, ..c },
            Some(reply) => ConnectionView {
                output: c.output + reply.says(),
                replies: if reply == Reply::Nothing {
                    c.replies
                } else {
                    c.replies.push(reply)
                },
                commands: match turn.command() {
                    Some(command) => c.commands.push(command),
                    None => c.commands,
                },
                answered: c.answered + 1,
                open: !reply.ends(),
            },
        }
    }
}

/// A connection on which these lines come in. It ends after a farewell, or at a command that is
/// not taken.
pub open spec fn conversation(turns: Seq<Turn>) -> ConnectionView
    decreases turns.len(),
{
    if turns.len() == 0 {
        greeted()
    } else {
        after_turn(conversation(turns.drop_last()), turns.last())
    }
}

/// The turns whose lines are not blank, in their order.
pub open spec fn spoken(turns: Seq<Turn>) -> Seq<Turn>
    decreases turns.len(),
{
    if turns.len() == 0 {
        turns
    } else if turns.last().blank() {
        spoken(turns.drop_last())
    } else {
        spoken(turns.drop_last()).push(turns.last())
    }
}

/// The commands that the turns give, in their order.
pub open spec fn commanded(turns: Seq<Turn>) -> Seq<CommandView>
    decreases turns.len(),
{
    if turns.len() == 0 {
        Seq::empty()
    } else {
        match turns.last().command() {
            Some(command) => commanded(turns.drop_last()).push(command),
            None => commanded(turns.drop_last()),
        }
    }
}

/// The replies one after the other, as they are written.
pub open spec fn all_said(replies: Seq<Reply>) -> Seq<char>
    decreases replies.len(),
{
    if replies.len() == 0 {
        Seq::empty()
    } else {
        all_said(replies.drop_last()) + replies.last().says()
    }
}

/// How many of the replies read `OK`.
pub open spec fn acceptances(replies: Seq<Reply>) -> nat
    decreases replies.len(),
{
    if replies.len() == 0 {
        0
    } else {
        acceptances(replies.drop_last()) + if replies.last().says() == "OK\n"@ {
            1nat
        } else {
            0nat
        }
    }
}

/// A text is one line: it ends with a line feed and holds no other.
pub open spec fn one_line(s: Seq<char>) -> bool {
    s.len() > 0 && s.last() == '\n' && unbroken(s.drop_last(), Separator::Feed)
}

/// Only a blank line gets the empty reply.
proof fn lemma_blank(turn: Turn)
    ensures
        turn.blank() <==> turn.reply() == Reply::Nothing,
{
    let t = trimmed(turn.line);
    let parts = pieces(t, Separator::White);
    lemma_trimmed_ends(turn.line);
    if t.len() > 0 {
        lemma_pieces_some(t.drop_last(), Separator::White);
        assert(parts.last().len() > 0);
        assert(fields(turn.line).len() > 0);
    } else {
        reveal_with_fuel(nonempty, 2);
        assert(fields(turn.line).len() == 0);
    }
}

/// Every reply but the empty one is one line.
proof fn lemma_one_line(reply: Reply)
    requires
        reply != Reply::Nothing,
    ensures
        one_line(reply.says()),
{
    reveal_strlit("OK\n");
    reveal_strlit("BYE\n");
    reveal_strlit("ERR invalid URI\n");
    reveal_strlit("ERR no ticker list\n");
    reveal_strlit("ERR empty ticker list\n");
    reveal_strlit("ERROR: unknown command\n");
}

/// While a connection is open, every line that came in was answered; an ended one has answered
/// none too many.
proof fn lemma_answered(turns: Seq<Turn>)
    ensures
        conversation(turns).answered <= turns.len(),
        conversation(turns).open ==> conversation(turns).answered == turns.len(),
    decreases turns.len(),
{
    if turns.len() > 0 {
        lemma_answered(turns.drop_last());
    }
}

/// The server greets, and then writes one line to each line that it answers and that is not
/// blank, in their order: the reply to that line. It writes nothing else.
pub proof fn law_one_reply_to_each_line(turns: Seq<Turn>)
    ensures
        ({
            let c = conversation(turns);
            let heard = spoken(turns.take(c.answered as int));
            &&& c.output == greeting_text() + all_said(c.replies)
            &&& one_line(greeting_text())
            &&& c.replies.len() == heard.len()
            &&& forall|i: int|
                0 <= i < heard.len() ==> #[trigger] c.replies[i] == heard[i].reply() && one_line(
                    c.replies[i].says(),
                )
        }),
    decreases turns.len(),
{
    reveal_strlit("Quote server ready for requests\n");
    let c = conversation(turns);
    if turns.len() == 0 {
        assert(c.output =~= greeting_text() + all_said(c.replies));
    } else {
        let first = turns.drop_last();
        let before = conversation(first);
        law_one_reply_to_each_line(first);
        lemma_answered(first);
        if c.answered == before.answered {
            assert(turns.take(c.answered as int) =~= first.take(c.answered as int));
        } else {
            assert(turns.take(c.answered as int) =~= turns);
            assert(first.take(before.answered as int) =~= first);
            lemma_blank(turns.last());
            let reply = turns.last().reply();
            if reply == Reply::Nothing {
                reveal_strlit("");
                assert(c.output =~= before.output);
            } else {
                lemma_one_line(reply);
                assert(c.replies.drop_last() =~= before.replies);
                assert(c.output =~= greeting_text() + all_said(c.replies));
            }
        }
    }
}

/// As many replies read `OK` as commands are passed on. The commands are those of the lines that
/// are answered, in their order, and each asks for a stream of at least one ticker; the tickers
/// have names without white space or commas in them. Neither a farewell nor the end of a
/// connection passes a command on.
pub proof fn law_accepted_if_passed_on(turns: Seq<Turn>)
    ensures
        ({
            let c = conversation(turns);
            &&& acceptances(c.replies) == c.commands.len()
            &&& c.commands == commanded(turns.take(c.answered as int))
            &&& forall|i: int|
                0 <= i < c.commands.len() ==> (#[trigger] c.commands[i]) is Stream
                    && c.commands[i]->Stream_1.len() > 0
            &&& forall|i: int, k: int|
                0 <= i < c.commands.len() && 0 <= k < c.commands[i]->Stream_1.len()
                    ==> plain_ticker(#[trigger] c.commands[i]->Stream_1[k])
        }),
    decreases turns.len(),
{
    let c = conversation(turns);
    if turns.len() > 0 {
        let first = turns.drop_last();
        let before = conversation(first);
        law_accepted_if_passed_on(first);
        lemma_answered(first);
        if c.answered == before.answered {
            assert(turns.take(c.answered as int) =~= first.take(c.answered as int));
        } else {
            assert(turns.take(c.answered as int) =~= turns);
            assert(first.take(before.answered as int) =~= first);
            let turn = turns.last();
            law_only_acceptance_is_taken_as_such(turn.reply());
            law_only_acceptance_is_taken_as_such(Reply::Accepted);
            if turn.reply() != Reply::Nothing {
                assert(c.replies.drop_last() =~= before.replies);
            }
            if turn.command() is Some {
                let tickers = (turn.command()->0)->Stream_1;
                law_passed_on_tickers_are_plain(turn.line, turn.address, 0);
                assert forall|k: int| 0 <= k < tickers.len() implies plain_ticker(
                    #[trigger] tickers[k],
                ) by {
                    law_passed_on_tickers_are_plain(turn.line, turn.address, k);
                }
            }
        }
    }
}

/// A connection ends after the first farewell, or at the first command that is not taken, and
/// only there; until then every line is answered.
pub proof fn law_connection_ends_only_so(turns: Seq<Turn>)
    ensures
        ({
            let c = conversation(turns);
            let n = c.answered as int;
            &&& n <= turns.len()
            &&& forall|i: int| 0 <= i < n ==> (#[trigger] turns[i]).written() is Some
            &&& forall|i: int| 0 <= i < n - 1 ==> !(#[trigger] turns[i]).reply().ends()
            &&& c.open ==> n == turns.len() && (n > 0 ==> !turns[n - 1].reply().ends())
            &&& !c.open ==> (n > 0 && turns[n - 1].reply().ends()) || (n < turns.len()
                && turns[n].command() is Some && !turns[n].taken)
        }),
    decreases turns.len(),
{
    if turns.len() > 0 {
        let first = turns.drop_last();
        law_connection_ends_only_so(first);
        let n = conversation(first).answered as int;
        assert forall|i: int| 0 <= i < first.len() implies #[trigger] turns[i] == first[i] by {}
        if n > 0 {
            assert(turns[n - 1] == first[n - 1]);
        }
    }
}

/// As long as every command is taken, a connection ends only after a farewell.
pub proof fn law_taken_commands_keep_a_connection(turns: Seq<Turn>)
    requires
        forall|i: int| 0 <= i < turns.len() ==> (#[trigger] turns[i]).taken,
    ensures
        ({
            let c = conversation(turns);
            !c.open ==> c.replies.len() > 0 && c.replies.last() == Reply::Bye
        }),
    decreases turns.len(),
{
    if turns.len() > 0 {
        law_taken_commands_keep_a_connection(turns.drop_last());
    }
}

/// Once a connection has ended, no more lines are answered: nothing more is written to it or
/// passed on for it.
pub proof fn law_nothing_after_the_end(turns: Seq<Turn>, more: Seq<Turn>)
    requires
        !conversation(turns).open,
    ensures
        conversation(turns + more) == conversation(turns),
    decreases more.len(),
{
    if more.len() == 0 {
        assert(turns + more =~= turns);
    } else {
        law_nothing_after_the_end(turns, more.drop_last());
        assert((turns + more).drop_last() =~= turns + more.drop_last());
    }
}

} // verus!
