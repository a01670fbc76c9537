//! The loops at the two ends of the datagrams: what each does about what it gets.
use vstd::prelude::*;

use crate::codec::{
    decode_quote, encode_quote, fits_memory, law_read_if_and_only_if_it_starts_so,
    law_reads_what_was_sent, quote_bytes, quote_in,
};
use crate::command::{Command, SocketAddress};
use crate::quote::{QuoteView, StockQuote};
use crate::sender::ClientStreamMessage;
use crate::streams::{Course, MessageView};

verus! {

/// What a loop finds when it looks whether it is to stop.
#[derive(Clone, Copy, PartialEq, Eq, Structural, Debug)]
pub enum StopPoll {
    /// Somebody said whether to stop.
    Message(bool),
    /// Nobody said anything.
    Empty,
    /// Nobody is there to say anything any more.
    Disconnected,
}

/// What a loop gets when it waits for a datagram.
#[derive(Debug, PartialEq, Eq)]
pub enum Datagram {
    /// These bytes from this address.
    Received(SocketAddress, Vec<u8>),
    /// Nothing in time.
    TimedOut,
    /// A fault.
    Failed,
}

/// How the loop that receives pings goes on.
#[derive(Clone, Copy, PartialEq, Eq, Structural, Debug)]
pub enum PingCourse {
    /// It waits for a datagram.
    Receive,
    /// It ends as it was told to.
    Finish,
    /// It ends because the server is gone.
    Fail,
}

/// What the loop that receives pings does about a datagram.
#[derive(Debug, PartialEq, Eq)]
pub enum PingAction {
    /// It passes this command on, and goes on as [`ping_forwarded`] says.
    Forward(Command),
    /// It passes over what it got and pauses.
    Ignore,
    /// It looks for the next one at once.
    Retry,
    /// It notes the fault and pauses.
    Pause,
}

/// What the worker of a stream does about a message.
#[derive(Debug, PartialEq, Eq)]
pub enum WorkerAction {
    /// It sends these bytes to the receiver.
    Transmit(Vec<u8>),
    /// It ends.
    Exit,
}

/// What a receiver of quotes does about a datagram.
#[derive(Debug, PartialEq, Eq)]
pub enum ReceiveAction {
    /// It shows this quote.
    Show(StockQuote),
    /// It passes over what it got.
    Skip,
    /// It looks for the next one.
    Retry,
    /// It ends.
    Fail,
}

/// The ASCII characters that are white space.
pub open spec fn ascii_white(b: u8) -> bool {
    b == 0x9 || b == 0xa || b == 0xc || b == 0xd || b == 0x20
}

/// `s` without the ASCII white space it starts with.
pub open spec fn bytes_trimmed_start(s: Seq<u8>) -> Seq<u8>
    decreases s.len(),
{
    if s.len() > 0 && ascii_white(s[0]) {
        bytes_trimmed_start(s.drop_first())
    } else {
        s
    }
}

/// `s` without the ASCII white space it ends with.
pub open spec fn bytes_trimmed_end(s: Seq<u8>) -> Seq<u8>
    decreases s.len(),
{
    if s.len() > 0 && ascii_white(s.last()) {
        bytes_trimmed_end(s.drop_last())
    } else {
        s
    }
}

/// The letters `PING` in ASCII.
pub open spec fn ping_text() -> Seq<u8> {
    seq![0x50u8, 0x49u8, 0x4eu8, 0x47u8]
}

/// The bytes say that a receiver is still there.
pub open spec fn says_ping(bytes: Seq<u8>) -> bool {
    bytes_trimmed_end(bytes_trimmed_start(bytes)) == ping_text()
}

/// Tells whether `b` is ASCII white space.
fn is_ascii_white(b: u8) -> (r: bool)
    ensures
        r == ascii_white(b),
{
    b == 0x9 || b == 0xa || b == 0xc || b == 0xd || b == 0x20
}

/// Tells whether the bytes say that a receiver is still there.
pub fn is_ping(bytes: &[u8]) -> (r: bool)
    ensures
        r == says_ping(bytes@),
{
    let ghost s = bytes@;
    let n: usize = bytes.len();
    let mut from: usize = 0;
    assert(s.skip(0) =~= s);
    while from < n && is_ascii_white(bytes[from])
        invariant
            from <= n,
            n == bytes@.len(),
            s == bytes@,
            bytes_trimmed_start(s) == bytes_trimmed_start(s.skip(from as int)),
        decreases n - from,
    {
        assert(s.skip(from as int).drop_first() =~= s.skip(from + 1));
        from = from + 1;
    }
    assert(bytes_trimmed_start(s) == s.skip(from as int));
    let mut to: usize = n;
    assert(s.subrange(from as int, n as int) =~= s.skip(from as int));
    while to > from && is_ascii_white(bytes[to - 1])
        invariant
            from <= to <= n,
            n == bytes@.len(),
            s == bytes@,
            bytes_trimmed_end(bytes_trimmed_start(s)) == bytes_trimmed_end(
                s.subrange(from as int, to as int),
            ),
        decreases to,
    {
        assert(s.subrange(from as int, to as int).drop_last() =~= s.subrange(from as int, to - 1));
        to = to - 1;
    }
    let ghost core = s.subrange(from as int, to as int);
    assert(bytes_trimmed_end(bytes_trimmed_start(s)) == core);
    if to - from != 4 {
        return false;
    }
    let r = bytes[from] == 0x50 && bytes[from + 1] == 0x49 && bytes[from + 2] == 0x4e && bytes[from
        + 3] == 0x47;
    proof {
        assert(core[0] == s[from as int] && core[1] == s[from + 1] && core[2] == s[from + 2]
            && core[3] == s[from + 3]);
        if r {
            assert(core =~= ping_text());
        }
    }
    r
}

/// The datagram by which a receiver says that it is still there.
pub fn ping_datagram() -> (r: Vec<u8>)
    ensures
        r@ == ping_text(),
{
    let r: Vec<u8> = vec![0x50, 0x49, 0x4e, 0x47];
    assert(r@ =~= ping_text());
    r
}

/// How the loop that receives pings goes on after it looked whether it is to stop.
pub fn ping_poll(poll: StopPoll) -> (r: PingCourse)
    ensures
        r == (match poll {
            StopPoll::Message(true) => PingCourse::Finish,
            StopPoll::Disconnected => PingCourse::Fail,
            StopPoll::Message(false) | StopPoll::Empty => PingCourse::Receive,
        }),
{
    match poll {
        StopPoll::Message(true) => PingCourse::Finish,
        StopPoll::Disconnected => PingCourse::Fail,
        StopPoll::Message(false) => PingCourse::Receive,
        StopPoll::Empty => PingCourse::Receive,
    }
}

/// What the loop that receives pings does about a datagram.
pub fn ping_step(datagram: &Datagram) -> (r: PingAction)
    ensures
        match datagram {
            Datagram::Received(from, bytes) => if says_ping(bytes@) {
                r == PingAction::Forward(Command::Ping(*from))
            } else {
                r == PingAction::Ignore
            },
            Datagram::TimedOut => r == PingAction::Retry,
            Datagram::Failed => r == PingAction::Pause,
        },
{
    match datagram {
        Datagram::Received(from, bytes) => {
            if is_ping(bytes.as_slice()) {
                PingAction::Forward(Command::Ping(*from))
            } else {
                PingAction::Ignore
            }
        },
        Datagram::TimedOut => PingAction::Retry,
        Datagram::Failed => PingAction::Pause,
    }
}

/// How the loop that receives pings goes on after it passed a ping on: it pauses and looks again,
/// but ends without failure where nobody took the ping.
pub fn ping_forwarded(taken: bool) -> (r: PingCourse)
    ensures
        r == (if taken {
            PingCourse::Receive
        } else {
            PingCourse::Finish
        }),
{
    if taken {
        PingCourse::Receive
    } else {
        PingCourse::Finish
    }
}

/// How the loop of a receiver that sends pings goes on after one: it fails where the ping could
/// not be sent.
pub fn ping_sent(sent: bool) -> (r: Course)
    ensures
        r == (if sent {
            Course::Running
        } else {
            Course::Failed
        }),
{
    if sent {
        Course::Running
    } else {
        Course::Failed
    }
}

/// The bytes that a message makes the worker of a stream send; none makes it end.
pub open spec fn transmitted(message: Option<MessageView>) -> Option<Seq<u8>> {
    match message {
        Some(MessageView::Send(q)) => Some(quote_bytes(q)),
        _ => None,
    }
}

/// What an optional message says.
pub open spec fn message_view(message: Option<ClientStreamMessage>) -> Option<MessageView> {
    match message {
        Some(m) => Some(m@),
        None => None,
    }
}

/// What the worker of a stream does about a message. Without one, because its source is gone, it
/// ends.
pub fn client_step(message: &Option<ClientStreamMessage>) -> (r: WorkerAction)
    requires
        message matches Some(ClientStreamMessage::Send(q)) ==> fits_memory(q.ticker@),
    ensures
        match r {
            WorkerAction::Transmit(bytes) => transmitted(message_view(*message)) == Some(bytes@),
            WorkerAction::Exit => transmitted(message_view(*message)) is None,
        },
{
    match message {
        Some(ClientStreamMessage::Send(quote)) => WorkerAction::Transmit(encode_quote(quote)),
        Some(ClientStreamMessage::Stop) => WorkerAction::Exit,
        None => WorkerAction::Exit,
    }
}

/// Tells whether a loop of the receiver ends after it looked whether it is to stop.
pub fn stop_requested(poll: StopPoll) -> (r: bool)
    ensures
        r == (poll == StopPoll::Message(true) || poll == StopPoll::Disconnected),
{
    match poll {
        StopPoll::Message(stop) => stop,
        StopPoll::Empty => false,
        StopPoll::Disconnected => true,
    }
}

/// What a receiver of quotes does about a datagram.
pub fn receive_step(datagram: &Datagram) -> (r: ReceiveAction)
    ensures
        match datagram {
            Datagram::Received(_, bytes) => match r {
                ReceiveAction::Show(q) => quote_in(bytes@) == Some(q@),
                ReceiveAction::Skip => quote_in(bytes@) is None,
                _ => false,
            },
            Datagram::TimedOut => r == ReceiveAction::Retry,
            Datagram::Failed => r == ReceiveAction::Fail,
        },
{
    match datagram {
        Datagram::Received(_, bytes) => match decode_quote(bytes.as_slice()) {
            Ok(quote) => ReceiveAction::Show(quote),
            Err(_) => ReceiveAction::Skip,
        },
        Datagram::TimedOut => ReceiveAction::Retry,
        Datagram::Failed => ReceiveAction::Fail,
    }
}

/// What a receiver shows is what the worker of its stream was told to send.
pub proof fn law_shown_as_sent(quote: QuoteView)
    requires
        quote_bytes(quote).len() <= u64::MAX,
    ensures
        transmitted(Some(MessageView::Send(quote))) is Some,
        quote_in(transmitted(Some(MessageView::Send(quote)))->0) == Some(quote),
{
    law_reads_what_was_sent(quote, Seq::empty());
    assert(quote_bytes(quote) + Seq::empty() =~= quote_bytes(quote));
}

/// The server takes a receiver's ping for one, also with white space before and after it.
pub proof fn law_ping_is_recognised(before: Seq<u8>, after: Seq<u8>)
    requires
        forall|i: int| 0 <= i < before.len() ==> ascii_white(#[trigger] before[i]),
        forall|i: int| 0 <= i < after.len() ==> ascii_white(#[trigger] after[i]),
    ensures
        says_ping(before + ping_text() + after),
    decreases before.len() + after.len(),
{
    let s = before + ping_text() + after;
    if before.len() > 0 {
        assert(s.drop_first() =~= before.drop_first() + ping_text() + after);
        assert(s[0] == before[0]);
        law_ping_is_recognised(before.drop_first(), after);
    } else if after.len() > 0 {
        assert(s.drop_last() =~= before + ping_text() + after.drop_last());
        assert(s.last() == after.last());
        assert(s[0] == 0x50);
        assert(s.drop_last()[0] == 0x50);
        law_ping_is_recognised(before, after.drop_last());
    } else {
        assert(s =~= ping_text());
        assert(s[0] == 0x50 && s.last() == 0x47);
    }
}

/// A datagram says `PING` if and only if it is those four letters with nothing but ASCII white
/// space around them: tabs, line feeds, form feeds, carriage returns and spaces.
pub proof fn law_only_a_ping_is_taken_for_one(bytes: &[u8], r: bool)
    requires
        call_ensures(is_ping, (bytes,), r),
    ensures
        r <==> exists|i: int|
            0 <= i <= bytes@.len() - 4 && #[trigger] bytes@[i] == 80 && bytes@[i + 1] == 73
                && bytes@[i + 2] == 78 && bytes@[i + 3] == 71 && only_ascii_white(bytes@.take(i))
                && only_ascii_white(bytes@.skip(i + 4)),
{
    let s = bytes@;
    if r {
        let parts = lemma_bytes_trimmed_parts(s);
        let i = parts.0.len() as int;
        assert(s.subrange(i, i + 4) =~= ping_text());
        assert(s[i] == ping_text()[0] && s[i + 1] == ping_text()[1] && s[i + 2] == ping_text()[2]
            && s[i + 3] == ping_text()[3]) by {
            assert(s.subrange(i, i + 4)[0] == s[i]);
            assert(s.subrange(i, i + 4)[1] == s[i + 1]);
            assert(s.subrange(i, i + 4)[2] == s[i + 2]);
            assert(s.subrange(i, i + 4)[3] == s[i + 3]);
        }
        assert(s.take(i) =~= parts.0);
        assert(s.skip(i + 4) =~= parts.1);
    }
    if exists|i: int|
        0 <= i <= s.len() - 4 && #[trigger] s[i] == 80 && s[i + 1] == 73 && s[i + 2] == 78 && s[i
            + 3] == 71 && only_ascii_white(s.take(i)) && only_ascii_white(s.skip(i + 4)) {
        let i = choose|i: int|
            0 <= i <= s.len() - 4 && #[trigger] s[i] == 80 && s[i + 1] == 73 && s[i + 2] == 78
                && s[i + 3] == 71 && only_ascii_white(s.take(i)) && only_ascii_white(
                s.skip(i + 4),
            );
        law_ping_is_recognised(s.take(i), s.skip(i + 4));
        assert(s =~= s.take(i) + ping_text() + s.skip(i + 4));
    }
}

/// Every byte is a tab, a line feed, a form feed, a carriage return or a space.
pub open spec fn only_ascii_white(s: Seq<u8>) -> bool {
    forall|i: int|
        0 <= i < s.len() ==> {
            ||| #[trigger] s[i] == 9
            ||| s[i] == 10
            ||| s[i] == 12
            ||| s[i] == 13
            ||| s[i] == 32
        }
}

/// Bytes are ASCII white space, what is left when they are trimmed, and ASCII white space again.
proof fn lemma_bytes_trimmed_parts(s: Seq<u8>) -> (r: (Seq<u8>, Seq<u8>))
    ensures
        only_ascii_white(r.0),
        only_ascii_white(r.1),
        s == r.0 + bytes_trimmed_end(bytes_trimmed_start(s)) + r.1,
    decreases s.len(),
{
    if s.len() > 0 && ascii_white(s[0]) {
        let r = lemma_bytes_trimmed_parts(s.drop_first());
        let t = bytes_trimmed_end(bytes_trimmed_start(s.drop_first()));
        assert(s =~= seq![s[0]] + (r.0 + t + r.1));
        assert(s =~= seq![s[0]] + r.0 + t + r.1);
        (seq![s[0]] + r.0, r.1)
    } else {
        let after = lemma_bytes_trimmed_end_part(s);
        assert(s =~= Seq::empty() + bytes_trimmed_end(s) + after);
        (Seq::empty(), after)
    }
}

/// Bytes are what is left when their end is trimmed, and ASCII white space.
proof fn lemma_bytes_trimmed_end_part(s: Seq<u8>) -> (r: Seq<u8>)
    ensures
        only_ascii_white(r),
        s == bytes_trimmed_end(s) + r,
    decreases s.len(),
{
    if s.len() > 0 && ascii_white(s.last()) {
        let r = lemma_bytes_trimmed_end_part(s.drop_last());
        let t = bytes_trimmed_end(s.drop_last());
        assert(s =~= (t + r).push(s.last()));
        assert(s =~= t + r.push(s.last()));
        r.push(s.last())
    } else {
        assert(s =~= bytes_trimmed_end(s) + Seq::empty());
        Seq::empty()
    }
}

/// What a receiver sends to be kept is taken for a ping by the server, which then notes that the
/// sender of the datagram is still there.
pub proof fn law_ping_reaches_the_server(
    sent: Vec<u8>,
    from: SocketAddress,
    datagram: &Datagram,
    r: PingAction,
)
    requires
        call_ensures(ping_datagram, (), sent),
        datagram is Received,
        datagram->Received_0 == from,
        datagram->Received_1@ == sent@,
        call_ensures(ping_step, (datagram,), r),
    ensures
        sent@ == seq![80u8, 73u8, 78u8, 71u8],
        r == PingAction::Forward(Command::Ping(from)),
{
    assert(sent@ =~= seq![80u8, 73u8, 78u8, 71u8]);
    law_ping_is_recognised(Seq::empty(), Seq::empty());
    assert(Seq::empty() + ping_text() + Seq::empty() =~= ping_text());
}

/// The loop that receives pings passes on a ping for the sender of each datagram that says so,
/// and nothing for any other; after a datagram that does not say so, or a fault, it pauses, and
/// after a wait in vain it does not.
pub proof fn law_only_pings_are_passed_on(datagram: &Datagram, r: PingAction)
    requires
        call_ensures(ping_step, (datagram,), r),
    ensures
        r is Forward <==> datagram is Received && says_ping(datagram->Received_1@),
        r is Forward ==> r->Forward_0 == Command::Ping(datagram->Received_0),
        r is Ignore <==> datagram is Received && !says_ping(datagram->Received_1@),
        r is Retry <==> datagram is TimedOut,
        r is Pause <==> datagram is Failed,
{
}

/// The loop that receives pings ends as it should only where it is told to or nobody takes its
/// pings, and fails only where nobody is there to tell it; else it goes on.
pub proof fn law_ping_loop_goes_on(poll: StopPoll, polled: PingCourse, taken: bool, after: PingCourse)
    requires
        call_ensures(ping_poll, (poll,), polled),
        call_ensures(ping_forwarded, (taken,), after),
    ensures
        polled == PingCourse::Finish <==> poll == StopPoll::Message(true),
        polled == PingCourse::Fail <==> poll == StopPoll::Disconnected,
        polled == PingCourse::Receive <==> poll == StopPoll::Empty || poll == StopPoll::Message(
            false,
        ),
        after == PingCourse::Receive <==> taken,
        after == PingCourse::Finish <==> !taken,
{
}

/// The loops of a receiver end where they are told to, or nobody is there to tell them, and
/// nowhere else; and a ping that was sent keeps its loop going, while one that could not be sent
/// makes it fail.
pub proof fn law_receiver_loops_go_on(poll: StopPoll, stop: bool, sent: bool, after: Course)
    requires
        call_ensures(stop_requested, (poll,), stop),
        call_ensures(ping_sent, (sent,), after),
    ensures
        !stop <==> poll == StopPoll::Empty || poll == StopPoll::Message(false),
        after == Course::Running <==> sent,
        after == Course::Failed <==> !sent,
{
}

/// A worker sends the bytes of each quote it is given, and those only; it ends when it is told
/// to or its source is gone, and not before.
pub proof fn law_worker_sends_each_quote(message: &Option<ClientStreamMessage>, r: WorkerAction)
    requires
        call_ensures(client_step, (message,), r),
    ensures
        r is Transmit <==> message is Some && message->0 is Send,
        r is Transmit ==> r->Transmit_0@ == quote_bytes((message->0)->Send_0@),
        r is Exit <==> message is None || message->0 is Stop,
{
}

/// A receiver shows the quote of a datagram that a worker made of it, whoever sent it and
/// whatever follows it. It skips what is no quote, waits on when nothing comes in time, and ends
/// only at a fault.
pub proof fn law_receiver_shows_what_the_worker_sent(
    quote: StockQuote,
    transmitted_bytes: Vec<u8>,
    datagram: &Datagram,
    r: ReceiveAction,
)
    requires
        call_ensures(
            client_step,
            (&Some(ClientStreamMessage::Send(quote)),),
            WorkerAction::Transmit(transmitted_bytes),
        ),
        call_ensures(receive_step, (datagram,), r),
    ensures
        datagram is Received && datagram->Received_1@.len() <= u64::MAX
            && transmitted_bytes@.is_prefix_of(datagram->Received_1@) ==> r is Show
            && r->Show_0@ == quote@,
        r is Show ==> datagram is Received,
        r is Skip <==> datagram is Received && quote_in(datagram->Received_1@) is None,
        r is Retry <==> datagram is TimedOut,
        r is Fail <==> datagram is Failed,
{
    if datagram is Received && datagram->Received_1@.len() <= u64::MAX
        && transmitted_bytes@.is_prefix_of(datagram->Received_1@) {
        law_read_if_and_only_if_it_starts_so(datagram->Received_1@, quote@);
    }
}

} // verus!
