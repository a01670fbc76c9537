//! What the stream server is: a table of the receivers that quotes are streamed to, and how each
//! event changes it.
use vstd::prelude::*;

use crate::command::{CommandView, SocketAddress};
use crate::quote::QuoteView;

verus! {

/// One stream: which tickers its receiver asked for, and when it was last heard of.
#[verifier::ext_equal]
pub struct ConnectionView {
    /// The tickers that the receiver asked for.
    pub quotes: Set<Seq<char>>,
    /// When the stream was opened or its receiver last sent a ping, whichever is later.
    pub last_ping: u64,
}

/// A message to the worker of one stream.
pub enum MessageView {
    /// Send this quote.
    Send(QuoteView),
    /// End.
    Stop,
}

/// A message and the stream it is for.
pub struct DeliveryView {
    /// The stream.
    pub to: SocketAddress,
    /// The message.
    pub message: MessageView,
}

/// What the stream server waits for.
pub enum EventView {
    /// A command.
    Command(CommandView),
    /// No command can come any more.
    CommandsClosed,
    /// New quotes.
    Quotes(Seq<QuoteView>),
    /// No quotes can come any more.
    QuotesClosed,
    /// Nothing came for a while.
    Idle,
}

/// How the server goes on.
#[derive(Clone, Copy, PartialEq, Eq, Structural, Debug)]
pub enum Course {
    /// It waits for the next event.
    Running,
    /// It ends as it was told to.
    Finished,
    /// It ends because nobody can reach it any more.
    Failed,
}

/// The table of streams and its limits.
#[verifier::ext_equal]
pub struct SenderView {
    /// The streams, by the address of the receiver.
    pub streams: Map<SocketAddress, ConnectionView>,
    /// How many streams there may be at once.
    pub capacity: u64,
    /// How long a stream lives without a ping, in milliseconds.
    pub ping_cooldown_ms: u64,
}

/// The messages that the quotes of `tickers` among `quotes` make, in their order.
pub open spec fn wanted(quotes: Seq<QuoteView>, tickers: Set<Seq<char>>) -> Seq<MessageView>
    decreases quotes.len(),
{
    if quotes.len() == 0 {
        Seq::empty()
    } else {
        let before = wanted(quotes.drop_last(), tickers);
        if tickers.contains(quotes.last().ticker) {
            before.push(MessageView::Send(quotes.last()))
        } else {
            before
        }
    }
}

/// The messages for `addr` among `deliveries`, in their order.
pub open spec fn inbox(deliveries: Seq<DeliveryView>, addr: SocketAddress) -> Seq<MessageView>
    decreases deliveries.len(),
{
    if deliveries.len() == 0 {
        Seq::empty()
    } else {
        let before = inbox(deliveries.drop_last(), addr);
        if deliveries.last().to == addr {
            before.push(deliveries.last().message)
        } else {
            before
        }
    }
}

impl SenderView {
    /// There are no more streams than there may be.
    pub open spec fn within_capacity(self) -> bool {
        &&& self.streams.dom().finite()
        &&& self.streams.len() <= self.capacity
    }

    /// There is a stream to `addr`.
    pub open spec fn active(self, addr: SocketAddress) -> bool {
        self.streams.contains_key(addr)
    }

    /// The receiver at `addr` was heard of recently enough.
    pub open spec fn alive(self, addr: SocketAddress, now: u64) -> bool {
        self.streams[addr].last_ping + self.ping_cooldown_ms > now
    }

    /// There is a stream to `addr` that has not been heard of for too long.
    pub open spec fn stale(self, addr: SocketAddress, now: u64) -> bool {
        self.active(addr) && !self.alive(addr, now)
    }

    /// The same server with other streams.
    pub open spec fn with(self, streams: Map<SocketAddress, ConnectionView>) -> SenderView {
        SenderView { streams, ..self }
    }

    /// A request for a stream to `addr` opens a new one.
    pub open spec fn opens_at(self, addr: SocketAddress) -> bool {
        !self.active(addr) && self.streams.len() < self.capacity
    }

    /// A request for a stream to `addr` finds no room.
    pub open spec fn rejects(self, addr: SocketAddress) -> bool {
        !self.active(addr) && self.streams.len() >= self.capacity
    }

    /// After a request for `tickers` at `addr`. A stream that is there already changes its
    /// tickers and nothing else.
    pub open spec fn after_stream(
        self,
        addr: SocketAddress,
        tickers: Set<Seq<char>>,
        now: u64,
    ) -> SenderView {
        if self.active(addr) {
            let last_ping = self.streams[addr].last_ping;
            self.with(self.streams.insert(addr, ConnectionView { quotes: tickers, last_ping }))
        } else if self.opens_at(addr) {
            self.with(
                self.streams.insert(addr, ConnectionView { quotes: tickers, last_ping: now }),
            )
        } else {
            self
        }
    }

    /// After a ping from `addr`.
    pub open spec fn after_ping(self, addr: SocketAddress, now: u64) -> SenderView {
        if self.active(addr) {
            let quotes = self.streams[addr].quotes;
            self.with(self.streams.insert(addr, ConnectionView { quotes, last_ping: now }))
        } else {
            self
        }
    }

    /// After the end of the stream to `addr`.
    pub open spec fn after_stop(self, addr: SocketAddress) -> SenderView {
        self.with(self.streams.remove(addr))
    }

    /// After the end of all streams.
    pub open spec fn after_stop_all(self) -> SenderView {
        self.with(Map::empty())
    }

    /// After the streams that have not been heard of for too long are gone.
    pub open spec fn swept(self, now: u64) -> SenderView {
        self.with(
            Map::new(
                |a: SocketAddress| self.active(a) && self.alive(a, now),
                |a: SocketAddress| self.streams[a],
            ),
        )
    }

    /// The messages for `addr` that `quotes` make.
    pub open spec fn fan_out(self, quotes: Seq<QuoteView>, addr: SocketAddress) -> Seq<
        MessageView,
    > {
        if self.active(addr) {
            wanted(quotes, self.streams[addr].quotes)
        } else {
            Seq::empty()
        }
    }

    /// After a command.
    pub open spec fn after_command(self, command: CommandView, now: u64) -> SenderView {
        match command {
            CommandView::Stream(addr, tickers) => self.after_stream(addr, tickers.to_set(), now),
            CommandView::Ping(addr) => self.after_ping(addr, now),
            CommandView::Stop(addr) => self.after_stop(addr),
            CommandView::StopSendingAll => self.after_stop_all(),
        }
    }

    /// After an event. Quotes and idle time sweep the table; the loss of either source leaves it
    /// as it is.
    pub open spec fn after(self, event: EventView, now: u64) -> SenderView {
        match event {
            EventView::Command(command) => self.after_command(command, now),
            EventView::Quotes(_) => self.swept(now),
            EventView::Idle => self.swept(now),
            EventView::CommandsClosed => self,
            EventView::QuotesClosed => self,
        }
    }

    /// The stream that an event opens.
    pub open spec fn opened(self, event: EventView) -> Option<SocketAddress> {
        match event {
            EventView::Command(CommandView::Stream(addr, _)) => if self.opens_at(addr) {
                Some(addr)
            } else {
                None
            },
            _ => None,
        }
    }

    /// An event asks for what is not done: a stream for which there is no room, or a note of a
    /// ping to a stream that is not there.
    pub open spec fn refused(self, event: EventView) -> bool {
        match event {
            EventView::Command(CommandView::Stream(addr, _)) => self.rejects(addr),
            EventView::Command(CommandView::Ping(addr)) => !self.active(addr),
            _ => false,
        }
    }

    /// The streams that an event drops because they have not been heard of for too long.
    pub open spec fn dropped(self, event: EventView, now: u64) -> Set<SocketAddress> {
        match event {
            EventView::Quotes(_) | EventView::Idle => Set::new(
                |a: SocketAddress| self.stale(a, now),
            ),
            _ => Set::empty(),
        }
    }

    /// The messages for `addr` that an event makes: the end of a stream is told to its worker,
    /// and new quotes go to the streams that are alive.
    pub open spec fn messages(self, event: EventView, now: u64, addr: SocketAddress) -> Seq<
        MessageView,
    > {
        match event {
            EventView::Command(CommandView::Stop(a)) => if a == addr && self.active(addr) {
                seq![MessageView::Stop]
            } else {
                Seq::empty()
            },
            EventView::Command(CommandView::StopSendingAll) => if self.active(addr) {
                seq![MessageView::Stop]
            } else {
                Seq::empty()
            },
            EventView::Quotes(quotes) => self.swept(now).fan_out(quotes, addr),
            _ => Seq::empty(),
        }
    }
}

/// How the server goes on after an event.
pub open spec fn course(event: EventView) -> Course {
    match event {
        EventView::Command(CommandView::StopSendingAll) => Course::Finished,
        EventView::CommandsClosed | EventView::QuotesClosed => Course::Failed,
        _ => Course::Running,
    }
}

/// No event brings the streams above their limit, and none changes the limits.
pub proof fn law_capacity_is_kept(v: SenderView, event: EventView, now: u64)
    requires
        v.within_capacity(),
    ensures
        v.after(event, now).within_capacity(),
        v.after(event, now).capacity == v.capacity,
        v.after(event, now).ping_cooldown_ms == v.ping_cooldown_ms,
{
    let kept = v.swept(now).streams.dom();
    assert(kept.subset_of(v.streams.dom()));
    vstd::set_lib::lemma_len_subset(kept, v.streams.dom());
}

/// A request for a stream for which there is no room changes nothing, opens nothing and is
/// reported as refused.
pub proof fn law_full_server_refuses(
    v: SenderView,
    addr: SocketAddress,
    tickers: Seq<Seq<char>>,
    now: u64,
)
    requires
        v.within_capacity(),
        !v.active(addr),
        v.streams.len() == v.capacity,
    ensures
        ({
            let event = EventView::Command(CommandView::Stream(addr, tickers));
            &&& v.after(event, now) == v
            &&& v.opened(event) is None
            &&& v.refused(event)
        }),
{
}

/// A request for a stream is granted where there is room: the stream is there, with the tickers
/// asked for, and counts as heard of at that time.
pub proof fn law_room_is_given(
    v: SenderView,
    addr: SocketAddress,
    tickers: Seq<Seq<char>>,
    now: u64,
)
    requires
        v.within_capacity(),
        !v.active(addr),
        v.streams.len() < v.capacity,
    ensures
        ({
            let event = EventView::Command(CommandView::Stream(addr, tickers));
            let w = v.after(event, now);
            &&& v.opened(event) == Some(addr)
            &&& !v.refused(event)
            &&& w.active(addr)
            &&& w.streams[addr] == ConnectionView { quotes: tickers.to_set(), last_ping: now }
        }),
{
}

/// A second request from the address of a stream replaces its tickers: from then on the stream
/// gets the quotes of the new tickers alone. When it was last heard of stays as it was.
pub proof fn law_second_request_replaces_tickers(
    v: SenderView,
    addr: SocketAddress,
    tickers: Seq<Seq<char>>,
    quotes: Seq<QuoteView>,
    now: u64,
    later: u64,
)
    requires
        v.active(addr),
    ensures
        ({
            let event = EventView::Command(CommandView::Stream(addr, tickers));
            let w = v.after(event, now);
            &&& v.opened(event) is None
            &&& w.streams[addr].last_ping == v.streams[addr].last_ping
            &&& w.messages(EventView::Quotes(quotes), later, addr) == (if v.alive(addr, later) {
                wanted(quotes, tickers.to_set())
            } else {
                Seq::empty()
            })
        }),
{
}

/// A quote reaches a stream if and only if it is among the new quotes, the stream is alive and
/// its receiver asked for the ticker; nothing but such quotes reaches it.
pub proof fn law_exactly_the_subscribed_quotes(
    v: SenderView,
    addr: SocketAddress,
    quotes: Seq<QuoteView>,
    now: u64,
    message: MessageView,
)
    ensures
        v.messages(EventView::Quotes(quotes), now, addr).contains(message) <==> (v.active(addr)
            && v.alive(addr, now) && message is Send && quotes.contains(message->Send_0)
            && v.streams[addr].quotes.contains(message->Send_0.ticker)),
{
    if v.active(addr) && v.alive(addr, now) {
        lemma_wanted(quotes, v.streams[addr].quotes, message);
    }
}

/// What is wanted among quotes.
proof fn lemma_wanted(quotes: Seq<QuoteView>, tickers: Set<Seq<char>>, message: MessageView)
    ensures
        wanted(quotes, tickers).contains(message) <==> (message is Send && quotes.contains(
            message->Send_0,
        ) && tickers.contains(message->Send_0.ticker)),
    decreases quotes.len(),
{
    if quotes.len() > 0 {
        let first = quotes.drop_last();
        let q = quotes.last();
        lemma_wanted(first, tickers, message);
        assert(quotes =~= first.push(q));
        lemma_push_contains(first, q, message->Send_0);
        lemma_push_contains(wanted(first, tickers), MessageView::Send(q), message);
    }
}

/// What a sequence contains with one more at its end.
proof fn lemma_push_contains<T>(s: Seq<T>, x: T, y: T)
    ensures
        s.push(x).contains(y) <==> s.contains(y) || y == x,
{
    if s.contains(y) {
        let k = choose|k: int| 0 <= k < s.len() && s[k] == y;
        assert(s.push(x)[k] == y);
    }
    assert(s.push(x)[s.len() as int] == x);
}

/// The quotes of a stream come in the order in which they were made: what two batches make
/// together is what the first makes and then what the second makes.
pub proof fn law_order_is_kept(
    v: SenderView,
    addr: SocketAddress,
    first: Seq<QuoteView>,
    second: Seq<QuoteView>,
)
    ensures
        v.fan_out(first + second, addr) == v.fan_out(first, addr) + v.fan_out(second, addr),
    decreases second.len(),
{
    if second.len() == 0 {
        assert(first + second =~= first);
        assert(v.fan_out(first, addr) + v.fan_out(second, addr) =~= v.fan_out(first, addr));
    } else {
        law_order_is_kept(v, addr, first, second.drop_last());
        assert((first + second).drop_last() =~= first + second.drop_last());
        assert(v.fan_out(first + second, addr) =~= v.fan_out(first, addr) + v.fan_out(
            second,
            addr,
        ));
    }
}

/// An event is a request for a stream to `addr`.
pub open spec fn requests_stream(event: EventView, addr: SocketAddress) -> bool {
    match event {
        EventView::Command(CommandView::Stream(a, _)) => a == addr,
        _ => false,
    }
}

/// Where there is no stream, nothing but a request from that address makes one, and until then
/// nothing is sent there. So a stream that was stopped or dropped is silent.
pub proof fn law_no_stream_no_messages(
    v: SenderView,
    addr: SocketAddress,
    event: EventView,
    now: u64,
)
    requires
        !v.active(addr),
    ensures
        v.messages(event, now, addr) == Seq::<MessageView>::empty(),
        v.after(event, now).active(addr) ==> requests_stream(event, addr),
{
}

/// To stop a stream is to tell its worker to end, once, and to have no stream there.
pub proof fn law_stop_ends_the_stream(v: SenderView, addr: SocketAddress, now: u64)
    requires
        v.active(addr),
    ensures
        ({
            let event = EventView::Command(CommandView::Stop(addr));
            &&& v.messages(event, now, addr) == seq![MessageView::Stop]
            &&& !v.after(event, now).active(addr)
        }),
{
}

/// A stream that was stopped can be opened again at once, with any tickers.
pub proof fn law_stopped_stream_can_reopen(
    v: SenderView,
    addr: SocketAddress,
    tickers: Seq<Seq<char>>,
    now: u64,
    later: u64,
)
    requires
        v.within_capacity(),
        v.active(addr),
    ensures
        ({
            let w = v.after(EventView::Command(CommandView::Stop(addr)), now);
            let event = EventView::Command(CommandView::Stream(addr, tickers));
            &&& w.opened(event) == Some(addr)
            &&& w.after(event, later).streams[addr] == ConnectionView {
                quotes: tickers.to_set(),
                last_ping: later,
            }
        }),
{
}

/// A ping at `at` keeps a stream until the cooldown is over: it is dropped by the first sweep at
/// or after that moment, if there is no other ping, and by none before.
pub proof fn law_ping_extends_life(v: SenderView, addr: SocketAddress, at: u64, now: u64)
    requires
        v.active(addr),
    ensures
        ({
            let w = v.after(EventView::Command(CommandView::Ping(addr)), at);
            &&& w.streams[addr].quotes == v.streams[addr].quotes
            &&& w.after(EventView::Idle, now).active(addr) <==> now < at + v.ping_cooldown_ms
            &&& w.dropped(EventView::Idle, now).contains(addr) <==> now >= at + v.ping_cooldown_ms
        }),
{
}

/// A stream that was not heard of for the cooldown gets no quotes and is gone.
pub proof fn law_silent_receiver_is_dropped(
    v: SenderView,
    addr: SocketAddress,
    quotes: Seq<QuoteView>,
    now: u64,
)
    requires
        v.active(addr),
        now >= v.streams[addr].last_ping + v.ping_cooldown_ms,
    ensures
        v.messages(EventView::Quotes(quotes), now, addr) == Seq::<MessageView>::empty(),
        v.dropped(EventView::Quotes(quotes), now).contains(addr),
        !v.after(EventView::Quotes(quotes), now).active(addr),
{
}

/// A sweep keeps a stream as it is or drops it; another sweep at that time does nothing.
pub proof fn law_sweep_drops_or_keeps(v: SenderView, addr: SocketAddress, now: u64)
    requires
        v.active(addr),
    ensures
        v.after(EventView::Idle, now).active(addr) != v.dropped(EventView::Idle, now).contains(
            addr,
        ),
        v.after(EventView::Idle, now).active(addr) ==> v.after(EventView::Idle, now).streams[addr]
            == v.streams[addr],
        v.swept(now).swept(now) == v.swept(now),
{
    assert(v.swept(now).swept(now) =~= v.swept(now));
}

/// A command about one stream leaves the others as they are, and sends them nothing.
pub proof fn law_others_are_left_alone(
    v: SenderView,
    command: CommandView,
    other: SocketAddress,
    now: u64,
)
    requires
        match command {
            CommandView::Stream(addr, _) | CommandView::Ping(addr) | CommandView::Stop(addr) =>
                addr != other,
            CommandView::StopSendingAll => false,
        },
    ensures
        v.after(EventView::Command(command), now).active(other) == v.active(other),
        v.after(EventView::Command(command), now).streams[other] == v.streams[other] || !v.active(
            other,
        ),
        v.messages(EventView::Command(command), now, other) == Seq::<MessageView>::empty(),
{
}

/// The command to end everything tells each worker to end, once, and leaves no stream; it is the
/// only event after which the server ends without a failure.
pub proof fn law_shutdown_reaches_all(v: SenderView, addr: SocketAddress, now: u64)
    ensures
        ({
            let event = EventView::Command(CommandView::StopSendingAll);
            &&& v.messages(event, now, addr) == (if v.active(addr) {
                seq![MessageView::Stop]
            } else {
                Seq::empty()
            })
            &&& !v.after(event, now).active(addr)
            &&& forall|e: EventView| #[trigger] course(e) == Course::Finished <==> e == event
        }),
{
}

/// A stream ends because it was stopped, because everything was, or because a sweep found that it
/// had not been heard of for the cooldown; nothing else ends it.
pub proof fn law_only_stop_or_silence_ends_a_stream(
    v: SenderView,
    addr: SocketAddress,
    event: EventView,
    now: u64,
)
    requires
        v.active(addr),
    ensures
        v.after(event, now).active(addr) <==> !stops(event, addr) && (sweeps(event) ==> now
            < v.streams[addr].last_ping + v.ping_cooldown_ms),
{
}

/// An event is a command that ends the stream to `addr`.
pub open spec fn stops(event: EventView, addr: SocketAddress) -> bool {
    match event {
        EventView::Command(CommandView::Stop(a)) => a == addr,
        EventView::Command(CommandView::StopSendingAll) => true,
        _ => false,
    }
}

/// An event drops the streams that have not been heard of for too long.
pub open spec fn sweeps(event: EventView) -> bool {
    event is Quotes || event is Idle
}

/// An event is a ping from `addr`.
pub open spec fn pings(event: EventView, addr: SocketAddress) -> bool {
    event == EventView::Command(CommandView::Ping(addr))
}

/// After events, each at its time, one after the other.
pub open spec fn after_all(v: SenderView, events: Seq<(EventView, u64)>) -> SenderView
    decreases events.len(),
{
    if events.len() == 0 {
        v
    } else {
        after_all(v, events.drop_last()).after(events.last().0, events.last().1)
    }
}

/// There are never more streams than there may be, whatever happened.
pub proof fn law_capacity_is_kept_throughout(v: SenderView, events: Seq<(EventView, u64)>)
    requires
        v.within_capacity(),
    ensures
        after_all(v, events).within_capacity(),
        after_all(v, events).capacity == v.capacity,
        after_all(v, events).ping_cooldown_ms == v.ping_cooldown_ms,
    decreases events.len(),
{
    if events.len() > 0 {
        law_capacity_is_kept_throughout(v, events.drop_last());
        law_capacity_is_kept(
            after_all(v, events.drop_last()),
            events.last().0,
            events.last().1,
        );
    }
}

/// Where there is no stream, nothing is sent until one is asked for, whatever happens meanwhile.
pub proof fn law_silence_lasts(v: SenderView, addr: SocketAddress, events: Seq<(EventView, u64)>)
    requires
        !v.active(addr),
        forall|i: int| 0 <= i < events.len() ==> !requests_stream((#[trigger] events[i]).0, addr),
    ensures
        !after_all(v, events).active(addr),
        forall|i: int|
            0 <= i < events.len() ==> after_all(v, events.take(i)).messages(
                (#[trigger] events[i]).0,
                events[i].1,
                addr,
            ) == Seq::<MessageView>::empty(),
    decreases events.len(),
{
    if events.len() > 0 {
        let n = events.len() - 1;
        let first = events.drop_last();
        law_silence_lasts(v, addr, first);
        law_no_stream_no_messages(after_all(v, first), addr, events[n].0, events[n].1);
        assert(events.take(n) =~= first);
        assert forall|i: int| 0 <= i < events.len() implies after_all(v, events.take(i)).messages(
            (#[trigger] events[i]).0,
            events[i].1,
            addr,
        ) == Seq::<MessageView>::empty() by {
            if i < n {
                assert(first[i] == events[i]);
                assert(first.take(i) =~= events.take(i));
            }
        }
    }
}

/// The receiver at `addr` was heard of before the event at `n`, less than the cooldown ago: by a
/// ping among the events, or before them.
pub open spec fn heard_of(
    v: SenderView,
    addr: SocketAddress,
    events: Seq<(EventView, u64)>,
    n: int,
) -> bool {
    ||| events[n].1 < v.streams[addr].last_ping + v.ping_cooldown_ms
    ||| exists|i: int|
        0 <= i < n && pings((#[trigger] events[i]).0, addr) && events[n].1 < events[i].1
            + v.ping_cooldown_ms
}

/// The clock does not run backwards, nobody stops the stream to `addr`, and at every sweep its
/// receiver was heard of less than the cooldown ago.
pub open spec fn undisturbed(
    v: SenderView,
    addr: SocketAddress,
    events: Seq<(EventView, u64)>,
) -> bool {
    &&& forall|i: int|
        0 <= i < events.len() ==> v.streams[addr].last_ping <= (#[trigger] events[i]).1
    &&& forall|i: int, j: int|
        0 <= i < j < events.len() ==> (#[trigger] events[i]).1 <= (#[trigger] events[j]).1
    &&& forall|i: int| 0 <= i < events.len() ==> !stops((#[trigger] events[i]).0, addr)
    &&& forall|i: int|
        0 <= i < events.len() && sweeps((#[trigger] events[i]).0) ==> heard_of(v, addr, events, i)
}

/// A receiver that pings often enough keeps its stream: if the clock does not run backwards,
/// nobody stops the stream, and at every sweep the receiver was heard of less than the cooldown
/// ago, then the stream is still there.
pub proof fn law_regular_pings_keep_a_stream(
    v: SenderView,
    addr: SocketAddress,
    events: Seq<(EventView, u64)>,
)
    requires
        v.active(addr),
        undisturbed(v, addr, events),
    ensures
        after_all(v, events).active(addr),
{
    lemma_heard(v, addr, events);
}

/// The stream is there, and was last heard of no earlier than any ping.
proof fn lemma_heard(v: SenderView, addr: SocketAddress, events: Seq<(EventView, u64)>)
    requires
        v.active(addr),
        undisturbed(v, addr, events),
    ensures
        after_all(v, events).active(addr),
        after_all(v, events).ping_cooldown_ms == v.ping_cooldown_ms,
        after_all(v, events).streams[addr].last_ping >= v.streams[addr].last_ping,
        forall|i: int|
            0 <= i < events.len() && pings((#[trigger] events[i]).0, addr) ==> after_all(
                v,
                events,
            ).streams[addr].last_ping >= events[i].1,
    decreases events.len(),
{
    if events.len() > 0 {
        let n = events.len() - 1;
        let first = events.drop_last();
        assert forall|i: int| 0 <= i < first.len() && sweeps(
            (#[trigger] first[i]).0,
        ) implies heard_of(v, addr, first, i) by {
            assert(first[i] == events[i]);
            assert(heard_of(v, addr, events, i));
            if events[i].1 >= v.streams[addr].last_ping + v.ping_cooldown_ms {
                let k = choose|k: int|
                    0 <= k < i && pings((#[trigger] events[k]).0, addr) && events[i].1
                        < events[k].1 + v.ping_cooldown_ms;
                assert(first[k] == events[k]);
            }
        }
        assert forall|i: int| 0 <= i < first.len() implies v.streams[addr].last_ping <= (
        #[trigger] first[i]).1 && !stops(first[i].0, addr) by {
            assert(first[i] == events[i]);
        }
        lemma_heard(v, addr, first);
        let before = after_all(v, first);
        let event = events[n].0;
        if sweeps(event) {
            assert(heard_of(v, addr, events, n));
            if events[n].1 >= v.streams[addr].last_ping + v.ping_cooldown_ms {
                let k = choose|k: int|
                    0 <= k < n && pings((#[trigger] events[k]).0, addr) && events[n].1
                        < events[k].1 + v.ping_cooldown_ms;
                assert(first[k] == events[k]);
                assert(before.streams[addr].last_ping >= events[k].1);
            }
        }
        assert(!stops(event, addr));
        law_only_stop_or_silence_ends_a_stream(before, addr, event, events[n].1);
        let end = after_all(v, events);
        assert forall|i: int| 0 <= i < events.len() && pings(
            (#[trigger] events[i]).0,
            addr,
        ) implies end.streams[addr].last_ping >= events[i].1 by {
            if i < n {
                assert(first[i] == events[i]);
                assert(before.streams[addr].last_ping >= events[i].1);
                assert(events[i].1 <= events[n].1);
            }
        }
    }
}

/// Each stream gets each quote of its tickers as often as the quote is in the batch, if it was
/// heard of recently enough; no other stream gets it, and no batch ends a stream.
pub proof fn law_each_quote_as_often_as_it_came(
    v: SenderView,
    addr: SocketAddress,
    quotes: Seq<QuoteView>,
    now: u64,
    q: QuoteView,
)
    ensures
        ({
            let sent = v.messages(EventView::Quotes(quotes), now, addr).to_multiset();
            &&& sent.count(MessageView::Send(q)) == (if v.streams.contains_key(addr) && now
                < v.streams[addr].last_ping + v.ping_cooldown_ms
                && v.streams[addr].quotes.contains(q.ticker) {
                quotes.to_multiset().count(q)
            } else {
                0
            })
            &&& sent.count(MessageView::Stop) == 0
        }),
{
    broadcast use vstd::seq_lib::group_to_multiset_ensures;

    if v.streams.contains_key(addr) && now < v.streams[addr].last_ping + v.ping_cooldown_ms {
        lemma_wanted_count(quotes, v.streams[addr].quotes, q);
    }
}

/// How often a quote is wanted.
pub proof fn lemma_wanted_count(quotes: Seq<QuoteView>, tickers: Set<Seq<char>>, q: QuoteView)
    ensures
        wanted(quotes, tickers).to_multiset().count(MessageView::Send(q)) == (if tickers.contains(
            q.ticker,
        ) {
            quotes.to_multiset().count(q)
        } else {
            0
        }),
        wanted(quotes, tickers).to_multiset().count(MessageView::Stop) == 0,
    decreases quotes.len(),
{
    broadcast use vstd::seq_lib::group_to_multiset_ensures;

    if quotes.len() > 0 {
        lemma_wanted_count(quotes.drop_last(), tickers, q);
        assert(quotes.drop_last().push(quotes.last()) =~= quotes);
    }
}

/// A batch of one quote makes one message to each live stream that asked for its ticker, and
/// none to any other.
pub proof fn law_one_quote_makes_one_message(
    v: SenderView,
    addr: SocketAddress,
    q: QuoteView,
    now: u64,
)
    ensures
        v.messages(EventView::Quotes(seq![q]), now, addr) == (if v.streams.contains_key(addr)
            && now < v.streams[addr].last_ping + v.ping_cooldown_ms
            && v.streams[addr].quotes.contains(q.ticker) {
            seq![MessageView::Send(q)]
        } else {
            Seq::empty()
        }),
        v.messages(EventView::Quotes(Seq::empty()), now, addr) == Seq::<MessageView>::empty(),
{
    reveal_with_fuel(wanted, 2);
    assert(seq![q].drop_last() =~= Seq::empty());
    assert(v.messages(EventView::Quotes(seq![q]), now, addr) =~= (if v.streams.contains_key(addr)
        && now < v.streams[addr].last_ping + v.ping_cooldown_ms && v.streams[addr].quotes.contains(
        q.ticker,
    ) {
        seq![MessageView::Send(q)]
    } else {
        Seq::empty()
    }));
}

/// A batch makes its messages quote by quote: cut in two at any place, its first part makes the
/// first messages and the second the others.
pub proof fn law_batch_is_sent_in_order(
    v: SenderView,
    addr: SocketAddress,
    first: Seq<QuoteView>,
    second: Seq<QuoteView>,
    now: u64,
)
    ensures
        v.messages(EventView::Quotes(first + second), now, addr) == v.messages(
            EventView::Quotes(first),
            now,
            addr,
        ) + v.messages(EventView::Quotes(second), now, addr),
{
    law_order_is_kept(v.swept(now), addr, first, second);
}

/// A worker is told to end by a command that stops its stream, once, and by nothing else; and
/// nothing but new quotes makes any other message. So a ping, a request, idle time and the loss of
/// a source send nothing at all.
pub proof fn law_only_a_stop_command_ends_a_worker(
    v: SenderView,
    addr: SocketAddress,
    event: EventView,
    now: u64,
)
    ensures
        v.messages(event, now, addr).contains(MessageView::Stop) <==> v.streams.contains_key(addr)
            && (event == EventView::Command(CommandView::Stop(addr)) || event
            == EventView::Command(CommandView::StopSendingAll)),
        !(event is Quotes) ==> v.messages(event, now, addr).len() <= 1,
        !(event is Quotes) && v.messages(event, now, addr).len() == 1 ==> v.messages(
            event,
            now,
            addr,
        )[0] == MessageView::Stop,
{
    if event is Quotes {
        law_exactly_the_subscribed_quotes(v, addr, event->Quotes_0, now, MessageView::Stop);
    } else if v.streams.contains_key(addr) && (event == EventView::Command(CommandView::Stop(addr))
        || event == EventView::Command(CommandView::StopSendingAll)) {
        assert(v.messages(event, now, addr)[0] == MessageView::Stop);
    }
}

/// The server goes on after every event but three: it ends as it was told to after the command to
/// end everything, and fails when one of its sources is lost.
pub proof fn law_server_goes_on(event: EventView)
    ensures
        course(event) == Course::Finished <==> event == EventView::Command(
            CommandView::StopSendingAll,
        ),
        course(event) == Course::Failed <==> event is CommandsClosed || event is QuotesClosed,
        event is Quotes || event is Idle ==> course(event) == Course::Running,
        event is Command && !(event->Command_0 is StopSendingAll) ==> course(event)
            == Course::Running,
{
}

/// A ping sets when its receiver was last heard of, and nothing else: neither what the receiver
/// asked for nor any other stream. Where there is no stream it changes nothing and is refused.
pub proof fn law_ping_only_refreshes(
    v: SenderView,
    addr: SocketAddress,
    other: SocketAddress,
    now: u64,
)
    ensures
        ({
            let event = EventView::Command(CommandView::Ping(addr));
            let w = v.after(event, now);
            &&& v.refused(event) <==> !v.streams.contains_key(addr)
            &&& !v.streams.contains_key(addr) ==> w == v
            &&& v.streams.contains_key(addr) ==> w.streams.contains_key(addr)
                && w.streams[addr].last_ping == now && w.streams[addr].quotes
                == v.streams[addr].quotes
            &&& other != addr ==> w.streams.contains_key(other) == v.streams.contains_key(other)
            &&& other != addr ==> w.streams[other] == v.streams[other]
        }),
{
}

/// After a request a stream has just the tickers of that request: those of a new stream, and
/// those of one that was there before, whatever it had. A server that is full refuses new streams
/// alone.
pub proof fn law_last_request_decides_the_tickers(
    v: SenderView,
    addr: SocketAddress,
    tickers: Seq<Seq<char>>,
    ticker: Seq<char>,
    now: u64,
)
    requires
        v.within_capacity(),
    ensures
        ({
            let event = EventView::Command(CommandView::Stream(addr, tickers));
            let w = v.after(event, now);
            &&& w.streams.contains_key(addr) <==> v.streams.contains_key(addr) || v.streams.len()
                < v.capacity
            &&& v.refused(event) <==> !w.streams.contains_key(addr)
            &&& v.opened(event) == (if w.streams.contains_key(addr) && !v.streams.contains_key(
                addr,
            ) {
                Some(addr)
            } else {
                None
            })
            &&& w.streams.contains_key(addr) ==> (w.streams[addr].quotes.contains(ticker)
                <==> tickers.contains(ticker))
            &&& w.streams.contains_key(addr) ==> w.streams[addr].last_ping
                == (if v.streams.contains_key(addr) {
                v.streams[addr].last_ping
            } else {
                now
            })
            &&& !w.streams.contains_key(addr) ==> w == v
        }),
{
}

/// What an event reports is what it does to the table: a stream is reported as opened or dropped
/// if and only if it came or went so, requests and pings are refused if and only if they leave no
/// stream there, and nothing else is ever refused.
pub proof fn law_reports_are_true(
    v: SenderView,
    addr: SocketAddress,
    event: EventView,
    now: u64,
)
    requires
        v.within_capacity(),
    ensures
        ({
            let w = v.after(event, now);
            let was = v.streams.contains_key(addr);
            let stays = w.streams.contains_key(addr);
            &&& v.opened(event) == Some(addr) <==> !was && stays
            &&& v.dropped(event, now).contains(addr) <==> was && !stays && (event is Quotes || event
                is Idle)
            &&& !was && stays ==> event is Command && event->Command_0 is Stream
            &&& event is Quotes || event is Idle || event is CommandsClosed || event
                is QuotesClosed ==> !v.refused(event)
            &&& event == EventView::Command(CommandView::Stop(addr)) ==> !v.refused(event)
            &&& event == EventView::Command(CommandView::StopSendingAll) ==> !v.refused(event)
            &&& event == EventView::Command(CommandView::Ping(addr)) ==> (v.refused(event)
                <==> !stays)
        }),
{
}

/// What an event leaves alone. Only a request for a stream to `addr` changes its tickers; only a
/// ping from it, or its opening, changes when it was last heard of; the loss of a source changes
/// nothing; and a stream leaves the table only by a stop command or by a sweep that comes a
/// cooldown or more after it was last heard of.
pub proof fn law_streams_change_only_so(
    v: SenderView,
    addr: SocketAddress,
    event: EventView,
    now: u64,
)
    ensures
        ({
            let w = v.after(event, now);
            let was = v.streams.contains_key(addr);
            let stays = w.streams.contains_key(addr);
            let asked = event is Command && event->Command_0 is Stream && (
            event->Command_0)->Stream_0 == addr;
            let pinged = event == EventView::Command(CommandView::Ping(addr));
            let stopped = event == EventView::Command(CommandView::Stop(addr)) || event
                == EventView::Command(CommandView::StopSendingAll);
            let silent = (event is Quotes || event is Idle) && now >= v.streams[addr].last_ping
                + v.ping_cooldown_ms;
            &&& was ==> (stays <==> !stopped && !silent)
            &&& was && stays && !asked ==> w.streams[addr].quotes == v.streams[addr].quotes
            &&& was && stays && !pinged ==> w.streams[addr].last_ping == v.streams[addr].last_ping
            &&& !was && stays ==> asked
            &&& w.capacity == v.capacity
            &&& w.ping_cooldown_ms == v.ping_cooldown_ms
            &&& event is CommandsClosed || event is QuotesClosed ==> w == v
        }),
{
}

/// The messages for a stream among deliveries are just those that are for it, in their order.
pub proof fn law_inbox_is_what_was_delivered(
    a: Seq<DeliveryView>,
    b: Seq<DeliveryView>,
    d: DeliveryView,
    addr: SocketAddress,
)
    ensures
        inbox(a + b, addr) == inbox(a, addr) + inbox(b, addr),
        inbox(seq![d], addr) == (if d.to == addr {
            seq![d.message]
        } else {
            Seq::empty()
        }),
        inbox(Seq::empty(), addr) == Seq::<MessageView>::empty(),
        inbox(a, d.to).to_multiset().count(d.message) == a.to_multiset().count(d),
    decreases a.len() + b.len(),
{
    reveal_with_fuel(inbox, 2);
    assert(seq![d].drop_last() =~= Seq::empty());
    assert(inbox(seq![d], addr) =~= (if d.to == addr {
        seq![d.message]
    } else {
        Seq::empty()
    }));
    lemma_inbox_count(a, d);
    if b.len() == 0 {
        assert(a + b =~= a);
        assert(inbox(a, addr) + inbox(b, addr) =~= inbox(a, addr));
    } else {
        law_inbox_is_what_was_delivered(a, b.drop_last(), d, addr);
        assert((a + b).drop_last() =~= a + b.drop_last());
        assert(inbox(a + b, addr) =~= inbox(a, addr) + inbox(b, addr));
    }
}

/// How often a message is in an inbox.
pub proof fn lemma_inbox_count(deliveries: Seq<DeliveryView>, d: DeliveryView)
    ensures
        inbox(deliveries, d.to).to_multiset().count(d.message) == deliveries.to_multiset().count(
            d,
        ),
    decreases deliveries.len(),
{
    broadcast use vstd::seq_lib::group_to_multiset_ensures;

    if deliveries.len() > 0 {
        lemma_inbox_count(deliveries.drop_last(), d);
        assert(deliveries.drop_last().push(deliveries.last()) =~= deliveries);
        let e = deliveries.last();
        assert(e == d <==> e.to == d.to && e.message == d.message);
    }
}

} // verus!
