//! The stream server: it keeps the table of streams, and decides for each event which streams
//! open, which are dropped, and which messages go to the workers of the streams.
use vstd::hash_set::StringHashSet;
use vstd::prelude::*;

use crate::command::{Command, CommandView, SocketAddress};
use crate::quote::{quote_views, QuoteView, StockQuote};
use crate::streams::{
    course, inbox, law_each_quote_as_often_as_it_came, law_last_request_decides_the_tickers,
    law_reports_are_true, lemma_inbox_count, lemma_wanted_count, wanted, ConnectionView, Course,
    DeliveryView, EventView, MessageView, SenderView,
};
use crate::text::{join, joined, lemma_pieces_joined, pieces, texts, unbroken, Separator};

verus! {

/// A message to the worker of one stream.
#[derive(Debug, PartialEq, Eq)]
pub enum ClientStreamMessage {
    /// Send this quote.
    Send(StockQuote),
    /// End.
    Stop,
}

impl View for ClientStreamMessage {
    type V = MessageView;

    open spec fn view(&self) -> MessageView {
        match self {
            ClientStreamMessage::Send(q) => MessageView::Send(q@),
            ClientStreamMessage::Stop => MessageView::Stop,
        }
    }
}

/// A message and the stream it is for.
#[derive(Debug, PartialEq, Eq)]
pub struct Delivery {
    /// The stream.
    pub to: SocketAddress,
    /// The message.
    pub message: ClientStreamMessage,
}

impl View for Delivery {
    type V = DeliveryView;

    open spec fn view(&self) -> DeliveryView {
        DeliveryView { to: self.to, message: self.message@ }
    }
}

/// What the deliveries of `v` say.
pub open spec fn delivery_views(v: Seq<Delivery>) -> Seq<DeliveryView> {
    Seq::new(v.len(), |i: int| v[i]@)
}

/// What the stream server waits for.
#[derive(Debug, PartialEq, Eq)]
pub enum SenderEvent {
    /// A command.
    Command(Command),
    /// No command can come any more.
    CommandsClosed,
    /// New quotes.
    Quotes(Vec<StockQuote>),
    /// No quotes can come any more.
    QuotesClosed,
    /// Nothing came for a while.
    Idle,
}

impl View for SenderEvent {
    type V = EventView;

    open spec fn view(&self) -> EventView {
        match self {
            SenderEvent::Command(c) => EventView::Command(c@),
            SenderEvent::CommandsClosed => EventView::CommandsClosed,
            SenderEvent::Quotes(q) => EventView::Quotes(quote_views(q@)),
            SenderEvent::QuotesClosed => EventView::QuotesClosed,
            SenderEvent::Idle => EventView::Idle,
        }
    }
}

/// One stream.
struct UdpConnection {
    /// The tickers that the receiver asked for.
    quotes: StringHashSet,
    /// The same tickers, each once: what the status panel shows.
    listed: Vec<String>,
    /// When the stream was opened or its receiver last sent a ping.
    last_ping: u64,
}

impl UdpConnection {
    spec fn view(self) -> ConnectionView {
        ConnectionView { quotes: self.quotes@, last_ping: self.last_ping }
    }

    /// The list names the tickers of the set, each once.
    spec fn wf(self) -> bool {
        &&& texts(self.listed@).no_duplicates()
        &&& texts(self.listed@).to_set() == self.quotes@
    }

    /// A stream of `tickers`.
    fn new(tickers: &Vec<String>, last_ping: u64) -> (r: Self)
        ensures
            r.wf(),
            r.view() == (ConnectionView { quotes: texts(tickers@).to_set(), last_ping }),
    {
        let mut quotes = StringHashSet::new();
        let mut listed: Vec<String> = Vec::new();
        let mut i: usize = 0;
        proof {
            assert(texts(listed@) =~= texts(tickers@).take(0));
            assert(texts(listed@).to_set() =~= quotes@);
        }
        while i < tickers.len()
            invariant
                i <= tickers.len(),
                texts(listed@).no_duplicates(),
                texts(listed@).to_set() == quotes@,
                quotes@ == texts(tickers@).take(i as int).to_set(),
            decreases tickers.len() - i,
        {
            let ghost before = texts(listed@);
            let ghost t = texts(tickers@)[i as int];
            proof {
                before.lemma_push_to_set_commute(t);
                texts(tickers@).take(i as int).lemma_push_to_set_commute(t);
                assert(texts(tickers@).take(i + 1) =~= texts(tickers@).take(i as int).push(t));
            }
            let ghost known = quotes@;
            if quotes.insert(tickers[i].clone()) {
                listed.push(tickers[i].clone());
                assert(texts(listed@) =~= before.push(t));
                assert(!before.contains(t));
            } else {
                assert(known.insert(t) =~= known);
            }
            i = i + 1;
        }
        assert(texts(tickers@).take(tickers@.len() as int) =~= texts(tickers@));
        UdpConnection { quotes, listed, last_ping }
    }

    /// Tells whether the receiver asked for `ticker`.
    fn asked_for(&self, ticker: &str) -> (r: bool)
        ensures
            r == self.view().quotes.contains(ticker@),
    {
        self.quotes.contains(ticker)
    }
}

/// The stream server's table of streams.
pub struct QuotesSender {
    active_streams: Vec<(SocketAddress, UdpConnection)>,
    capacity: u64,
    ping_cooldown_ms: u64,
}

/// An entry of `s` is for `addr`.
spec fn listed(s: Seq<(SocketAddress, UdpConnection)>, addr: SocketAddress) -> bool {
    exists|i: int| 0 <= i < s.len() && (#[trigger] s[i]).0 == addr
}

/// The place of an entry for `addr`.
spec fn place(s: Seq<(SocketAddress, UdpConnection)>, addr: SocketAddress) -> int {
    choose|i: int| 0 <= i < s.len() && (#[trigger] s[i]).0 == addr
}

/// The entries by their address.
spec fn stream_map(s: Seq<(SocketAddress, UdpConnection)>) -> Map<SocketAddress, ConnectionView> {
    Map::new(|a: SocketAddress| listed(s, a), |a: SocketAddress| s[place(s, a)].1.view())
}

/// No address is there twice, and no ticker is in one entry twice.
spec fn table_wf(s: Seq<(SocketAddress, UdpConnection)>) -> bool {
    &&& forall|i: int, j: int| 0 <= i < j < s.len() ==> (#[trigger] s[i]).0 != (#[trigger] s[j]).0
    &&& forall|i: int| 0 <= i < s.len() ==> (#[trigger] s[i]).1.wf()
}

/// Each entry is found under its address.
proof fn lemma_entry(s: Seq<(SocketAddress, UdpConnection)>, i: int)
    requires
        table_wf(s),
        0 <= i < s.len(),
    ensures
        stream_map(s).contains_key(s[i].0),
        stream_map(s)[s[i].0] == s[i].1.view(),
        place(s, s[i].0) == i,
{
    let a = s[i].0;
    assert(listed(s, a));
    let k = place(s, a);
    assert(0 <= k < s.len() && s[k].0 == a);
}

/// There are as many addresses as entries.
proof fn lemma_size(s: Seq<(SocketAddress, UdpConnection)>)
    requires
        table_wf(s),
    ensures
        stream_map(s).dom().finite(),
        stream_map(s).len() == s.len(),
{
    let keys = Seq::new(s.len(), |i: int| s[i].0);
    keys.unique_seq_to_set();
    vstd::seq_lib::seq_to_set_is_finite(keys);
    assert(stream_map(s).dom() =~= keys.to_set()) by {
        assert forall|a: SocketAddress| listed(s, a) implies keys.contains(a) by {
            assert(keys[place(s, a)] == a);
        }
        assert forall|a: SocketAddress| keys.contains(a) implies listed(s, a) by {
            let k = choose|k: int| 0 <= k < keys.len() && keys[k] == a;
            assert(s[k].0 == a);
        }
    }
}

impl View for QuotesSender {
    type V = SenderView;

    closed spec fn view(&self) -> SenderView {
        SenderView {
            streams: stream_map(self.active_streams@),
            capacity: self.capacity,
            ping_cooldown_ms: self.ping_cooldown_ms,
        }
    }
}

/// What became of a request for a stream.
#[derive(Clone, Copy, PartialEq, Eq, Structural, Debug)]
pub enum StreamOutcome {
    /// A new stream was opened.
    Opened,
    /// The tickers of a stream were replaced.
    Changed,
    /// There was no room for another stream.
    Rejected,
}

/// What the server does about an event.
#[derive(Debug, PartialEq, Eq)]
pub struct SenderReaction {
    /// The stream that opens: it gets a worker.
    pub opened: Option<SocketAddress>,
    /// The streams that are dropped: their workers lose their source.
    pub dropped: Vec<SocketAddress>,
    /// The messages to the workers.
    pub messages: Vec<Delivery>,
    /// What was asked for was not done.
    pub refused: bool,
    /// How the server goes on. When it does not, the receiver of the pings ends too.
    pub course: Course,
}

/// How the server goes on after it carried a reaction out: as the reaction says, but it fails where
/// a stream could not get its worker, or the receiver of the pings could not be told of the end.
pub fn carried_out(course: Course, done: bool) -> (r: Course)
    ensures
        r == (if done {
            course
        } else {
            Course::Failed
        }),
{
    if done {
        course
    } else {
        Course::Failed
    }
}

/// One line of the status panel.
#[derive(Debug, PartialEq, Eq)]
pub struct StatusLine {
    /// The receiver of a stream.
    pub addr: SocketAddress,
    /// Its tickers, with commas between them.
    pub tickers: String,
}

/// `text` lists `tickers`, each once and in some order, with commas between them.
pub open spec fn lists(text: Seq<char>, tickers: Set<Seq<char>>) -> bool {
    exists|order: Seq<Seq<char>>| #[trigger]
        order.no_duplicates() && order.to_set() == tickers && text == joined(order, seq![','])
}

impl QuotesSender {
    /// The table is in order: no address is there twice, and there are no more streams than
    /// there may be.
    pub closed spec fn wf(&self) -> bool {
        &&& table_wf(self.active_streams@)
        &&& self.active_streams@.len() <= self.capacity
    }

    /// There are never more streams than there may be.
    pub proof fn law_within_capacity(&self)
        requires
            self.wf(),
        ensures
            self@.within_capacity(),
    {
        lemma_size(self.active_streams@);
    }

    /// A server without streams.
    pub fn new(capacity: u64, ping_cooldown_ms: u64) -> (r: Self)
        ensures
            r.wf(),
            r@ == (SenderView { streams: Map::empty(), capacity, ping_cooldown_ms }),
    {
        let r = QuotesSender { active_streams: Vec::new(), capacity, ping_cooldown_ms };
        assert(r@.streams =~= Map::empty());
        r
    }

    /// The place of the stream to `addr`.
    fn find(&self, addr: SocketAddress) -> (r: Option<usize>)
        requires
            self.wf(),
        ensures
            match r {
                Some(i) => i < self.active_streams@.len() && self.active_streams@[i as int].0
                    == addr && self@.active(addr),
                None => !self@.active(addr),
            },
    {
        let mut i: usize = 0;
        while i < self.active_streams.len()
            invariant
                i <= self.active_streams.len(),
                forall|j: int| 0 <= j < i ==> (#[trigger] self.active_streams@[j]).0 != addr,
            decreases self.active_streams.len() - i,
        {
            if self.active_streams[i].0 == addr {
                assert(listed(self.active_streams@, addr));
                return Some(i);
            }
            i = i + 1;
        }
        None
    }

    /// Serves a request for `tickers` at `addr`.
    pub fn stream(&mut self, addr: SocketAddress, tickers: &Vec<String>, now: u64) -> (r:
        StreamOutcome)
        requires
            old(self).wf(),
        ensures
            final(self).wf(),
            final(self)@ == old(self)@.after_stream(addr, texts(tickers@).to_set(), now),
            r == (if old(self)@.active(addr) {
                StreamOutcome::Changed
            } else if old(self)@.opens_at(addr) {
                StreamOutcome::Opened
            } else {
                StreamOutcome::Rejected
            }),
    {
        let ghost s = self.active_streams@;
        proof {
            lemma_size(s);
        }
        match self.find(addr) {
            Some(i) => {
                proof {
                    lemma_entry(s, i as int);
                }
                let last_ping: u64 = self.active_streams[i].1.last_ping;
                let conn = UdpConnection::new(tickers, last_ping);
                self.active_streams.set(i, (addr, conn));
                proof {
                    lemma_update(s, i as int, (addr, conn));
                }
                StreamOutcome::Changed
            },
            None => {
                if self.active_streams.len() as u64 >= self.capacity {
                    StreamOutcome::Rejected
                } else {
                    let conn = UdpConnection::new(tickers, now);
                    self.active_streams.push((addr, conn));
                    proof {
                        lemma_push(s, (addr, conn));
                    }
                    StreamOutcome::Opened
                }
            },
        }
    }

    /// Notes that the receiver at `addr` is still there. Tells whether there is a stream to it.
    pub fn ping(&mut self, addr: SocketAddress, now: u64) -> (r: bool)
        requires
            old(self).wf(),
        ensures
            final(self).wf(),
            final(self)@ == old(self)@.after_ping(addr, now),
            r == old(self)@.active(addr),
    {
        let ghost s = self.active_streams@;
        match self.find(addr) {
            Some(i) => {
                self.active_streams[i].1.last_ping = now;
                proof {
                    lemma_entry(s, i as int);
                    let e = self.active_streams@[i as int];
                    assert(self.active_streams@ =~= s.update(i as int, e));
                    lemma_update(s, i as int, e);
                }
                true
            },
            None => false,
        }
    }

    /// Ends the stream to `addr`. Tells whether there was one.
    pub fn stop(&mut self, addr: SocketAddress) -> (r: bool)
        requires
            old(self).wf(),
        ensures
            final(self).wf(),
            final(self)@ == old(self)@.after_stop(addr),
            r == old(self)@.active(addr),
    {
        let ghost s = self.active_streams@;
        match self.find(addr) {
            Some(i) => {
                self.active_streams.remove(i);
                proof {
                    lemma_remove(s, i as int);
                }
                true
            },
            None => {
                assert(self@.streams =~= self@.streams.remove(addr));
                false
            },
        }
    }

    /// Ends all streams: their workers are told to end.
    pub fn stop_all(&mut self) -> (r: Vec<Delivery>)
        requires
            old(self).wf(),
        ensures
            final(self).wf(),
            final(self)@ == old(self)@.after_stop_all(),
            forall|a: SocketAddress| #[trigger]
                inbox(delivery_views(r@), a) == (if old(self)@.active(a) {
                    seq![MessageView::Stop]
                } else {
                    Seq::empty()
                }),
    {
        let ghost s = self.active_streams@;
        let mut r: Vec<Delivery> = Vec::new();
        let mut i: usize = 0;
        while i < self.active_streams.len()
            invariant
                i <= self.active_streams.len(),
                self.active_streams@ == s,
                *self == *old(self),
                table_wf(s),
                forall|a: SocketAddress| #[trigger]
                    inbox(delivery_views(r@), a) == (if listed(s.take(i as int), a) {
                        seq![MessageView::Stop]
                    } else {
                        Seq::empty()
                    }),
            decreases self.active_streams.len() - i,
        {
            let ghost before = delivery_views(r@);
            let to = self.active_streams[i].0;
            r.push(Delivery { to, message: ClientStreamMessage::Stop });
            proof {
                lemma_listed_next(s, i as int);
                assert(delivery_views(r@).drop_last() =~= before);
                assert forall|a: SocketAddress| #[trigger]
                    inbox(delivery_views(r@), a) == (if listed(s.take(i + 1), a) {
                        seq![MessageView::Stop]
                    } else {
                        Seq::empty()
                    }) by {
                    assert(inbox(before, a) == (if listed(s.take(i as int), a) {
                        seq![MessageView::Stop]
                    } else {
                        Seq::empty()
                    }));
                    if a == to {
                        assert(inbox(delivery_views(r@), a) =~= seq![MessageView::Stop]);
                    }
                }
            }
            i = i + 1;
        }
        assert(s.take(s.len() as int) =~= s);
        self.active_streams.clear();
        assert(self@.streams =~= Map::empty());
        r
    }

    /// Drops the streams that have not been heard of for too long, and lists them.
    pub fn drop_stale(&mut self, now: u64) -> (r: Vec<SocketAddress>)
        requires
            old(self).wf(),
        ensures
            final(self).wf(),
            final(self)@ == old(self)@.swept(now),
            r@.no_duplicates(),
            forall|a: SocketAddress| #[trigger] r@.contains(a) <==> old(self)@.stale(a, now),
    {
        let mut r: Vec<SocketAddress> = Vec::new();
        let mut i: usize = 0;
        while i < self.active_streams.len()
            invariant
                i <= self.active_streams.len(),
                self.wf(),
                self.capacity == old(self).capacity,
                self.ping_cooldown_ms == old(self).ping_cooldown_ms,
                r@.no_duplicates(),
                forall|a: SocketAddress| #[trigger]
                    r@.contains(a) ==> old(self)@.stale(a, now) && !self@.active(a),
                forall|a: SocketAddress| #[trigger]
                    self@.active(a) ==> old(self)@.active(a) && self@.streams[a]
                        == old(self)@.streams[a],
                forall|a: SocketAddress|
                    old(self)@.active(a) ==> #[trigger] self@.active(a) || r@.contains(a),
                forall|j: int|
                    0 <= j < i ==> self@.alive((#[trigger] self.active_streams@[j]).0, now),
            decreases self.active_streams.len() - i,
        {
            let ghost s = self.active_streams@;
            let ghost here = *self;
            let ghost found = r@;
            let addr = self.active_streams[i].0;
            let last_ping: u64 = self.active_streams[i].1.last_ping;
            proof {
                lemma_entry(s, i as int);
            }
            if last_ping > now || now - last_ping < self.ping_cooldown_ms {
                i = i + 1;
            } else {
                self.active_streams.remove(i);
                r.push(addr);
                proof {
                    lemma_remove(s, i as int);
                    assert(here@.stale(addr, now));
                    assert(here@.active(addr));
                    assert(!found.contains(addr));
                    assert(r@ =~= found.push(addr));
                    assert forall|a: SocketAddress| #[trigger] self@.active(a) implies old(
                        self,
                    )@.active(a) && self@.streams[a] == old(self)@.streams[a] by {
                        assert(here@.active(a));
                    }
                    assert forall|a: SocketAddress| #[trigger] r@.contains(a) implies old(
                        self,
                    )@.stale(a, now) && !self@.active(a) by {
                        if a != addr {
                            assert(found.contains(a));
                        }
                    }
                    assert forall|a: SocketAddress| old(self)@.active(a) implies #[trigger]
                        self@.active(a) || r@.contains(a) by {
                        assert(here@.active(a) || found.contains(a));
                        if found.contains(a) {
                            let k = choose|k: int| 0 <= k < found.len() && found[k] == a;
                            assert(r@[k] == a);
                        }
                        assert(r@[found.len() as int] == addr);
                    }
                    assert forall|j: int| 0 <= j < i implies self@.alive(
                        (#[trigger] self.active_streams@[j]).0,
                        now,
                    ) by {
                        lemma_entry(s, j);
                        assert(here@.alive(s[j].0, now));
                    }
                }
            }
        }
        proof {
            let s = self.active_streams@;
            assert forall|a: SocketAddress| #[trigger] self@.active(a) implies self@.alive(
                a,
                now,
            ) by {
                assert(s[place(s, a)].0 == a);
            }
            assert forall|a: SocketAddress| old(self)@.active(a) implies r@.contains(a)
                == old(self)@.stale(a, now) && self@.active(a) == !old(self)@.stale(a, now) by {
                assert(self@.active(a) || r@.contains(a));
            }
            assert forall|a: SocketAddress| self@.streams.contains_key(a) == (old(self)@.active(a)
                && old(self)@.alive(a, now)) by {
                assert(self@.active(a) == self@.streams.contains_key(a));
            }
            assert forall|a: SocketAddress| self@.streams.contains_key(a) implies
                self@.streams[a] == old(self)@.streams[a] by {
                assert(self@.active(a));
            }
            assert(self@.streams =~= old(self)@.swept(now).streams);
        }
        r
    }

    /// The messages that `quotes` make: each stream gets those of the tickers it asked for.
    pub fn handle_quotes(&self, quotes: &Vec<StockQuote>) -> (r: Vec<Delivery>)
        requires
            self.wf(),
        ensures
            forall|a: SocketAddress| #[trigger]
                inbox(delivery_views(r@), a) == self@.fan_out(quote_views(quotes@), a),
    {
        let ghost s = self.active_streams@;
        let ghost q = quote_views(quotes@);
        let mut r: Vec<Delivery> = Vec::new();
        let mut i: usize = 0;
        while i < self.active_streams.len()
            invariant
                i <= self.active_streams.len(),
                self.active_streams@ == s,
                q == quote_views(quotes@),
                table_wf(s),
                forall|a: SocketAddress| #[trigger]
                    inbox(delivery_views(r@), a) == share(s.take(i as int), s, q, a),
            decreases self.active_streams.len() - i,
        {
            let to = self.active_streams[i].0;
            let ghost tickers = s[i as int].1.view().quotes;
            let ghost before = delivery_views(r@);
            proof {
                lemma_listed_next(s, i as int);
                lemma_entry(s, i as int);
            }
            let mut k: usize = 0;
            while k < quotes.len()
                invariant
                    k <= quotes.len(),
                    i < self.active_streams.len(),
                    self.active_streams@ == s,
                    q == quote_views(quotes@),
                    to == s[i as int].0,
                    tickers == s[i as int].1.view().quotes,
                    inbox(before, to) == Seq::<MessageView>::empty(),
                    forall|a: SocketAddress| #[trigger]
                        inbox(delivery_views(r@), a) == (if a == to {
                            wanted(q.take(k as int), tickers)
                        } else {
                            inbox(before, a)
                        }),
                decreases quotes.len() - k,
            {
                let ghost sofar = delivery_views(r@);
                assert(q.take(k + 1).drop_last() =~= q.take(k as int));
                if self.active_streams[i].1.asked_for(quotes[k].ticker.as_str()) {
                    r.push(Delivery { to, message: ClientStreamMessage::Send(quotes[k].clone()) });
                    proof {
                        assert(delivery_views(r@).drop_last() =~= sofar);
                        assert forall|a: SocketAddress| #[trigger]
                            inbox(delivery_views(r@), a) == (if a == to {
                                wanted(q.take(k + 1), tickers)
                            } else {
                                inbox(before, a)
                            }) by {
                            assert(inbox(sofar, a) == (if a == to {
                                wanted(q.take(k as int), tickers)
                            } else {
                                inbox(before, a)
                            }));
                        }
                    }
                }
                k = k + 1;
            }
            assert(q.take(q.len() as int) =~= q);
            i = i + 1;
        }
        assert(s.take(s.len() as int) =~= s);
        r
    }

    /// One turn of the server: what an event does to the streams, and what is to be done about
    /// it.
    pub fn main_loop_step(&mut self, event: &SenderEvent, now: u64) -> (r: SenderReaction)
        requires
            old(self).wf(),
        ensures
            final(self).wf(),
            final(self)@ == old(self)@.after(event@, now),
            r.opened == old(self)@.opened(event@),
            r.dropped@.no_duplicates(),
            r.dropped@.to_set() == old(self)@.dropped(event@, now),
            forall|a: SocketAddress| #[trigger]
                inbox(delivery_views(r.messages@), a) == old(self)@.messages(event@, now, a),
            r.refused == old(self)@.refused(event@),
            r.course == course(event@),
    {
        let mut r = SenderReaction {
            opened: None,
            dropped: Vec::new(),
            messages: Vec::new(),
            refused: false,
            course: Course::Running,
        };
        assert(r.dropped@.to_set() =~= Set::empty());
        match event {
            SenderEvent::Command(Command::Stream(addr, tickers)) => {
                match self.stream(*addr, tickers, now) {
                    StreamOutcome::Opened => {
                        r.opened = Some(*addr);
                    },
                    StreamOutcome::Changed => {},
                    StreamOutcome::Rejected => {
                        r.refused = true;
                    },
                }
            },
            SenderEvent::Command(Command::Ping(addr)) => {
                r.refused = !self.ping(*addr, now);
            },
            SenderEvent::Command(Command::Stop(addr)) => {
                if self.stop(*addr) {
                    r.messages.push(Delivery { to: *addr, message: ClientStreamMessage::Stop });
                    proof {
                        let d = delivery_views(r.messages@);
                        assert(d.drop_last() =~= Seq::empty());
                        assert forall|a: SocketAddress| #[trigger] inbox(d, a) == old(
                            self,
                        )@.messages(event@, now, a) by {
                            reveal_with_fuel(inbox, 2);
                            assert(a == *addr ==> inbox(d, a) =~= seq![MessageView::Stop]);
                        }
                    }
                }
            },
            SenderEvent::Command(Command::StopSendingAll) => {
                r.messages = self.stop_all();
                r.course = Course::Finished;
            },
            SenderEvent::Quotes(quotes) => {
                r.dropped = self.drop_stale(now);
                r.messages = self.handle_quotes(quotes);
                assert(r.dropped@.to_set() =~= old(self)@.dropped(event@, now));
            },
            SenderEvent::Idle => {
                r.dropped = self.drop_stale(now);
                assert(r.dropped@.to_set() =~= old(self)@.dropped(event@, now));
            },
            SenderEvent::CommandsClosed => {
                r.course = Course::Failed;
            },
            SenderEvent::QuotesClosed => {
                r.course = Course::Failed;
            },
        }
        r
    }

    /// How many streams there are.
    pub fn connected(&self) -> (r: usize)
        requires
            self.wf(),
        ensures
            r == self@.streams.len(),
    {
        proof {
            lemma_size(self.active_streams@);
        }
        self.active_streams.len()
    }

    /// How many streams there may be.
    pub fn capacity(&self) -> (r: u64)
        ensures
            r == self@.capacity,
    {
        self.capacity
    }

    /// The streams for the status panel: one line for each.
    pub fn status(&self) -> (r: Vec<StatusLine>)
        requires
            self.wf(),
        ensures
            r@.len() == self@.streams.len(),
            forall|i: int, j: int| 0 <= i < j < r@.len() ==> r@[i].addr != r@[j].addr,
            forall|i: int|
                0 <= i < r@.len() ==> self@.active((#[trigger] r@[i]).addr) && lists(
                    r@[i].tickers@,
                    self@.streams[r@[i].addr].quotes,
                ),
    {
        let ghost s = self.active_streams@;
        proof {
            lemma_size(s);
            reveal_strlit(",");
            assert(","@ =~= seq![',']);
        }
        let mut r: Vec<StatusLine> = Vec::new();
        let mut i: usize = 0;
        while i < self.active_streams.len()
            invariant
                i <= self.active_streams.len(),
                r@.len() == i,
                self.active_streams@ == s,
                table_wf(s),
                ","@ == seq![','],
                forall|j: int|
                    0 <= j < i ==> (#[trigger] r@[j]).addr == s[j].0 && lists(
                        r@[j].tickers@,
                        self@.streams[s[j].0].quotes,
                    ),
            decreases self.active_streams.len() - i,
        {
            proof {
                lemma_entry(s, i as int);
            }
            let tickers = join(&self.active_streams[i].1.listed, ",");
            assert(lists(tickers@, self@.streams[s[i as int].0].quotes)) by {
                assert(texts(s[i as int].1.listed@).no_duplicates());
            }
            r.push(StatusLine { addr: self.active_streams[i].0, tickers });
            i = i + 1;
        }
        assert forall|k: int| 0 <= k < r@.len() implies self@.active((#[trigger] r@[k]).addr) by {
            lemma_entry(s, k);
        }
        r
    }
}

/// What the entries of `some` give to `addr`, in the table `s`.
spec fn share(
    some: Seq<(SocketAddress, UdpConnection)>,
    s: Seq<(SocketAddress, UdpConnection)>,
    quotes: Seq<QuoteView>,
    addr: SocketAddress,
) -> Seq<MessageView> {
    if listed(some, addr) {
        wanted(quotes, stream_map(s)[addr].quotes)
    } else {
        Seq::empty()
    }
}

/// The first entries of a table, one more at a time.
proof fn lemma_listed_next(s: Seq<(SocketAddress, UdpConnection)>, i: int)
    requires
        table_wf(s),
        0 <= i < s.len(),
    ensures
        !listed(s.take(i), s[i].0),
        forall|a: SocketAddress|
            #[trigger] listed(s.take(i + 1), a) <==> listed(s.take(i), a) || a == s[i].0,
{
    let p = s.take(i);
    let n = s.take(i + 1);
    assert forall|a: SocketAddress| #[trigger] listed(n, a) <==> listed(p, a) || a == s[i].0 by {
        if listed(p, a) {
            assert(n[place(p, a)].0 == a);
        }
        if a == s[i].0 {
            assert(n[i].0 == a);
        }
        if listed(n, a) && a != s[i].0 {
            assert(p[place(n, a)].0 == a);
        }
    }
    if listed(p, s[i].0) {
        assert(s[place(p, s[i].0)].0 == s[i].0);
    }
}

/// Removing an entry.
proof fn lemma_remove(s: Seq<(SocketAddress, UdpConnection)>, i: int)
    requires
        table_wf(s),
        0 <= i < s.len(),
    ensures
        table_wf(s.remove(i)),
        stream_map(s.remove(i)) == stream_map(s).remove(s[i].0),
{
    let t = s.remove(i);
    assert(forall|j: int| 0 <= j < i ==> (#[trigger] t[j]) == s[j]);
    assert(forall|j: int| i <= j < t.len() ==> (#[trigger] t[j]) == s[j + 1]);
    assert(table_wf(t));
    assert forall|a: SocketAddress| listed(t, a) implies listed(s, a) && a != s[i].0
        && stream_map(t)[a] == stream_map(s)[a] by {
        let k = place(t, a);
        let l = if k < i { k } else { k + 1 };
        assert(s[l] == t[k]);
        lemma_entry(s, l);
        lemma_entry(t, k);
    }
    assert forall|a: SocketAddress| listed(s, a) && a != s[i].0 implies listed(t, a) by {
        let l = place(s, a);
        let k = if l < i { l } else { l - 1 };
        assert(t[k] == s[l]);
    }
    assert(stream_map(t) =~= stream_map(s).remove(s[i].0));
}

/// Replacing an entry under the same address.
proof fn lemma_update(
    s: Seq<(SocketAddress, UdpConnection)>,
    i: int,
    e: (SocketAddress, UdpConnection),
)
    requires
        table_wf(s),
        0 <= i < s.len(),
        s[i].0 == e.0,
        e.1.wf(),
    ensures
        table_wf(s.update(i, e)),
        stream_map(s.update(i, e)) == stream_map(s).insert(e.0, e.1.view()),
{
    let t = s.update(i, e);
    assert forall|a: SocketAddress| listed(s, a) <==> listed(t, a) by {
        if listed(s, a) {
            assert(t[place(s, a)].0 == a);
        }
        if listed(t, a) {
            assert(s[place(t, a)].0 == a);
        }
    }
    lemma_entry(s, i);
    lemma_entry(t, i);
    assert forall|a: SocketAddress| listed(t, a) && a != e.0 implies stream_map(t)[a]
        == stream_map(s)[a] by {
        let k = place(s, a);
        lemma_entry(s, k);
        lemma_entry(t, k);
    }
    assert(stream_map(t) =~= stream_map(s).insert(e.0, e.1.view()));
}

/// Adding an entry under a new address.
proof fn lemma_push(s: Seq<(SocketAddress, UdpConnection)>, e: (SocketAddress, UdpConnection))
    requires
        table_wf(s),
        !listed(s, e.0),
        e.1.wf(),
    ensures
        table_wf(s.push(e)),
        stream_map(s.push(e)) == stream_map(s).insert(e.0, e.1.view()),
{
    let t = s.push(e);
    let n = s.len() as int;
    assert(forall|i: int| 0 <= i < n ==> (#[trigger] t[i]) == s[i]);
    assert(t[n] == e);
    assert forall|a: SocketAddress| listed(t, a) <==> listed(s, a) || a == e.0 by {
        if listed(s, a) {
            assert(t[place(s, a)].0 == a);
        }
        if listed(t, a) && a != e.0 {
            assert(s[place(t, a)].0 == a);
        }
    }
    lemma_entry(t, n);
    assert forall|a: SocketAddress| listed(s, a) implies stream_map(t)[a] == stream_map(s)[a] by {
        let k = place(s, a);
        lemma_entry(s, k);
        lemma_entry(t, k);
    }
    assert(stream_map(t) =~= stream_map(s).insert(e.0, e.1.view()));
}

/// What a message, a delivery and an event say is all that they hold, each at its place.
pub proof fn law_views_leave_nothing_out(
    q: StockQuote,
    to: SocketAddress,
    m: ClientStreamMessage,
    c: Command,
    quotes: Vec<StockQuote>,
    deliveries: Seq<Delivery>,
    i: int,
)
    ensures
        ClientStreamMessage::Send(q)@ == MessageView::Send(q@),
        ClientStreamMessage::Stop@ == MessageView::Stop,
        (Delivery { to, message: m })@ == (DeliveryView { to, message: m@ }),
        SenderEvent::Command(c)@ == EventView::Command(c@),
        SenderEvent::CommandsClosed@ == EventView::CommandsClosed,
        SenderEvent::QuotesClosed@ == EventView::QuotesClosed,
        SenderEvent::Idle@ == EventView::Idle,
        SenderEvent::Quotes(quotes)@ is Quotes,
        SenderEvent::Quotes(quotes)@->Quotes_0.len() == quotes@.len(),
        0 <= i < quotes@.len() ==> SenderEvent::Quotes(quotes)@->Quotes_0[i] == quotes@[i]@,
        delivery_views(deliveries).len() == deliveries.len(),
        0 <= i < deliveries.len() ==> delivery_views(deliveries)[i] == deliveries[i]@,
{
}

/// Deliveries that leave every inbox empty are none.
proof fn lemma_nothing_delivered(d: Seq<DeliveryView>)
    requires
        forall|a: SocketAddress| #[trigger] inbox(d, a) == Seq::<MessageView>::empty(),
    ensures
        d.len() == 0,
{
    if d.len() > 0 {
        assert(inbox(d, d.last().to).len() > 0);
    }
}

/// A turn for new quotes delivers each of them, as often as it came, to every live stream that
/// asked for its ticker, and delivers nothing else; and the server goes on.
pub proof fn law_turn_delivers_each_quote_as_often_as_it_came(
    server: &mut QuotesSender,
    quotes: Vec<StockQuote>,
    now: u64,
    r: SenderReaction,
    to: SocketAddress,
    q: QuoteView,
)
    requires
        old(server).wf(),
        call_ensures(
            QuotesSender::main_loop_step,
            (server, &SenderEvent::Quotes(quotes), now),
            r,
        ),
    ensures
        ({
            let v = old(server)@;
            let sent = delivery_views(r.messages@).to_multiset();
            &&& sent.count((DeliveryView { to, message: MessageView::Send(q) }))
                == (if v.streams.contains_key(to) && now < v.streams[to].last_ping
                + v.ping_cooldown_ms && v.streams[to].quotes.contains(q.ticker) {
                quote_views(quotes@).to_multiset().count(q)
            } else {
                0
            })
            &&& sent.count((DeliveryView { to, message: MessageView::Stop })) == 0
            &&& r.course == Course::Running
            &&& r.opened is None
            &&& !r.refused
        }),
{
    let v = old(server)@;
    let event = EventView::Quotes(quote_views(quotes@));
    let d = delivery_views(r.messages@);
    assert(inbox(d, to) == v.messages(event, now, to));
    lemma_inbox_count(d, DeliveryView { to, message: MessageView::Send(q) });
    lemma_inbox_count(d, DeliveryView { to, message: MessageView::Stop });
    law_each_quote_as_often_as_it_came(v, to, quote_views(quotes@), now, q);
}

/// Quotes that are handled are delivered to every stream that asked for their ticker, each as
/// often as it came.
pub proof fn law_handled_quotes_are_delivered_as_often_as_they_came(
    server: &QuotesSender,
    quotes: &Vec<StockQuote>,
    r: Vec<Delivery>,
    to: SocketAddress,
    q: QuoteView,
)
    requires
        server.wf(),
        call_ensures(QuotesSender::handle_quotes, (server, quotes), r),
    ensures
        ({
            let sent = delivery_views(r@).to_multiset();
            &&& sent.count((DeliveryView { to, message: MessageView::Send(q) }))
                == (if server@.streams.contains_key(to) && server@.streams[to].quotes.contains(
                q.ticker,
            ) {
                quote_views(quotes@).to_multiset().count(q)
            } else {
                0
            })
            &&& sent.count((DeliveryView { to, message: MessageView::Stop })) == 0
        }),
{
    broadcast use vstd::seq_lib::group_to_multiset_ensures;

    let d = delivery_views(r@);
    assert(inbox(d, to) == server@.fan_out(quote_views(quotes@), to));
    lemma_inbox_count(d, DeliveryView { to, message: MessageView::Send(q) });
    lemma_inbox_count(d, DeliveryView { to, message: MessageView::Stop });
    if server@.streams.contains_key(to) {
        lemma_wanted_count(quote_views(quotes@), server@.streams[to].quotes, q);
    }
}

/// A turn for a ping, a request, idle time or the loss of a source tells no worker anything. One
/// for a stop command tells the worker of that stream to end, and nobody else; and nothing if
/// there is no such stream.
pub proof fn law_turn_tells_workers_only_what_concerns_them(
    server: &mut QuotesSender,
    event: &SenderEvent,
    now: u64,
    r: SenderReaction,
)
    requires
        old(server).wf(),
        call_ensures(QuotesSender::main_loop_step, (server, event, now), r),
    ensures
        event is Idle || event is CommandsClosed || event is QuotesClosed ==> r.messages@.len() == 0,
        event is Command && (event->Command_0 is Ping || event->Command_0 is Stream)
            ==> r.messages@.len() == 0,
        event is Command && event->Command_0 is Stop ==> ({
            let addr = (event->Command_0)->Stop_0;
            if old(server)@.streams.contains_key(addr) {
                r.messages@.len() == 1 && r.messages@[0].to == addr && r.messages@[0].message
                    is Stop
            } else {
                r.messages@.len() == 0
            }
        }),
        event is Command && event->Command_0 is StopSendingAll ==> forall|a: SocketAddress|
            delivery_views(r.messages@).to_multiset().count(
                #[trigger] stop_to(a),
            ) == (if old(server)@.streams.contains_key(a) {
                1nat
            } else {
                0
            }),
{
    let v = old(server)@;
    let d = delivery_views(r.messages@);
    assert forall|a: SocketAddress| #[trigger]
        inbox(d, a) == v.messages(event@, now, a) by {}
    if event is Quotes {
    } else if event is Command && event->Command_0 is Stop {
        let addr = (event->Command_0)->Stop_0;
        if v.streams.contains_key(addr) {
            if d.len() == 0 {
                assert(inbox(d, addr).len() == 0);
            }
            let first = d.drop_last();
            assert(d.last().to == addr) by {
                assert(inbox(d, d.last().to).len() > 0);
            }
            assert forall|a: SocketAddress| #[trigger] inbox(first, a) == Seq::<
                MessageView,
            >::empty() by {
                assert(inbox(d, a) == v.messages(event@, now, a));
                assert(a == addr ==> inbox(d, a).drop_last() =~= inbox(first, a));
                assert(a == addr ==> inbox(d, a).drop_last() =~= Seq::empty());
            }
            lemma_nothing_delivered(first);
            assert(inbox(d, addr).last() == d.last().message);
            assert(d[0] == r.messages@[0]@);
        } else {
            lemma_nothing_delivered(d);
        }
    } else if event is Command && event->Command_0 is StopSendingAll {
        assert forall|a: SocketAddress| d.to_multiset().count(#[trigger] stop_to(a)) == (
        if v.streams.contains_key(a) {
            1nat
        } else {
            0
        }) by {
            broadcast use vstd::seq_lib::group_to_multiset_ensures;

            lemma_inbox_count(d, stop_to(a));
            assert(inbox(d, a) == v.messages(event@, now, a));
            assert(seq![MessageView::Stop] =~= Seq::empty().push(MessageView::Stop));
        }
    } else {
        lemma_nothing_delivered(d);
    }
}

/// The message that ends the worker of the stream to `addr`.
pub open spec fn stop_to(addr: SocketAddress) -> DeliveryView {
    DeliveryView { to: addr, message: MessageView::Stop }
}

/// A turn ends the server only where it was told to end everything, and makes it fail only where
/// one of its sources is lost; after any other event the server goes on.
pub proof fn law_turn_goes_on(
    server: &mut QuotesSender,
    event: &SenderEvent,
    now: u64,
    r: SenderReaction,
)
    requires
        old(server).wf(),
        call_ensures(QuotesSender::main_loop_step, (server, event, now), r),
    ensures
        r.course == Course::Failed <==> event is CommandsClosed || event is QuotesClosed,
        r.course == Course::Finished <==> event is Command && event->Command_0 is StopSendingAll,
        event is Quotes || event is Idle ==> r.course == Course::Running,
{
}

/// A turn drops, opens and refuses as the table shows: a stream is listed as dropped, once, if it
/// was there and a sweep took it away, and as opened if it was not there and is now.
pub proof fn law_turn_reports_truly(
    server: &mut QuotesSender,
    event: &SenderEvent,
    now: u64,
    r: SenderReaction,
    addr: SocketAddress,
)
    requires
        old(server).wf(),
        call_ensures(QuotesSender::main_loop_step, (server, event, now), r),
    ensures
        ({
            let was = old(server)@.streams.contains_key(addr);
            let stays = final(server)@.streams.contains_key(addr);
            &&& r.opened == Some(addr) <==> !was && stays
            &&& r.dropped@.no_duplicates()
            &&& r.dropped@.contains(addr) <==> was && !stays && (event is Quotes || event is Idle)
            &&& event is Quotes || event is Idle ==> (was && !stays <==> was && now
                >= old(server)@.streams[addr].last_ping + old(server)@.ping_cooldown_ms)
            &&& event is Command && event->Command_0 is Ping && (event->Command_0)->Ping_0 == addr
                ==> (r.refused <==> !stays)
            &&& event is Command && event->Command_0 is Stream && (event->Command_0)->Stream_0
                == addr ==> (r.refused <==> !stays)
            &&& !(event is Command) ==> !r.refused
            &&& event is Command && (event->Command_0 is Stop || event->Command_0
                is StopSendingAll) ==> !r.refused
        }),
{
    old(server).law_within_capacity();
    law_reports_are_true(old(server)@, addr, event@, now);
    assert(r.dropped@.to_set().contains(addr) <==> r.dropped@.contains(addr));
    if event is Command && event->Command_0 is Stream {
        let tickers = texts((event->Command_0)->Stream_1@);
        law_last_request_decides_the_tickers(
            old(server)@,
            (event->Command_0)->Stream_0,
            tickers,
            Seq::empty(),
            now,
        );
    }
}

/// What became of a request is seen in the table: a stream was opened if there is one now and was
/// none, changed if there was one, and rejected if there is none now; and a rejection means that
/// there was no room.
pub proof fn law_outcome_of_a_request_is_true(
    server: &mut QuotesSender,
    addr: SocketAddress,
    tickers: &Vec<String>,
    now: u64,
    r: StreamOutcome,
)
    requires
        old(server).wf(),
        call_ensures(QuotesSender::stream, (server, addr, tickers, now), r),
    ensures
        r == StreamOutcome::Changed <==> old(server)@.streams.contains_key(addr),
        r == StreamOutcome::Opened <==> !old(server)@.streams.contains_key(addr)
            && final(server)@.streams.contains_key(addr),
        r == StreamOutcome::Rejected <==> !final(server)@.streams.contains_key(addr),
        r == StreamOutcome::Rejected ==> old(server)@.streams.len() == old(server)@.capacity,
        r != StreamOutcome::Rejected ==> final(server)@.streams[addr].quotes == texts(
            tickers@,
        ).to_set(),
        r == StreamOutcome::Opened ==> final(server)@.streams[addr].last_ping == now,
        r == StreamOutcome::Changed ==> final(server)@.streams[addr].last_ping == old(
            server,
        )@.streams[addr].last_ping,
{
    old(server).law_within_capacity();
}

/// To note a ping, to end a stream and to sweep do to the table what the events do that ask for
/// it, and tell whether there was a stream.
pub proof fn law_steps_do_what_the_events_ask(
    server: &mut QuotesSender,
    addr: SocketAddress,
    now: u64,
    r: bool,
)
    requires
        old(server).wf(),
    ensures
        call_ensures(QuotesSender::ping, (server, addr, now), r) ==> final(server)@ == old(
            server,
        )@.after(EventView::Command(CommandView::Ping(addr)), now) && r == old(
            server,
        )@.streams.contains_key(addr),
        call_ensures(QuotesSender::stop, (server, addr), r) ==> final(server)@ == old(
            server,
        )@.after(EventView::Command(CommandView::Stop(addr)), now) && r == old(
            server,
        )@.streams.contains_key(addr) && !final(server)@.streams.contains_key(addr),
{
}

/// A new server has no streams and the limits it was given.
pub proof fn law_new_server_is_empty(
    capacity: u64,
    ping_cooldown_ms: u64,
    r: QuotesSender,
    addr: SocketAddress,
)
    requires
        call_ensures(QuotesSender::new, (capacity, ping_cooldown_ms), r),
    ensures
        r.wf(),
        !r@.streams.contains_key(addr),
        r@.capacity == capacity,
        r@.ping_cooldown_ms == ping_cooldown_ms,
{
}

/// The status panel has one line for each stream, and counts them: no more than there may be.
pub proof fn law_status_counts_the_streams(
    server: &QuotesSender,
    connected: usize,
    capacity: u64,
    lines: Vec<StatusLine>,
)
    requires
        server.wf(),
        call_ensures(QuotesSender::connected, (server,), connected),
        call_ensures(QuotesSender::capacity, (server,), capacity),
        call_ensures(QuotesSender::status, (server,), lines),
    ensures
        connected == lines@.len(),
        connected == server@.streams.dom().len(),
        connected <= capacity,
        capacity == server@.capacity,
        forall|i: int, j: int| 0 <= i < j < lines@.len() ==> lines@[i].addr != lines@[j].addr,
        forall|i: int|
            0 <= i < lines@.len() ==> server@.streams.contains_key((#[trigger] lines@[i]).addr)
                && lists(lines@[i].tickers@, server@.streams[lines@[i].addr].quotes),
{
    server.law_within_capacity();
}

/// A line of the status panel, cut at its commas, names the tickers of its stream, each once, if
/// none has a comma in it.
pub proof fn law_status_line_names_the_tickers(text: Seq<char>, tickers: Set<Seq<char>>)
    requires
        lists(text, tickers),
        forall|t: Seq<char>| #[trigger] tickers.contains(t) ==> unbroken(t, Separator::Comma),
    ensures
        tickers.len() == 0 && tickers.finite() ==> text.len() == 0,
        tickers.finite(),
        tickers.len() > 0 ==> pieces(text, Separator::Comma).no_duplicates() && pieces(
            text,
            Separator::Comma,
        ).to_set() == tickers,
{
    let order = choose|order: Seq<Seq<char>>| #[trigger]
        order.no_duplicates() && order.to_set() == tickers && text == joined(order, seq![',']);
    vstd::seq_lib::seq_to_set_is_finite(order);
    order.unique_seq_to_set();
    assert forall|i: int| 0 <= i < order.len() implies unbroken(
        #[trigger] order[i],
        Separator::Comma,
    ) by {
        assert(order.to_set().contains(order[i]));
    }
    if order.len() > 0 {
        lemma_pieces_joined(order);
    }
}

/// What was decided stands if it could be carried out, and else the server fails.
pub proof fn law_what_cannot_be_carried_out_fails(course: Course, done: bool, r: Course)
    requires
        call_ensures(carried_out, (course, done), r),
    ensures
        done ==> r == course,
        !done ==> r == Course::Failed,
        r == Course::Running <==> done && course == Course::Running,
{
}

/// To end all streams leaves none, and tells each worker to end, once; it sends nothing else.
pub proof fn law_end_of_all_streams(
    server: &mut QuotesSender,
    r: Vec<Delivery>,
    addr: SocketAddress,
    q: QuoteView,
)
    requires
        old(server).wf(),
        call_ensures(QuotesSender::stop_all, (server,), r),
    ensures
        !final(server)@.streams.contains_key(addr),
        delivery_views(r@).to_multiset().count(stop_to(addr)) == (if old(
            server,
        )@.streams.contains_key(addr) {
            1nat
        } else {
            0
        }),
        delivery_views(r@).to_multiset().count(
            (DeliveryView { to: addr, message: MessageView::Send(q) }),
        ) == 0,
{
    broadcast use vstd::seq_lib::group_to_multiset_ensures;

    let d = delivery_views(r@);
    lemma_inbox_count(d, stop_to(addr));
    lemma_inbox_count(d, DeliveryView { to: addr, message: MessageView::Send(q) });
    assert(inbox(d, addr) == (if old(server)@.active(addr) {
        seq![MessageView::Stop]
    } else {
        Seq::empty()
    }));
    assert(seq![MessageView::Stop] =~= Seq::empty().push(MessageView::Stop));
}

/// A sweep drops the streams that were last heard of a cooldown ago or longer, and lists each
/// once; the others stay as they are.
pub proof fn law_sweep_drops_the_silent(
    server: &mut QuotesSender,
    now: u64,
    r: Vec<SocketAddress>,
    addr: SocketAddress,
)
    requires
        old(server).wf(),
        call_ensures(QuotesSender::drop_stale, (server, now), r),
    ensures
        ({
            let v = old(server)@;
            let w = final(server)@;
            let silent = now >= v.streams[addr].last_ping + v.ping_cooldown_ms;
            &&& r@.no_duplicates()
            &&& r@.contains(addr) <==> v.streams.contains_key(addr) && silent
            &&& w.streams.contains_key(addr) <==> v.streams.contains_key(addr) && !silent
            &&& w.streams.contains_key(addr) ==> w.streams[addr] == v.streams[addr]
            &&& w.capacity == v.capacity
            &&& w.ping_cooldown_ms == v.ping_cooldown_ms
        }),
{
}

} // verus!
