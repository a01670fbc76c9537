use quote_stream::codec::decode_quote;
use quote_stream::command::{Command, SocketAddress};
use quote_stream::quote::StockQuote;
use quote_stream::sender::{
    carried_out, ClientStreamMessage, Delivery, QuotesSender, SenderEvent, SenderReaction,
    StatusLine, StreamOutcome,
};
use quote_stream::streams::Course;
use quote_stream::udp::{client_step, ping_step, Datagram, PingAction, WorkerAction};

const A: SocketAddress = SocketAddress::V4(0x7f00_0001, 5001);
const B: SocketAddress = SocketAddress::V6(1, 5002, 0, 0);

fn quote(ticker: &str, price: f64, volume: u32, timestamp: u64) -> StockQuote {
    StockQuote { ticker: ticker.to_string(), price_bits: price.to_bits(), volume, timestamp }
}

fn stream(server: &mut QuotesSender, to: SocketAddress, ticker: &str, now: u64) -> SenderReaction {
    let command = Command::Stream(to, vec![ticker.to_string()]);
    server.main_loop_step(&SenderEvent::Command(command), now)
}

fn quotes(server: &mut QuotesSender, quotes: &[StockQuote], now: u64) -> Vec<Delivery> {
    server.main_loop_step(&SenderEvent::Quotes(quotes.to_vec()), now).messages
}

/// What the worker of a stream puts on the wire, read again.
fn received(delivery: &Delivery) -> Option<StockQuote> {
    let message = match &delivery.message {
        ClientStreamMessage::Send(q) => ClientStreamMessage::Send(q.clone()),
        ClientStreamMessage::Stop => ClientStreamMessage::Stop,
    };
    match client_step(&Some(message)) {
        WorkerAction::Transmit(bytes) => Some(decode_quote(&bytes).expect("decode")),
        WorkerAction::Exit => None,
    }
}

/// Ends the server, as every one of its users does.
fn shut_down(server: &mut QuotesSender, now: u64) {
    let end = server.main_loop_step(&SenderEvent::Command(Command::StopSendingAll), now);
    assert_eq!(end.course, Course::Finished);
    assert_eq!(server.connected(), 0);
}

#[test]
fn stream_then_quote_delivers_bincode_to_client_udp() {
    let mut server = QuotesSender::new(32, 60_000);
    let reaction = stream(&mut server, A, "AAPL", 0);
    assert_eq!(reaction.opened, Some(A));

    let quote = quote("AAPL", 123.45, 999, 1);
    let sent = quotes(&mut server, &[quote.clone()], 200);
    assert_eq!(sent.len(), 1);
    assert_eq!(sent[0].to, A);
    let got = received(&sent[0]);
    assert_eq!(got, Some(quote));

    shut_down(&mut server, 300);
}

#[test]
fn udp_ping_refreshes_subscription() {
    let mut server = QuotesSender::new(32, 60_000);
    stream(&mut server, A, "MSFT", 0);

    let ping = ping_step(&Datagram::Received(A, b"PING".to_vec()));
    let command = match ping {
        PingAction::Forward(command) => command,
        other => panic!("{other:?}"),
    };
    let reaction = server.main_loop_step(&SenderEvent::Command(command), 59_999);
    assert!(!reaction.refused);

    let quote = quote("MSFT", 10.0, 1, 2);
    let sent = quotes(&mut server, &[quote.clone()], 119_998);
    assert_eq!(sent.len(), 1);
    assert_eq!(received(&sent[0]), Some(quote));

    shut_down(&mut server, 119_999);
}

#[test]
fn stop_unsubscribes_before_next_quote() {
    let mut server = QuotesSender::new(32, 60_000);
    stream(&mut server, A, "TSLA", 0);
    let reaction = server.main_loop_step(&SenderEvent::Command(Command::Stop(A)), 200);
    assert_eq!(
        reaction.messages,
        vec![Delivery { to: A, message: ClientStreamMessage::Stop }]
    );
    let sent = quotes(&mut server, &[quote("TSLA", 1.0, 1, 3)], 320);
    assert!(sent.is_empty(), "no datagram after Stop");

    shut_down(&mut server, 400);
}

#[test]
fn capacity_guard_limits_concurrent_udp_streams() {
    let mut server = QuotesSender::new(1, 60_000);
    assert_eq!(stream(&mut server, A, "AAPL", 0).opened, Some(A));
    let second = stream(&mut server, B, "GOOG", 0);
    assert_eq!(second.opened, None);
    assert!(second.refused);

    let sent = quotes(&mut server, &[quote("AAPL", 1.0, 1, 4), quote("GOOG", 2.0, 2, 5)], 200);
    assert_eq!(sent.len(), 1, "second UDP subscriber should be rejected when capacity is 1");
    assert_eq!(sent[0].to, A);
    assert_eq!(received(&sent[0]).unwrap().ticker, "AAPL");

    shut_down(&mut server, 300);
}

#[test]
fn two_clients_each_receive_only_subscribed_tickers() {
    let mut server = QuotesSender::new(32, 60_000);
    stream(&mut server, A, "AAPL", 0);
    stream(&mut server, B, "GOOG", 0);

    let q_a = quote("AAPL", 1.0, 1, 10);
    let q_b = quote("GOOG", 2.0, 2, 11);
    let sent = quotes(&mut server, &[q_a.clone(), q_b.clone()], 250);
    let to_a: Vec<_> = sent.iter().filter(|d| d.to == A).map(received).collect();
    let to_b: Vec<_> = sent.iter().filter(|d| d.to == B).map(received).collect();
    assert_eq!(to_a, vec![Some(q_a)]);
    assert_eq!(to_b, vec![Some(q_b)]);

    shut_down(&mut server, 300);
}

#[test]
fn stream_same_address_updates_ticker_filter() {
    let mut server = QuotesSender::new(32, 60_000);
    stream(&mut server, A, "AAPL", 0);
    let apple = quote("AAPL", 1.0, 1, 20);
    let sent = quotes(&mut server, &[apple.clone()], 200);
    assert_eq!(received(&sent[0]), Some(apple));

    assert_eq!(stream(&mut server, A, "NVDA", 400).opened, None);
    let sent = quotes(&mut server, &[quote("AAPL", 99.0, 9, 21)], 600);
    assert!(
        sent.is_empty(),
        "AAPL should not be sent after subscription replaced with NVDA"
    );
    let nvda = quote("NVDA", 3.0, 3, 22);
    let sent = quotes(&mut server, &[nvda.clone()], 800);
    assert_eq!(received(&sent[0]), Some(nvda));

    shut_down(&mut server, 900);
}

#[test]
fn without_ping_after_cooldown_stream_dropped_no_udp() {
    let mut server = QuotesSender::new(32, 200);
    stream(&mut server, A, "IBM", 0);
    let idle = server.main_loop_step(&SenderEvent::Idle, 199);
    assert!(idle.dropped.is_empty());
    let idle = server.main_loop_step(&SenderEvent::Idle, 600);
    assert_eq!(idle.dropped, vec![A]);
    let sent = quotes(&mut server, &[quote("IBM", 5.0, 5, 30)], 600);
    assert!(
        sent.is_empty(),
        "subscription should be removed after ping cooldown without PING"
    );

    shut_down(&mut server, 700);
}

#[test]
fn stop_then_stream_same_socket_again_works() {
    let mut server = QuotesSender::new(32, 60_000);
    stream(&mut server, A, "X", 0);
    let q1 = quote("X", 1.0, 1, 40);
    let sent = quotes(&mut server, &[q1.clone()], 200);
    assert_eq!(received(&sent[0]), Some(q1));

    server.main_loop_step(&SenderEvent::Command(Command::Stop(A)), 400);
    assert_eq!(stream(&mut server, A, "X", 600).opened, Some(A));
    let q2 = quote("X", 2.0, 2, 41);
    let sent = quotes(&mut server, &[q2.clone()], 800);
    assert_eq!(received(&sent[0]), Some(q2));

    shut_down(&mut server, 900);
}

#[test]
fn quotes_sweep_before_they_are_sent() {
    let mut server = QuotesSender::new(32, 200);
    stream(&mut server, A, "IBM", 0);
    let reaction = server.main_loop_step(&SenderEvent::Quotes(vec![quote("IBM", 1.0, 1, 1)]), 200);
    assert_eq!(reaction.dropped, vec![A]);
    assert!(reaction.messages.is_empty());
    assert_eq!(server.connected(), 0);
}

#[test]
fn second_request_does_not_count_as_a_ping() {
    let mut server = QuotesSender::new(32, 200);
    stream(&mut server, A, "IBM", 0);
    stream(&mut server, A, "X", 150);
    let idle = server.main_loop_step(&SenderEvent::Idle, 200);
    assert_eq!(idle.dropped, vec![A]);
}

#[test]
fn endless_cooldown_never_drops() {
    let mut server = QuotesSender::new(32, u64::MAX);
    stream(&mut server, A, "IBM", 1);
    assert!(server.main_loop_step(&SenderEvent::Idle, u64::MAX).dropped.is_empty());
    let mut strict = QuotesSender::new(32, 0);
    stream(&mut strict, A, "IBM", 5);
    assert_eq!(strict.main_loop_step(&SenderEvent::Idle, 5).dropped, vec![A]);
}

#[test]
fn ping_without_a_stream_is_refused() {
    let mut server = QuotesSender::new(32, 200);
    assert!(server.main_loop_step(&SenderEvent::Command(Command::Ping(A)), 0).refused);
    assert!(!server.ping(B, 0));
    assert!(server.main_loop_step(&SenderEvent::Command(Command::Stop(A)), 0).messages.is_empty());
}

#[test]
fn no_room_at_capacity_zero() {
    let mut server = QuotesSender::new(0, 200);
    assert_eq!(server.stream(A, &vec!["X".to_string()], 0), StreamOutcome::Rejected);
    assert_eq!(server.connected(), 0);
    assert_eq!(server.capacity(), 0);
}

#[test]
fn shutdown_tells_every_worker() {
    let mut server = QuotesSender::new(32, 200);
    stream(&mut server, A, "X", 0);
    stream(&mut server, B, "Y", 0);
    let end = server.main_loop_step(&SenderEvent::Command(Command::StopSendingAll), 0);
    assert_eq!(end.course, Course::Finished);
    assert_eq!(end.messages.len(), 2);
    for to in [A, B] {
        assert!(end.messages.contains(&Delivery { to, message: ClientStreamMessage::Stop }));
    }
    assert_eq!(server.connected(), 0);
}

#[test]
fn lost_sources_fail_the_server() {
    let mut server = QuotesSender::new(32, 200);
    stream(&mut server, A, "X", 0);
    assert_eq!(server.main_loop_step(&SenderEvent::CommandsClosed, 0).course, Course::Failed);
    let lost = server.main_loop_step(&SenderEvent::QuotesClosed, 0);
    assert_eq!(lost.course, Course::Failed);
    assert!(lost.messages.is_empty());
    assert_eq!(server.connected(), 1);
}

#[test]
fn order_and_repeats_of_quotes_are_kept() {
    let mut server = QuotesSender::new(32, 200);
    let tickers = vec!["X".to_string(), "Y".to_string(), "X".to_string()];
    assert_eq!(server.stream(A, &tickers, 0), StreamOutcome::Opened);
    let batch = [
        quote("Y", 1.0, 1, 1),
        quote("Z", 2.0, 2, 2),
        quote("X", 3.0, 3, 3),
        quote("Y", 1.0, 1, 1),
    ];
    let sent: Vec<_> = quotes(&mut server, &batch, 0).iter().map(received).collect();
    assert_eq!(
        sent,
        vec![Some(batch[0].clone()), Some(batch[2].clone()), Some(batch[3].clone())]
    );
    assert_eq!(
        server.status(),
        vec![StatusLine { addr: A, tickers: "X,Y".to_string() }]
    );
    assert_eq!(server.stream(A, &vec![], 0), StreamOutcome::Changed);
    assert!(server.stop(A));
    assert!(server.stop_all().is_empty());
}

#[test]
fn regular_pings_keep_a_stream() {
    let mut server = QuotesSender::new(32, 200);
    stream(&mut server, A, "IBM", 0);
    let mut now = 0;
    for _ in 0..50 {
        now += 199;
        assert!(server.main_loop_step(&SenderEvent::Idle, now).dropped.is_empty());
        assert!(!server.main_loop_step(&SenderEvent::Command(Command::Ping(A)), now).refused);
    }
    assert_eq!(server.connected(), 1);
    assert_eq!(server.main_loop_step(&SenderEvent::Idle, now + 200).dropped, vec![A]);
}

#[test]
fn nothing_is_sent_until_a_stream_is_asked_for() {
    let mut server = QuotesSender::new(32, 200);
    for now in 0..10 {
        assert!(quotes(&mut server, &[quote("X", 1.0, 1, now)], now).is_empty());
        server.main_loop_step(&SenderEvent::Command(Command::Ping(A)), now);
        stream(&mut server, B, "Y", now);
    }
    stream(&mut server, A, "X", 10);
    assert_eq!(quotes(&mut server, &[quote("X", 1.0, 1, 11)], 11).len(), 1);
}

#[test]
fn commands_leave_other_streams_alone() {
    let mut server = QuotesSender::new(2, 200);
    stream(&mut server, A, "X", 0);
    stream(&mut server, B, "Y", 0);
    server.main_loop_step(&SenderEvent::Command(Command::Ping(B)), 100);
    stream(&mut server, B, "Z", 100);
    let idle = server.main_loop_step(&SenderEvent::Idle, 250);
    assert_eq!(idle.dropped, vec![A]);
    assert_eq!(
        server.status(),
        vec![StatusLine { addr: B, tickers: "Z".to_string() }]
    );
    assert!(server.main_loop_step(&SenderEvent::Idle, 250).dropped.is_empty());
    assert_eq!(stream(&mut server, A, "X", 250).opened, Some(A));
    server.main_loop_step(&SenderEvent::Command(Command::Stop(B)), 250);
    assert_eq!(
        server.status(),
        vec![StatusLine { addr: A, tickers: "X".to_string() }]
    );
}

#[test]
fn batches_come_one_after_the_other() {
    let mut server = QuotesSender::new(2, 200);
    stream(&mut server, A, "X", 0);
    let (one, two) = (quote("X", 1.0, 1, 1), quote("X", 2.0, 2, 2));
    let together = server.handle_quotes(&vec![one.clone(), two.clone()]);
    let mut apart = server.handle_quotes(&vec![one]);
    apart.extend(server.handle_quotes(&vec![two]));
    assert_eq!(together, apart);
}

#[test]
fn stopped_stream_reopens_in_the_only_place() {
    let mut server = QuotesSender::new(1, 60_000);
    assert_eq!(stream(&mut server, A, "X", 0).opened, Some(A));
    assert!(stream(&mut server, B, "X", 0).refused);
    server.main_loop_step(&SenderEvent::Command(Command::Stop(A)), 400);
    assert_eq!(stream(&mut server, A, "X", 600).opened, Some(A));
}

#[test]
fn server_fails_where_a_reaction_cannot_be_carried_out() {
    for course in [Course::Running, Course::Finished, Course::Failed] {
        assert_eq!(carried_out(course, true), course);
        assert_eq!(carried_out(course, false), Course::Failed);
    }
}
