use quote_stream::codec::{decode_quote, encode_quote, DecodeError};
use quote_stream::command::{Command, SocketAddress};
use quote_stream::quote::StockQuote;
use quote_stream::sender::ClientStreamMessage;
use quote_stream::streams::Course;
use quote_stream::udp::{
    client_step, is_ping, ping_datagram, ping_forwarded, ping_poll, ping_sent, ping_step,
    receive_step, stop_requested, Datagram, PingAction, PingCourse, ReceiveAction, StopPoll,
    WorkerAction,
};

const ADDR: SocketAddress = SocketAddress::V4(0x7f00_0001, 6667);

fn sample() -> StockQuote {
    StockQuote {
        ticker: "AAPL".to_string(),
        price_bits: 123.45f64.to_bits(),
        volume: 999,
        timestamp: 1,
    }
}

#[test]
fn bytes_of_a_quote() {
    let mut expected: Vec<u8> = vec![4, 0, 0, 0, 0, 0, 0, 0, b'A', b'A', b'P', b'L'];
    expected.extend_from_slice(&123.45f64.to_le_bytes());
    expected.extend_from_slice(&[0xe7, 0x03, 0, 0]);
    expected.extend_from_slice(&[1, 0, 0, 0, 0, 0, 0, 0]);
    assert_eq!(encode_quote(&sample()), expected);
}

#[test]
fn bytes_are_those_of_the_price_as_a_number() {
    let direct = bincode::serialize(&("AAPL", 123.45f64, 999u32, 1u64)).unwrap();
    assert_eq!(encode_quote(&sample()), direct);
}

#[test]
fn quotes_are_read_as_they_were_sent() {
    for ticker in ["", "X", "\u{43a}\u{432}\u{43e}\u{442}", "\u{1f4c8}"] {
        let quote = StockQuote { ticker: ticker.to_string(), ..sample() };
        let mut bytes = encode_quote(&quote);
        assert_eq!(decode_quote(&bytes), Ok(quote.clone()));
        bytes.push(7);
        assert_eq!(decode_quote(&bytes), Ok(quote));
    }
}

#[test]
fn other_bytes_are_no_quote() {
    let bytes = encode_quote(&sample());
    assert_eq!(decode_quote(&[]), Err(DecodeError::NotAQuote));
    assert_eq!(decode_quote(&bytes[..bytes.len() - 1]), Err(DecodeError::NotAQuote));
    let mut bad_text = bytes.clone();
    bad_text[8] = 0xff;
    assert_eq!(decode_quote(&bad_text), Err(DecodeError::NotAQuote));
    let mut too_long = bytes;
    too_long[7] = 0xff;
    assert_eq!(decode_quote(&too_long), Err(DecodeError::NotAQuote));
}

#[test]
fn pings_are_recognised() {
    assert!(is_ping(&ping_datagram()));
    assert_eq!(ping_datagram(), b"PING");
    assert!(is_ping(b" \t\r\n\x0cPING\n"));
    for other in [&b"PONG"[..], b"", b"  ", b"PING PING", b"ping", b"\x0bPING", b"PIN", b"PINGS"] {
        assert!(!is_ping(other));
        assert_eq!(other.trim_ascii() == b"PING", is_ping(other));
    }
}

#[test]
fn ping_loop_passes_pings_on() {
    assert_eq!(
        ping_step(&Datagram::Received(ADDR, b"PING\n".to_vec())),
        PingAction::Forward(Command::Ping(ADDR))
    );
    assert_eq!(ping_step(&Datagram::Received(ADDR, b"HELLO".to_vec())), PingAction::Ignore);
    assert_eq!(ping_step(&Datagram::TimedOut), PingAction::Retry);
    assert_eq!(ping_step(&Datagram::Failed), PingAction::Pause);
}

#[test]
fn loops_stop_when_told() {
    assert_eq!(ping_poll(StopPoll::Message(true)), PingCourse::Finish);
    assert_eq!(ping_poll(StopPoll::Message(false)), PingCourse::Receive);
    assert_eq!(ping_poll(StopPoll::Empty), PingCourse::Receive);
    assert_eq!(ping_poll(StopPoll::Disconnected), PingCourse::Fail);
    assert!(stop_requested(StopPoll::Message(true)));
    assert!(stop_requested(StopPoll::Disconnected));
    assert!(!stop_requested(StopPoll::Message(false)));
    assert!(!stop_requested(StopPoll::Empty));
}

#[test]
fn worker_sends_until_it_is_stopped() {
    assert_eq!(
        client_step(&Some(ClientStreamMessage::Send(sample()))),
        WorkerAction::Transmit(encode_quote(&sample()))
    );
    assert_eq!(client_step(&Some(ClientStreamMessage::Stop)), WorkerAction::Exit);
    assert_eq!(client_step(&None), WorkerAction::Exit);
}

#[test]
fn receiver_shows_quotes_and_skips_the_rest() {
    assert_eq!(
        receive_step(&Datagram::Received(ADDR, encode_quote(&sample()))),
        ReceiveAction::Show(sample())
    );
    assert_eq!(receive_step(&Datagram::Received(ADDR, vec![1, 2, 3])), ReceiveAction::Skip);
    assert_eq!(receive_step(&Datagram::TimedOut), ReceiveAction::Retry);
    assert_eq!(receive_step(&Datagram::Failed), ReceiveAction::Fail);
}

#[test]
fn ping_loop_ends_well_when_nobody_takes_a_ping() {
    assert_eq!(ping_forwarded(true), PingCourse::Receive);
    assert_eq!(ping_forwarded(false), PingCourse::Finish);
}

#[test]
fn receiver_fails_when_it_cannot_ping() {
    assert_eq!(ping_sent(true), Course::Running);
    assert_eq!(ping_sent(false), Course::Failed);
}
