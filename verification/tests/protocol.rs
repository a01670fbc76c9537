use quote_stream::command::{Command, SocketAddress};
use quote_stream::protocol::{
    answer_line, callback_target, greeting, handle_line, is_accepted, is_greeting, stream_request,
    written, Reply,
};
use quote_stream::tickers::{supported_tickers, tickers_csv, TickerFileError};

const ADDR: SocketAddress = SocketAddress::V4(0x7f00_0001, 6667);

fn reply(line: &str) -> &'static str {
    handle_line(line, Some(ADDR)).reply.text()
}

#[test]
fn stream_request_is_passed_on() {
    let line = "STREAM udp://127.0.0.1:6667 AAPL,MSFT,TSLA\n";
    assert_eq!(callback_target(line), Some("127.0.0.1:6667".to_string()));
    let answer = handle_line(line, Some(ADDR));
    assert_eq!(answer.reply.text(), "OK\n");
    assert!(!answer.reply.ends_connection());
    assert_eq!(
        answer.command,
        Some(Command::Stream(
            ADDR,
            vec!["AAPL".to_string(), "MSFT".to_string(), "TSLA".to_string()]
        ))
    );
}

#[test]
fn empty_names_in_the_ticker_list_are_passed_over() {
    let answer = handle_line("  STREAM\tudp://h:1  ,A,,B,  extra\r\n", Some(ADDR));
    assert_eq!(
        answer.command,
        Some(Command::Stream(ADDR, vec!["A".to_string(), "B".to_string()]))
    );
}

#[test]
fn address_that_cannot_be_read_is_refused() {
    let answer = handle_line("STREAM udp://nowhere AAPL", None);
    assert_eq!(answer.reply, Reply::InvalidUri);
    assert_eq!(answer.reply.text(), "ERR invalid URI\n");
    assert_eq!(answer.command, None);
    for line in ["STREAM", "STREAM tcp://127.0.0.1:1 A", "STREAM udp:/127.0.0.1:1 A"] {
        assert_eq!(callback_target(line), None);
        assert_eq!(reply(line), "ERR invalid URI\n");
    }
}

#[test]
fn ticker_list_must_name_tickers() {
    assert_eq!(reply("STREAM udp://127.0.0.1:1"), "ERR no ticker list\n");
    assert_eq!(reply("STREAM udp://127.0.0.1:1 ,,"), "ERR empty ticker list\n");
    assert_eq!(handle_line("STREAM udp://127.0.0.1:1 ,,", Some(ADDR)).command, None);
}

#[test]
fn other_lines_are_answered() {
    assert_eq!(reply("EXIT\n"), "BYE\n");
    assert!(handle_line("EXIT\n", None).reply.ends_connection());
    assert_eq!(reply("exit"), "ERROR: unknown command\n");
    assert_eq!(reply("PING"), "ERROR: unknown command\n");
    assert_eq!(reply(" \t\r\n"), "");
    assert_eq!(handle_line("", Some(ADDR)).reply, Reply::Nothing);
    assert_eq!(callback_target("EXIT udp://127.0.0.1:1"), None);
}

#[test]
fn receiver_recognises_the_server() {
    assert!(is_greeting(greeting()));
    assert_eq!(greeting(), "Quote server ready for requests\n");
    assert!(!is_greeting("HTTP/1.1 400 Bad Request\r\n"));
    assert!(is_accepted(Reply::Accepted.text()));
    for other in [
        Reply::Nothing,
        Reply::Bye,
        Reply::InvalidUri,
        Reply::NoTickerList,
        Reply::EmptyTickerList,
        Reply::UnknownCommand,
    ] {
        assert!(!is_accepted(other.text()));
    }
}

#[test]
fn request_from_a_ticker_file_is_understood() {
    let csv = tickers_csv("# my list\nAAPL\r\n\n  MSFT \n#TSLA\nIBM").unwrap();
    assert_eq!(csv, "AAPL,MSFT,IBM");
    let line = stream_request("6667", &csv);
    assert_eq!(line, "STREAM udp://127.0.0.1:6667 AAPL,MSFT,IBM\n");
    assert_eq!(callback_target(&line), Some("127.0.0.1:6667".to_string()));
    assert_eq!(
        handle_line(&line, Some(ADDR)).command,
        Some(Command::Stream(
            ADDR,
            vec!["AAPL".to_string(), "MSFT".to_string(), "IBM".to_string()]
        ))
    );
}

#[test]
fn ticker_with_a_space_is_cut_by_the_protocol() {
    let csv = tickers_csv("BRK B\nIBM\n").unwrap();
    let line = stream_request("1", &csv);
    assert_eq!(
        handle_line(&line, Some(ADDR)).command,
        Some(Command::Stream(ADDR, vec!["BRK".to_string()]))
    );
}

#[test]
fn ticker_file_without_tickers_is_refused() {
    assert_eq!(tickers_csv("# nothing\n \n"), Err(TickerFileError::NoTickers));
    assert_eq!(tickers_csv(""), Err(TickerFileError::NoTickers));
}

#[test]
fn server_takes_its_ticker_file_as_it_is() {
    assert_eq!(supported_tickers("AAPL\n #x\r\n\nIBM"), vec!["AAPL", " #x", "", "IBM"]);
}

#[test]
fn command_that_nobody_takes_gets_no_reply() {
    assert_eq!(written(Reply::Accepted, Some(true)), Some(Reply::Accepted));
    assert_eq!(written(Reply::Accepted, Some(false)), None);
    assert_eq!(written(Reply::Bye, None), Some(Reply::Bye));
}

/// Reads two addresses and no other.
fn read(target: String) -> Option<SocketAddress> {
    match target.as_str() {
        "127.0.0.1:6667" => Some(ADDR),
        "[::1]:80" => Some(SocketAddress::V6(1, 80, 0, 0)),
        _ => None,
    }
}

#[test]
fn line_is_answered_with_the_address_that_was_read() {
    let answer = answer_line("STREAM udp://127.0.0.1:6667 AAPL\n", read);
    assert_eq!(answer.reply, Reply::Accepted);
    assert_eq!(answer.command, Some(Command::Stream(ADDR, vec!["AAPL".to_string()])));
    let answer = answer_line("STREAM udp://[::1]:80 IBM", read);
    let v6 = SocketAddress::V6(1, 80, 0, 0);
    assert_eq!(answer.command, Some(Command::Stream(v6, vec!["IBM".to_string()])));
    for line in ["STREAM udp://127.0.0.1 A", "STREAM udp://localhost:1 A", "STREAM udp:// A"] {
        let answer = answer_line(line, read);
        assert_eq!(answer.reply, Reply::InvalidUri);
        assert_eq!(answer.command, None);
    }
}

#[test]
fn address_is_read_only_from_a_callback() {
    for line in ["", "EXIT", "STREAM", "STREAM 127.0.0.1:1 A", "PING udp://127.0.0.1:1"] {
        let answer = answer_line(line, |target: String| panic!("{target}"));
        assert_eq!(answer, handle_line(line, None));
    }
}
