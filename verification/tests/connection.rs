use quote_stream::command::{Command, SocketAddress};
use quote_stream::protocol::{answer_line, greeting, written};

const ADDR: SocketAddress = SocketAddress::V4(0x7f00_0001, 6667);

/// What a connection comes to on which these lines come in, if the receiver of its commands takes
/// as many as `room`: what is written, what is passed on, and how many lines are read.
fn converse(lines: &[&str], room: usize) -> (String, Vec<Command>, usize) {
    let mut output = greeting().to_string();
    let mut commands = Vec::new();
    for (i, line) in lines.iter().enumerate() {
        let answer = answer_line(line, |target: String| {
            if target == "127.0.0.1:6667" {
                Some(ADDR)
            } else {
                None
            }
        });
        let taken = answer.command.as_ref().map(|_| commands.len() < room);
        match written(answer.reply, taken) {
            Some(reply) => output.push_str(reply.text()),
            None => return (output, commands, i + 1),
        }
        commands.extend(answer.command);
        if answer.reply.ends_connection() {
            return (output, commands, i + 1);
        }
    }
    (output, commands, lines.len())
}

fn stream(tickers: &[&str]) -> Command {
    Command::Stream(ADDR, tickers.iter().map(|t| t.to_string()).collect())
}

#[test]
fn every_line_but_the_blank_ones_gets_one_reply() {
    let (output, commands, read) = converse(
        &[
            "STREAM udp://127.0.0.1:6667 A,B\n",
            "\n",
            "STREAM udp://nowhere A\n",
            "STREAM udp://127.0.0.1:6667\n",
            " \t\r\n",
            "STREAM udp://127.0.0.1:6667 ,\n",
            "HELLO\n",
            "STREAM udp://127.0.0.1:6667 C",
        ],
        usize::MAX,
    );
    assert_eq!(
        output,
        "Quote server ready for requests\nOK\nERR invalid URI\nERR no ticker list\n\
         ERR empty ticker list\nERROR: unknown command\nOK\n"
    );
    assert_eq!(commands, vec![stream(&["A", "B"]), stream(&["C"])]);
    assert_eq!(read, 8);
}

#[test]
fn farewell_ends_a_connection() {
    let (output, commands, read) = converse(
        &["STREAM udp://127.0.0.1:6667 A\n", "EXIT\n", "STREAM udp://127.0.0.1:6667 B\n"],
        usize::MAX,
    );
    assert_eq!(output, "Quote server ready for requests\nOK\nBYE\n");
    assert_eq!(commands, vec![stream(&["A"])]);
    assert_eq!(read, 2);
}

#[test]
fn command_that_is_not_taken_ends_a_connection() {
    let line = "STREAM udp://127.0.0.1:6667 A\n";
    let (output, commands, read) = converse(&[line, "\n", line, "EXIT\n"], 1);
    assert_eq!(output, "Quote server ready for requests\nOK\n");
    assert_eq!(commands, vec![stream(&["A"])]);
    assert_eq!(read, 3);
}

#[test]
fn connection_without_lines_is_only_greeted() {
    let (output, commands, read) = converse(&[], 0);
    assert_eq!(output, "Quote server ready for requests\n");
    assert!(commands.is_empty());
    assert_eq!(read, 0);
}
