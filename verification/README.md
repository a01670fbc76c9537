# quote_stream

The verified logic of a service that streams stock quotes, and the two programs around it.

A client connects to the server over TCP and asks for a stream; the server sends the quotes over
UDP, and the client keeps its stream with pings.

```
client -> server (TCP):   STREAM udp://127.0.0.1:6667 AAPL,MSFT,TSLA
server -> client (TCP):   OK
server -> client (UDP):   a quote in bincode
client -> server (UDP):   PING
```

The server also takes `EXIT`: it answers `BYE` and ends the connection. The client of `app/` does
not send it; it closes its connection when it ends.

## The library, `src/`

| module      | what it holds                                                             |
|-------------|---------------------------------------------------------------------------|
| `streams`   | what the table of streams is, how each event changes it, and its laws     |
| `sender`    | the table itself: one turn of the server for each event                   |
| `generator` | the last quote of each ticker, made anew after a tick                     |
| `protocol`  | the line protocol, on both sides                                          |
| `connection`| what a whole connection comes to, and its laws                            |
| `tickers`   | ticker files                                                              |
| `codec`     | the bytes of a quote                                                      |
| `udp`       | the loops that send and receive datagrams, one step at a time             |
| `command`   | commands and addresses                                                    |
| `quote`     | quotes                                                                    |
| `text`      | white space, trimming, splitting and joining                              |

Every function states in its contract what it returns and changes. What holds over several
functions, or over any course of events, stands in the proof functions whose names start with
`law_`. The library does no input or output: it is told the time, what was received and what was
drawn at random, and says what is to be done.

Two calls are trusted, both in `codec`: `bincode::serialize` and `bincode::deserialize` on the
fields of a quote. Prices are held as the bit patterns of double-precision numbers.

## The programs, `app/`

`server` and `client` are the two subcommands of one binary. They own the threads, sockets,
channels, files and the clock, and the arithmetic on prices.
