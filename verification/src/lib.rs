//! The logic of a service that streams stock quotes.
//!
//! A receiver asks for a stream of some tickers over a line protocol ([`protocol`], [`tickers`];
//! [`connection`] says what a whole connection comes to). The server keeps the table of streams ([`streams`] says what it is, [`sender`] keeps it), makes
//! quotes ([`generator`]) and hands each stream the quotes it asked for. Workers and receivers
//! exchange datagrams ([`udp`]) in the wire format of [`codec`]. A receiver that is not heard of
//! loses its stream.
pub mod codec;
pub mod command;
pub mod connection;
pub mod generator;
pub mod protocol;
pub mod quote;
pub mod sender;
pub mod streams;
pub mod text;
pub mod tickers;
pub mod udp;
