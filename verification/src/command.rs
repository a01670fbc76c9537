//! The commands that the stream server obeys.
use vstd::prelude::*;

use crate::text::texts;

verus! {

/// The address of an Internet socket.
#[derive(Clone, Copy, PartialEq, Eq, Structural, Debug)]
pub enum SocketAddress {
    /// An IPv4 address and a port.
    V4(u32, u16),
    /// An IPv6 address, a port, the flow information and the scope.
    V6(u128, u16, u32, u32),
}

/// A command to the stream server.
#[derive(Debug, PartialEq, Eq)]
pub enum Command {
    /// Stream the quotes of these tickers to this address.
    Stream(SocketAddress, Vec<String>),
    /// End the stream to this address.
    Stop(SocketAddress),
    /// End all streams and the server.
    StopSendingAll,
    /// The receiver at this address is still there.
    Ping(SocketAddress),
}

/// What a command says.
pub enum CommandView {
    /// Stream the quotes of these tickers to this address.
    Stream(SocketAddress, Seq<Seq<char>>),
    /// End the stream to this address.
    Stop(SocketAddress),
    /// End all streams and the server.
    StopSendingAll,
    /// The receiver at this address is still there.
    Ping(SocketAddress),
}

impl View for Command {
    type V = CommandView;

    open spec fn view(&self) -> CommandView {
        match self {
            Command::Stream(addr, tickers) => CommandView::Stream(*addr, texts(tickers@)),
            Command::Stop(addr) => CommandView::Stop(*addr),
            Command::StopSendingAll => CommandView::StopSendingAll,
            Command::Ping(addr) => CommandView::Ping(*addr),
        }
    }
}

/// What a command says is all that it holds.
pub proof fn law_command_says_all_it_holds(addr: SocketAddress, tickers: Vec<String>, i: int)
    ensures
        Command::Stop(addr)@ == CommandView::Stop(addr),
        Command::Ping(addr)@ == CommandView::Ping(addr),
        Command::StopSendingAll@ == CommandView::StopSendingAll,
        Command::Stream(addr, tickers)@ is Stream,
        Command::Stream(addr, tickers)@->Stream_0 == addr,
        Command::Stream(addr, tickers)@->Stream_1.len() == tickers@.len(),
        0 <= i < tickers@.len() ==> Command::Stream(addr, tickers)@->Stream_1[i] == tickers@[i]@,
{
}

} // verus!
