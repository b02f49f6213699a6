//! Plain values for what the network hands to the relay: addresses, the
//! failure of an operation, and the result of a poll.
use vstd::prelude::*;

verus! {

/// An IP address, held as the integer that its octets spell in network order.
#[derive(Clone, Copy, Debug, PartialEq, Eq, Hash, Structural)]
pub enum IpAddress {
    V4(u32),
    V6(u128),
}

/// An IP address and a port.
#[derive(Clone, Copy, Debug, PartialEq, Eq, Hash, Structural)]
pub struct SocketAddress {
    pub ip: IpAddress,
    pub port: u16,
}

impl SocketAddress {
    pub fn new(ip: IpAddress, port: u16) -> (addr: SocketAddress)
        ensures
            addr == (SocketAddress { ip, port }),
    {
        SocketAddress { ip, port }
    }
}

/// Why an operation on a connection, or the attempt to open one, failed.
///
/// The relay treats every kind alike; the kind is kept for the caller.
#[derive(Clone, Copy, Debug, PartialEq, Eq, Hash, Structural)]
pub enum IoError {
    ConnectionRefused,
    ConnectionReset,
    ConnectionAborted,
    NotConnected,
    BrokenPipe,
    TimedOut,
    HostUnreachable,
    NetworkUnreachable,
    Other,
}

/// The result of a poll that did not fail: the number of bytes moved, or the
/// news that the operation would have blocked.
#[derive(Clone, Copy, Debug, PartialEq, Eq, Hash, Structural)]
pub enum Async {
    Ready(usize),
    NotReady,
}

} // verus!
