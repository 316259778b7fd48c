use vstd::prelude::*;

verus! {

/// Every way in which serving one connection, or building the routing
/// tables, can fail.
#[derive(Debug)]
pub enum ProxyError {
    /// A socket-level failure, with its cause in words.
    Io(String),
    /// A malformed handshake, request, reply or configuration.
    Protocol(String),
    /// The client offered no acceptable authentication method.
    AuthFailed,
    /// The request asked for a command other than CONNECT.
    UnsupportedCommand(u8),
    /// The request used an unknown address type byte.
    InvalidAddressType(u8),
    /// A dial failed, timed out, or the pool had no slot left.
    ConnectionFailed(String),
    /// A domain could not be resolved to an address.
    DnsResolution(String),
}

} // verus!
