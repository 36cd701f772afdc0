//! Core of a SOCKS5 circuit-relay proxy: wire-format codecs for the four
//! protocol messages, the address codec, the handshake and dispatch decision
//! logic, and the per-chunk relay step. Socket I/O lives outside this crate.
#![allow(unused_imports)]
use vstd::prelude::*;

pub mod addr;
pub mod digits;
pub mod dispatch;
pub mod handshake;
pub mod protocol;
pub mod relay;

verus! {

/// The error taxonomy of the proxy core. Every failure of one connection is
/// one of these; none of them crosses over to another connection.
#[derive(Clone, Copy, Debug, PartialEq, Eq, Structural)]
pub enum SocksError {
    /// Malformed greeting or request: bad version, count mismatch, non-zero
    /// reserved byte, unknown address type, or zero port.
    ProtocolViolation,
    /// None of the methods the client offered is supported.
    NoAcceptableAuthMethod,
    /// The outbound TCP connect failed.
    ConnectionFailed,
    /// BIND or UDP ASSOCIATE was requested; both are unimplemented.
    CommandNotImplemented,
    /// A read or write on a socket failed.
    IoError,
}

} // verus!
