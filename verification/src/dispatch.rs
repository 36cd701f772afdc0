//! Request dispatcher: parses and checks the post-handshake request and
//! decides the proxy action. Only CONNECT leads to a network action; BIND
//! and UDP ASSOCIATE are recognized and refused; a malformed request is
//! rejected outright.
#![allow(unused_imports)]
use vstd::prelude::*;
use crate::addr::{ipv4_text, ipv6_text, domain_text, groups_of};
use crate::digits::dec_text;
use crate::protocol::{ClientRequest, ServerResponse, be16, request_wire_len,
    CLIENT_REQUEST_MAX_LENGTH, SERVER_RESPONSE_MAX_LENGTH, SOCKS5_VERSION, CMD_CONNECT, CMD_BIND,
    CMD_UDP_ASSOCIATE, ADDR_IPV4, ADDR_DOMAIN_NAME, ADDR_IPV6};
use crate::SocksError;

verus! {

/// Whether the first `len` buffer bytes hold a valid request: version 5, a
/// known command, reserved byte zero, a known address type, enough bytes
/// read for the declared encoding, and a non-zero port.
pub open spec fn request_valid(data: Seq<u8>, len: int) -> bool {
    &&& data[0] == SOCKS5_VERSION
    &&& (data[1] == CMD_CONNECT || data[1] == CMD_BIND || data[1] == CMD_UDP_ASSOCIATE)
    &&& data[2] == 0
    &&& (data[3] == ADDR_IPV4 || data[3] == ADDR_DOMAIN_NAME || data[3] == ADDR_IPV6)
    &&& len >= request_wire_len(data)
    &&& request_port(data) != 0
}

/// The request's target port, read where its address encoding ends.
pub open spec fn request_port(data: Seq<u8>) -> u16 {
    if data[3] == ADDR_IPV4 {
        be16(data[8], data[9])
    } else if data[3] == ADDR_DOMAIN_NAME {
        be16(data[5 + data[4] as int], data[6 + data[4] as int])
    } else if data[3] == ADDR_IPV6 {
        be16(data[20], data[21])
    } else {
        0
    }
}

/// The request's target address as text, per its address-type byte.
pub open spec fn request_address_text(data: Seq<u8>) -> Seq<char> {
    if data[3] == ADDR_IPV4 {
        ipv4_text(data[4], data[5], data[6], data[7])
    } else if data[3] == ADDR_DOMAIN_NAME {
        domain_text(data.subrange(5, 5 + data[4] as int))
    } else if data[3] == ADDR_IPV6 {
        ipv6_text(groups_of(data.subrange(4, 20)))
    } else {
        Seq::empty()
    }
}

/// The `address:port` text the dispatcher connects to for a CONNECT.
pub open spec fn request_target_text(data: Seq<u8>) -> Seq<char> {
    request_address_text(data) + seq![':'] + dec_text(request_port(data) as nat)
}

/// What the dispatcher decides for one request.
pub enum DispatchAction {
    /// The request failed its validity check: nothing is sent, the
    /// connection closes with a protocol violation.
    Reject,
    /// A CONNECT: open an upstream TCP connection to this `address:port`
    /// target; on success send the success reply and begin relaying, on
    /// failure close with a connection failure.
    Connect(String),
    /// BIND or UDP ASSOCIATE: well-formed but unimplemented. No network
    /// action is taken; the connection closes with "command not
    /// implemented".
    Unsupported,
}

impl DispatchAction {
    /// The error a dispatch decision stands for before any network action:
    /// a rejection is a protocol violation and an unsupported command is
    /// "command not implemented"; a CONNECT is no error yet (its outbound
    /// connection can still fail with `ConnectionFailed`).
    pub fn error(&self) -> (r: Option<SocksError>)
        ensures
            self is Reject ==> r == Some(SocksError::ProtocolViolation),
            self is Unsupported ==> r == Some(SocksError::CommandNotImplemented),
            self is Connect ==> r is None,
    {
        match self {
            DispatchAction::Reject => Some(SocksError::ProtocolViolation),
            DispatchAction::Unsupported => Some(SocksError::CommandNotImplemented),
            DispatchAction::Connect(_) => None,
        }
    }
}

/// Decides the proxy action for one inbound request read of `len` bytes.
/// A truncated read (fewer bytes than the declared encoding needs) is
/// rejected like any other malformed request. A CONNECT is the only
/// decision that leads to a network action, and its target is exactly the
/// request's decoded `address:port`.
pub fn dispatch_request(data: &[u8; CLIENT_REQUEST_MAX_LENGTH], len: usize) -> (r: DispatchAction)
    ensures
        !request_valid(data@, len as int) ==> r is Reject,
        request_valid(data@, len as int) && data@[1] == CMD_CONNECT ==> (r
            matches DispatchAction::Connect(t) && t@ == request_target_text(data@)),
        request_valid(data@, len as int) && (data@[1] == CMD_BIND || data@[1] == CMD_UDP_ASSOCIATE)
            ==> r is Unsupported,
{
    let req = ClientRequest::from_bytes(*data, len);
    if !req.verify() {
        return DispatchAction::Reject;
    }
    if req.command == CMD_CONNECT {
        DispatchAction::Connect(req.get_addr())
    } else if req.command == CMD_BIND || req.command == CMD_UDP_ASSOCIATE {
        DispatchAction::Unsupported
    } else {
        DispatchAction::Reject
    }
}

/// The wire bytes of the success reply that answers a completed CONNECT:
/// version 5, reply code zero, the unspecified IPv4 address and port zero,
/// and nothing but zeros in the unused tail of the buffer.
pub fn success_reply_bytes() -> (r: ([u8; SERVER_RESPONSE_MAX_LENGTH], usize))
    ensures
        r.1 == 10,
        r.0@.subrange(0, 10) == seq![5u8, 0u8, 0u8, 1u8, 0u8, 0u8, 0u8, 0u8, 0u8, 0u8],
        forall|i: int| 10 <= i < SERVER_RESPONSE_MAX_LENGTH ==> #[trigger] r.0@[i] == 0,
{
    let reply = ServerResponse::rep_succeeded();
    proof {
        assert(reply.address@ == ipv4_text(0u8, 0u8, 0u8, 0u8));
    }
    let (data, size) = reply.to_bytes();
    proof {
        assert(data@.subrange(4, 8) == seq![0u8, 0u8, 0u8, 0u8]);
        assert(data@.subrange(0, 10) =~= seq![5u8, 0u8, 0u8, 1u8, 0u8, 0u8, 0u8, 0u8, 0u8, 0u8]);
    }
    (data, size)
}

} // verus!
