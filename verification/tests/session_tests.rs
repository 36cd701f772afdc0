use socks5::dispatch::{dispatch_request, success_reply_bytes, DispatchAction};
use socks5::handshake::{negotiate_greeting, select_method, Negotiation};
use socks5::protocol::{
    CLIENT_IDENTIFIER_MAX_LENGTH, CLIENT_REQUEST_MAX_LENGTH, NO_ACCEPTABLE_METHODS,
    NO_AUTHENTICATION,
};
use socks5::relay::{relay_step, RelayStep};
use socks5::SocksError;

fn greeting_buffer(bytes: &[u8]) -> [u8; CLIENT_IDENTIFIER_MAX_LENGTH] {
    let mut data = [0u8; CLIENT_IDENTIFIER_MAX_LENGTH];
    data[..bytes.len()].copy_from_slice(bytes);
    data
}

fn request_buffer(bytes: &[u8]) -> [u8; CLIENT_REQUEST_MAX_LENGTH] {
    let mut data = [0u8; CLIENT_REQUEST_MAX_LENGTH];
    data[..bytes.len()].copy_from_slice(bytes);
    data
}

#[test]
fn select_method_prefers_no_auth() {
    assert_eq!(select_method(&vec![2, 0, 1]), NO_AUTHENTICATION);
    assert_eq!(select_method(&vec![0]), NO_AUTHENTICATION);
}

#[test]
fn select_method_rejects_without_no_auth() {
    assert_eq!(select_method(&vec![1, 2]), NO_ACCEPTABLE_METHODS);
    assert_eq!(select_method(&vec![]), NO_ACCEPTABLE_METHODS);
}

#[test]
fn negotiate_accepts_no_auth_greeting() {
    match negotiate_greeting(&greeting_buffer(&[5, 1, 0]), 3) {
        Negotiation::Selected(sel, proceed) => {
            assert!(proceed);
            let (bytes, len) = sel.to_bytes();
            assert_eq!(&bytes[..len], &[5, 0]);
        }
        Negotiation::Malformed => panic!("valid greeting was rejected"),
    }
}

#[test]
fn negotiate_sends_sentinel_without_no_auth() {
    match negotiate_greeting(&greeting_buffer(&[5, 2, 1, 2]), 4) {
        Negotiation::Selected(sel, proceed) => {
            assert!(!proceed);
            let (bytes, len) = sel.to_bytes();
            assert_eq!(&bytes[..len], &[5, 255]);
        }
        Negotiation::Malformed => panic!("valid greeting was rejected"),
    }
}

#[test]
fn negotiate_rejects_bad_version() {
    assert!(matches!(
        negotiate_greeting(&greeting_buffer(&[4, 1, 0]), 3),
        Negotiation::Malformed
    ));
}

#[test]
fn negotiate_rejects_count_mismatch() {
    assert!(matches!(
        negotiate_greeting(&greeting_buffer(&[5, 2, 0]), 3),
        Negotiation::Malformed
    ));
    assert!(matches!(
        negotiate_greeting(&greeting_buffer(&[5, 0]), 2),
        Negotiation::Malformed
    ));
    assert!(matches!(
        negotiate_greeting(&greeting_buffer(&[]), 0),
        Negotiation::Malformed
    ));
}

#[test]
fn dispatch_connect_ipv4_names_target() {
    let action = dispatch_request(&request_buffer(&[5, 1, 0, 1, 127, 0, 0, 1, 0, 80]), 10);
    match action {
        DispatchAction::Connect(target) => assert_eq!(target, "127.0.0.1:80"),
        _ => panic!("CONNECT was not dispatched"),
    }
}

#[test]
fn dispatch_connect_domain_names_target() {
    let mut bytes = vec![5, 1, 0, 3, 15];
    bytes.extend_from_slice(b"www.example.com");
    bytes.extend_from_slice(&[0, 80]);
    let len = bytes.len();
    match dispatch_request(&request_buffer(&bytes), len) {
        DispatchAction::Connect(target) => assert_eq!(target, "www.example.com:80"),
        _ => panic!("CONNECT was not dispatched"),
    }
}

#[test]
fn dispatch_refuses_bind_and_udp() {
    let bind = dispatch_request(&request_buffer(&[5, 2, 0, 1, 127, 0, 0, 1, 0, 80]), 10);
    assert!(matches!(bind, DispatchAction::Unsupported));
    let udp = dispatch_request(&request_buffer(&[5, 3, 0, 1, 127, 0, 0, 1, 0, 80]), 10);
    assert!(matches!(udp, DispatchAction::Unsupported));
}

#[test]
fn dispatch_rejects_malformed_request() {
    let bad_version = dispatch_request(&request_buffer(&[4, 1, 0, 1, 127, 0, 0, 1, 0, 80]), 10);
    assert!(matches!(bad_version, DispatchAction::Reject));
    let zero_port = dispatch_request(&request_buffer(&[5, 1, 0, 1, 127, 0, 0, 1, 0, 0]), 10);
    assert!(matches!(zero_port, DispatchAction::Reject));
    let bad_atyp = dispatch_request(&request_buffer(&[5, 1, 0, 9, 127, 0, 0, 1, 0, 80]), 10);
    assert!(matches!(bad_atyp, DispatchAction::Reject));
}

#[test]
fn success_reply_is_exact() {
    let (bytes, len) = success_reply_bytes();
    assert_eq!(len, 10);
    assert_eq!(&bytes[..len], &[5, 0, 0, 1, 0, 0, 0, 0, 0, 0]);
}

#[test]
fn relay_forwards_exactly_the_read_bytes() {
    let buf = vec![9u8, 8, 7, 6, 5];
    match relay_step(&buf, 3) {
        RelayStep::Forward(out) => assert_eq!(out, vec![9, 8, 7]),
        RelayStep::Done => panic!("relay ended early"),
    }
    match relay_step(&buf, 5) {
        RelayStep::Forward(out) => assert_eq!(out, buf),
        RelayStep::Done => panic!("relay ended early"),
    }
}

#[test]
fn relay_ends_on_empty_read() {
    let buf = vec![1u8, 2, 3];
    assert!(matches!(relay_step(&buf, 0), RelayStep::Done));
}

#[test]
fn end_to_end_no_auth_connect_byte_exchange() {
    // The client greets with version 5 offering only "no authentication".
    let greeting = [5u8, 1, 0];
    let selection = match negotiate_greeting(&greeting_buffer(&greeting), 3) {
        Negotiation::Selected(sel, proceed) => {
            assert!(proceed);
            sel
        }
        Negotiation::Malformed => panic!("valid greeting was rejected"),
    };
    let (sel_bytes, sel_len) = selection.to_bytes();
    assert_eq!(&sel_bytes[..sel_len], &[5, 0]);
    // The client then asks to CONNECT to 127.0.0.1:80.
    let request = [5u8, 1, 0, 1, 0x7f, 0, 0, 1, 0, 0x50];
    let target = match dispatch_request(&request_buffer(&request), 10) {
        DispatchAction::Connect(target) => target,
        _ => panic!("CONNECT was not dispatched"),
    };
    assert_eq!(target, "127.0.0.1:80");
    // Once the upstream connection exists, the reply on the wire is exact.
    let (rep_bytes, rep_len) = success_reply_bytes();
    assert_eq!(&rep_bytes[..rep_len], &[5, 0, 0, 1, 0, 0, 0, 0, 0, 0]);
}

#[test]
fn negotiation_outcomes_name_their_errors() {
    let malformed = negotiate_greeting(&greeting_buffer(&[4, 1, 0]), 3);
    assert_eq!(malformed.error(), Some(SocksError::ProtocolViolation));
    let rejected = negotiate_greeting(&greeting_buffer(&[5, 1, 2]), 3);
    assert_eq!(rejected.error(), Some(SocksError::NoAcceptableAuthMethod));
    let accepted = negotiate_greeting(&greeting_buffer(&[5, 1, 0]), 3);
    assert_eq!(accepted.error(), None);
}

#[test]
fn dispatch_decisions_name_their_errors() {
    let reject = dispatch_request(&request_buffer(&[4, 1, 0, 1, 127, 0, 0, 1, 0, 80]), 10);
    assert_eq!(reject.error(), Some(SocksError::ProtocolViolation));
    let unsupported = dispatch_request(&request_buffer(&[5, 2, 0, 1, 127, 0, 0, 1, 0, 80]), 10);
    assert_eq!(unsupported.error(), Some(SocksError::CommandNotImplemented));
    let connect = dispatch_request(&request_buffer(&[5, 1, 0, 1, 127, 0, 0, 1, 0, 80]), 10);
    assert_eq!(connect.error(), None);
    assert_ne!(SocksError::ConnectionFailed, SocksError::IoError);
}

#[test]
fn dispatch_rejects_truncated_request() {
    // Only nine of the ten CONNECT bytes arrived.
    let action = dispatch_request(&request_buffer(&[5, 1, 0, 1, 127, 0, 0, 1, 0]), 9);
    assert!(matches!(action, DispatchAction::Reject));
    // A domain request cut short of its declared length is rejected too.
    let action = dispatch_request(&request_buffer(&[5, 1, 0, 3, 15, b'w', b'w', b'w', 0]), 9);
    assert!(matches!(action, DispatchAction::Reject));
}
