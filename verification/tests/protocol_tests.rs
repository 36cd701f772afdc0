use socks5::protocol::{
    ClientIdentifier, ClientRequest, ServerResponse, ServerSelect, ADDR_DOMAIN_NAME, ADDR_IPV4,
    ADDR_IPV6, CLIENT_IDENTIFIER_MAX_LENGTH, CLIENT_REQUEST_MAX_LENGTH, NO_ACCEPTABLE_METHODS,
    REP_SUCCESS,
};

fn greeting_buffer(bytes: &[u8]) -> [u8; CLIENT_IDENTIFIER_MAX_LENGTH] {
    let mut data = [0u8; CLIENT_IDENTIFIER_MAX_LENGTH];
    data[..bytes.len()].copy_from_slice(bytes);
    data
}

fn request_buffer(bytes: &[u8]) -> [u8; CLIENT_REQUEST_MAX_LENGTH] {
    let mut data = [0u8; CLIENT_REQUEST_MAX_LENGTH];
    data[..bytes.len()].copy_from_slice(bytes);
    data
}

#[test]
fn greeting_from_bytes_reads_fields() {
    let g = ClientIdentifier::from_bytes(greeting_buffer(&[5, 1, 0]), 3);
    assert_eq!(g.version, 5);
    assert_eq!(g.nmethods, 1);
    assert_eq!(g.methods, vec![0]);
    assert!(g.verify());
}

#[test]
fn greeting_verify_rejects_bad_version() {
    let g = ClientIdentifier::from_bytes(greeting_buffer(&[4, 1, 0]), 3);
    assert!(!g.verify());
}

#[test]
fn greeting_verify_rejects_zero_methods() {
    let g = ClientIdentifier::from_bytes(greeting_buffer(&[5, 0]), 2);
    assert!(!g.verify());
}

#[test]
fn greeting_verify_rejects_count_mismatch() {
    let g = ClientIdentifier::from_bytes(greeting_buffer(&[5, 2, 0]), 3);
    assert!(!g.verify());
}

#[test]
fn greeting_to_string_renders() {
    let g = ClientIdentifier::from_bytes(greeting_buffer(&[5, 2, 0, 2]), 4);
    assert_eq!(
        g.to_string(),
        "ClientIdentifier: { VER: 5, NMETHODS: 2, METHODS: [ 0 2 ] }"
    );
}

#[test]
fn server_select_round_trip() {
    let sel = ServerSelect::new(0);
    assert_eq!(sel.version, 5);
    let (bytes, len) = sel.clone().to_bytes();
    assert_eq!(len, 2);
    assert_eq!(&bytes[..len], &[5, 0]);
    assert_eq!(sel.to_string(), "ServerSelect: { VER: 5, METHOD: 0 }");
    let (rejected, len) = ServerSelect::new(NO_ACCEPTABLE_METHODS).to_bytes();
    assert_eq!(&rejected[..len], &[5, 255]);
}

#[test]
fn request_from_bytes_ipv4() {
    let req = ClientRequest::from_bytes(
        request_buffer(&[5, 1, 0, 1, 127, 0, 0, 1, 0, 80]),
        10,
    );
    assert_eq!(req.version, 5);
    assert_eq!(req.command, 1);
    assert_eq!(req.rsv, 0);
    assert_eq!(req.address_type, ADDR_IPV4);
    assert_eq!(req.address, "127.0.0.1");
    assert_eq!(req.port, 80);
    assert!(req.verify());
    assert_eq!(req.get_addr(), "127.0.0.1:80");
}

#[test]
fn request_from_bytes_domain() {
    let mut bytes = vec![5, 1, 0, 3, 15];
    bytes.extend_from_slice(b"www.example.com");
    bytes.extend_from_slice(&[0, 80]);
    let req = ClientRequest::from_bytes(request_buffer(&bytes), bytes.len());
    assert_eq!(req.address_type, ADDR_DOMAIN_NAME);
    assert_eq!(req.address, "www.example.com");
    assert_eq!(req.port, 80);
    assert!(req.verify());
    assert_eq!(req.get_addr(), "www.example.com:80");
}

#[test]
fn request_from_bytes_ipv6() {
    let mut bytes = vec![5, 1, 0, 4];
    let mut addr = vec![0u8; 16];
    addr[15] = 1;
    bytes.extend_from_slice(&addr);
    bytes.extend_from_slice(&[1, 187]);
    let req = ClientRequest::from_bytes(request_buffer(&bytes), bytes.len());
    assert_eq!(req.address_type, ADDR_IPV6);
    assert_eq!(req.address, "0000:0000:0000:0000:0000:0000:0000:0001");
    assert_eq!(req.port, 443);
    assert!(req.verify());
}

#[test]
fn request_verify_rejects_bad_fields() {
    let bad_version = ClientRequest::from_bytes(
        request_buffer(&[4, 1, 0, 1, 127, 0, 0, 1, 0, 80]),
        10,
    );
    assert!(!bad_version.verify());
    let bad_command = ClientRequest::from_bytes(
        request_buffer(&[5, 9, 0, 1, 127, 0, 0, 1, 0, 80]),
        10,
    );
    assert!(!bad_command.verify());
    let bad_rsv = ClientRequest::from_bytes(
        request_buffer(&[5, 1, 7, 1, 127, 0, 0, 1, 0, 80]),
        10,
    );
    assert!(!bad_rsv.verify());
    let bad_atyp = ClientRequest::from_bytes(
        request_buffer(&[5, 1, 0, 2, 127, 0, 0, 1, 0, 80]),
        10,
    );
    assert!(!bad_atyp.verify());
    let zero_port = ClientRequest::from_bytes(
        request_buffer(&[5, 1, 0, 1, 127, 0, 0, 1, 0, 0]),
        10,
    );
    assert!(!zero_port.verify());
}

#[test]
fn request_to_string_renders() {
    let req = ClientRequest::from_bytes(
        request_buffer(&[5, 1, 0, 1, 127, 0, 0, 1, 0, 80]),
        10,
    );
    assert_eq!(
        req.to_string(),
        "ClientRequest: { VER: 5, CMD: 1, RSV: 0, ATYP: 1, DST.ADDR: 127.0.0.1, DST.PORT: 80 }"
    );
}

#[test]
fn response_success_to_bytes() {
    let rep = ServerResponse::rep_succeeded();
    assert_eq!(rep.reply, REP_SUCCESS);
    let (bytes, len) = rep.to_bytes();
    assert_eq!(len, 10);
    assert_eq!(&bytes[..len], &[5, 0, 0, 1, 0, 0, 0, 0, 0, 0]);
}

#[test]
fn response_ipv4_to_bytes() {
    let rep = ServerResponse::new(0, ADDR_IPV4, String::from("10.20.30.40"), 4660);
    let (bytes, len) = rep.to_bytes();
    assert_eq!(len, 10);
    assert_eq!(&bytes[..len], &[5, 0, 0, 1, 10, 20, 30, 40, 0x12, 0x34]);
}

#[test]
fn response_domain_to_bytes() {
    let rep = ServerResponse::new(0, ADDR_DOMAIN_NAME, String::from("example.com"), 80);
    let (bytes, len) = rep.to_bytes();
    assert_eq!(len, 7 + 11);
    assert_eq!(bytes[4], 11);
    assert_eq!(&bytes[5..16], b"example.com");
    assert_eq!(&bytes[16..18], &[0, 80]);
}

#[test]
fn response_ipv6_to_bytes() {
    let rep = ServerResponse::new(
        0,
        ADDR_IPV6,
        String::from("0000:0000:0000:0000:0000:0000:0000:0001"),
        443,
    );
    let (bytes, len) = rep.to_bytes();
    assert_eq!(len, 22);
    let mut expected = vec![5, 0, 0, 4];
    let mut addr = vec![0u8; 16];
    addr[15] = 1;
    expected.extend_from_slice(&addr);
    expected.extend_from_slice(&[1, 187]);
    assert_eq!(&bytes[..len], &expected[..]);
}

#[test]
fn response_to_string_renders() {
    let rep = ServerResponse::rep_succeeded();
    assert_eq!(
        rep.to_string(),
        "ServerResponse: { VER: 5, REP: 0, RSV: 0, ATYP: 1, BND.ADDR: 0.0.0.0, BND.PORT: 0 }"
    );
}

#[test]
fn request_reply_wire_round_trip_ipv4() {
    let wire = [5u8, 1, 0, 1, 192, 168, 0, 7, 0x1f, 0x90];
    let req = ClientRequest::from_bytes(request_buffer(&wire), 10);
    let rep = ServerResponse::new(0, req.address_type, req.address.clone(), req.port);
    let (bytes, len) = rep.to_bytes();
    assert_eq!(len, 10);
    assert_eq!(bytes[1], 0);
    assert_eq!(&bytes[2..4], &wire[2..4]);
    assert_eq!(&bytes[4..10], &wire[4..10]);
}

#[test]
fn request_truncated_read_is_invalid() {
    // Nine bytes read: the second port byte is missing, so the decode fails
    // rather than reading buffer padding as a port.
    let req = ClientRequest::from_bytes(request_buffer(&[5, 1, 0, 1, 127, 0, 0, 1, 0]), 9);
    assert_eq!(req.address, "");
    assert_eq!(req.port, 0);
    assert!(!req.verify());
}

#[test]
fn request_truncated_domain_is_invalid() {
    // The length byte declares 15 bytes but only 4 were read.
    let req = ClientRequest::from_bytes(request_buffer(&[5, 1, 0, 3, 15, b'w', b'w', b'w', 0]), 9);
    assert_eq!(req.address, "");
    assert_eq!(req.port, 0);
    assert!(!req.verify());
}

#[test]
fn response_buffer_tail_is_zero() {
    let (bytes, len) = ServerResponse::rep_succeeded().to_bytes();
    assert_eq!(len, 10);
    assert!(bytes[len..].iter().all(|&b| b == 0));
}

#[test]
fn response_try_to_bytes_succeeds_on_encodable_addresses() {
    let rep = ServerResponse::new(0, ADDR_IPV4, String::from("10.20.30.40"), 4660);
    assert!(rep.is_encodable());
    let (bytes, len) = rep.try_to_bytes().unwrap();
    assert_eq!(&bytes[..len], &[5, 0, 0, 1, 10, 20, 30, 40, 0x12, 0x34]);
    let domain = ServerResponse::new(0, ADDR_DOMAIN_NAME, String::from("example.com"), 80);
    assert!(domain.try_to_bytes().is_some());
}

#[test]
fn response_try_to_bytes_fails_on_unencodable_addresses() {
    let bad_v4 = ServerResponse::new(0, ADDR_IPV4, String::from("not-an-address"), 80);
    assert!(!bad_v4.is_encodable());
    assert!(bad_v4.try_to_bytes().is_none());
    // A compressed IPv6 rendering is not this codec's canonical text.
    let compressed = ServerResponse::new(0, ADDR_IPV6, String::from("::1"), 80);
    assert!(compressed.try_to_bytes().is_none());
    let full = ServerResponse::new(
        0,
        ADDR_IPV6,
        String::from("0000:0000:0000:0000:0000:0000:0000:0001"),
        80,
    );
    assert!(full.try_to_bytes().is_some());
}

#[test]
fn encode_then_decode_round_trips_address_and_port() {
    // A reply buffer and a request buffer share their layout from the
    // address-type byte on, so an encoded address decodes right back.
    let cases = [
        (ADDR_IPV4, "203.0.113.9"),
        (ADDR_DOMAIN_NAME, "example.net"),
        (ADDR_IPV6, "2001:0db8:0000:0000:0000:0000:0000:beef"),
    ];
    for (atyp, addr) in cases {
        let rep = ServerResponse::new(0, atyp, String::from(addr), 4321);
        let (bytes, len) = rep.to_bytes();
        let req = ClientRequest::from_bytes(bytes, len);
        assert_eq!(req.address_type, atyp);
        assert_eq!(req.address, addr);
        assert_eq!(req.port, 4321);
    }
}
