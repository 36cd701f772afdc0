//! The four SOCKS5 wire messages: client greeting, server method selection,
//! client connection request and server reply, with their byte codecs and
//! their validity rules.
#![allow(unused_imports)]
use vstd::prelude::*;
use vstd::string::*;
use crate::addr::{ipv4_text, ipv6_text, domain_text, groups_of, format_ipv4, format_ipv6,
    format_domain, parse_ipv4, parse_ipv6, lemma_ipv4_text_injective};
use crate::digits::{dec_text, push_dec_u16};

verus! {

// Largest wire sizes of the four messages.
pub const CLIENT_IDENTIFIER_MAX_LENGTH: usize = 1 + 1 + 255;

pub const SERVER_SELECT_MAX_LENGTH: usize = 1 + 1;

pub const CLIENT_REQUEST_MAX_LENGTH: usize = 1 + 1 + 1 + 1 + (1 + 255) + 2;

pub const SERVER_RESPONSE_MAX_LENGTH: usize = 1 + 1 + 1 + 1 + (1 + 255) + 2;

// Protocol version.
pub const SOCKS5_VERSION: u8 = 5;

// Authentication methods.
pub const NO_AUTHENTICATION: u8 = 0x00;

pub const NO_ACCEPTABLE_METHODS: u8 = 0xFF;

// Commands.
pub type Command = u8;

pub const CMD_ERROR: Command = 0x00;

pub const CMD_CONNECT: Command = 0x01;

pub const CMD_BIND: Command = 0x02;

pub const CMD_UDP_ASSOCIATE: Command = 0x03;

// Address types.
pub type AddressType = u8;

pub const ADDR_ERROR: AddressType = 0x00;

pub const ADDR_IPV4: AddressType = 0x01;

pub const ADDR_DOMAIN_NAME: AddressType = 0x03;

pub const ADDR_IPV6: AddressType = 0x04;

// Reply codes.
pub type Reply = u8;

pub const REP_SUCCESS: Reply = 0x00;

pub const REP_GENERAL_FAILURE: Reply = 0x01;

pub const REP_CONNECTION_NOT_ALLOWED: Reply = 0x02;

pub const REP_NETWORK_UNREACHABLE: Reply = 0x03;

pub const REP_HOST_UNREACHABLE: Reply = 0x04;

pub const REP_CONNECTION_REFUSED: Reply = 0x05;

pub const REP_TTL_EXPIRED: Reply = 0x06;

pub const REP_COMMAND_NOT_SUPPORTED: Reply = 0x07;

pub const REP_ADDRESS_TYPE_NOT_SUPPORTED: Reply = 0x08;

/// The big-endian 16-bit value of two bytes.
pub open spec fn be16(hi: u8, lo: u8) -> u16 {
    ((hi as nat) * 256 + (lo as nat)) as u16
}

/// Every character has a code below 256, so one byte can carry it.
pub open spec fn one_byte_chars(cs: Seq<char>) -> bool {
    forall|i: int| 0 <= i < cs.len() ==> #[trigger] (cs[i] as int) < 256
}

/// The bytes the declared encoding of a request needs on the wire: four
/// header bytes, the address in the encoding its type byte names, and the
/// two port bytes. Zero for an unknown address type.
pub open spec fn request_wire_len(data: Seq<u8>) -> int {
    if data[3] == ADDR_IPV4 {
        10
    } else if data[3] == ADDR_DOMAIN_NAME {
        7 + data[4] as int
    } else if data[3] == ADDR_IPV6 {
        22
    } else {
        0
    }
}

/// The byte of each character, for text whose characters fit one byte each.
pub open spec fn domain_bytes(cs: Seq<char>) -> Seq<u8> {
    cs.map_values(|c: char| c as u8)
}

/// The client's greeting: its protocol version and offered methods.
#[derive(Clone)]
pub struct ClientIdentifier {
    pub version: u8,
    pub nmethods: u8,
    pub methods: Vec<u8>,
}

impl ClientIdentifier {
    /// A greeting is valid when it speaks version 5, offers at least one
    /// method, and its declared count matches the methods present.
    pub open spec fn valid(self) -> bool {
        &&& self.version == SOCKS5_VERSION
        &&& self.nmethods != 0
        &&& self.methods@.len() == self.nmethods as nat
    }

    /// Reads a greeting out of the first `len` bytes of a receive buffer:
    /// version, declared method count, then every remaining byte as a method.
    pub fn from_bytes(data: [u8; CLIENT_IDENTIFIER_MAX_LENGTH], len: usize) -> (r:
        ClientIdentifier)
        requires
            len <= CLIENT_IDENTIFIER_MAX_LENGTH,
        ensures
            r.version == data@[0],
            r.nmethods == data@[1],
            len >= 2 ==> r.methods@ == data@.subrange(2, len as int),
            len < 2 ==> r.methods@ == Seq::<u8>::empty(),
    {
        let mut methods: Vec<u8> = Vec::new();
        let mut i: usize = 2;
        while i < len
            invariant
                2 <= i,
                i <= len || i == 2,
                len <= CLIENT_IDENTIFIER_MAX_LENGTH,
                methods@ == if i <= len {
                    data@.subrange(2, i as int)
                } else {
                    Seq::<u8>::empty()
                },
            decreases len - i,
        {
            methods.push(data[i]);
            proof {
                assert(data@.subrange(2, i as int).push(data@[i as int]) =~= data@.subrange(
                    2,
                    i as int + 1,
                ));
            }
            i = i + 1;
        }
        proof {
            if len >= 2 {
                assert(data@.subrange(2, 2) =~= Seq::<u8>::empty());
            }
        }
        ClientIdentifier { version: data[0], nmethods: data[1], methods }
    }

    /// Checks the greeting's validity.
    pub fn verify(&self) -> (r: bool)
        ensures
            r == self.valid(),
    {
        if self.version != 5 {
            return false;
        }
        if self.nmethods == 0 {
            return false;
        }
        if self.methods.len() != self.nmethods as usize {
            return false;
        }
        true
    }

    /// The rendered form of the greeting, for diagnostics.
    pub open spec fn text(self) -> Seq<char> {
        "ClientIdentifier: { VER: "@ + dec_text(self.version as nat) + ", NMETHODS: "@ + dec_text(
            self.nmethods as nat,
        ) + ", METHODS: [ "@ + methods_text(self.methods@) + "] }"@
    }

    /// Renders the greeting.
    pub fn to_string(self) -> (r: String)
        ensures
            r@ == self.text(),
    {
        let mut s = String::from_str("ClientIdentifier: { VER: ");
        push_dec_u16(&mut s, self.version as u16);
        s.append(", NMETHODS: ");
        push_dec_u16(&mut s, self.nmethods as u16);
        s.append(", METHODS: [ ");
        let ghost head = s@;
        let mut i: usize = 0;
        while i < self.methods.len()
            invariant
                i <= self.methods@.len(),
                s@ == head + methods_text(self.methods@.subrange(0, i as int)),
            decreases self.methods@.len() - i,
        {
            push_dec_u16(&mut s, self.methods[i] as u16);
            s.append(" ");
            proof {
                reveal_strlit(" ");
                assert(" "@ =~= seq![' ']);
                let ms = self.methods@;
                assert(ms.subrange(0, i as int + 1).drop_last() =~= ms.subrange(0, i as int));
                assert(ms.subrange(0, i as int + 1).last() == ms[i as int]);
                assert(methods_text(ms.subrange(0, i as int + 1)) == methods_text(
                    ms.subrange(0, i as int),
                ) + dec_text(ms[i as int] as nat) + seq![' ']);
                assert(s@ =~= head + methods_text(ms.subrange(0, i as int + 1)));
            }
            i = i + 1;
        }
        s.append("] }");
        proof {
            assert(methods_text(self.methods@.subrange(0, 0)) == Seq::<char>::empty());
            assert(head + Seq::<char>::empty() =~= head);
            assert(self.methods@.subrange(0, self.methods@.len() as int) =~= self.methods@);
        }
        s
    }
}

/// The rendered list of a greeting's methods, each followed by one space.
pub open spec fn methods_text(ms: Seq<u8>) -> Seq<char>
    decreases ms.len(),
{
    if ms.len() == 0 {
        Seq::empty()
    } else {
        methods_text(ms.drop_last()) + dec_text(ms.last() as nat) + seq![' ']
    }
}

/// The server's method selection: always version 5 plus the chosen method.
#[derive(Clone)]
pub struct ServerSelect {
    pub version: u8,
    pub method: u8,
}

impl ServerSelect {
    pub fn new(method: u8) -> (r: ServerSelect)
        ensures
            r.version == SOCKS5_VERSION,
            r.method == method,
    {
        ServerSelect { version: 0x05, method }
    }

    /// The two-byte wire form of the selection.
    pub fn to_bytes(self) -> (r: ([u8; SERVER_SELECT_MAX_LENGTH], usize))
        ensures
            r.0@ == seq![self.version, self.method],
            r.1 == 2,
    {
        let out: [u8; SERVER_SELECT_MAX_LENGTH] = [self.version, self.method];
        proof {
            assert(out@ =~= seq![self.version, self.method]);
        }
        (out, 2)
    }

    /// The rendered form of the selection, for diagnostics.
    pub open spec fn text(self) -> Seq<char> {
        "ServerSelect: { VER: "@ + dec_text(self.version as nat) + ", METHOD: "@ + dec_text(
            self.method as nat,
        ) + " }"@
    }

    /// Renders the selection.
    pub fn to_string(self) -> (r: String)
        ensures
            r@ == self.text(),
    {
        let mut s = String::from_str("ServerSelect: { VER: ");
        push_dec_u16(&mut s, self.version as u16);
        s.append(", METHOD: ");
        push_dec_u16(&mut s, self.method as u16);
        s.append(" }");
        s
    }
}

/// The client's connection request: command, target address and port.
#[derive(Clone)]
pub struct ClientRequest {
    pub version: u8,
    pub command: Command,
    pub rsv: u8,
    pub address_type: AddressType,
    pub address: String,
    pub port: u16,
}

impl ClientRequest {
    /// A request is valid when it speaks version 5, carries one of the three
    /// commands, keeps the reserved byte zero, names one of the three address
    /// types, and asks for a non-zero port.
    pub open spec fn valid(self) -> bool {
        &&& self.version == SOCKS5_VERSION
        &&& (self.command == CMD_CONNECT || self.command == CMD_BIND || self.command
            == CMD_UDP_ASSOCIATE)
        &&& self.rsv == 0
        &&& (self.address_type == ADDR_IPV4 || self.address_type == ADDR_DOMAIN_NAME
            || self.address_type == ADDR_IPV6)
        &&& self.port != 0
    }

    /// Reads a request out of the first `len` bytes of a receive buffer:
    /// the four header bytes, then the target address in the encoding the
    /// address-type byte names, then the big-endian port. When fewer bytes
    /// were read than the declared encoding needs, the address decode fails:
    /// the address is left empty and the port zero, so the request cannot
    /// pass `verify`. An unknown address type fails the same way. A decoded
    /// IPv6 address is rendered in the codec's fixed-width canonical text,
    /// not the zero-run-compressed form (see `crate::addr`).
    pub fn from_bytes(data: [u8; CLIENT_REQUEST_MAX_LENGTH], len: usize) -> (r: ClientRequest)
        ensures
            r.version == data@[0],
            r.command == data@[1],
            r.rsv == data@[2],
            r.address_type == data@[3],
            data@[3] == ADDR_IPV4 && len >= 10 ==> r.address@ == ipv4_text(
                data@[4],
                data@[5],
                data@[6],
                data@[7],
            ) && r.port == be16(data@[8], data@[9]),
            data@[3] == ADDR_DOMAIN_NAME && len as int >= 7 + data@[4] as int ==> r.address@
                == domain_text(data@.subrange(5, 5 + data@[4] as int)) && r.port == be16(
                data@[5 + data@[4] as int],
                data@[6 + data@[4] as int],
            ),
            data@[3] == ADDR_IPV6 && len >= 22 ==> r.address@ == ipv6_text(
                groups_of(data@.subrange(4, 20)),
            ) && r.port == be16(data@[20], data@[21]),
            ((data@[3] != ADDR_IPV4 && data@[3] != ADDR_DOMAIN_NAME && data@[3] != ADDR_IPV6)
                || (len as int) < request_wire_len(data@)) ==> r.address@ == Seq::<char>::empty()
                && r.port == 0,
    {
        let version = data[0];
        let command = data[1];
        let rsv = data[2];
        let address_type = data[3];
        let mut address = String::new();
        let mut port: u16 = 0;
        if address_type == ADDR_IPV4 && len >= 10 {
            address = format_ipv4(data[4], data[5], data[6], data[7]);
            port = (data[8] as u16) * 256 + (data[9] as u16);
        } else if address_type == ADDR_DOMAIN_NAME && len >= 7 + (data[4] as usize) {
            let dlen = data[4] as usize;
            let mut bytes: Vec<u8> = Vec::new();
            let mut i: usize = 0;
            while i < dlen
                invariant
                    dlen == data@[4] as int,
                    dlen <= 255,
                    i <= dlen,
                    bytes@ == data@.subrange(5, 5 + i as int),
                decreases dlen - i,
            {
                bytes.push(data[5 + i]);
                proof {
                    assert(data@.subrange(5, 5 + i as int).push(data@[5 + i as int])
                        =~= data@.subrange(5, 5 + i as int + 1));
                }
                i = i + 1;
            }
            proof {
                assert(data@.subrange(5, 5) =~= Seq::<u8>::empty());
            }
            address = format_domain(&bytes);
            port = (data[5 + dlen] as u16) * 256 + (data[6 + dlen] as u16);
        } else if address_type == ADDR_IPV6 && len >= 22 {
            let mut bytes: Vec<u8> = Vec::new();
            let mut i: usize = 0;
            while i < 16
                invariant
                    i <= 16,
                    bytes@ == data@.subrange(4, 4 + i as int),
                decreases 16 - i,
            {
                bytes.push(data[4 + i]);
                proof {
                    assert(data@.subrange(4, 4 + i as int).push(data@[4 + i as int])
                        =~= data@.subrange(4, 4 + i as int + 1));
                }
                i = i + 1;
            }
            proof {
                assert(data@.subrange(4, 4) =~= Seq::<u8>::empty());
            }
            address = format_ipv6(&bytes);
            port = (data[20] as u16) * 256 + (data[21] as u16);
        }
        ClientRequest { version, command, rsv, address_type, address, port }
    }

    /// The `address:port` form handed to the outbound connector.
    pub fn get_addr(self) -> (r: String)
        ensures
            r@ == self.address@ + seq![':'] + dec_text(self.port as nat),
    {
        let mut s = self.address;
        let ghost base = s@;
        s.push(':');
        push_dec_u16(&mut s, self.port);
        proof {
            assert(base.push(':') =~= base + seq![':']);
        }
        s
    }

    /// Checks the request's validity.
    pub fn verify(&self) -> (r: bool)
        ensures
            r == self.valid(),
    {
        if self.version != 5 {
            return false;
        }
        if !(self.command == CMD_CONNECT || self.command == CMD_BIND || self.command
            == CMD_UDP_ASSOCIATE) {
            return false;
        }
        if self.rsv != 0 {
            return false;
        }
        if !(self.address_type == ADDR_IPV4 || self.address_type == ADDR_DOMAIN_NAME
            || self.address_type == ADDR_IPV6) {
            return false;
        }
        if self.port == 0 {
            return false;
        }
        true
    }

    /// The rendered form of the request, for diagnostics.
    pub open spec fn text(self) -> Seq<char> {
        "ClientRequest: { VER: "@ + dec_text(self.version as nat) + ", CMD: "@ + dec_text(
            self.command as nat,
        ) + ", RSV: "@ + dec_text(self.rsv as nat) + ", ATYP: "@ + dec_text(
            self.address_type as nat,
        ) + ", DST.ADDR: "@ + self.address@ + ", DST.PORT: "@ + dec_text(self.port as nat) + " }"@
    }

    /// Renders the request.
    pub fn to_string(self) -> (r: String)
        ensures
            r@ == self.text(),
    {
        let mut s = String::from_str("ClientRequest: { VER: ");
        push_dec_u16(&mut s, self.version as u16);
        s.append(", CMD: ");
        push_dec_u16(&mut s, self.command as u16);
        s.append(", RSV: ");
        push_dec_u16(&mut s, self.rsv as u16);
        s.append(", ATYP: ");
        push_dec_u16(&mut s, self.address_type as u16);
        s.append(", DST.ADDR: ");
        s.append(self.address.as_str());
        s.append(", DST.PORT: ");
        push_dec_u16(&mut s, self.port);
        s.append(" }");
        s
    }
}

/// The server's reply: outcome code plus the bound address it reports.
#[derive(Clone)]
pub struct ServerResponse {
    pub version: u8,
    pub reply: Reply,
    pub rsv: u8,
    pub address_type: AddressType,
    pub address: String,
    pub port: u16,
}

impl ServerResponse {
    pub fn new(reply: u8, address_type: AddressType, address: String, port: u16) -> (r:
        ServerResponse)
        ensures
            r.version == SOCKS5_VERSION,
            r.reply == reply,
            r.rsv == 0,
            r.address_type == address_type,
            r.address == address,
            r.port == port,
    {
        ServerResponse { version: 0x05, reply, rsv: 0x00, address_type, address, port }
    }

    /// The success reply: code zero with the unspecified IPv4 address and
    /// port zero, since this relay does not expose its own bound address.
    pub fn rep_succeeded() -> (r: ServerResponse)
        ensures
            r.version == SOCKS5_VERSION,
            r.reply == REP_SUCCESS,
            r.rsv == 0,
            r.address_type == ADDR_IPV4,
            r.address@ == ipv4_text(0, 0, 0, 0),
            r.port == 0,
    {
        ServerResponse::new(REP_SUCCESS, ADDR_IPV4, format_ipv4(0, 0, 0, 0), 0)
    }

    /// Whether the bound address text can be encoded as the named address
    /// type: IPv4 text must be dotted decimal, IPv6 text the codec's
    /// fixed-width canonical form (a compressed rendering such as `::1` is
    /// not encodable; see `crate::addr`), and a domain name's characters
    /// must each fit one byte. Encoding fails on exactly the other replies.
    pub open spec fn encodable(self) -> bool {
        &&& (self.address_type == ADDR_IPV4 ==> exists|a: u8, b: u8, c: u8, d: u8|
            self.address@ == ipv4_text(a, b, c, d))
        &&& (self.address_type == ADDR_IPV6 ==> exists|bs: Seq<u8>|
            bs.len() == 16 && self.address@ == ipv6_text(groups_of(bs)))
        &&& (self.address_type == ADDR_DOMAIN_NAME ==> one_byte_chars(self.address@))
    }

    /// The reply's wire form: the four header bytes, the bound address in
    /// its named encoding, the big-endian port, and only zeros in the
    /// unused tail of the buffer. `size` is the number of bytes in use; a
    /// domain longer than 255 bytes is cut to 255, and an unknown address
    /// type uses no bytes at all.
    pub open spec fn wire_form(self, out: Seq<u8>, size: int) -> bool {
        &&& out.len() == SERVER_RESPONSE_MAX_LENGTH
        &&& out[0] == self.version
        &&& out[1] == self.reply
        &&& out[2] == self.rsv
        &&& out[3] == self.address_type
        &&& (self.address_type == ADDR_IPV4 ==> size == 10 && out[8] == self.port / 256 && out[9]
            == self.port as u8 && forall|a: u8, b: u8, c: u8, d: u8|
            self.address@ == #[trigger] ipv4_text(a, b, c, d) ==> out.subrange(4, 8)
                == seq![a, b, c, d])
        &&& (self.address_type == ADDR_IPV6 ==> size == 22 && out[20] == self.port / 256 && out[21]
            == self.port as u8 && forall|bs: Seq<u8>|
            bs.len() == 16 && self.address@ == #[trigger] ipv6_text(groups_of(bs)) ==> out.subrange(
                4,
                20,
            ) == bs)
        &&& (self.address_type == ADDR_DOMAIN_NAME ==> {
            let l = if self.address@.len() <= 255 {
                self.address@.len() as int
            } else {
                255
            };
            &&& size == 7 + l
            &&& out[4] == l
            &&& out.subrange(5, 5 + l) == domain_bytes(self.address@.subrange(0, l))
            &&& out[5 + l] == self.port / 256
            &&& out[6 + l] == self.port as u8
        })
        &&& ((self.address_type != ADDR_IPV4 && self.address_type != ADDR_DOMAIN_NAME
            && self.address_type != ADDR_IPV6) ==> size == 0)
        &&& (forall|i: int| 4 <= i < out.len() && size <= i ==> #[trigger] out[i] == 0)
    }

    /// The wire form of the reply; returns the buffer and the number of
    /// bytes in use. The address text must be encodable as the named type
    /// (`try_to_bytes` is the form with the encode failure).
    #[verifier::rlimit(100)]
    pub fn to_bytes(self) -> (r: ([u8; SERVER_RESPONSE_MAX_LENGTH], usize))
        requires
            self.encodable(),
        ensures
            self.wire_form(r.0@, r.1 as int),
    {
        let mut data: [u8; SERVER_RESPONSE_MAX_LENGTH] = [0u8; SERVER_RESPONSE_MAX_LENGTH];
        proof {
            assert(forall|j: int|
                0 <= j < SERVER_RESPONSE_MAX_LENGTH ==> #[trigger] data@[j] == 0);
        }
        data[0] = self.version;
        data[1] = self.reply;
        data[2] = self.rsv;
        data[3] = self.address_type;
        let mut size: usize = 0;
        proof {
            assert(forall|j: int|
                4 <= j < SERVER_RESPONSE_MAX_LENGTH ==> #[trigger] data@[j] == 0);
        }
        if self.address_type == ADDR_IPV4 {
            let q = match parse_ipv4(self.address.as_str()) {
                Some(q) => q,
                None => {
                    proof {
                        let (a, b, c, d) = choose|a: u8, b: u8, c: u8, d: u8|
                            self.address@ == ipv4_text(a, b, c, d);
                        assert(self.address@ == ipv4_text(a, b, c, d));
                        assert(false);
                    }
                    (0, 0, 0, 0)
                },
            };
            data[4] = q.0;
            data[5] = q.1;
            data[6] = q.2;
            data[7] = q.3;
            data[8] = (self.port / 256) as u8;
            data[9] = (self.port % 256) as u8;
            size = 10;
            proof {
                assert(forall|j: int|
                    10 <= j < SERVER_RESPONSE_MAX_LENGTH ==> #[trigger] data@[j] == 0);
                assert forall|a: u8, b: u8, c: u8, d: u8|
                    self.address@ == #[trigger] ipv4_text(a, b, c, d) implies data@.subrange(4, 8)
                    == seq![a, b, c, d] by {
                    lemma_ipv4_text_injective(q.0, q.1, q.2, q.3, a, b, c, d);
                    assert(data@.subrange(4, 8) =~= seq![a, b, c, d]);
                }
                let p: u16 = self.port;
                assert(p % 256 == p as u8) by (bit_vector);
                assert(self.port % 256 == self.port as u8);
            }
        } else if self.address_type == ADDR_DOMAIN_NAME {
            let s = self.address.as_str();
            let full = s.unicode_len();
            let l: usize = if full <= 255 {
                full
            } else {
                255
            };
            let mut i: usize = 0;
            while i < l
                invariant
                    l <= 255,
                    l as nat <= self.address@.len(),
                    i <= l,
                    one_byte_chars(self.address@),
                    s@ == self.address@,
                    data@.len() == SERVER_RESPONSE_MAX_LENGTH,
                    data@[0] == self.version,
                    data@[1] == self.reply,
                    data@[2] == self.rsv,
                    data@[3] == self.address_type,
                    data@.subrange(5, 5 + i as int) == domain_bytes(
                        self.address@.subrange(0, i as int),
                    ),
                    forall|j: int|
                        5 + i as int <= j < SERVER_RESPONSE_MAX_LENGTH ==> #[trigger] data@[j]
                            == 0,
                decreases l - i,
            {
                let c = s.get_char(i);
                data[5 + i] = c as u8;
                proof {
                    assert(self.address@.subrange(0, i as int + 1) =~= self.address@.subrange(
                        0,
                        i as int,
                    ).push(c));
                    assert(domain_bytes(self.address@.subrange(0, i as int).push(c))
                        =~= domain_bytes(self.address@.subrange(0, i as int)).push(c as u8));
                    assert(data@.subrange(5, 5 + i as int + 1) =~= data@.subrange(
                        5,
                        5 + i as int,
                    ).push(c as u8));
                }
                i = i + 1;
            }
            data[4] = l as u8;
            data[5 + l] = (self.port / 256) as u8;
            data[6 + l] = (self.port % 256) as u8;
            size = 7 + l;
            proof {
                assert(forall|j: int|
                    7 + l as int <= j < SERVER_RESPONSE_MAX_LENGTH ==> #[trigger] data@[j] == 0);
                assert(data@.subrange(5, 5 + l as int) == domain_bytes(
                    self.address@.subrange(0, l as int),
                ));
                let p: u16 = self.port;
                assert(p % 256 == p as u8) by (bit_vector);
                assert(self.port % 256 == self.port as u8);
            }
        } else if self.address_type == ADDR_IPV6 {
            let bytes = match parse_ipv6(self.address.as_str()) {
                Some(v) => v,
                None => {
                    proof {
                        let w = choose|w: Seq<u8>|
                            w.len() == 16 && self.address@ == ipv6_text(groups_of(w));
                        assert(w.len() == 16 && self.address@ == ipv6_text(groups_of(w)));
                        assert(false);
                    }
                    Vec::new()
                },
            };
            let mut i: usize = 0;
            while i < 16
                invariant
                    bytes@.len() == 16,
                    i <= 16,
                    data@.len() == SERVER_RESPONSE_MAX_LENGTH,
                    data@[0] == self.version,
                    data@[1] == self.reply,
                    data@[2] == self.rsv,
                    data@[3] == self.address_type,
                    data@.subrange(4, 4 + i as int) == bytes@.subrange(0, i as int),
                    forall|j: int|
                        4 + i as int <= j < SERVER_RESPONSE_MAX_LENGTH ==> #[trigger] data@[j]
                            == 0,
                decreases 16 - i,
            {
                data[4 + i] = bytes[i];
                proof {
                    assert(data@.subrange(4, 4 + i as int + 1) =~= data@.subrange(
                        4,
                        4 + i as int,
                    ).push(bytes@[i as int]));
                    assert(bytes@.subrange(0, i as int + 1) =~= bytes@.subrange(0, i as int).push(
                        bytes@[i as int],
                    ));
                }
                i = i + 1;
            }
            proof {
                assert(bytes@.subrange(0, 16) =~= bytes@);
                assert(data@.subrange(4, 20) == bytes@);
            }
            data[20] = (self.port / 256) as u8;
            data[21] = (self.port % 256) as u8;
            size = 22;
            proof {
                assert(forall|j: int|
                    22 <= j < SERVER_RESPONSE_MAX_LENGTH ==> #[trigger] data@[j] == 0);
                assert(data@.subrange(4, 20) =~= bytes@);
                let p: u16 = self.port;
                assert(p % 256 == p as u8) by (bit_vector);
                assert(self.port % 256 == self.port as u8);
            }
        }
        (data, size)
    }

    /// Checks whether the bound address text can be encoded as the named
    /// address type.
    pub fn is_encodable(&self) -> (r: bool)
        ensures
            r == self.encodable(),
    {
        if self.address_type == ADDR_IPV4 {
            match parse_ipv4(self.address.as_str()) {
                Some(q) => {
                    proof {
                        assert(self.address@ == ipv4_text(q.0, q.1, q.2, q.3));
                    }
                    true
                },
                None => false,
            }
        } else if self.address_type == ADDR_IPV6 {
            match parse_ipv6(self.address.as_str()) {
                Some(v) => {
                    proof {
                        assert(v@.len() == 16 && self.address@ == ipv6_text(groups_of(v@)));
                    }
                    true
                },
                None => false,
            }
        } else if self.address_type == ADDR_DOMAIN_NAME {
            let s = self.address.as_str();
            let n = s.unicode_len();
            let mut i: usize = 0;
            while i < n
                invariant
                    self.address_type == ADDR_DOMAIN_NAME,
                    n as nat == self.address@.len(),
                    s@ == self.address@,
                    i <= n,
                    forall|j: int| 0 <= j < i ==> #[trigger] (self.address@[j] as int) < 256,
                decreases n - i,
            {
                let c = s.get_char(i);
                if c as u32 >= 256 {
                    proof {
                        assert(self.address@[i as int] as int >= 256);
                        assert(!one_byte_chars(self.address@));
                    }
                    return false;
                }
                i = i + 1;
            }
            true
        } else {
            true
        }
    }

    /// The wire form of the reply, or `None` exactly when the bound
    /// address text cannot be encoded as the named address type: the
    /// address codec's encode failure, on which no bytes are produced at
    /// all, so nothing garbled can reach the wire.
    pub fn try_to_bytes(self) -> (r: Option<([u8; SERVER_RESPONSE_MAX_LENGTH], usize)>)
        ensures
            r is Some <==> self.encodable(),
            r matches Some(p) ==> self.wire_form(p.0@, p.1 as int),
    {
        if self.is_encodable() {
            Some(self.to_bytes())
        } else {
            None
        }
    }

    /// The rendered form of the reply, for diagnostics.
    pub open spec fn text(self) -> Seq<char> {
        "ServerResponse: { VER: "@ + dec_text(self.version as nat) + ", REP: "@ + dec_text(
            self.reply as nat,
        ) + ", RSV: "@ + dec_text(self.rsv as nat) + ", ATYP: "@ + dec_text(
            self.address_type as nat,
        ) + ", BND.ADDR: "@ + self.address@ + ", BND.PORT: "@ + dec_text(self.port as nat) + " }"@
    }

    /// Renders the reply.
    pub fn to_string(self) -> (r: String)
        ensures
            r@ == self.text(),
    {
        let mut s = String::from_str("ServerResponse: { VER: ");
        push_dec_u16(&mut s, self.version as u16);
        s.append(", REP: ");
        push_dec_u16(&mut s, self.reply as u16);
        s.append(", RSV: ");
        push_dec_u16(&mut s, self.rsv as u16);
        s.append(", ATYP: ");
        push_dec_u16(&mut s, self.address_type as u16);
        s.append(", BND.ADDR: ");
        s.append(self.address.as_str());
        s.append(", BND.PORT: ");
        push_dec_u16(&mut s, self.port);
        s.append(" }");
        s
    }
}

} // verus!
