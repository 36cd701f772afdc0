//! Handshake negotiator: drives the greeting / method-selection exchange.
//! A malformed greeting is rejected with nothing sent; otherwise a selection
//! is always sent, choosing "no authentication required" when offered and
//! the "no acceptable methods" sentinel when not.
#![allow(unused_imports)]
use vstd::prelude::*;
use crate::protocol::{ClientIdentifier, ServerSelect, CLIENT_IDENTIFIER_MAX_LENGTH,
    SOCKS5_VERSION, NO_AUTHENTICATION, NO_ACCEPTABLE_METHODS};
use crate::SocksError;

verus! {

/// Whether a method list offers "no authentication required".
pub open spec fn offers_no_auth(ms: Seq<u8>) -> bool {
    exists|i: int| 0 <= i < ms.len() && ms[i] == NO_AUTHENTICATION
}

/// The selection policy: "no authentication required" when offered, the
/// "no acceptable methods" sentinel otherwise.
pub open spec fn chosen_method(ms: Seq<u8>) -> u8 {
    if offers_no_auth(ms) {
        NO_AUTHENTICATION
    } else {
        NO_ACCEPTABLE_METHODS
    }
}

/// Whether the first `len` buffer bytes hold a valid greeting: version 5,
/// at least one method, and exactly as many method bytes as declared.
pub open spec fn greeting_valid(data: Seq<u8>, len: int) -> bool {
    &&& data[0] == SOCKS5_VERSION
    &&& data[1] != 0
    &&& len >= 2
    &&& len - 2 == data[1] as int
}

/// The methods a greeting offers: every buffer byte after the first two.
pub open spec fn greeting_methods(data: Seq<u8>, len: int) -> Seq<u8> {
    if len >= 2 {
        data.subrange(2, len)
    } else {
        Seq::empty()
    }
}

/// The negotiator's outcome for one greeting.
pub enum Negotiation {
    /// The greeting was malformed: nothing is sent, the connection closes.
    Malformed,
    /// The selection to send, and whether the handshake succeeded. On
    /// `false` (the sentinel was selected) the connection closes after the
    /// selection is sent.
    Selected(ServerSelect, bool),
}

impl Negotiation {
    /// The error a negotiation outcome stands for: a malformed greeting is a
    /// protocol violation, a sentinel selection means no offered method was
    /// acceptable, and a successful selection is no error at all.
    pub fn error(&self) -> (r: Option<SocksError>)
        ensures
            self is Malformed ==> r == Some(SocksError::ProtocolViolation),
            (self matches Negotiation::Selected(_, proceed) && !*proceed) ==> r == Some(
                SocksError::NoAcceptableAuthMethod,
            ),
            (self matches Negotiation::Selected(_, proceed) && *proceed) ==> r is None,
    {
        match self {
            Negotiation::Malformed => Some(SocksError::ProtocolViolation),
            Negotiation::Selected(_, proceed) => {
                if *proceed {
                    None
                } else {
                    Some(SocksError::NoAcceptableAuthMethod)
                }
            },
        }
    }
}

/// Law: a method list that offers "no authentication required" has it
/// chosen.
pub proof fn lemma_no_auth_chosen(ms: Seq<u8>)
    requires
        offers_no_auth(ms),
    ensures
        chosen_method(ms) == NO_AUTHENTICATION,
{
}

/// Law: a method list that does not offer "no authentication required" has
/// the "no acceptable methods" sentinel chosen.
pub proof fn lemma_sentinel_chosen(ms: Seq<u8>)
    requires
        !offers_no_auth(ms),
    ensures
        chosen_method(ms) == NO_ACCEPTABLE_METHODS,
{
}

/// Picks the authentication method for a greeting's offered list.
pub fn select_method(methods: &Vec<u8>) -> (r: u8)
    ensures
        r == chosen_method(methods@),
{
    let mut i: usize = 0;
    while i < methods.len()
        invariant
            i <= methods@.len(),
            forall|j: int| 0 <= j < i ==> methods@[j] != NO_AUTHENTICATION,
        decreases methods@.len() - i,
    {
        if methods[i] == NO_AUTHENTICATION {
            return NO_AUTHENTICATION;
        }
        i = i + 1;
    }
    NO_ACCEPTABLE_METHODS
}

/// Runs the negotiator over one inbound read: parses the greeting, checks
/// it, and decides the selection. Malformed greetings get no selection; all
/// others get exactly one, and the handshake proceeds only when
/// "no authentication required" was offered.
pub fn negotiate_greeting(data: &[u8; CLIENT_IDENTIFIER_MAX_LENGTH], len: usize) -> (r:
    Negotiation)
    requires
        len <= CLIENT_IDENTIFIER_MAX_LENGTH,
    ensures
        !greeting_valid(data@, len as int) ==> r is Malformed,
        greeting_valid(data@, len as int) ==> (r matches Negotiation::Selected(sel, proceed) && {
            &&& sel.version == SOCKS5_VERSION
            &&& sel.method == chosen_method(greeting_methods(data@, len as int))
            &&& proceed == offers_no_auth(greeting_methods(data@, len as int))
        }),
{
    let greeting = ClientIdentifier::from_bytes(*data, len);
    if !greeting.verify() {
        return Negotiation::Malformed;
    }
    let method = select_method(&greeting.methods);
    let selection = ServerSelect::new(method);
    Negotiation::Selected(selection, method == NO_AUTHENTICATION)
}

} // verus!
