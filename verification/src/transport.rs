//! Transport selection: the rule that decides, once, at the boundary,
//! which adapter carries a slate to a destination.
//!
//! A destination in network-address form (an `http://` or `https://` URL)
//! goes over the synchronous point-to-point adapter; anything else is read
//! as a relay address and goes over the asynchronous relay adapter.  The
//! offline file adapter is never inferred: its two halves are invoked as
//! separate, manually sequenced operations.

use vstd::prelude::*;
use vstd::string::StrSliceExecFns;
use vstd::string::StringExecFns;

verus! {

/// The three interchangeable ways of exchanging a slate.
#[derive(Clone, Copy, Debug, PartialEq, Eq, Structural)]
pub enum TransportKind {
    /// Synchronous point-to-point: connect, send, block for the reply.
    Http,
    /// Offline: the slate is written to and read from a file.
    File,
    /// Asynchronous relay: publish and wait for a correlated reply.
    Relay,
}

/// A destination in network-address form: it begins with a recognized
/// scheme prefix.
pub open spec fn http_dest(s: Seq<char>) -> bool {
    ||| s.len() >= 7 && s.subrange(0, 7) == "http://"@
    ||| s.len() >= 8 && s.subrange(0, 8) == "https://"@
}

/// Chooses the transport for a destination identifier: the synchronous
/// adapter exactly when it has network-address form, the relay adapter
/// otherwise.
pub fn classify_destination(dest: &str) -> (k: TransportKind)
    ensures
        k is Http <==> http_dest(dest@),
        k is Http || k is Relay,
{
    let n = dest.unicode_len();
    if n >= 7 {
        let head = dest.substring_char(0, 7);
        if head.to_owned() == String::from_str("http://") {
            return TransportKind::Http;
        }
    }
    if n >= 8 {
        let head = dest.substring_char(0, 8);
        if head.to_owned() == String::from_str("https://") {
            return TransportKind::Http;
        }
    }
    TransportKind::Relay
}

} // verus!
