//! Validation of caller-supplied addresses and peer identifiers.
//!
//! The transport's own parsers decide what is a well-formed network address
//! and what is a well-formed peer identifier.  Whether a given text parses
//! depends on the text alone, so each check is named by a spec function and
//! answered by the parser behind a trusted wrapper.

use vstd::prelude::*;

verus! {

/// Whether the transport accepts `s` as a network address.
pub uninterp spec fn addr_parses(s: Seq<char>) -> bool;

/// Whether the transport accepts `s` as a peer identifier.
pub uninterp spec fn peer_parses(s: Seq<char>) -> bool;

/// Relies on `<libp2p::Multiaddr as FromStr>::from_str`: acceptance is a
/// function of the text alone, and the parser returns on every input.
#[verifier::external_body]
pub(crate) fn multiaddr_ok(s: &str) -> (r: bool)
    ensures
        r == addr_parses(s@),
{
    s.parse::<libp2p::Multiaddr>().is_ok()
}

/// Relies on `<libp2p::PeerId as FromStr>::from_str`: acceptance is a
/// function of the text alone, and the parser returns on every input.
#[verifier::external_body]
pub(crate) fn peer_id_ok(s: &str) -> (r: bool)
    ensures
        r == peer_parses(s@),
{
    s.parse::<libp2p::PeerId>().is_ok()
}

} // verus!
