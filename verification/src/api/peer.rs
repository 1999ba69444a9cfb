//! The query of the peer page.
use vstd::prelude::*;

verus! {

/// A peer asked for by address text and port.
pub struct PeerParams {
    pub address: String,
    pub port: u16,
}

} // verus!
