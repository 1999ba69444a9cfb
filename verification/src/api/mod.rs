//! What the explorer's web interface decides: what a searched term is.
pub mod address;
pub mod peer;
pub mod search;
pub mod counterparts;
