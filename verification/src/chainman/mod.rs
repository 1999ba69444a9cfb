//! The chain of headers this node follows.
pub mod chain;
pub mod blocksync;
pub mod headersync;
pub mod keepup;
pub mod deps;
