//! The layouts of what the explorer stores: block transaction lists,
//! transaction outputs, spends and address history, and the requests queued
//! for the peer and header tables.
pub mod rocksdb;
pub mod batched;
pub mod writes;
