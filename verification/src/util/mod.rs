//! 256-bit numbers, compact difficulty targets and hashing.
pub mod u256;
pub mod compact;
pub mod crypto;
pub mod merkle;
pub mod pow;
pub mod genesis;
pub mod random;
