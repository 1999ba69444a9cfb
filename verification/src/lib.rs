//! A verified model of the Bitcoin peer-to-peer wire format and of the
//! bookkeeping a block explorer does on top of it.
pub mod packets;
pub mod util;
pub mod connect;
pub mod types;
pub mod chainman;
pub mod crawler;
pub mod addrman;
pub mod db;
pub mod miners;
pub mod api;
