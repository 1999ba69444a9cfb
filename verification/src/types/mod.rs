//! Values the chain manager and the crawler pass around.
pub mod blockheaderwithnumber;
pub mod addressportnetwork;
