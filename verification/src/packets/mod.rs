//! Wire-format codecs for the Bitcoin peer-to-peer protocol.
pub mod buffer;
pub mod encode;
pub mod varint;
pub mod varstr;
pub mod netaddr;
pub mod invvector;
pub mod blockheader;
pub mod getaddr;
pub mod verack;
pub mod sendheaders;
pub mod sendaddrv2;
pub mod ping;
pub mod pong;
pub mod addr;
pub mod addrv2;
pub mod inv;
pub mod getdata;
pub mod notfound;
pub mod headers;
pub mod version;
pub mod getheaders;
pub mod tx;
pub mod block;
pub mod packetpayload;
pub mod payload;
pub mod packetheader;
pub mod deepclone;
