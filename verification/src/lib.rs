//! Addresses, packets and poll decisions of a transport that carries iroh
//! traffic over the Nym mixnet.
//!
//! - [`addr`]: Nym addresses, and their conversions to and from recipients of the
//!   mixnet and addresses of custom transports.
//! - [`packet`] and [`wire`]: the packet that travels over the mixnet and its encoding.
//! - [`send`], [`recv`] and [`tasks`]: what to do on each poll to send or receive, and in
//!   the task that receives from the mixnet.
//! - [`laws`]: what holds of several of these together.

pub mod addr;
pub mod custom_addr;
pub mod hex;
pub mod laws;
pub mod packet;
pub mod recipient;
pub mod recv;
pub mod send;
pub mod tasks;
pub mod wire;

pub use addr::{
    from_custom_addr, is_nym_addr, to_custom_addr, AddrParseError, NymAddr, NYM_ADDR_SIZE,
    NYM_TRANSPORT_ID,
};
pub use custom_addr::CustomAddr;
pub use packet::NymPacket;
pub use recipient::Recipient;
