//! A userspace IPv6 responder: frames read from a point-to-point tunnel are
//! answered with an ICMPv6 message whose source address is chosen by the hop
//! limit of the inbound packet.

pub mod address;
pub mod checksum;
pub mod engine;
pub mod header;
pub mod packet;
pub mod subnet;
