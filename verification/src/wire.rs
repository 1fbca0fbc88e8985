//! Wire formats: the one's-complement checksum, IPv4 headers and TCP headers.

pub mod checksum;
pub mod ipv4;
pub mod tcp;
