//! Socket addresses.

use crate::tcp::conn::Quad;
use vstd::prelude::*;

verus! {

/// One end of a connection: an IPv4 address and a port.
#[derive(Debug, Clone, Copy, PartialEq, Eq, Hash)]
pub struct TcpSocketAddr {
    pub ip: [u8; 4],
    pub port: u16,
}

/// The key of the connection between a local and a remote end.
pub fn quad_between(local: TcpSocketAddr, remote: TcpSocketAddr) -> (id: Quad)
    ensures
        id == (Quad {
            src_ip: local.ip,
            src_port: local.port,
            dst_ip: remote.ip,
            dst_port: remote.port,
        }),
{
    Quad { src_ip: local.ip, src_port: local.port, dst_ip: remote.ip, dst_port: remote.port }
}

} // verus!
