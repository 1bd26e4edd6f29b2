//! The address of a peer, as plain numbers.

use vstd::prelude::*;

verus! {

/// The socket address of a peer: everything by which two socket addresses
/// differ, and nothing else.
#[derive(Debug, Clone, Copy, PartialEq, Eq, Hash, Structural)]
#[allow(inconsistent_fields)]
pub enum PeerAddr {
    /// An IPv4 address, its four bytes as one number, and a port.
    V4 { ip: u32, port: u16 },
    /// An IPv6 address, its sixteen bytes as one number, a port, the flow
    /// label and the scope.
    V6 { ip: u128, port: u16, flowinfo: u32, scope_id: u32 },
}

impl PeerAddr {
    /// The port.
    pub fn port(&self) -> (r: u16)
        ensures
            r == match *self {
                PeerAddr::V4 { ip, port } => port,
                PeerAddr::V6 { ip, port, flowinfo, scope_id } => port,
            },
    {
        match *self {
            PeerAddr::V4 { ip, port } => port,
            PeerAddr::V6 { ip, port, flowinfo, scope_id } => port,
        }
    }

    /// Whether this is an IPv4 address.
    pub fn is_ipv4(&self) -> (r: bool)
        ensures
            r == (*self is V4),
    {
        match *self {
            PeerAddr::V4 { .. } => true,
            PeerAddr::V6 { .. } => false,
        }
    }

    /// Whether this is an IPv6 address.
    pub fn is_ipv6(&self) -> (r: bool)
        ensures
            r == (*self is V6),
    {
        match *self {
            PeerAddr::V4 { .. } => false,
            PeerAddr::V6 { .. } => true,
        }
    }
}

} // verus!
