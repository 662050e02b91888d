//! The identity of a peer: its transport address, held as plain integers.

use vstd::prelude::*;

verus! {

/// What a peer is recorded under: the address family (4 or 6), the bits of the
/// IP address, the port, and, for the newer family, the flow information and
/// the scope identifier. Two peers are the same peer exactly when their keys
/// are equal.
pub type PeerKey = (u8, u128, u16, u32, u32);

/// The transport address of the remote end of one connection.
///
/// An address that connects again after a disconnect is the same peer: the
/// identity is the address, not the connection.
#[derive(Clone, Copy, Debug, PartialEq, Eq, Structural)]
#[allow(inconsistent_fields)]
pub enum PeerAddress {
    /// A 32-bit address and a port.
    V4 { ip: u32, port: u16 },
    /// A 128-bit address, a port, the flow information and the scope identifier.
    V6 { ip: u128, port: u16, flowinfo: u32, scope_id: u32 },
}

impl View for PeerAddress {
    type V = PeerKey;

    open spec fn view(&self) -> PeerKey {
        match *self {
            PeerAddress::V4 { ip, port } => (4u8, ip as u128, port, 0u32, 0u32),
            PeerAddress::V6 { ip, port, flowinfo, scope_id } => (6u8, ip, port, flowinfo, scope_id),
        }
    }
}

impl PeerAddress {
    /// The key under which this address is recorded.
    pub fn key(&self) -> (key: PeerKey)
        ensures
            key == self@,
    {
        match *self {
            PeerAddress::V4 { ip, port } => (4u8, ip as u128, port, 0u32, 0u32),
            PeerAddress::V6 { ip, port, flowinfo, scope_id } => (6u8, ip, port, flowinfo, scope_id),
        }
    }
}

/// Distinct addresses have distinct keys: no two peers share a record.
pub proof fn lemma_key_tells_peers_apart(a: PeerAddress, b: PeerAddress)
    ensures
        a@ == b@ <==> a == b,
{
}

} // verus!
