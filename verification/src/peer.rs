use vstd::prelude::*;

verus! {

/// The network address of a peer (an IP address with a port), held as plain
/// integers: an IPv4 address as its 32-bit value, an IPv6 address as its
/// 128-bit value together with its flow information and scope identifier.
/// Two addresses are equal exactly when all their parts are equal.
#[derive(PartialEq, Eq, Structural, Clone, Copy, Debug, Hash)]
pub enum PeerAddr {
    V4 { ip4: u32, port: u16 },
    V6 { ip6: u128, port: u16, flowinfo: u32, scope_id: u32 },
}

} // verus!
