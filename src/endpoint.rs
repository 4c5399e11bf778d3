use vstd::prelude::*;

verus! {

/// An IP address as plain bits: an IPv4 address as its 32 bits, an IPv6
/// address as its 128 bits, both in network order read as one number.
#[derive(Debug, Clone, Copy, PartialEq, Eq, Structural)]
pub enum IpAddress {
    V4(u32),
    V6(u128),
}

/// A socket address: an IP address and a port.
#[derive(Debug, Clone, Copy, PartialEq, Eq, Structural)]
pub struct Endpoint {
    pub ip: IpAddress,
    pub port: u16,
}

/// The address that a session's UDP socket binds to: of the same family as
/// `addr`, with a port that the system picks. IPv4 binds to every interface,
/// IPv6 to the loopback address.
pub fn local_addr_same_family(addr: &Endpoint) -> (r: Endpoint)
    ensures
        r.port == 0,
        addr.ip is V4 ==> r.ip == IpAddress::V4(0),
        addr.ip is V6 ==> r.ip == IpAddress::V6(1),
{
    match addr.ip {
        IpAddress::V4(_) => Endpoint { ip: IpAddress::V4(0), port: 0 },
        IpAddress::V6(_) => Endpoint { ip: IpAddress::V6(1), port: 0 },
    }
}

} // verus!
