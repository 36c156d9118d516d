//! The address model: IPv4 and IPv6 addresses as plain numeric values,
//! and a socket address as an address plus a port.

use vstd::prelude::*;

verus! {

/// An IPv4 address as its four octets, in network order.
#[derive(Clone, Copy, Debug, PartialEq, Eq, Structural)]
pub struct Ipv4Address {
    pub a: u8,
    pub b: u8,
    pub c: u8,
    pub d: u8,
}

/// An IPv6 address as its eight 16-bit groups, in network order.
#[derive(Clone, Copy, Debug, PartialEq, Eq, Structural)]
pub struct Ipv6Address {
    pub g0: u16,
    pub g1: u16,
    pub g2: u16,
    pub g3: u16,
    pub g4: u16,
    pub g5: u16,
    pub g6: u16,
    pub g7: u16,
}

/// An IP address of either family.
#[derive(Clone, Copy, Debug, PartialEq, Eq, Structural)]
pub enum IpAddress {
    V4(Ipv4Address),
    V6(Ipv6Address),
}

/// An IP address together with a port number.
#[derive(Clone, Copy, Debug, PartialEq, Eq, Structural)]
pub struct SockAddr {
    pub ip: IpAddress,
    pub port: u16,
}

impl SockAddr {
    /// Whether the address belongs to the IPv6 family.
    pub open spec fn is_v6(self) -> bool {
        self.ip is V6
    }

    pub fn new(ip: IpAddress, port: u16) -> (r: SockAddr)
        ensures
            r == (SockAddr { ip, port }),
    {
        SockAddr { ip, port }
    }

    pub fn is_ipv6(&self) -> (r: bool)
        ensures
            r == self.is_v6(),
    {
        match self.ip {
            IpAddress::V6(_) => true,
            IpAddress::V4(_) => false,
        }
    }

    pub fn is_ipv4(&self) -> (r: bool)
        ensures
            r == !self.is_v6(),
    {
        match self.ip {
            IpAddress::V4(_) => true,
            IpAddress::V6(_) => false,
        }
    }
}

} // verus!
