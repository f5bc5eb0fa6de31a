//! Network addresses as plain values.

use vstd::prelude::*;

verus! {

/// An IP address by its number: 32 bits for version 4, 128 bits for version 6.
#[derive(Clone, Copy, Debug, PartialEq, Eq, Structural, Hash)]
pub enum IpAddress {
    V4(u32),
    V6(u128),
}

/// Where an upstream resolver listens: an IP address and a UDP port.
#[derive(Clone, Copy, Debug, PartialEq, Eq, Structural, Hash)]
pub struct UpstreamAddr {
    pub ip: IpAddress,
    pub port: u16,
}

impl UpstreamAddr {
    /// The version 4 address `a.b.c.d` with the given port.
    pub fn v4(a: u8, b: u8, c: u8, d: u8, port: u16) -> (addr: UpstreamAddr)
        ensures
            addr.port == port,
            addr.ip == IpAddress::V4(
                (a as int * 16777216 + b as int * 65536 + c as int * 256 + d as int) as u32,
            ),
    {
        let number: u32 = (a as u32) * 16777216 + (b as u32) * 65536 + (c as u32) * 256 + (d as u32);
        UpstreamAddr { ip: IpAddress::V4(number), port }
    }
}

} // verus!
