use vstd::prelude::*;

verus! {

/// A socket address as the channel logic sees it: the address family, the
/// IP address as a 128-bit number (an IPv4 address sits in the low 32 bits),
/// the port, and for IPv6 the flow information and scope id. Two addresses
/// are equal exactly when all of these are equal, as for `std::net::SocketAddr`.
#[derive(Clone, Copy, Debug, PartialEq, Eq, Hash, Structural)]
pub struct Addr {
    pub v6: bool,
    pub ip: u128,
    pub port: u16,
    pub flowinfo: u32,
    pub scope_id: u32,
}

impl Addr {
    /// The IPv4 socket address `a.b.c.d:port`.
    pub fn v4(a: u8, b: u8, c: u8, d: u8, port: u16) -> (r: Addr)
        ensures
            !r.v6,
            r.ip == (a as int) * 0x1000000 + (b as int) * 0x10000 + (c as int) * 0x100 + (d as int),
            r.port == port,
            r.flowinfo == 0,
            r.scope_id == 0,
    {
        let ip: u128 = (a as u128) * 0x1000000 + (b as u128) * 0x10000 + (c as u128) * 0x100 + (d as u128);
        Addr { v6: false, ip, port, flowinfo: 0, scope_id: 0 }
    }
}

} // verus!
