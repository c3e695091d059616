//! Network addresses as plain integers.
use vstd::prelude::*;

verus! {

/// An IP address: its bits, most significant first on the wire.
#[derive(Clone, Copy, Debug, PartialEq, Eq, Hash, Structural)]
pub enum IpAddr {
    V4(u32),
    V6(u128),
}

impl IpAddr {
    /// Whether two addresses belong to the same IP version.
    pub open spec fn same_version(self, other: IpAddr) -> bool {
        self is V4 <==> other is V4
    }
}

/// One end of a connection.
#[derive(Clone, Copy, Debug, PartialEq, Eq, Hash, Structural)]
pub struct SocketAddr {
    pub ip: IpAddr,
    pub port: u16,
}

impl SocketAddr {
    pub fn new(ip: IpAddr, port: u16) -> (addr: SocketAddr)
        ensures
            addr == (SocketAddr { ip, port }),
    {
        SocketAddr { ip, port }
    }

    pub fn is_ipv4(&self) -> (r: bool)
        ensures
            r == (self.ip is V4),
    {
        match self.ip {
            IpAddr::V4(_) => true,
            IpAddr::V6(_) => false,
        }
    }
}

/// The tuple that identifies a connection within a stack.
#[derive(Clone, Copy, Debug, PartialEq, Eq, Hash, Structural)]
pub struct AddrTuple {
    pub local_addr: SocketAddr,
    pub remote_addr: SocketAddr,
}

impl AddrTuple {
    pub fn new(local_addr: SocketAddr, remote_addr: SocketAddr) -> (tuple: AddrTuple)
        ensures
            tuple == (AddrTuple { local_addr, remote_addr }),
    {
        AddrTuple { local_addr, remote_addr }
    }

    /// The two ends, the local one first.
    pub fn into_iter(self) -> (ends: Vec<SocketAddr>)
        ensures
            ends@ == seq![self.local_addr, self.remote_addr],
    {
        vec![self.local_addr, self.remote_addr]
    }
}

} // verus!
