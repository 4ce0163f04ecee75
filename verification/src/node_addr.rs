//! Where a node listens: an IPv4 address and an ordered list of clandestine
//! ports, modelled as plain octets and integers so everything about them can
//! be stated and proved.

use vstd::prelude::*;

use crate::fmt::{dec_chars, ip_chars, ip_to_dec, u64_to_dec};

verus! {

/// An IPv4 address as its four octets.
#[derive(Clone, Copy, Debug, PartialEq, Eq, Hash, Structural)]
pub struct IpAddress {
    pub o0: u8,
    pub o1: u8,
    pub o2: u8,
    pub o3: u8,
}

impl View for IpAddress {
    type V = Seq<u8>;

    open spec fn view(&self) -> Seq<u8> {
        seq![self.o0, self.o1, self.o2, self.o3]
    }
}

impl IpAddress {
    pub fn new(o0: u8, o1: u8, o2: u8, o3: u8) -> (r: IpAddress)
        ensures
            r@ == seq![o0, o1, o2, o3],
    {
        IpAddress { o0, o1, o2, o3 }
    }

    /// Dotted-quad rendering.
    pub fn to_string(&self) -> (s: String)
        ensures
            s@ == ip_chars(self.o0, self.o1, self.o2, self.o3),
    {
        ip_to_dec(self.o0, self.o1, self.o2, self.o3)
    }
}

/// The placeholder address meaning "not yet assigned".
pub fn sentinel_ip_addr() -> (r: IpAddress)
    ensures
        r@ == seq![255u8, 255u8, 255u8, 255u8],
{
    IpAddress::new(255, 255, 255, 255)
}

/// An IPv4 address plus one port.
#[derive(Clone, Copy, Debug, PartialEq, Eq, Hash, Structural)]
pub struct SocketAddress {
    pub ip: IpAddress,
    pub port: u16,
}

impl SocketAddress {
    pub fn new(ip: IpAddress, port: u16) -> (r: SocketAddress)
        ensures
            r.ip == ip && r.port == port,
    {
        SocketAddress { ip, port }
    }

    /// Rendering as `ip:port`.
    pub fn to_string(&self) -> (s: String)
        ensures
            s@ == ip_chars(self.ip.o0, self.ip.o1, self.ip.o2, self.ip.o3) + seq![':']
                + dec_chars(self.port as nat),
    {
        let mut s = self.ip.to_string();
        let colon = ":";
        proof {
            reveal_strlit(":");
            assert(colon@ =~= seq![':']);
        }
        crate::fmt::append_str(&mut s, colon);
        let p = u64_to_dec(self.port as u64);
        crate::fmt::append_str(&mut s, p.as_str());
        proof {
            assert(s@ =~= ip_chars(self.ip.o0, self.ip.o1, self.ip.o2, self.ip.o3) + seq![':']
                + dec_chars(self.port as nat));
        }
        s
    }
}

/// The placeholder socket address used when a real peer address is unknown.
pub fn error_socket_addr() -> (r: SocketAddress)
    ensures
        r.ip@ == seq![0u8, 0u8, 0u8, 0u8] && r.port == 0,
{
    SocketAddress::new(IpAddress::new(0, 0, 0, 0), 0)
}

/// Copy of a port list, stated so in its contract.
pub fn clone_ports(v: &Vec<u16>) -> (r: Vec<u16>)
    ensures
        r@ == v@,
{
    let r = v.clone();
    proof {
        assert(r@ =~= v@);
    }
    r
}

/// An IPv4 address together with the ordered ports a node listens on.
#[derive(Debug, PartialEq, Eq)]
pub struct NodeAddr {
    pub ip_addr: IpAddress,
    pub ports: Vec<u16>,
}

impl Clone for NodeAddr {
    fn clone(&self) -> (r: Self)
        ensures
            r.ip_addr == self.ip_addr && r.ports@ == self.ports@,
    {
        NodeAddr { ip_addr: self.ip_addr, ports: clone_ports(&self.ports) }
    }
}

impl NodeAddr {
    pub fn new(ip_addr: &IpAddress, ports: &Vec<u16>) -> (r: NodeAddr)
        ensures
            r.ip_addr == *ip_addr && r.ports@ == ports@,
    {
        NodeAddr { ip_addr: *ip_addr, ports: clone_ports(ports) }
    }
}

} // verus!
