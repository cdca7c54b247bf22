use vstd::prelude::*;

verus! {

/// An IPv4 address, octet by octet, most significant first.
#[derive(Clone, Copy, Debug, PartialEq, Eq, Structural)]
pub struct Ipv4Address(pub u8, pub u8, pub u8, pub u8);

/// An IP address: four octets, or the 128 bits of an IPv6 address.
#[derive(Clone, Copy, Debug, PartialEq, Eq, Structural)]
pub enum IpAddress {
    V4(Ipv4Address),
    V6(u128),
}

/// A socket address. Two IPv6 socket addresses are the same only when their
/// flow information and scope id agree too.
#[derive(Clone, Copy, Debug, PartialEq, Eq, Structural)]
#[allow(inconsistent_fields)]
pub enum SocketAddress {
    V4 { ip: Ipv4Address, port: u16 },
    V6 { ip: u128, port: u16, flowinfo: u32, scope_id: u32 },
}

/// `0.0.0.0/8`: "this network".
pub open spec fn spec_this_network(a: Ipv4Address) -> bool {
    a.0 == 0
}

/// `10.0.0.0/8`, `172.16.0.0/12` and `192.168.0.0/16`.
pub open spec fn spec_private(a: Ipv4Address) -> bool {
    ||| a.0 == 10
    ||| (a.0 == 172 && 16 <= a.1 <= 31)
    ||| (a.0 == 192 && a.1 == 168)
}

/// The shared address space `100.64.0.0/10`.
pub open spec fn spec_shared(a: Ipv4Address) -> bool {
    a.0 == 100 && 64 <= a.1 <= 127
}

/// `127.0.0.0/8`.
pub open spec fn spec_loopback(a: Ipv4Address) -> bool {
    a.0 == 127
}

/// `169.254.0.0/16`.
pub open spec fn spec_link_local(a: Ipv4Address) -> bool {
    a.0 == 169 && a.1 == 254
}

/// `192.0.0.0/24`, reserved for protocol assignments, but for `.9` and `.10`,
/// which are globally reachable.
pub open spec fn spec_protocol_assignment(a: Ipv4Address) -> bool {
    a.0 == 192 && a.1 == 0 && a.2 == 0 && a.3 != 9 && a.3 != 10
}

/// `192.0.2.0/24`, `198.51.100.0/24` and `203.0.113.0/24`.
pub open spec fn spec_documentation(a: Ipv4Address) -> bool {
    ||| (a.0 == 192 && a.1 == 0 && a.2 == 2)
    ||| (a.0 == 198 && a.1 == 51 && a.2 == 100)
    ||| (a.0 == 203 && a.1 == 0 && a.2 == 113)
}

/// `198.18.0.0/15`.
pub open spec fn spec_benchmarking(a: Ipv4Address) -> bool {
    a.0 == 198 && (a.1 == 18 || a.1 == 19)
}

/// `255.255.255.255`.
pub open spec fn spec_broadcast(a: Ipv4Address) -> bool {
    a.0 == 255 && a.1 == 255 && a.2 == 255 && a.3 == 255
}

/// `240.0.0.0/4`, without the broadcast address.
pub open spec fn spec_reserved(a: Ipv4Address) -> bool {
    a.0 >= 240 && !spec_broadcast(a)
}

/// Whether an IPv4 address appears to be globally reachable, after the IANA
/// IPv4 special-purpose address registry.
pub open spec fn spec_global(a: Ipv4Address) -> bool {
    !(spec_this_network(a) || spec_private(a) || spec_shared(a) || spec_loopback(a)
        || spec_link_local(a) || spec_protocol_assignment(a) || spec_documentation(a)
        || spec_benchmarking(a) || spec_reserved(a) || spec_broadcast(a))
}

impl Ipv4Address {
    /// The address `0.0.0.0`.
    pub fn unspecified() -> (r: Ipv4Address)
        ensures
            r == Ipv4Address(0, 0, 0, 0),
    {
        Ipv4Address(0, 0, 0, 0)
    }

    /// Whether the address lies in the private ranges.
    pub fn is_private(&self) -> (r: bool)
        ensures
            r == spec_private(*self),
    {
        self.0 == 10 || (self.0 == 172 && 16 <= self.1 && self.1 <= 31) || (self.0 == 192
            && self.1 == 168)
    }

    /// Whether the address lies in the shared address space `100.64.0.0/10`.
    pub fn is_shared(&self) -> (r: bool)
        ensures
            r == spec_shared(*self),
    {
        self.0 == 100 && 64 <= self.1 && self.1 <= 127
    }

    /// Whether the address is a loopback address.
    pub fn is_loopback(&self) -> (r: bool)
        ensures
            r == spec_loopback(*self),
    {
        self.0 == 127
    }

    /// Whether the address is a link-local address.
    pub fn is_link_local(&self) -> (r: bool)
        ensures
            r == spec_link_local(*self),
    {
        self.0 == 169 && self.1 == 254
    }

    /// Whether the address is reserved for documentation.
    pub fn is_documentation(&self) -> (r: bool)
        ensures
            r == spec_documentation(*self),
    {
        (self.0 == 192 && self.1 == 0 && self.2 == 2) || (self.0 == 198 && self.1 == 51 && self.2
            == 100) || (self.0 == 203 && self.1 == 0 && self.2 == 113)
    }

    /// Whether the address is reserved for benchmarking.
    pub fn is_benchmarking(&self) -> (r: bool)
        ensures
            r == spec_benchmarking(*self),
    {
        self.0 == 198 && (self.1 == 18 || self.1 == 19)
    }

    /// Whether the address is the broadcast address.
    pub fn is_broadcast(&self) -> (r: bool)
        ensures
            r == spec_broadcast(*self),
    {
        self.0 == 255 && self.1 == 255 && self.2 == 255 && self.3 == 255
    }

    /// Whether the address is reserved for future use.
    pub fn is_reserved(&self) -> (r: bool)
        ensures
            r == spec_reserved(*self),
    {
        self.0 >= 240 && !self.is_broadcast()
    }

    /// Whether the address appears to be globally reachable.
    pub fn is_global(&self) -> (r: bool)
        ensures
            r == spec_global(*self),
    {
        !(self.0 == 0 || self.is_private() || self.is_shared() || self.is_loopback()
            || self.is_link_local() || (self.0 == 192 && self.1 == 0 && self.2 == 0 && self.3 != 9
            && self.3 != 10) || self.is_documentation() || self.is_benchmarking()
            || self.is_reserved() || self.is_broadcast())
    }
}

impl SocketAddress {
    /// The IP address of a socket address.
    pub fn ip(&self) -> (r: IpAddress)
        ensures
            r == self.spec_ip(),
    {
        match self {
            SocketAddress::V4 { ip, .. } => IpAddress::V4(*ip),
            SocketAddress::V6 { ip, .. } => IpAddress::V6(*ip),
        }
    }

    pub open spec fn spec_ip(&self) -> IpAddress {
        match self {
            SocketAddress::V4 { ip, .. } => IpAddress::V4(*ip),
            SocketAddress::V6 { ip, .. } => IpAddress::V6(*ip),
        }
    }

    /// The socket address of an IP address and a port; an IPv6 one has no
    /// flow information and scope id 0.
    pub fn new(ip: IpAddress, port: u16) -> (r: SocketAddress)
        ensures
            r == spec_socket_address(ip, port),
    {
        match ip {
            IpAddress::V4(a) => SocketAddress::V4 { ip: a, port },
            IpAddress::V6(a) => SocketAddress::V6 { ip: a, port, flowinfo: 0, scope_id: 0 },
        }
    }
}

pub open spec fn spec_socket_address(ip: IpAddress, port: u16) -> SocketAddress {
    match ip {
        IpAddress::V4(a) => SocketAddress::V4 { ip: a, port },
        IpAddress::V6(a) => SocketAddress::V6 { ip: a, port, flowinfo: 0, scope_id: 0 },
    }
}

/// A shared address is never globally reachable, and a globally reachable
/// address is never private, loopback, link-local, broadcast or unspecified.
pub proof fn lemma_global_excludes_special(a: Ipv4Address)
    ensures
        spec_shared(a) ==> !spec_global(a),
        spec_global(a) ==> !spec_private(a) && !spec_loopback(a) && !spec_link_local(a)
            && !spec_broadcast(a) && a != Ipv4Address(0, 0, 0, 0),
{
}

} // verus!
