//! Internet addresses as plain octets.

use vstd::prelude::*;

verus! {

/// An IPv4 or IPv6 address, most significant octet first.
#[derive(Clone, Copy, Debug, PartialEq, Eq)]
pub enum IpAddr {
    V4([u8; 4]),
    V6([u8; 16]),
}

/// An address and a port on it. The flow information and the scope belong to IPv6; with IPv4 both
/// are zero.
#[derive(Clone, Copy, Debug, PartialEq, Eq)]
pub struct SocketAddr {
    pub ip: IpAddr,
    pub port: u16,
    pub flowinfo: u32,
    pub scope_id: u32,
}

/// What a socket address says.
pub struct Endpoint {
    pub octets: Seq<u8>,
    pub port: u16,
    pub flowinfo: u32,
    pub scope_id: u32,
}

/// A port on an address, with no flow information and no scope.
pub open spec fn endpoint(octets: Seq<u8>, port: u16) -> Endpoint {
    Endpoint { octets, port, flowinfo: 0, scope_id: 0 }
}

impl View for IpAddr {
    type V = Seq<u8>;

    /// The octets; their number tells the two families apart.
    open spec fn view(&self) -> Seq<u8> {
        match self {
            IpAddr::V4(o) => o@,
            IpAddr::V6(o) => o@,
        }
    }
}

impl View for SocketAddr {
    type V = Endpoint;

    open spec fn view(&self) -> Endpoint {
        Endpoint {
            octets: self.ip@,
            port: self.port,
            flowinfo: self.flowinfo,
            scope_id: self.scope_id,
        }
    }
}

/// Whether the octets are a loopback address: anything in 127.0.0.0/8, or ::1.
pub open spec fn loopback(octets: Seq<u8>) -> bool {
    ||| octets.len() == 4 && octets[0] == 127
    ||| octets.len() == 16 && octets[15] == 1 && forall|i: int| 0 <= i < 15 ==> octets[i] == 0
}

/// Whether two runs of octets are the same.
pub fn same_octets(a: &[u8], b: &[u8]) -> (r: bool)
    ensures
        r == (a@ == b@),
{
    if a.len() != b.len() {
        return false;
    }
    let mut i: usize = 0;
    while i < a.len()
        invariant
            i <= a@.len() == b@.len(),
            forall|j: int| 0 <= j < i ==> a@[j] == b@[j],
        decreases a@.len() - i,
    {
        if a[i] != b[i] {
            return false;
        }
        i += 1;
    }
    assert(a@ =~= b@);
    true
}

impl IpAddr {
    /// Whether this is an IPv4 address.
    pub fn is_ipv4(&self) -> (r: bool)
        ensures
            r == (self@.len() == 4),
    {
        match self {
            IpAddr::V4(_) => true,
            IpAddr::V6(_) => false,
        }
    }

    /// Whether packets for this address never leave the machine.
    pub fn is_loopback(&self) -> (r: bool)
        ensures
            r == loopback(self@),
    {
        match self {
            IpAddr::V4(o) => o[0] == 127,
            IpAddr::V6(o) => {
                let mut i: usize = 0;
                while i < 15
                    invariant
                        i <= 15,
                        self@ == o@,
                        forall|j: int| 0 <= j < i ==> o@[j] == 0,
                    decreases 15 - i,
                {
                    if o[i] != 0 {
                        return false;
                    }
                    i += 1;
                }
                o[15] == 1
            },
        }
    }

    /// Whether two addresses are the same.
    pub fn same(&self, other: &IpAddr) -> (r: bool)
        ensures
            r == (self@ == other@),
    {
        match (self, other) {
            (IpAddr::V4(a), IpAddr::V4(b)) => same_octets(a.as_slice(), b.as_slice()),
            (IpAddr::V6(a), IpAddr::V6(b)) => same_octets(a.as_slice(), b.as_slice()),
            _ => {
                assert(self@.len() != other@.len());
                false
            },
        }
    }
}

impl SocketAddr {
    /// A port on an address, with no flow information and no scope.
    pub fn new(ip: IpAddr, port: u16) -> (a: SocketAddr)
        ensures
            a.ip == ip,
            a@ == endpoint(ip@, port),
    {
        SocketAddr { ip, port, flowinfo: 0, scope_id: 0 }
    }

    /// Whether two socket addresses are the same.
    pub fn same(&self, other: &SocketAddr) -> (r: bool)
        ensures
            r == (self@ == other@),
    {
        self.port == other.port && self.flowinfo == other.flowinfo && self.scope_id
            == other.scope_id && self.ip.same(&other.ip)
    }
}

/// Loopback is every IPv4 address that begins with 127, and of the IPv6 addresses only the one that is
/// all zeros but for a last one.
pub proof fn what_is_loopback(octets: Seq<u8>)
    ensures
        octets.len() == 4 ==> (loopback(octets) <==> octets[0] == 127),
        octets.len() == 16 ==> (loopback(octets) <==> octets == seq![
            0u8, 0u8, 0u8, 0u8, 0u8, 0u8, 0u8, 0u8, 0u8, 0u8, 0u8, 0u8, 0u8, 0u8, 0u8, 1u8,
        ]),
        octets.len() != 4 && octets.len() != 16 ==> !loopback(octets),
{
    let one = seq![0u8, 0u8, 0u8, 0u8, 0u8, 0u8, 0u8, 0u8, 0u8, 0u8, 0u8, 0u8, 0u8, 0u8, 0u8, 1u8];
    if octets.len() == 16 && loopback(octets) {
        assert(octets =~= one);
    }
}

/// A port on an address has no flow information and no scope.
pub proof fn endpoints_are_plain(octets: Seq<u8>, port: u16)
    ensures
        endpoint(octets, port).octets == octets,
        endpoint(octets, port).port == port,
        endpoint(octets, port).flowinfo == 0,
        endpoint(octets, port).scope_id == 0,
{
}

} // verus!
