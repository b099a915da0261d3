//! The data model shared by every platform: addresses, the connection being
//! looked up, and the errors a lookup can end in.

use vstd::prelude::*;

verus! {

/// An IP address, held as its octets in network order.
#[derive(Clone, Copy, Debug, PartialEq, Eq)]
pub enum IpAddress {
    V4([u8; 4]),
    V6([u8; 16]),
}

impl IpAddress {
    /// The octets of the address, in network order.
    pub open spec fn octets(self) -> Seq<u8> {
        match self {
            IpAddress::V4(a) => a@,
            IpAddress::V6(a) => a@,
        }
    }

    /// The loopback address 127.0.0.1.
    pub fn localhost_v4() -> (r: IpAddress)
        ensures
            r == IpAddress::V4([127u8, 0u8, 0u8, 1u8]),
    {
        IpAddress::V4([127u8, 0u8, 0u8, 1u8])
    }

    /// The octets of the address, in network order.
    pub fn octets_slice(&self) -> (r: &[u8])
        ensures
            r@ == self.octets(),
    {
        match self {
            IpAddress::V4(a) => a.as_slice(),
            IpAddress::V6(a) => a.as_slice(),
        }
    }

    /// Whether this is an IPv4 address.
    pub fn is_ipv4(&self) -> (r: bool)
        ensures
            r == (*self is V4),
    {
        match self {
            IpAddress::V4(_) => true,
            IpAddress::V6(_) => false,
        }
    }

    /// Whether two addresses are the same address of the same family.
    pub fn same_as(&self, other: &IpAddress) -> (r: bool)
        ensures
            r == (*self == *other),
    {
        match (self, other) {
            (IpAddress::V4(a), IpAddress::V4(b)) => {
                let r = bytes_equal(a, b);
                proof {
                    if r {
                        lemma_arrays_equal(*a, *b);
                    }
                }
                r
            },
            (IpAddress::V6(a), IpAddress::V6(b)) => {
                let r = bytes_equal(a, b);
                proof {
                    if r {
                        lemma_arrays_equal(*a, *b);
                    }
                }
                r
            },
            _ => false,
        }
    }
}

/// Arrays with the same elements are the same array.
pub proof fn lemma_arrays_equal<const N: usize>(a: [u8; N], b: [u8; N])
    requires
        a@ == b@,
    ensures
        a == b,
{
    broadcast use vstd::array::group_array_axioms;

    assert forall|i: int| 0 <= i < N implies a[i] == b[i] by {
        assert(a@[i] == b@[i]);
    }
    assert(a =~= b);
}

/// Whether two byte slices hold the same bytes.
pub fn bytes_equal(a: &[u8], b: &[u8]) -> (r: bool)
    ensures
        r == (a@ == b@),
{
    if a.len() != b.len() {
        return false;
    }
    let mut i: usize = 0;
    while i < a.len()
        invariant
            a@.len() == b@.len(),
            i <= a.len(),
            forall|j: int| 0 <= j < i ==> a@[j] == b@[j],
        decreases a.len() - i,
    {
        if a[i] != b[i] {
            return false;
        }
        i = i + 1;
    }
    assert(a@ =~= b@);
    true
}

/// The transport protocol of a connection.
#[derive(Clone, Copy, Debug, PartialEq, Eq, Structural)]
pub enum Network {
    Tcp,
    Udp,
}

/// The connection whose owning process is looked up: the protocol and the
/// local (source) and remote (destination) endpoints.
#[derive(Clone, Copy, Debug)]
pub struct NetWorkTuple {
    pub network: Network,
    pub src_ip: IpAddress,
    pub src_port: u16,
    pub dst_ip: IpAddress,
    pub dst_port: u16,
}

/// The tuple that `Default` gives: TCP, both endpoints 127.0.0.1 port 0.
pub open spec fn default_tuple() -> NetWorkTuple {
    NetWorkTuple {
        network: Network::Tcp,
        src_ip: IpAddress::V4([127u8, 0u8, 0u8, 1u8]),
        src_port: 0,
        dst_ip: IpAddress::V4([127u8, 0u8, 0u8, 1u8]),
        dst_port: 0,
    }
}

impl Default for NetWorkTuple {
    fn default() -> (r: Self)
        ensures
            r == default_tuple(),
    {
        NetWorkTuple {
            network: Network::Tcp,
            src_ip: IpAddress::localhost_v4(),
            src_port: 0,
            dst_ip: IpAddress::localhost_v4(),
            dst_port: 0,
        }
    }
}

impl NetWorkTuple {
    /// A tuple with the given source endpoint; everything else as in
    /// `default_tuple`.
    pub fn new(src_ip: IpAddress, src_port: u16) -> (r: Self)
        ensures
            r == (NetWorkTuple { src_ip, src_port, ..default_tuple() }),
    {
        let d = NetWorkTuple::default();
        NetWorkTuple { src_ip, src_port, ..d }
    }

    /// A TCP tuple with both endpoints given.
    pub fn new_tcp(src_ip: IpAddress, src_port: u16, dst_ip: IpAddress, dst_port: u16) -> (r: Self)
        ensures
            r == (NetWorkTuple { network: Network::Tcp, src_ip, src_port, dst_ip, dst_port }),
    {
        NetWorkTuple { network: Network::Tcp, src_ip, src_port, dst_ip, dst_port }
    }

    /// Whether the source address is an IPv4 address.
    pub fn is_v4(&self) -> (r: bool)
        ensures
            r == (self.src_ip is V4),
    {
        self.src_ip.is_ipv4()
    }
}

#[verifier::external_type_specification]
#[verifier::external_body]
pub struct ExIoError(std::io::Error);

/// Why a lookup failed.
#[derive(Debug)]
pub enum ProcessError {
    /// Data from the system did not have the expected shape.
    InvalidData(String),
    /// No socket or process matched.
    NotFound,
    /// The executable path of a process could not be read.
    NameReadError(String),
    /// An operating-system call failed.
    IoError(std::io::Error),
}

} // verus!
