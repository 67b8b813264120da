//! Addresses: the two families, and the keys under which the tables hold them.

use vstd::array::axiom_array_ext_equal;
use vstd::prelude::*;

verus! {

/// An IP address as its octets in network order.
#[derive(Clone, Copy, Debug, PartialEq, Eq)]
pub enum IpAddr {
    V4([u8; 4]),
    V6([u8; 16]),
}

/// The key of a source in the tables. The families have tables of their own, so that no
/// IPv4 key ever meets an IPv6 one.
#[derive(Clone, Copy, Debug, PartialEq, Eq)]
pub enum Source {
    V4(u32),
    V6([u8; 16]),
}

/// The number that four octets in network order spell.
pub open spec fn bits_of(octets: Seq<u8>) -> int {
    octets[0] * 0x100_0000 + octets[1] * 0x1_0000 + octets[2] * 0x100 + octets[3]
}

/// The key under which an address is held.
pub open spec fn source_of(ip: IpAddr) -> Source {
    match ip {
        IpAddr::V4(octets) => Source::V4(bits_of(octets@) as u32),
        IpAddr::V6(octets) => Source::V6(octets),
    }
}

/// Reads four octets in network order as a number.
pub fn ipv4_bits(octets: [u8; 4]) -> (bits: u32)
    ensures
        bits == bits_of(octets@),
{
    octets[0] as u32 * 0x100_0000 + octets[1] as u32 * 0x1_0000 + octets[2] as u32 * 0x100
        + octets[3] as u32
}

/// Spells a number as four octets in network order.
pub fn ipv4_octets(bits: u32) -> (octets: [u8; 4])
    ensures
        bits_of(octets@) == bits,
{
    let octets: [u8; 4] = [
        (bits / 0x100_0000) as u8,
        (bits / 0x1_0000 % 0x100) as u8,
        (bits / 0x100 % 0x100) as u8,
        (bits % 0x100) as u8,
    ];
    octets
}

/// A key stands for one address: two addresses share a key only when they are the same.
pub proof fn law_source_identifies_the_address(a: IpAddr, b: IpAddr)
    requires
        source_of(a) == source_of(b),
    ensures
        a == b,
{
    match (a, b) {
        (IpAddr::V4(x), IpAddr::V4(y)) => {
            broadcast use axiom_array_ext_equal;

            assert(bits_of(x@) == bits_of(y@));
            assert forall|i: int| 0 <= i < 4 implies x[i] == y[i] by {
                assert(x@[i] == y@[i]);
            }
            assert(x =~= y);
        },
        _ => {},
    }
}

impl IpAddr {
    /// The key under which the tables hold the address.
    pub fn source(&self) -> (source: Source)
        ensures
            source == source_of(*self),
    {
        match self {
            IpAddr::V4(octets) => Source::V4(ipv4_bits(*octets)),
            IpAddr::V6(octets) => Source::V6(*octets),
        }
    }
}

impl Source {
    /// The address held under the key.
    pub fn ip(&self) -> (ip: IpAddr)
        ensures
            source_of(ip) == *self,
    {
        match self {
            Source::V4(bits) => IpAddr::V4(ipv4_octets(*bits)),
            Source::V6(octets) => IpAddr::V6(*octets),
        }
    }
}

/// The octets can be read back off the number: each is one digit of it to the base 256, the
/// first the most significant.
pub proof fn law_bits_spell_the_octets(octets: Seq<u8>)
    requires
        octets.len() == 4,
    ensures
        0 <= bits_of(octets) <= u32::MAX,
        bits_of(octets) / 0x100_0000 == octets[0],
        bits_of(octets) / 0x1_0000 % 0x100 == octets[1],
        bits_of(octets) / 0x100 % 0x100 == octets[2],
        bits_of(octets) % 0x100 == octets[3],
{
}

/// The key of an address is of its own family: of an IPv4 address the number whose base-256
/// digits are its octets, of an IPv6 address the octets themselves.
pub proof fn law_key_is_of_the_address(ip: IpAddr)
    ensures
        match ip {
            IpAddr::V4(octets) => source_of(ip) matches Source::V4(bits) && bits / 0x100_0000
                == octets@[0] && bits / 0x1_0000 % 0x100 == octets@[1] && bits / 0x100 % 0x100
                == octets@[2] && bits % 0x100 == octets@[3],
            IpAddr::V6(octets) => source_of(ip) matches Source::V6(key) && key == octets,
        },
{
    if let IpAddr::V4(octets) = ip {
        law_bits_spell_the_octets(octets@);
    }
}

} // verus!
