//! Reading a frame: the Ethernet tag and the source address behind it.

use crate::addr::{
    bits_of, ipv4_bits, law_bits_spell_the_octets, source_of, IpAddr, Source,
};
use network_types::eth::{EthHdr, EthernetError};
use vstd::array::axiom_array_ext_equal;
use vstd::prelude::*;

verus! {

/// Bytes of an Ethernet header.
pub const ETH_HDR_LEN: usize = 14;

/// Bytes of an IPv4 header without options.
pub const IPV4_HDR_LEN: usize = 20;

/// Bytes of an IPv6 header.
pub const IPV6_HDR_LEN: usize = 40;

/// Ethernet tag of IPv4.
pub const ETHER_TYPE_IPV4: u16 = 0x0800;

/// Ethernet tag of IPv6.
pub const ETHER_TYPE_IPV6: u16 = 0x86dd;

/// Where the source address begins in an IPv4 header.
pub const IPV4_SRC_OFFSET: usize = 12;

/// Where the source address begins in an IPv6 header.
pub const IPV6_SRC_OFFSET: usize = 8;

/// The number that two octets in network order spell.
pub open spec fn tag_of(octets: Seq<u8>) -> int {
    octets[0] * 0x100 + octets[1]
}

/// The Ethernet tags that `network_types` knows by name.
pub open spec fn is_known_tag(tag: u16) -> bool {
    ||| tag == 0x0060
    ||| tag == 0x0800
    ||| tag == 0x0806
    ||| tag == 0x8100
    ||| tag == 0x86dd
    ||| tag == 0x88a8
    ||| tag == 0x88e5
    ||| tag == 0x88e7
    ||| tag == 0x88f5
    ||| tag == 0x8906
    ||| tag == 0x8915
    ||| tag == 0x9000
    ||| tag == 0x9100
    ||| tag == 0x9200
    ||| tag == 0x9300
}

/// Calls `network_types::eth::EthHdr::ether_type` on a header with the given fields, the tag
/// as the two octets that stand in the frame. The call succeeds exactly on the tags that the
/// crate knows by name, and either way hands the tag back, here as the number it spells.
#[verifier::external_body]
fn ether_type(dst_addr: [u8; 6], src_addr: [u8; 6], tag: [u8; 2]) -> (kind: Result<u16, u16>)
    ensures
        match kind {
            Ok(known) => known == tag_of(tag@) && is_known_tag(known),
            Err(other) => other == tag_of(tag@) && !is_known_tag(other),
        },
{
    let header = EthHdr { dst_addr, src_addr, ether_type: u16::from_ne_bytes(tag) };
    match header.ether_type() {
        Ok(known) => Ok(u16::from_be(known.into())),
        Err(EthernetError::InvalidEtherType(raw)) => Err(u16::from_be(raw)),
    }
}

/// What a frame carries, as far as the limiter cares.
#[derive(Clone, Copy, Debug, PartialEq, Eq, Structural)]
pub enum Protocol {
    Ipv4,
    Ipv6,
    Other,
}

/// The protocol of a frame whose Ethernet header is complete.
pub open spec fn protocol_of(frame: Seq<u8>) -> Protocol {
    let tag = tag_of(frame.subrange(12, 14));
    if tag == ETHER_TYPE_IPV4 {
        Protocol::Ipv4
    } else if tag == ETHER_TYPE_IPV6 {
        Protocol::Ipv6
    } else {
        Protocol::Other
    }
}

/// The source address of an IPv4 frame, read behind the Ethernet header.
pub open spec fn ipv4_source_of(frame: Seq<u8>) -> Source {
    let octets = frame.subrange(
        ETH_HDR_LEN + IPV4_SRC_OFFSET,
        ETH_HDR_LEN + IPV4_SRC_OFFSET + 4,
    );
    Source::V4(bits_of(octets) as u32)
}

/// The `len` bytes at `offset`, refused when any of them lies beyond the end of the frame.
pub fn ptr_at(frame: &[u8], offset: usize, len: usize) -> (part: Result<&[u8], ()>)
    ensures
        part is Ok <==> offset + len <= frame@.len(),
        part matches Ok(bytes) ==> bytes@ == frame@.subrange(offset as int, offset + len),
{
    if offset > frame.len() || len > frame.len() - offset {
        return Err(());
    }
    Ok(&frame[offset..offset + len])
}

/// Tells apart what the frame carries; refused when the Ethernet header is cut short.
pub fn frame_protocol(frame: &[u8]) -> (protocol: Result<Protocol, ()>)
    ensures
        protocol == (if frame@.len() >= ETH_HDR_LEN {
            Ok::<Protocol, ()>(protocol_of(frame@))
        } else {
            Err(())
        }),
{
    let h = ptr_at(frame, 0, ETH_HDR_LEN)?;
    let tag: [u8; 2] = [h[12], h[13]];
    assert(tag@ =~= frame@.subrange(12, 14));
    let kind = ether_type(
        [h[0], h[1], h[2], h[3], h[4], h[5]],
        [h[6], h[7], h[8], h[9], h[10], h[11]],
        tag,
    );
    match kind {
        Ok(known) => {
            if known == ETHER_TYPE_IPV4 {
                Ok(Protocol::Ipv4)
            } else if known == ETHER_TYPE_IPV6 {
                Ok(Protocol::Ipv6)
            } else {
                Ok(Protocol::Other)
            }
        },
        Err(_) => Ok(Protocol::Other),
    }
}

/// Reads the source of an IPv4 frame; refused when the IPv4 header is cut short.
pub fn ipv4_source(frame: &[u8]) -> (source: Result<Source, ()>)
    ensures
        source == (if frame@.len() >= ETH_HDR_LEN + IPV4_HDR_LEN {
            Ok::<Source, ()>(ipv4_source_of(frame@))
        } else {
            Err(())
        }),
{
    let h = ptr_at(frame, ETH_HDR_LEN, IPV4_HDR_LEN)?;
    let octets: [u8; 4] = [
        h[IPV4_SRC_OFFSET],
        h[IPV4_SRC_OFFSET + 1],
        h[IPV4_SRC_OFFSET + 2],
        h[IPV4_SRC_OFFSET + 3],
    ];
    assert(octets@ =~= frame@.subrange(26, 30));
    Ok(Source::V4(ipv4_bits(octets)))
}

/// Whether `source` is the one an IPv6 frame names behind its Ethernet header.
pub open spec fn is_ipv6_source(frame: Seq<u8>, source: Source) -> bool {
    source matches Source::V6(octets) && octets@ == frame.subrange(
        ETH_HDR_LEN + IPV6_SRC_OFFSET,
        ETH_HDR_LEN + IPV6_SRC_OFFSET + 16,
    )
}

/// Reads the source of an IPv6 frame; refused when the IPv6 header is cut short.
pub fn ipv6_source(frame: &[u8]) -> (source: Result<Source, ()>)
    ensures
        source is Ok <==> frame@.len() >= ETH_HDR_LEN + IPV6_HDR_LEN,
        source matches Ok(key) ==> is_ipv6_source(frame@, key),
{
    let h = ptr_at(frame, ETH_HDR_LEN, IPV6_HDR_LEN)?;
    let octets: [u8; 16] = [
        h[IPV6_SRC_OFFSET],
        h[IPV6_SRC_OFFSET + 1],
        h[IPV6_SRC_OFFSET + 2],
        h[IPV6_SRC_OFFSET + 3],
        h[IPV6_SRC_OFFSET + 4],
        h[IPV6_SRC_OFFSET + 5],
        h[IPV6_SRC_OFFSET + 6],
        h[IPV6_SRC_OFFSET + 7],
        h[IPV6_SRC_OFFSET + 8],
        h[IPV6_SRC_OFFSET + 9],
        h[IPV6_SRC_OFFSET + 10],
        h[IPV6_SRC_OFFSET + 11],
        h[IPV6_SRC_OFFSET + 12],
        h[IPV6_SRC_OFFSET + 13],
        h[IPV6_SRC_OFFSET + 14],
        h[IPV6_SRC_OFFSET + 15],
    ];
    assert(octets@ =~= frame@.subrange(22, 38));
    Ok(Source::V6(octets))
}

/// An IPv4 address and a frame that carries it as its source meet under the same key: what a
/// list names is what the packets of that address are looked up by.
pub proof fn law_ipv4_frame_meets_its_address(frame: Seq<u8>, octets: [u8; 4])
    requires
        frame.len() >= ETH_HDR_LEN + IPV4_HDR_LEN,
        frame.subrange(26, 30) == octets@,
    ensures
        ipv4_source_of(frame) == source_of(IpAddr::V4(octets)),
{
}

/// The same for an IPv6 address.
pub proof fn law_ipv6_frame_meets_its_address(frame: Seq<u8>, octets: [u8; 16], source: Source)
    requires
        frame.len() >= ETH_HDR_LEN + IPV6_HDR_LEN,
        frame.subrange(22, 38) == octets@,
        is_ipv6_source(frame, source),
    ensures
        source == source_of(IpAddr::V6(octets)),
{
    broadcast use axiom_array_ext_equal;

    let read = source->V6_0;
    assert forall|i: int| 0 <= i < 16 implies read[i] == octets[i] by {
        assert(read@[i] == octets@[i]);
    }
    assert(read =~= octets);
}

/// The two octets of the tag alone tell what a frame carries, whatever its length and whatever
/// stands around them.
pub proof fn law_tag_alone_tells_the_protocol(frame: Seq<u8>)
    requires
        frame.len() >= 14,
    ensures
        protocol_of(frame) == Protocol::Ipv4 <==> frame[12] == 0x08 && frame[13] == 0x00,
        protocol_of(frame) == Protocol::Ipv6 <==> frame[12] == 0x86 && frame[13] == 0xdd,
        protocol_of(frame) == Protocol::Other <==> !(frame[12] == 0x08 && frame[13] == 0x00)
            && !(frame[12] == 0x86 && frame[13] == 0xdd),
{
    let octets = frame.subrange(12, 14);
    assert(octets[0] == frame[12] && octets[1] == frame[13]);
}

/// The source of an IPv4 frame is spelt by the four octets that begin twelve bytes into the
/// header behind the Ethernet one, whatever the length of the frame.
pub proof fn law_ipv4_source_is_where_it_stands(frame: Seq<u8>)
    requires
        frame.len() >= 34,
    ensures
        ipv4_source_of(frame) matches Source::V4(bits) && bits / 0x100_0000 == frame[26] && bits
            / 0x1_0000 % 0x100 == frame[27] && bits / 0x100 % 0x100 == frame[28] && bits % 0x100
            == frame[29],
{
    let octets = frame.subrange(26, 30);
    assert(octets[0] == frame[26] && octets[1] == frame[27] && octets[2] == frame[28]
        && octets[3] == frame[29]);
    law_bits_spell_the_octets(octets);
}

/// The source of an IPv6 frame is the sixteen octets that begin eight bytes into the header
/// behind the Ethernet one, whatever the length of the frame.
pub proof fn law_ipv6_source_is_where_it_stands(frame: Seq<u8>, source: Source, i: int)
    requires
        frame.len() >= 54,
        is_ipv6_source(frame, source),
        0 <= i < 16,
    ensures
        source matches Source::V6(octets) && octets@[i] == frame[22 + i],
{
}

} // verus!
