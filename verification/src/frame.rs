//! Reading the source address out of an Ethernet frame.

use network_types::eth::{EthHdr, EtherType};
use network_types::ip::Ipv4Hdr;
use vstd::endian::{endianness, Endian};
use vstd::prelude::*;

use crate::addr::{
    law_number_lies_as_octets, law_number_weighs_octets, memory_bytes, memory_u32, read_memory_u32, Ipv4Addr,
};

verus! {

/// Length of an Ethernet header.
pub const ETH_HEADER_LEN: usize = 14;

/// Where the EtherType stands in an Ethernet header.
pub const ETHER_TYPE_OFFSET: usize = 12;

/// The EtherType of IPv4.
pub const ETHER_TYPE_IPV4: u16 = 0x0800;

/// Length of an IPv4 header without options.
pub const IPV4_HEADER_LEN: usize = 20;

/// Where the source address stands in an IPv4 header.
pub const IPV4_SOURCE_OFFSET: usize = 12;

/// What a frame says about its sender.
pub enum Reading {
    /// The frame ends before the headers that it needs.
    Truncated,
    /// The frame carries something else than IPv4.
    NotIpv4,
    /// The IPv4 source address in network byte order, as it lies in packet memory.
    Source(u32),
}

/// The EtherType of a frame that holds a whole Ethernet header.
pub open spec fn ether_type(frame: Seq<u8>) -> int {
    frame[ETHER_TYPE_OFFSET as int] * 0x100 + frame[ETHER_TYPE_OFFSET + 1]
}

/// The IPv4 source address of a frame that holds a whole IPv4 header: the number that its
/// four bytes are in packet memory.
pub open spec fn source_number(frame: Seq<u8>) -> int {
    let at = ETH_HEADER_LEN + IPV4_SOURCE_OFFSET;
    memory_u32(frame[at], frame[at + 1], frame[at + 2], frame[at + 3])
}

/// Length of the two headers that the monitor reads.
pub const HEADERS_LEN: usize = 34;

/// The part of `frame` that the monitor looks into: both headers, or the Ethernet header
/// where the frame ends before the second, or nothing where it ends before the first.
pub open spec fn inspected(frame: Seq<u8>) -> Seq<u8> {
    if frame.len() >= HEADERS_LEN {
        frame.take(HEADERS_LEN as int)
    } else if frame.len() >= ETH_HEADER_LEN {
        frame.take(ETH_HEADER_LEN as int)
    } else {
        Seq::empty()
    }
}

/// A frame reads as the part that the monitor looks into does, so the rest need not be
/// mapped in.
pub proof fn law_inspected_part_decides(frame: Seq<u8>)
    ensures
        reading(inspected(frame)) == reading(frame),
{
}

/// What `frame` says about its sender.
pub open spec fn reading(frame: Seq<u8>) -> Reading {
    if frame.len() < ETH_HEADER_LEN {
        Reading::Truncated
    } else if ether_type(frame) != ETHER_TYPE_IPV4 {
        Reading::NotIpv4
    } else if frame.len() < ETH_HEADER_LEN + IPV4_HEADER_LEN {
        Reading::Truncated
    } else {
        Reading::Source(source_number(frame) as u32)
    }
}

/// `network_types::eth::EthHdr::LEN`, the size of the packed header struct: two addresses
/// of six bytes and the EtherType.
#[verifier::external_body]
fn eth_header_len() -> (len: usize)
    ensures
        len == ETH_HEADER_LEN,
{
    EthHdr::LEN
}

/// `network_types::ip::Ipv4Hdr::LEN`, the size of the header struct without options.
#[verifier::external_body]
fn ipv4_header_len() -> (len: usize)
    ensures
        len == IPV4_HEADER_LEN,
{
    Ipv4Hdr::LEN
}

/// The discriminant of `network_types::eth::EtherType::Ipv4`, which is declared in network
/// byte order, as a number of this machine.
#[verifier::external_body]
fn ether_type_ipv4() -> (ether_type: u16)
    ensures
        ether_type == ETHER_TYPE_IPV4,
{
    u16::from_be(EtherType::Ipv4 as u16)
}

/// The `len` bytes of `frame` that start at `offset`, unless they extend past its end.
pub fn ptr_at(frame: &[u8], offset: usize, len: usize) -> (bytes: Result<&[u8], ()>)
    ensures
        bytes is Ok <==> offset + len <= frame@.len(),
        bytes matches Ok(bytes) ==> bytes@ == frame@.subrange(offset as int, offset + len),
{
    if offset > frame.len() || len > frame.len() - offset {
        return Err(());
    }
    Ok(&frame[offset..offset + len])
}

/// Reads the sender of `frame`. Only IPv4 frames are looked into, and only as far as the
/// fixed part of the IPv4 header.
pub fn read_source(frame: &[u8]) -> (source: Result<Option<u32>, ()>)
    ensures
        match reading(frame@) {
            Reading::Truncated => source is Err,
            Reading::NotIpv4 => source == Ok::<Option<u32>, ()>(None),
            Reading::Source(number) => source == Ok::<Option<u32>, ()>(Some(number)),
        },
        source matches Ok(Some(number)) ==> memory_bytes(number) == frame@.subrange(
            ETH_HEADER_LEN + IPV4_SOURCE_OFFSET,
            ETH_HEADER_LEN + IPV4_SOURCE_OFFSET + 4,
        ),
        match source {
            Err(_) => frame@.len() < 14 || (frame@.len() < 34 && frame@[12] == 0x08 && frame@[13]
                == 0x00),
            Ok(None) => frame@.len() >= 14 && !(frame@[12] == 0x08 && frame@[13] == 0x00),
            Ok(Some(number)) => {
                &&& frame@.len() >= 34 && frame@[12] == 0x08 && frame@[13] == 0x00
                &&& endianness() == Endian::Big ==> number == frame@[26] * 0x100_0000 + frame@[27]
                    * 0x1_0000 + frame@[28] * 0x100 + frame@[29]
                &&& endianness() == Endian::Little ==> number == frame@[29] * 0x100_0000
                    + frame@[28] * 0x1_0000 + frame@[27] * 0x100 + frame@[26]
            },
        },
{
    let eth_len: usize = eth_header_len();
    let eth: &[u8] = ptr_at(frame, 0, eth_len)?;
    let kind: u16 = eth[ETHER_TYPE_OFFSET] as u16 * 0x100 + eth[ETHER_TYPE_OFFSET + 1] as u16;
    if kind != ether_type_ipv4() {
        return Ok(None);
    }
    let ip: &[u8] = ptr_at(frame, eth_len, ipv4_header_len())?;
    let at: usize = IPV4_SOURCE_OFFSET;
    proof {
        let addr = Ipv4Addr {
            a: ip@[at as int],
            b: ip@[at + 1],
            c: ip@[at + 2],
            d: ip@[at + 3],
        };
        law_number_lies_as_octets(addr);
        law_number_weighs_octets(addr);
        assert(addr.octet_seq() =~= frame@.subrange(eth_len + at, eth_len + at + 4));
    }
    Ok(Some(read_memory_u32(ip[at], ip[at + 1], ip[at + 2], ip[at + 3])))
}

} // verus!
