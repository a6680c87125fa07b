//! The wire grammar: field accessors over raw frame bytes for Ethernet,
//! IPv4, IPv6, TCP and UDP headers. A header parses when the buffer holds
//! at least its fixed part; payloads are cut by the declared lengths but
//! never reach past the buffer.

use vstd::prelude::*;

use vstd::slice::{slice_index_get, slice_subrange};

verus! {

/// Ethernet type for IPv4 frames.
pub const ETHERTYPE_IPV4: u16 = 0x0800;

/// Ethernet type for ARP frames.
pub const ETHERTYPE_ARP: u16 = 0x0806;

/// Ethernet type for IPv6 frames.
pub const ETHERTYPE_IPV6: u16 = 0x86dd;

/// IP protocol number of ICMP.
pub const IP_PROTO_ICMP: u8 = 1;

/// IP protocol number of TCP.
pub const IP_PROTO_TCP: u8 = 6;

/// IP protocol number of UDP.
pub const IP_PROTO_UDP: u8 = 17;

/// IP protocol number of ICMPv6.
pub const IP_PROTO_ICMPV6: u8 = 58;

/// Two bytes at `i`, big-endian.
pub open spec fn spec_be16(b: Seq<u8>, i: int) -> u16
    recommends
        0 <= i,
        i + 2 <= b.len(),
{
    (b[i] * 256 + b[i + 1]) as u16
}

/// Four bytes at `i`, big-endian.
pub open spec fn spec_be32(b: Seq<u8>, i: int) -> u32
    recommends
        0 <= i,
        i + 4 <= b.len(),
{
    (b[i] * 0x1000000 + b[i + 1] * 0x10000 + b[i + 2] * 256 + b[i + 3]) as u32
}

/// Read two bytes at `i`, big-endian.
pub fn be16(b: &[u8], i: usize) -> (r: u16)
    requires
        i + 2 <= b@.len(),
    ensures
        r == spec_be16(b@, i as int),
{
    let _n: usize = b.len();
    let hi: u8 = *slice_index_get(b, i);
    let lo: u8 = *slice_index_get(b, i + 1);
    (hi as u16) * 256 + (lo as u16)
}

/// Read four bytes at `i`, big-endian.
pub fn be32(b: &[u8], i: usize) -> (r: u32)
    requires
        i + 4 <= b@.len(),
    ensures
        r == spec_be32(b@, i as int),
{
    let _n: usize = b.len();
    let b0: u8 = *slice_index_get(b, i);
    let b1: u8 = *slice_index_get(b, i + 1);
    let b2: u8 = *slice_index_get(b, i + 2);
    let b3: u8 = *slice_index_get(b, i + 3);
    (b0 as u32) * 0x1000000 + (b1 as u32) * 0x10000 + (b2 as u32) * 256 + (b3 as u32)
}

// --- Ethernet: 14-byte header ---
/// True when the buffer holds an Ethernet header.
pub open spec fn eth_ok(b: Seq<u8>) -> bool {
    b.len() >= 14
}

/// Destination MAC bytes.
pub open spec fn eth_dst(b: Seq<u8>) -> Seq<u8>
    recommends
        eth_ok(b),
{
    b.subrange(0, 6)
}

/// Source MAC bytes.
pub open spec fn eth_src(b: Seq<u8>) -> Seq<u8>
    recommends
        eth_ok(b),
{
    b.subrange(6, 12)
}

/// The Ethernet type field.
pub open spec fn eth_type(b: Seq<u8>) -> u16
    recommends
        eth_ok(b),
{
    spec_be16(b, 12)
}

/// Everything after the Ethernet header.
pub open spec fn eth_payload(b: Seq<u8>) -> Seq<u8>
    recommends
        eth_ok(b),
{
    b.subrange(14, b.len() as int)
}

/// Everything after the Ethernet header.
pub fn eth_payload_slice(b: &[u8]) -> (r: &[u8])
    requires
        eth_ok(b@),
    ensures
        r@ == eth_payload(b@),
{
    slice_subrange(b, 14, b.len())
}

// --- IPv4: 20-byte fixed header, options up to the header length ---
/// True when the buffer holds the fixed IPv4 header.
pub open spec fn ipv4_ok(p: Seq<u8>) -> bool {
    p.len() >= 20
}

/// Header length in 32-bit words (the low nibble of the first byte).
pub open spec fn ipv4_ihl(p: Seq<u8>) -> u8
    recommends
        ipv4_ok(p),
{
    (p[0] % 16) as u8
}

/// Total length field: header plus payload in bytes.
pub open spec fn ipv4_total_len(p: Seq<u8>) -> u16
    recommends
        ipv4_ok(p),
{
    spec_be16(p, 2)
}

/// Identification field.
pub open spec fn ipv4_ident(p: Seq<u8>) -> u16
    recommends
        ipv4_ok(p),
{
    spec_be16(p, 4)
}

/// The three flag bits.
pub open spec fn ipv4_flags(p: Seq<u8>) -> u8
    recommends
        ipv4_ok(p),
{
    (p[6] / 32) as u8
}

/// Time to live.
pub open spec fn ipv4_ttl(p: Seq<u8>) -> u8
    recommends
        ipv4_ok(p),
{
    p[8]
}

/// Next-level protocol number.
pub open spec fn ipv4_proto(p: Seq<u8>) -> u8
    recommends
        ipv4_ok(p),
{
    p[9]
}

/// Source address bytes.
pub open spec fn ipv4_src(p: Seq<u8>) -> Seq<u8>
    recommends
        ipv4_ok(p),
{
    p.subrange(12, 16)
}

/// Destination address bytes.
pub open spec fn ipv4_dst(p: Seq<u8>) -> Seq<u8>
    recommends
        ipv4_ok(p),
{
    p.subrange(16, 20)
}

/// Bytes the header claims for itself; a header length below the fixed
/// part is treated as the fixed part.
pub open spec fn ipv4_header_bytes(p: Seq<u8>) -> int
    recommends
        ipv4_ok(p),
{
    if ipv4_ihl(p) >= 5 {
        4 * ipv4_ihl(p)
    } else {
        20
    }
}

/// The payload: after the header, cut by the declared total length, never
/// past the buffer.
pub open spec fn ipv4_payload(p: Seq<u8>) -> Seq<u8>
    recommends
        ipv4_ok(p),
{
    let start = ipv4_header_bytes(p);
    let declared: int = if ipv4_total_len(p) > start {
        ipv4_total_len(p) - start
    } else {
        0
    };
    if p.len() <= start {
        Seq::empty()
    } else {
        p.subrange(
            start,
            if start + declared <= p.len() {
                start + declared
            } else {
                p.len() as int
            },
        )
    }
}

/// The IPv4 payload as a slice.
pub fn ipv4_payload_slice(p: &[u8]) -> (r: &[u8])
    requires
        ipv4_ok(p@),
    ensures
        r@ == ipv4_payload(p@),
{
    let ihl: u8 = *slice_index_get(p, 0) % 16;
    let start: usize = if ihl >= 5 {
        4 * (ihl as usize)
    } else {
        20
    };
    let total: usize = be16(p, 2) as usize;
    let declared: usize = if total > start {
        total - start
    } else {
        0
    };
    if p.len() <= start {
        let r = slice_subrange(p, 0, 0);
        proof {
            assert(r@ =~= ipv4_payload(p@));
        }
        r
    } else {
        let end: usize = if start + declared <= p.len() {
            start + declared
        } else {
            p.len()
        };
        slice_subrange(p, start, end)
    }
}

// --- IPv6: 40-byte fixed header ---
/// True when the buffer holds the IPv6 header.
pub open spec fn ipv6_ok(p: Seq<u8>) -> bool {
    p.len() >= 40
}

/// Traffic class: low nibble of byte 0 and high nibble of byte 1.
pub open spec fn ipv6_traffic_class(p: Seq<u8>) -> u8
    recommends
        ipv6_ok(p),
{
    ((p[0] % 16) * 16 + p[1] / 16) as u8
}

/// Flow label: the low 20 bits of the first four bytes.
pub open spec fn ipv6_flow_label(p: Seq<u8>) -> u32
    recommends
        ipv6_ok(p),
{
    ((p[1] % 16) * 0x10000 + p[2] * 0x100 + p[3]) as u32
}

/// Declared payload length in bytes.
pub open spec fn ipv6_payload_len(p: Seq<u8>) -> u16
    recommends
        ipv6_ok(p),
{
    spec_be16(p, 4)
}

/// Next-header protocol number.
pub open spec fn ipv6_next_header(p: Seq<u8>) -> u8
    recommends
        ipv6_ok(p),
{
    p[6]
}

/// Hop limit.
pub open spec fn ipv6_hop_limit(p: Seq<u8>) -> u8
    recommends
        ipv6_ok(p),
{
    p[7]
}

/// Source address bytes.
pub open spec fn ipv6_src(p: Seq<u8>) -> Seq<u8>
    recommends
        ipv6_ok(p),
{
    p.subrange(8, 24)
}

/// Destination address bytes.
pub open spec fn ipv6_dst(p: Seq<u8>) -> Seq<u8>
    recommends
        ipv6_ok(p),
{
    p.subrange(24, 40)
}

/// The payload: after the fixed header, cut by the declared length, never
/// past the buffer.
pub open spec fn ipv6_payload(p: Seq<u8>) -> Seq<u8>
    recommends
        ipv6_ok(p),
{
    if p.len() <= 40 {
        Seq::empty()
    } else {
        p.subrange(
            40,
            if 40 + ipv6_payload_len(p) <= p.len() {
                40 + ipv6_payload_len(p)
            } else {
                p.len() as int
            },
        )
    }
}

/// The IPv6 payload as a slice.
pub fn ipv6_payload_slice(p: &[u8]) -> (r: &[u8])
    requires
        ipv6_ok(p@),
    ensures
        r@ == ipv6_payload(p@),
{
    let declared: usize = be16(p, 4) as usize;
    if p.len() <= 40 {
        let r = slice_subrange(p, 0, 0);
        proof {
            assert(r@ =~= ipv6_payload(p@));
        }
        r
    } else {
        let end: usize = if 40 + declared <= p.len() {
            40 + declared
        } else {
            p.len()
        };
        slice_subrange(p, 40, end)
    }
}

// --- TCP: 20-byte fixed header, options up to the data offset ---
/// True when the buffer holds the fixed TCP header.
pub open spec fn tcp_ok(t: Seq<u8>) -> bool {
    t.len() >= 20
}

/// Source port.
pub open spec fn tcp_src_port(t: Seq<u8>) -> u16
    recommends
        tcp_ok(t),
{
    spec_be16(t, 0)
}

/// Destination port.
pub open spec fn tcp_dst_port(t: Seq<u8>) -> u16
    recommends
        tcp_ok(t),
{
    spec_be16(t, 2)
}

/// Sequence number.
pub open spec fn tcp_seq_num(t: Seq<u8>) -> u32
    recommends
        tcp_ok(t),
{
    spec_be32(t, 4)
}

/// Acknowledgment number.
pub open spec fn tcp_ack_num(t: Seq<u8>) -> u32
    recommends
        tcp_ok(t),
{
    spec_be32(t, 8)
}

/// Data offset in 32-bit words (the high nibble of byte 12).
pub open spec fn tcp_doff(t: Seq<u8>) -> u8
    recommends
        tcp_ok(t),
{
    (t[12] / 16) as u8
}

/// The flag byte.
pub open spec fn tcp_flags(t: Seq<u8>) -> u8
    recommends
        tcp_ok(t),
{
    t[13]
}

/// Window size.
pub open spec fn tcp_window(t: Seq<u8>) -> u16
    recommends
        tcp_ok(t),
{
    spec_be16(t, 14)
}

/// The payload: after the offset the header claims, never past the buffer;
/// an offset below the fixed part is treated as the fixed part.
pub open spec fn tcp_payload(t: Seq<u8>) -> Seq<u8>
    recommends
        tcp_ok(t),
{
    let start: int = if tcp_doff(t) >= 5 {
        4 * tcp_doff(t)
    } else {
        20
    };
    if t.len() <= start {
        Seq::empty()
    } else {
        t.subrange(start, t.len() as int)
    }
}

/// The TCP payload as a slice.
pub fn tcp_payload_slice(t: &[u8]) -> (r: &[u8])
    requires
        tcp_ok(t@),
    ensures
        r@ == tcp_payload(t@),
{
    let doff: u8 = *slice_index_get(t, 12) / 16;
    let start: usize = if doff >= 5 {
        4 * (doff as usize)
    } else {
        20
    };
    if t.len() <= start {
        let r = slice_subrange(t, 0, 0);
        proof {
            assert(r@ =~= tcp_payload(t@));
        }
        r
    } else {
        slice_subrange(t, start, t.len())
    }
}

// --- UDP: 8-byte header ---
/// True when the buffer holds the UDP header.
pub open spec fn udp_ok(u: Seq<u8>) -> bool {
    u.len() >= 8
}

/// Source port.
pub open spec fn udp_src_port(u: Seq<u8>) -> u16
    recommends
        udp_ok(u),
{
    spec_be16(u, 0)
}

/// Destination port.
pub open spec fn udp_dst_port(u: Seq<u8>) -> u16
    recommends
        udp_ok(u),
{
    spec_be16(u, 2)
}

/// Declared datagram length in bytes.
pub open spec fn udp_len(u: Seq<u8>) -> u16
    recommends
        udp_ok(u),
{
    spec_be16(u, 4)
}

/// Checksum field.
pub open spec fn udp_checksum(u: Seq<u8>) -> u16
    recommends
        udp_ok(u),
{
    spec_be16(u, 6)
}

/// The payload: everything after the 8-byte header.
pub open spec fn udp_payload(u: Seq<u8>) -> Seq<u8>
    recommends
        udp_ok(u),
{
    if u.len() <= 8 {
        Seq::empty()
    } else {
        u.subrange(8, u.len() as int)
    }
}

/// The UDP payload as a slice.
pub fn udp_payload_slice(u: &[u8]) -> (r: &[u8])
    requires
        udp_ok(u@),
    ensures
        r@ == udp_payload(u@),
{
    if u.len() <= 8 {
        let r = slice_subrange(u, 0, 0);
        proof {
            assert(r@ =~= udp_payload(u@));
        }
        r
    } else {
        slice_subrange(u, 8, u.len())
    }
}

} // verus!
