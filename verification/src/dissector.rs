//! The protocol dissector: a pure function from raw frame bytes to either a
//! one-line summary or a layered detail tree. Every branch is specified
//! exactly; the exec code returns precisely what the spec functions
//! describe.

use vstd::prelude::*;

use vstd::slice::{slice_index_get, slice_subrange};

use crate::addr::{ipv4_string, ipv6_string, mac_string, spec_ipv4, spec_ipv6, spec_mac};
use crate::model::{
    detail_opt_view, layers_view, DetailView, LayerView, PacketDetail, PacketSummary,
    ProtocolLayer, SummaryView, summary_opt_view,
};
use crate::text::{dec_u64, hex_pad_u32, spec_dec, spec_hex_pad};
use crate::wire::{
    be16, be32, eth_dst, eth_ok, eth_payload, eth_payload_slice, eth_src, eth_type, ipv4_dst,
    ipv4_flags, ipv4_ident, ipv4_ihl, ipv4_ok, ipv4_payload, ipv4_payload_slice, ipv4_proto,
    ipv4_src, ipv4_total_len, ipv4_ttl, ipv6_dst, ipv6_flow_label, ipv6_hop_limit,
    ipv6_next_header, ipv6_ok, ipv6_payload, ipv6_payload_len, ipv6_payload_slice, ipv6_src,
    ipv6_traffic_class, tcp_ack_num, tcp_doff, tcp_dst_port, tcp_flags, tcp_ok, tcp_payload,
    tcp_payload_slice, tcp_seq_num, tcp_src_port, tcp_window, udp_checksum, udp_dst_port, udp_len,
    udp_ok, udp_payload, udp_payload_slice, udp_src_port, ETHERTYPE_ARP, ETHERTYPE_IPV4,
    ETHERTYPE_IPV6, IP_PROTO_ICMP, IP_PROTO_ICMPV6, IP_PROTO_TCP, IP_PROTO_UDP,
};

verus! {

/// The arrow between the two addresses of an info line.
pub open spec fn spec_arrow() -> Seq<char> {
    " \u{2192} "@
}

/// Protocol token shown in an IPv4 summary for a next-protocol number.
pub open spec fn spec_ipv4_proto_label(n: u8) -> Seq<char> {
    if n == IP_PROTO_TCP {
        "TCP"@
    } else if n == IP_PROTO_UDP {
        "UDP"@
    } else if n == IP_PROTO_ICMP {
        "ICMP"@
    } else {
        "IPv4"@
    }
}

/// Protocol token shown in an IPv6 summary for a next-header number.
pub open spec fn spec_ipv6_proto_label(n: u8) -> Seq<char> {
    if n == IP_PROTO_TCP {
        "TCP"@
    } else if n == IP_PROTO_UDP {
        "UDP"@
    } else if n == IP_PROTO_ICMPV6 {
        "ICMPv6"@
    } else {
        "IPv6"@
    }
}

/// Info line of an IPv4 summary: both addresses, and the destination port
/// when the payload parses as TCP or UDP.
pub open spec fn spec_ipv4_info(p: Seq<u8>) -> Seq<char>
    recommends
        ipv4_ok(p),
{
    let base = spec_ipv4(ipv4_src(p)) + spec_arrow() + spec_ipv4(ipv4_dst(p));
    if ipv4_proto(p) == IP_PROTO_TCP && tcp_ok(ipv4_payload(p)) {
        base + " ["@ + spec_dec(tcp_dst_port(ipv4_payload(p)) as nat) + "]"@
    } else if ipv4_proto(p) == IP_PROTO_UDP && udp_ok(ipv4_payload(p)) {
        base + " ["@ + spec_dec(udp_dst_port(ipv4_payload(p)) as nat) + "]"@
    } else {
        base
    }
}

/// Info line of an IPv6 summary: the two addresses, no port suffix.
pub open spec fn spec_ipv6_info(p: Seq<u8>) -> Seq<char>
    recommends
        ipv6_ok(p),
{
    spec_ipv6(ipv6_src(p)) + spec_arrow() + spec_ipv6(ipv6_dst(p))
}

/// What a summary parse of the raw frame yields: absent when Ethernet
/// framing cannot be established or the IP header is short, otherwise the
/// addresses, protocol token, frame length and info line.
pub open spec fn spec_summary(b: Seq<u8>, id: u64, ts: i64) -> Option<SummaryView>
    recommends
        b.len() <= u32::MAX,
{
    if !eth_ok(b) {
        None
    } else if eth_type(b) == ETHERTYPE_IPV4 {
        let p = eth_payload(b);
        if !ipv4_ok(p) {
            None
        } else {
            Some(
                SummaryView {
                    id,
                    timestamp: ts,
                    source_addr: spec_ipv4(ipv4_src(p)),
                    dest_addr: spec_ipv4(ipv4_dst(p)),
                    protocol: spec_ipv4_proto_label(ipv4_proto(p)),
                    length: b.len() as u32,
                    info: spec_ipv4_info(p),
                },
            )
        }
    } else if eth_type(b) == ETHERTYPE_IPV6 {
        let p = eth_payload(b);
        if !ipv6_ok(p) {
            None
        } else {
            Some(
                SummaryView {
                    id,
                    timestamp: ts,
                    source_addr: spec_ipv6(ipv6_src(p)),
                    dest_addr: spec_ipv6(ipv6_dst(p)),
                    protocol: spec_ipv6_proto_label(ipv6_next_header(p)),
                    length: b.len() as u32,
                    info: spec_ipv6_info(p),
                },
            )
        }
    } else if eth_type(b) == ETHERTYPE_ARP {
        Some(
            SummaryView {
                id,
                timestamp: ts,
                source_addr: spec_mac(eth_src(b)),
                dest_addr: spec_mac(eth_dst(b)),
                protocol: "ARP"@,
                length: b.len() as u32,
                info: "ARP"@,
            },
        )
    } else {
        Some(
            SummaryView {
                id,
                timestamp: ts,
                source_addr: spec_mac(eth_src(b)),
                dest_addr: spec_mac(eth_dst(b)),
                protocol: "Unknown"@,
                length: b.len() as u32,
                info: "Unknown"@,
            },
        )
    }
}

/// The summary protocol token of an IPv4 frame as a string.
fn ipv4_label_string(n: u8) -> (r: String)
    ensures
        r@ == spec_ipv4_proto_label(n),
{
    if n == IP_PROTO_TCP {
        String::from_str("TCP")
    } else if n == IP_PROTO_UDP {
        String::from_str("UDP")
    } else if n == IP_PROTO_ICMP {
        String::from_str("ICMP")
    } else {
        String::from_str("IPv4")
    }
}

/// The summary protocol token of an IPv6 frame as a string.
fn ipv6_label_string(n: u8) -> (r: String)
    ensures
        r@ == spec_ipv6_proto_label(n),
{
    if n == IP_PROTO_TCP {
        String::from_str("TCP")
    } else if n == IP_PROTO_UDP {
        String::from_str("UDP")
    } else if n == IP_PROTO_ICMPV6 {
        String::from_str("ICMPv6")
    } else {
        String::from_str("IPv6")
    }
}

/// The info line of an IPv4 summary.
fn ipv4_info_string(p: &[u8]) -> (r: String)
    requires
        ipv4_ok(p@),
    ensures
        r@ == spec_ipv4_info(p@),
{
    let mut s = ipv4_string(slice_subrange(p, 12, 16));
    s.append(" \u{2192} ");
    let d = ipv4_string(slice_subrange(p, 16, 20));
    s.append(d.as_str());
    let proto: u8 = *slice_index_get(p, 9);
    let pl = ipv4_payload_slice(p);
    if proto == IP_PROTO_TCP && pl.len() >= 20 {
        s.append(" [");
        let port = dec_u64(be16(pl, 2) as u64);
        s.append(port.as_str());
        s.append("]");
    } else if proto == IP_PROTO_UDP && pl.len() >= 8 {
        s.append(" [");
        let port = dec_u64(be16(pl, 2) as u64);
        s.append(port.as_str());
        s.append("]");
    }
    proof {
        assert(s@ =~= spec_ipv4_info(p@));
    }
    s
}

/// The info line of an IPv6 summary.
fn ipv6_info_string(p: &[u8]) -> (r: String)
    requires
        ipv6_ok(p@),
    ensures
        r@ == spec_ipv6_info(p@),
{
    let mut s = ipv6_string(slice_subrange(p, 8, 24));
    s.append(" \u{2192} ");
    let d = ipv6_string(slice_subrange(p, 24, 40));
    s.append(d.as_str());
    proof {
        assert(s@ =~= spec_ipv6_info(p@));
    }
    s
}

/// Lightweight parse of a raw frame for the packet list: exactly
/// [`spec_summary`] of the bytes, the id and the timestamp.
pub fn parse_summary(raw_data: &[u8], id: u64, timestamp_ns: i64) -> (r: Option<PacketSummary>)
    requires
        raw_data@.len() <= u32::MAX,
    ensures
        summary_opt_view(r) == spec_summary(raw_data@, id, timestamp_ns),
{
    let n: usize = raw_data.len();
    if n < 14 {
        return None;
    }
    let et: u16 = be16(raw_data, 12);
    if et == ETHERTYPE_IPV4 {
        let p = eth_payload_slice(raw_data);
        if p.len() < 20 {
            return None;
        }
        let source_addr = ipv4_string(slice_subrange(p, 12, 16));
        let dest_addr = ipv4_string(slice_subrange(p, 16, 20));
        let protocol = ipv4_label_string(*slice_index_get(p, 9));
        let info = ipv4_info_string(p);
        Some(
            PacketSummary {
                id,
                timestamp: timestamp_ns,
                source_addr,
                dest_addr,
                protocol,
                length: n as u32,
                info,
            },
        )
    } else if et == ETHERTYPE_IPV6 {
        let p = eth_payload_slice(raw_data);
        if p.len() < 40 {
            return None;
        }
        let source_addr = ipv6_string(slice_subrange(p, 8, 24));
        let dest_addr = ipv6_string(slice_subrange(p, 24, 40));
        let protocol = ipv6_label_string(*slice_index_get(p, 6));
        let info = ipv6_info_string(p);
        Some(
            PacketSummary {
                id,
                timestamp: timestamp_ns,
                source_addr,
                dest_addr,
                protocol,
                length: n as u32,
                info,
            },
        )
    } else if et == ETHERTYPE_ARP {
        Some(
            PacketSummary {
                id,
                timestamp: timestamp_ns,
                source_addr: mac_string(slice_subrange(raw_data, 6, 12)),
                dest_addr: mac_string(slice_subrange(raw_data, 0, 6)),
                protocol: String::from_str("ARP"),
                length: n as u32,
                info: String::from_str("ARP"),
            },
        )
    } else {
        Some(
            PacketSummary {
                id,
                timestamp: timestamp_ns,
                source_addr: mac_string(slice_subrange(raw_data, 6, 12)),
                dest_addr: mac_string(slice_subrange(raw_data, 0, 6)),
                protocol: String::from_str("Unknown"),
                length: n as u32,
                info: String::from_str("Unknown"),
            },
        )
    }
}

/// A length rendered as "<n> bytes".
pub open spec fn spec_bytes_amount(n: nat) -> Seq<char> {
    spec_dec(n) + " bytes"@
}

/// "<n> bytes" as a string.
fn bytes_amount_string(n: u64) -> (r: String)
    ensures
        r@ == spec_bytes_amount(n as nat),
{
    let mut s = dec_u64(n);
    s.append(" bytes");
    s
}

/// True when `b` is a continuation byte of a multi-byte character.
pub open spec fn utf8_cont(x: u8) -> bool {
    0x80 <= x < 0xC0
}

/// Well-formed UTF-8: each leading byte announces a sequence whose
/// continuation bytes lie in the ranges that exclude overlong forms and
/// surrogates.
pub open spec fn is_utf8(b: Seq<u8>) -> bool
    decreases b.len(),
{
    if b.len() == 0 {
        true
    } else {
        let x = b[0];
        if x < 0x80 {
            is_utf8(b.skip(1))
        } else if 0xC2 <= x <= 0xDF {
            b.len() >= 2 && utf8_cont(b[1]) && is_utf8(b.skip(2))
        } else if x == 0xE0 {
            b.len() >= 3 && 0xA0 <= b[1] <= 0xBF && utf8_cont(b[2]) && is_utf8(b.skip(3))
        } else if 0xE1 <= x <= 0xEC {
            b.len() >= 3 && utf8_cont(b[1]) && utf8_cont(b[2]) && is_utf8(b.skip(3))
        } else if x == 0xED {
            b.len() >= 3 && 0x80 <= b[1] <= 0x9F && utf8_cont(b[2]) && is_utf8(b.skip(3))
        } else if 0xEE <= x <= 0xEF {
            b.len() >= 3 && utf8_cont(b[1]) && utf8_cont(b[2]) && is_utf8(b.skip(3))
        } else if x == 0xF0 {
            b.len() >= 4 && 0x90 <= b[1] <= 0xBF && utf8_cont(b[2]) && utf8_cont(b[3]) && is_utf8(
                b.skip(4),
            )
        } else if 0xF1 <= x <= 0xF3 {
            b.len() >= 4 && utf8_cont(b[1]) && utf8_cont(b[2]) && utf8_cont(b[3]) && is_utf8(
                b.skip(4),
            )
        } else if x == 0xF4 {
            b.len() >= 4 && 0x80 <= b[1] <= 0x8F && utf8_cont(b[2]) && utf8_cont(b[3]) && is_utf8(
                b.skip(4),
            )
        } else {
            false
        }
    }
}

/// Whether `b` is well-formed UTF-8.
fn utf8_check(b: &[u8]) -> (r: bool)
    ensures
        r == is_utf8(b@),
{
    let n: usize = b.len();
    let mut i: usize = 0;
    proof {
        assert(b@.skip(0) =~= b@);
    }
    while i < n
        invariant
            i <= n,
            n == b@.len(),
            is_utf8(b@) == is_utf8(b@.skip(i as int)),
        decreases n - i,
    {
        let ghost rest = b@.skip(i as int);
        let x: u8 = *slice_index_get(b, i);
        proof {
            assert(rest[0] == b@[i as int]);
        }
        if x < 0x80 {
            proof {
                assert(rest.skip(1) =~= b@.skip(i + 1));
            }
            i = i + 1;
        } else if 0xC2 <= x && x <= 0xDF {
            if n - i < 2 {
                return false;
            }
            let y: u8 = *slice_index_get(b, i + 1);
            proof {
                assert(rest[1] == b@[i + 1]);
            }
            if !(0x80 <= y && y < 0xC0) {
                return false;
            }
            proof {
                assert(rest.skip(2) =~= b@.skip(i + 2));
            }
            i = i + 2;
        } else if 0xE0 <= x && x <= 0xEF {
            if n - i < 3 {
                return false;
            }
            let y: u8 = *slice_index_get(b, i + 1);
            let z: u8 = *slice_index_get(b, i + 2);
            proof {
                assert(rest[1] == b@[i + 1]);
                assert(rest[2] == b@[i + 2]);
            }
            let y_ok: bool = if x == 0xE0 {
                0xA0 <= y && y <= 0xBF
            } else if x == 0xED {
                0x80 <= y && y <= 0x9F
            } else {
                0x80 <= y && y < 0xC0
            };
            if !y_ok || !(0x80 <= z && z < 0xC0) {
                return false;
            }
            proof {
                assert(rest.skip(3) =~= b@.skip(i + 3));
            }
            i = i + 3;
        } else if 0xF0 <= x && x <= 0xF4 {
            if n - i < 4 {
                return false;
            }
            let y: u8 = *slice_index_get(b, i + 1);
            let z: u8 = *slice_index_get(b, i + 2);
            let w: u8 = *slice_index_get(b, i + 3);
            proof {
                assert(rest[1] == b@[i + 1]);
                assert(rest[2] == b@[i + 2]);
                assert(rest[3] == b@[i + 3]);
            }
            let y_ok: bool = if x == 0xF0 {
                0x90 <= y && y <= 0xBF
            } else if x == 0xF4 {
                0x80 <= y && y <= 0x8F
            } else {
                0x80 <= y && y < 0xC0
            };
            if !y_ok || !(0x80 <= z && z < 0xC0) || !(0x80 <= w && w < 0xC0) {
                return false;
            }
            proof {
                assert(rest.skip(4) =~= b@.skip(i + 4));
            }
            i = i + 4;
        } else {
            return false;
        }
    }
    proof {
        assert(b@.skip(n as int) =~= Seq::<u8>::empty());
    }
    true
}

/// True when `p` is a prefix of `b`.
pub open spec fn has_prefix(b: Seq<u8>, p: Seq<u8>) -> bool {
    p.len() <= b.len() && b.take(p.len() as int) == p
}

/// The inspected head of an application payload: its first hundred bytes.
pub open spec fn spec_utf8_head(payload: Seq<u8>) -> Seq<u8> {
    payload.take(
        if payload.len() < 100 {
            payload.len() as int
        } else {
            100
        },
    )
}

/// The field an HTTP-looking head contributes: the request method, or the
/// response marker for a status line.
pub open spec fn spec_http_field(h: Seq<u8>) -> Option<(Seq<char>, Seq<char>)> {
    if has_prefix(h, seq![0x47u8, 0x45u8, 0x54u8]) {
        Some(("Method"@, "GET"@))
    } else if has_prefix(h, seq![0x50u8, 0x4Fu8, 0x53u8, 0x54u8]) {
        Some(("Method"@, "POST"@))
    } else if has_prefix(h, seq![0x50u8, 0x55u8, 0x54u8]) {
        Some(("Method"@, "PUT"@))
    } else if has_prefix(h, seq![0x44u8, 0x45u8, 0x4Cu8, 0x45u8, 0x54u8, 0x45u8]) {
        Some(("Method"@, "DELETE"@))
    } else if has_prefix(h, seq![0x48u8, 0x54u8, 0x54u8, 0x50u8, 0x2Fu8]) {
        Some(("Type"@, "Response"@))
    } else {
        None
    }
}

/// View of the optional HTTP field pair.
pub open spec fn field_opt_view(r: Option<(String, String)>) -> Option<(Seq<char>, Seq<char>)> {
    match r {
        Some(f) => Some((f.0@, f.1@)),
        None => None,
    }
}

/// The generic application layer, giving only the payload length.
pub open spec fn spec_app_data_layer(payload_len: nat) -> LayerView {
    LayerView {
        name: "Application Data"@,
        fields: seq![("Payload Length"@, spec_bytes_amount(payload_len))],
    }
}

/// The layers the application classifier contributes: none for an empty
/// payload; a DNS layer when either port is 53; an HTTP layer when a
/// well-known web port carries text that opens like a request or status
/// line; otherwise the generic layer.
pub open spec fn spec_app_layers(
    src_port: u16,
    dst_port: u16,
    payload: Seq<u8>,
    is_tcp: bool,
) -> Seq<LayerView> {
    if payload.len() == 0 {
        Seq::empty()
    } else if src_port == 53 || dst_port == 53 {
        seq![
            LayerView {
                name: "Domain Name System"@,
                fields: seq![
                    (
                        "Port"@,
                        if src_port == 53 {
                            "53 (Response)"@
                        } else {
                            "53 (Query)"@
                        },
                    ),
                    ("Payload Length"@, spec_bytes_amount(payload.len())),
                ],
            },
        ]
    } else if is_tcp && (src_port == 80 || dst_port == 80 || src_port == 443 || dst_port == 443)
        && is_utf8(spec_utf8_head(payload)) {
        match spec_http_field(spec_utf8_head(payload)) {
            Some(f) => seq![
                LayerView {
                    name: if src_port == 443 || dst_port == 443 {
                        "Hypertext Transfer Protocol Secure"@
                    } else {
                        "Hypertext Transfer Protocol"@
                    },
                    fields: seq![f, ("Payload Length"@, spec_bytes_amount(payload.len()))],
                },
            ],
            None => seq![spec_app_data_layer(payload.len())],
        }
    } else {
        seq![spec_app_data_layer(payload.len())]
    }
}

/// The HTTP method or response marker at the head, if any.
fn http_field(h: &[u8]) -> (r: Option<(String, String)>)
    ensures
        field_opt_view(r) == spec_http_field(h@),
{
    let n: usize = h.len();
    if n >= 3 && *slice_index_get(h, 0) == 0x47 && *slice_index_get(h, 1) == 0x45
        && *slice_index_get(h, 2) == 0x54 {
        proof {
            assert(h@.take(3) =~= seq![0x47u8, 0x45u8, 0x54u8]);
        }
        Some((String::from_str("Method"), String::from_str("GET")))
    } else if n >= 4 && *slice_index_get(h, 0) == 0x50 && *slice_index_get(h, 1) == 0x4F
        && *slice_index_get(h, 2) == 0x53 && *slice_index_get(h, 3) == 0x54 {
        proof {
            assert(h@.take(4) =~= seq![0x50u8, 0x4Fu8, 0x53u8, 0x54u8]);
        }
        Some((String::from_str("Method"), String::from_str("POST")))
    } else if n >= 3 && *slice_index_get(h, 0) == 0x50 && *slice_index_get(h, 1) == 0x55
        && *slice_index_get(h, 2) == 0x54 {
        proof {
            assert(h@.take(3) =~= seq![0x50u8, 0x55u8, 0x54u8]);
        }
        Some((String::from_str("Method"), String::from_str("PUT")))
    } else if n >= 6 && *slice_index_get(h, 0) == 0x44 && *slice_index_get(h, 1) == 0x45
        && *slice_index_get(h, 2) == 0x4C && *slice_index_get(h, 3) == 0x45
        && *slice_index_get(h, 4) == 0x54 && *slice_index_get(h, 5) == 0x45 {
        proof {
            assert(h@.take(6) =~= seq![0x44u8, 0x45u8, 0x4Cu8, 0x45u8, 0x54u8, 0x45u8]);
        }
        Some((String::from_str("Method"), String::from_str("DELETE")))
    } else if n >= 5 && *slice_index_get(h, 0) == 0x48 && *slice_index_get(h, 1) == 0x54
        && *slice_index_get(h, 2) == 0x54 && *slice_index_get(h, 3) == 0x50
        && *slice_index_get(h, 4) == 0x2F {
        proof {
            assert(h@.take(5) =~= seq![0x48u8, 0x54u8, 0x54u8, 0x50u8, 0x2Fu8]);
        }
        Some((String::from_str("Type"), String::from_str("Response")))
    } else {
        proof {
            if has_prefix(h@, seq![0x47u8, 0x45u8, 0x54u8]) {
                assert(h@[0] == 0x47 && h@[1] == 0x45 && h@[2] == 0x54);
            }
            if has_prefix(h@, seq![0x50u8, 0x4Fu8, 0x53u8, 0x54u8]) {
                assert(h@[0] == 0x50 && h@[1] == 0x4F && h@[2] == 0x53 && h@[3] == 0x54);
            }
            if has_prefix(h@, seq![0x50u8, 0x55u8, 0x54u8]) {
                assert(h@[0] == 0x50 && h@[1] == 0x55 && h@[2] == 0x54);
            }
            if has_prefix(h@, seq![0x44u8, 0x45u8, 0x4Cu8, 0x45u8, 0x54u8, 0x45u8]) {
                assert(h@[0] == 0x44 && h@[1] == 0x45 && h@[2] == 0x4C && h@[3] == 0x45 && h@[4]
                    == 0x54 && h@[5] == 0x45);
            }
            if has_prefix(h@, seq![0x48u8, 0x54u8, 0x54u8, 0x50u8, 0x2Fu8]) {
                assert(h@[0] == 0x48 && h@[1] == 0x54 && h@[2] == 0x54 && h@[3] == 0x50 && h@[4]
                    == 0x2F);
            }
        }
        None
    }
}

/// Classifies an application payload and appends its layer, if any, to the
/// list: exactly [`spec_app_layers`] of the ports, payload and transport.
pub fn parse_application_layer(
    layers: &mut Vec<ProtocolLayer>,
    src_port: u16,
    dst_port: u16,
    payload: &[u8],
    is_tcp: bool,
)
    ensures
        layers_view(final(layers)@) == layers_view(old(layers)@) + spec_app_layers(
            src_port,
            dst_port,
            payload@,
            is_tcp,
        ),
{
    let n: usize = payload.len();
    if n == 0 {
        proof {
            assert(layers_view(layers@) =~= layers_view(layers@) + spec_app_layers(
                src_port,
                dst_port,
                payload@,
                is_tcp,
            ));
        }
        return ;
    }
    if src_port == 53 || dst_port == 53 {
        let mut fields: Vec<(String, String)> = Vec::new();
        let port_val = if src_port == 53 {
            String::from_str("53 (Response)")
        } else {
            String::from_str("53 (Query)")
        };
        fields.push((String::from_str("Port"), port_val));
        fields.push((String::from_str("Payload Length"), bytes_amount_string(n as u64)));
        let layer = ProtocolLayer { name: String::from_str("Domain Name System"), fields };
        proof {
            assert(layer@.fields =~= spec_app_layers(src_port, dst_port, payload@, is_tcp)[0].fields);
        }
        layers.push(layer);
        proof {
            assert(layers_view(layers@) =~= layers_view(old(layers)@) + spec_app_layers(
                src_port,
                dst_port,
                payload@,
                is_tcp,
            ));
        }
        return ;
    }
    if is_tcp && (src_port == 80 || dst_port == 80 || src_port == 443 || dst_port == 443) {
        let head_len: usize = if n < 100 {
            n
        } else {
            100
        };
        let head = slice_subrange(payload, 0, head_len);
        proof {
            assert(head@ == spec_utf8_head(payload@));
        }
        if utf8_check(head) {
            if let Some(f) = http_field(head) {
                let mut fields: Vec<(String, String)> = Vec::new();
                fields.push(f);
                fields.push((String::from_str("Payload Length"), bytes_amount_string(n as u64)));
                let name = if src_port == 443 || dst_port == 443 {
                    String::from_str("Hypertext Transfer Protocol Secure")
                } else {
                    String::from_str("Hypertext Transfer Protocol")
                };
                let layer = ProtocolLayer { name, fields };
                proof {
                    assert(layer@.fields =~= spec_app_layers(
                        src_port,
                        dst_port,
                        payload@,
                        is_tcp,
                    )[0].fields);
                }
                layers.push(layer);
                proof {
                    assert(layers_view(layers@) =~= layers_view(old(layers)@) + spec_app_layers(
                        src_port,
                        dst_port,
                        payload@,
                        is_tcp,
                    ));
                }
                return ;
            }
        }
    }
    let mut fields: Vec<(String, String)> = Vec::new();
    fields.push((String::from_str("Payload Length"), bytes_amount_string(n as u64)));
    let layer = ProtocolLayer { name: String::from_str("Application Data"), fields };
    proof {
        assert(layer@.fields =~= spec_app_data_layer(payload@.len()).fields);
    }
    layers.push(layer);
    proof {
        assert(layers_view(layers@) =~= layers_view(old(layers)@) + spec_app_layers(
            src_port,
            dst_port,
            payload@,
            is_tcp,
        ));
    }
}

/// A field value of the form "0x" followed by `w` hex digits.
pub open spec fn spec_hex_field(n: nat, w: nat) -> Seq<char> {
    "0x"@ + spec_hex_pad(n, w)
}

/// "0x" followed by `width` hex digits as a string.
fn hex_field_string(n: u32, width: usize) -> (r: String)
    ensures
        r@ == spec_hex_field(n as nat, width as nat),
{
    let mut s = String::from_str("0x");
    let digits = hex_pad_u32(n, width);
    s.append(digits.as_str());
    s
}

/// The name shown beside a protocol number in a detail field; only the
/// protocols the dissector distinguishes have names.
pub open spec fn spec_proto_display(n: u8) -> Seq<char> {
    if n == IP_PROTO_TCP {
        "Tcp"@
    } else if n == IP_PROTO_UDP {
        "Udp"@
    } else if n == IP_PROTO_ICMP {
        "Icmp"@
    } else if n == IP_PROTO_ICMPV6 {
        "Icmpv6"@
    } else {
        "unknown"@
    }
}

/// A protocol field value: the number, then its name in parentheses.
pub open spec fn spec_proto_field(n: u8) -> Seq<char> {
    spec_dec(n as nat) + " ("@ + spec_proto_display(n) + ")"@
}

/// The protocol field value as a string.
fn proto_field_string(n: u8) -> (r: String)
    ensures
        r@ == spec_proto_field(n),
{
    let mut s = dec_u64(n as u64);
    s.append(" (");
    if n == IP_PROTO_TCP {
        s.append("Tcp");
    } else if n == IP_PROTO_UDP {
        s.append("Udp");
    } else if n == IP_PROTO_ICMP {
        s.append("Icmp");
    } else if n == IP_PROTO_ICMPV6 {
        s.append("Icmpv6");
    } else {
        s.append("unknown");
    }
    s.append(")");
    proof {
        assert(s@ =~= spec_proto_field(n));
    }
    s
}

/// The Ethernet layer of a detail view.
pub open spec fn spec_eth_layer(b: Seq<u8>) -> LayerView
    recommends
        eth_ok(b),
{
    LayerView {
        name: "Ethernet"@,
        fields: seq![
            ("Destination"@, spec_mac(eth_dst(b))),
            ("Source"@, spec_mac(eth_src(b))),
            ("Type"@, spec_hex_field(eth_type(b) as nat, 4)),
        ],
    }
}

/// The IPv4 layer of a detail view.
pub open spec fn spec_ipv4_layer(p: Seq<u8>) -> LayerView
    recommends
        ipv4_ok(p),
{
    LayerView {
        name: "Internet Protocol Version 4"@,
        fields: seq![
            ("Version"@, "4"@),
            ("Header Length"@, spec_bytes_amount((4 * ipv4_ihl(p)) as nat)),
            ("Total Length"@, spec_bytes_amount(ipv4_total_len(p) as nat)),
            ("Identification"@, spec_hex_field(ipv4_ident(p) as nat, 4)),
            ("Flags"@, spec_hex_field(ipv4_flags(p) as nat, 2)),
            ("TTL"@, spec_dec(ipv4_ttl(p) as nat)),
            ("Protocol"@, spec_proto_field(ipv4_proto(p))),
            ("Source"@, spec_ipv4(ipv4_src(p))),
            ("Destination"@, spec_ipv4(ipv4_dst(p))),
        ],
    }
}

/// The TCP layer of a detail view.
pub open spec fn spec_tcp_layer(t: Seq<u8>) -> LayerView
    recommends
        tcp_ok(t),
{
    LayerView {
        name: "Transmission Control Protocol"@,
        fields: seq![
            ("Source Port"@, spec_dec(tcp_src_port(t) as nat)),
            ("Destination Port"@, spec_dec(tcp_dst_port(t) as nat)),
            ("Sequence Number"@, spec_dec(tcp_seq_num(t) as nat)),
            ("Acknowledgment Number"@, spec_dec(tcp_ack_num(t) as nat)),
            ("Data Offset"@, spec_bytes_amount((4 * tcp_doff(t)) as nat)),
            ("Flags"@, spec_hex_field(tcp_flags(t) as nat, 2)),
            ("Window Size"@, spec_dec(tcp_window(t) as nat)),
        ],
    }
}

/// The UDP layer of a detail view.
pub open spec fn spec_udp_layer(u: Seq<u8>) -> LayerView
    recommends
        udp_ok(u),
{
    LayerView {
        name: "User Datagram Protocol"@,
        fields: seq![
            ("Source Port"@, spec_dec(udp_src_port(u) as nat)),
            ("Destination Port"@, spec_dec(udp_dst_port(u) as nat)),
            ("Length"@, spec_bytes_amount(udp_len(u) as nat)),
            ("Checksum"@, spec_hex_field(udp_checksum(u) as nat, 4)),
        ],
    }
}

/// The ICMP layer of a detail view, over the IPv4 buffer.
pub open spec fn spec_icmp_layer(p: Seq<u8>) -> LayerView
    recommends
        ipv4_ok(p),
{
    LayerView {
        name: "Internet Control Message Protocol"@,
        fields: seq![("Payload Length"@, spec_bytes_amount(ipv4_payload(p).len()))],
    }
}

/// The ARP layer of a detail view, over the whole frame.
pub open spec fn spec_arp_layer(b: Seq<u8>) -> LayerView
    recommends
        eth_ok(b),
{
    LayerView {
        name: "Address Resolution Protocol"@,
        fields: seq![("Payload Length"@, spec_bytes_amount(eth_payload(b).len()))],
    }
}

/// The layers below the IPv4 header: the IPv4 layer, then the transport
/// layer when its header parses, then what the application classifier
/// contributes.
pub open spec fn spec_ipv4_layers(p: Seq<u8>) -> Seq<LayerView>
    recommends
        ipv4_ok(p),
{
    let pl = ipv4_payload(p);
    seq![spec_ipv4_layer(p)] + if ipv4_proto(p) == IP_PROTO_TCP {
        if tcp_ok(pl) {
            seq![spec_tcp_layer(pl)] + spec_app_layers(
                tcp_src_port(pl),
                tcp_dst_port(pl),
                tcp_payload(pl),
                true,
            )
        } else {
            Seq::empty()
        }
    } else if ipv4_proto(p) == IP_PROTO_UDP {
        if udp_ok(pl) {
            seq![spec_udp_layer(pl)] + spec_app_layers(
                udp_src_port(pl),
                udp_dst_port(pl),
                udp_payload(pl),
                false,
            )
        } else {
            Seq::empty()
        }
    } else if ipv4_proto(p) == IP_PROTO_ICMP {
        seq![spec_icmp_layer(p)]
    } else {
        Seq::empty()
    }
}

/// The layers below the IPv6 header.
pub open spec fn spec_ipv6_layers(p: Seq<u8>) -> Seq<LayerView>
    recommends
        ipv6_ok(p),
{
    let pl = ipv6_payload(p);
    seq![spec_ipv6_layer(p)] + if ipv6_next_header(p) == IP_PROTO_TCP {
        if tcp_ok(pl) {
            seq![spec_tcp_layer(pl)] + spec_app_layers(
                tcp_src_port(pl),
                tcp_dst_port(pl),
                tcp_payload(pl),
                true,
            )
        } else {
            Seq::empty()
        }
    } else if ipv6_next_header(p) == IP_PROTO_UDP {
        if udp_ok(pl) {
            seq![spec_udp_layer(pl)] + spec_app_layers(
                udp_src_port(pl),
                udp_dst_port(pl),
                udp_payload(pl),
                false,
            )
        } else {
            Seq::empty()
        }
    } else {
        Seq::empty()
    }
}

/// The IPv6 layer of a detail view.
pub open spec fn spec_ipv6_layer(p: Seq<u8>) -> LayerView
    recommends
        ipv6_ok(p),
{
    LayerView {
        name: "Internet Protocol Version 6"@,
        fields: seq![
            ("Version"@, "6"@),
            ("Traffic Class"@, spec_hex_field(ipv6_traffic_class(p) as nat, 2)),
            ("Flow Label"@, spec_hex_field(ipv6_flow_label(p) as nat, 5)),
            ("Payload Length"@, spec_bytes_amount(ipv6_payload_len(p) as nat)),
            ("Next Header"@, spec_proto_field(ipv6_next_header(p))),
            ("Hop Limit"@, spec_dec(ipv6_hop_limit(p) as nat)),
            ("Source"@, spec_ipv6(ipv6_src(p))),
            ("Destination"@, spec_ipv6(ipv6_dst(p))),
        ],
    }
}

/// The full layer list of a frame whose summary parses.
pub open spec fn spec_layers(b: Seq<u8>) -> Seq<LayerView>
    recommends
        eth_ok(b),
{
    seq![spec_eth_layer(b)] + if eth_type(b) == ETHERTYPE_IPV4 {
        spec_ipv4_layers(eth_payload(b))
    } else if eth_type(b) == ETHERTYPE_IPV6 {
        spec_ipv6_layers(eth_payload(b))
    } else if eth_type(b) == ETHERTYPE_ARP {
        seq![spec_arp_layer(b)]
    } else {
        Seq::empty()
    }
}

/// What a full dissection yields: absent exactly when the summary parse is
/// absent, otherwise the summary (with a zero timestamp), the layer tree
/// and the raw bytes.
pub open spec fn spec_detail(b: Seq<u8>, id: u64) -> Option<DetailView>
    recommends
        b.len() <= u32::MAX,
{
    match spec_summary(b, id, 0) {
        None => None,
        Some(s) => Some(DetailView { summary: s, layers: spec_layers(b), raw_bytes: b }),
    }
}

/// Builds the Ethernet layer.
fn eth_layer(b: &[u8]) -> (r: ProtocolLayer)
    requires
        eth_ok(b@),
    ensures
        r@ == spec_eth_layer(b@),
{
    let mut fields: Vec<(String, String)> = Vec::new();
    fields.push((String::from_str("Destination"), mac_string(slice_subrange(b, 0, 6))));
    fields.push((String::from_str("Source"), mac_string(slice_subrange(b, 6, 12))));
    fields.push((String::from_str("Type"), hex_field_string(be16(b, 12) as u32, 4)));
    let r = ProtocolLayer { name: String::from_str("Ethernet"), fields };
    proof {
        assert(r@.fields =~= spec_eth_layer(b@).fields);
    }
    r
}

/// Builds the IPv4 layer.
fn ipv4_layer(p: &[u8]) -> (r: ProtocolLayer)
    requires
        ipv4_ok(p@),
    ensures
        r@ == spec_ipv4_layer(p@),
{
    let ihl: u8 = *slice_index_get(p, 0) % 16;
    let mut fields: Vec<(String, String)> = Vec::new();
    fields.push((String::from_str("Version"), String::from_str("4")));
    fields.push((String::from_str("Header Length"), bytes_amount_string(4 * (ihl as u64))));
    fields.push((String::from_str("Total Length"), bytes_amount_string(be16(p, 2) as u64)));
    fields.push((String::from_str("Identification"), hex_field_string(be16(p, 4) as u32, 4)));
    fields.push((String::from_str("Flags"), hex_field_string((*slice_index_get(p, 6) / 32) as u32, 2)));
    fields.push((String::from_str("TTL"), dec_u64(*slice_index_get(p, 8) as u64)));
    fields.push((String::from_str("Protocol"), proto_field_string(*slice_index_get(p, 9))));
    fields.push((String::from_str("Source"), ipv4_string(slice_subrange(p, 12, 16))));
    fields.push((String::from_str("Destination"), ipv4_string(slice_subrange(p, 16, 20))));
    let r = ProtocolLayer { name: String::from_str("Internet Protocol Version 4"), fields };
    proof {
        assert(r@.fields =~= spec_ipv4_layer(p@).fields);
    }
    r
}

/// Builds the TCP layer.
fn tcp_layer(t: &[u8]) -> (r: ProtocolLayer)
    requires
        tcp_ok(t@),
    ensures
        r@ == spec_tcp_layer(t@),
{
    let doff: u8 = *slice_index_get(t, 12) / 16;
    let mut fields: Vec<(String, String)> = Vec::new();
    fields.push((String::from_str("Source Port"), dec_u64(be16(t, 0) as u64)));
    fields.push((String::from_str("Destination Port"), dec_u64(be16(t, 2) as u64)));
    fields.push((String::from_str("Sequence Number"), dec_u64(be32(t, 4) as u64)));
    fields.push((String::from_str("Acknowledgment Number"), dec_u64(be32(t, 8) as u64)));
    fields.push((String::from_str("Data Offset"), bytes_amount_string(4 * (doff as u64))));
    fields.push((String::from_str("Flags"), hex_field_string(*slice_index_get(t, 13) as u32, 2)));
    fields.push((String::from_str("Window Size"), dec_u64(be16(t, 14) as u64)));
    let r = ProtocolLayer { name: String::from_str("Transmission Control Protocol"), fields };
    proof {
        assert(r@.fields =~= spec_tcp_layer(t@).fields);
    }
    r
}

/// Builds the UDP layer.
fn udp_layer(u: &[u8]) -> (r: ProtocolLayer)
    requires
        udp_ok(u@),
    ensures
        r@ == spec_udp_layer(u@),
{
    let mut fields: Vec<(String, String)> = Vec::new();
    fields.push((String::from_str("Source Port"), dec_u64(be16(u, 0) as u64)));
    fields.push((String::from_str("Destination Port"), dec_u64(be16(u, 2) as u64)));
    fields.push((String::from_str("Length"), bytes_amount_string(be16(u, 4) as u64)));
    fields.push((String::from_str("Checksum"), hex_field_string(be16(u, 6) as u32, 4)));
    let r = ProtocolLayer { name: String::from_str("User Datagram Protocol"), fields };
    proof {
        assert(r@.fields =~= spec_udp_layer(u@).fields);
    }
    r
}

/// Builds the ICMP layer from the IPv4 buffer.
fn icmp_layer(p: &[u8]) -> (r: ProtocolLayer)
    requires
        ipv4_ok(p@),
    ensures
        r@ == spec_icmp_layer(p@),
{
    let pl = ipv4_payload_slice(p);
    let mut fields: Vec<(String, String)> = Vec::new();
    fields.push((String::from_str("Payload Length"), bytes_amount_string(pl.len() as u64)));
    let r = ProtocolLayer { name: String::from_str("Internet Control Message Protocol"), fields };
    proof {
        assert(r@.fields =~= spec_icmp_layer(p@).fields);
    }
    r
}

/// Builds the ARP layer from the whole frame.
fn arp_layer(b: &[u8]) -> (r: ProtocolLayer)
    requires
        eth_ok(b@),
    ensures
        r@ == spec_arp_layer(b@),
{
    let pl = eth_payload_slice(b);
    let mut fields: Vec<(String, String)> = Vec::new();
    fields.push((String::from_str("Payload Length"), bytes_amount_string(pl.len() as u64)));
    let r = ProtocolLayer { name: String::from_str("Address Resolution Protocol"), fields };
    proof {
        assert(r@.fields =~= spec_arp_layer(b@).fields);
    }
    r
}

/// Full dissection of a raw frame for the detail view: exactly
/// [`spec_detail`] of the bytes and the id.
pub fn dissect_packet(raw_data: &[u8], id: u64) -> (r: Option<PacketDetail>)
    requires
        raw_data@.len() <= u32::MAX,
    ensures
        detail_opt_view(r) == spec_detail(raw_data@, id),
{
    let n: usize = raw_data.len();
    if n < 14 {
        return None;
    }
    let mut layers: Vec<ProtocolLayer> = Vec::new();
    layers.push(eth_layer(raw_data));
    let et: u16 = be16(raw_data, 12);
    if et == ETHERTYPE_IPV4 {
        let p = eth_payload_slice(raw_data);
        if p.len() < 20 {
            return None;
        }
        layers.push(ipv4_layer(p));
        let proto: u8 = *slice_index_get(p, 9);
        let pl = ipv4_payload_slice(p);
        if proto == IP_PROTO_TCP {
            if pl.len() >= 20 {
                layers.push(tcp_layer(pl));
                let tp = tcp_payload_slice(pl);
                parse_application_layer(&mut layers, be16(pl, 0), be16(pl, 2), tp, true);
            }
        } else if proto == IP_PROTO_UDP {
            if pl.len() >= 8 {
                layers.push(udp_layer(pl));
                let up = udp_payload_slice(pl);
                parse_application_layer(&mut layers, be16(pl, 0), be16(pl, 2), up, false);
            }
        } else if proto == IP_PROTO_ICMP {
            layers.push(icmp_layer(p));
        }
        proof {
            assert(layers_view(layers@) =~= spec_layers(raw_data@));
        }
    } else if et == ETHERTYPE_IPV6 {
        let p = eth_payload_slice(raw_data);
        if p.len() < 40 {
            return None;
        }
        layers.push(ipv6_layer(p));
        let nh: u8 = *slice_index_get(p, 6);
        let pl = ipv6_payload_slice(p);
        if nh == IP_PROTO_TCP {
            if pl.len() >= 20 {
                layers.push(tcp_layer(pl));
                let tp = tcp_payload_slice(pl);
                parse_application_layer(&mut layers, be16(pl, 0), be16(pl, 2), tp, true);
            }
        } else if nh == IP_PROTO_UDP {
            if pl.len() >= 8 {
                layers.push(udp_layer(pl));
                let up = udp_payload_slice(pl);
                parse_application_layer(&mut layers, be16(pl, 0), be16(pl, 2), up, false);
            }
        }
        proof {
            assert(layers_view(layers@) =~= spec_layers(raw_data@));
        }
    } else if et == ETHERTYPE_ARP {
        layers.push(arp_layer(raw_data));
        proof {
            assert(layers_view(layers@) =~= spec_layers(raw_data@));
        }
    } else {
        proof {
            assert(layers_view(layers@) =~= spec_layers(raw_data@));
        }
    }
    let summary = match parse_summary(raw_data, id, 0) {
        Some(s) => s,
        None => {
            return None;
        },
    };
    let raw_bytes = vstd::slice::slice_to_vec(raw_data);
    Some(PacketDetail { summary, layers, raw_bytes })
}

/// Builds the IPv6 layer.
fn ipv6_layer(p: &[u8]) -> (r: ProtocolLayer)
    requires
        ipv6_ok(p@),
    ensures
        r@ == spec_ipv6_layer(p@),
{
    let b0: u8 = *slice_index_get(p, 0);
    let b1: u8 = *slice_index_get(p, 1);
    let b2: u8 = *slice_index_get(p, 2);
    let b3: u8 = *slice_index_get(p, 3);
    let tc: u8 = (b0 % 16) * 16 + b1 / 16;
    let flow: u32 = ((b1 % 16) as u32) * 0x10000 + (b2 as u32) * 0x100 + (b3 as u32);
    let mut fields: Vec<(String, String)> = Vec::new();
    fields.push((String::from_str("Version"), String::from_str("6")));
    fields.push((String::from_str("Traffic Class"), hex_field_string(tc as u32, 2)));
    fields.push((String::from_str("Flow Label"), hex_field_string(flow, 5)));
    fields.push((String::from_str("Payload Length"), bytes_amount_string(be16(p, 4) as u64)));
    fields.push((String::from_str("Next Header"), proto_field_string(*slice_index_get(p, 6))));
    fields.push((String::from_str("Hop Limit"), dec_u64(*slice_index_get(p, 7) as u64)));
    fields.push((String::from_str("Source"), ipv6_string(slice_subrange(p, 8, 24))));
    fields.push((String::from_str("Destination"), ipv6_string(slice_subrange(p, 24, 40))));
    let r = ProtocolLayer { name: String::from_str("Internet Protocol Version 6"), fields };
    proof {
        assert(r@.fields =~= spec_ipv6_layer(p@).fields);
    }
    r
}

} // verus!
