//! The data model: cached packets, one-line summaries, layered details.
//! Each exec type has a mathematical view used by the contracts.

use vstd::prelude::*;

verus! {

/// Raw bytes of a frame together with its capture timestamp, as the cache
/// stores them.
#[derive(Debug, Clone)]
pub struct CachedPacket {
    /// Raw frame bytes as the source delivered them.
    pub data: Vec<u8>,
    /// Capture timestamp in nanoseconds since the Unix epoch.
    pub timestamp_ns: i64,
}

/// Mathematical view of a [`CachedPacket`].
pub ghost struct CachedPacketView {
    pub data: Seq<u8>,
    pub timestamp_ns: i64,
}

impl View for CachedPacket {
    type V = CachedPacketView;

    open spec fn view(&self) -> CachedPacketView {
        CachedPacketView { data: self.data@, timestamp_ns: self.timestamp_ns }
    }
}

/// One-line representation of a frame for the list view.
#[derive(Debug, Clone)]
pub struct PacketSummary {
    /// Identifier assigned by the producer, sequential per session.
    pub id: u64,
    /// Capture timestamp in nanoseconds since the Unix epoch.
    pub timestamp: i64,
    /// Source address, an IP or MAC string depending on the protocol.
    pub source_addr: String,
    /// Destination address, an IP or MAC string depending on the protocol.
    pub dest_addr: String,
    /// Protocol name: TCP, UDP, ICMP, ICMPv6, IPv4, IPv6, ARP or Unknown.
    pub protocol: String,
    /// Length of the raw frame in bytes.
    pub length: u32,
    /// Human-readable description of the frame.
    pub info: String,
}

/// Mathematical view of a [`PacketSummary`].
pub ghost struct SummaryView {
    pub id: u64,
    pub timestamp: i64,
    pub source_addr: Seq<char>,
    pub dest_addr: Seq<char>,
    pub protocol: Seq<char>,
    pub length: u32,
    pub info: Seq<char>,
}

impl View for PacketSummary {
    type V = SummaryView;

    open spec fn view(&self) -> SummaryView {
        SummaryView {
            id: self.id,
            timestamp: self.timestamp,
            source_addr: self.source_addr@,
            dest_addr: self.dest_addr@,
            protocol: self.protocol@,
            length: self.length,
            info: self.info@,
        }
    }
}

/// One protocol layer of a detail view: a name and its fields in display
/// order.
#[derive(Debug, Clone)]
pub struct ProtocolLayer {
    /// Human-readable protocol name.
    pub name: String,
    /// Ordered (field name, field value) pairs.
    pub fields: Vec<(String, String)>,
}

/// Mathematical view of a [`ProtocolLayer`].
pub ghost struct LayerView {
    pub name: Seq<char>,
    pub fields: Seq<(Seq<char>, Seq<char>)>,
}

impl View for ProtocolLayer {
    type V = LayerView;

    open spec fn view(&self) -> LayerView {
        LayerView { name: self.name@, fields: self.fields.deep_view() }
    }
}

/// Full dissection of a frame: its summary, the layer tree and the raw
/// bytes.
#[derive(Debug, Clone)]
pub struct PacketDetail {
    /// The one-line summary of the same frame.
    pub summary: PacketSummary,
    /// Protocol layers in stacking order, outermost first.
    pub layers: Vec<ProtocolLayer>,
    /// Raw frame bytes, kept for the hex view.
    pub raw_bytes: Vec<u8>,
}

/// Mathematical view of a [`PacketDetail`].
pub ghost struct DetailView {
    pub summary: SummaryView,
    pub layers: Seq<LayerView>,
    pub raw_bytes: Seq<u8>,
}

impl View for PacketDetail {
    type V = DetailView;

    open spec fn view(&self) -> DetailView {
        DetailView {
            summary: self.summary@,
            layers: self.layers@.map_values(|l: ProtocolLayer| l@),
            raw_bytes: self.raw_bytes@,
        }
    }
}

/// View of an optional summary, used by the dissector's contracts.
pub open spec fn summary_opt_view(r: Option<PacketSummary>) -> Option<SummaryView> {
    match r {
        Some(s) => Some(s@),
        None => None,
    }
}

/// View of an optional detail, used by the dissector's contracts.
pub open spec fn detail_opt_view(r: Option<PacketDetail>) -> Option<DetailView> {
    match r {
        Some(d) => Some(d@),
        None => None,
    }
}

/// View of a sequence of layers.
pub open spec fn layers_view(s: Seq<ProtocolLayer>) -> Seq<LayerView> {
    s.map_values(|l: ProtocolLayer| l@)
}

/// View of a sequence of summaries.
pub open spec fn summaries_view(s: Seq<PacketSummary>) -> Seq<SummaryView> {
    s.map_values(|p: PacketSummary| p@)
}

} // verus!
