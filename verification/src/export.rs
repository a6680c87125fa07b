//! The capture-file encoder: classic format, little-endian fields,
//! microsecond timestamps, Ethernet link type. The encoder appends bytes to
//! a buffer; writing the buffer to disk is the caller's concern.

use vstd::prelude::*;

use vstd::slice::slice_index_get;

use crate::cache::{lemma_lookup_in, spec_lookup, PacketCache};
use crate::model::{summaries_view, PacketSummary, SummaryView};

verus! {

/// Magic number announcing microsecond timestamps.
pub const PCAP_MAGIC: u32 = 0xA1B2C3D4;

/// Major format version.
pub const PCAP_VERSION_MAJOR: u16 = 2;

/// Minor format version.
pub const PCAP_VERSION_MINOR: u16 = 4;

/// Largest captured length the header announces.
pub const PCAP_SNAPLEN: u32 = 65535;

/// Link type: Ethernet.
pub const PCAP_NETWORK: u32 = 1;

/// Little-endian bytes of a 16-bit value.
pub open spec fn spec_le16(x: u16) -> Seq<u8> {
    seq![(x % 256) as u8, (x / 256) as u8]
}

/// Little-endian bytes of a 32-bit value.
pub open spec fn spec_le32(x: u32) -> Seq<u8> {
    seq![
        (x % 256) as u8,
        ((x / 256) % 256) as u8,
        ((x / 0x10000) % 256) as u8,
        ((x / 0x1000000) % 256) as u8,
    ]
}

/// The 24-byte global header: magic, version 2.4, a zero time-zone
/// correction, zero timestamp accuracy, the snap length and the link type.
pub open spec fn spec_pcap_header() -> Seq<u8> {
    spec_le32(PCAP_MAGIC) + spec_le16(PCAP_VERSION_MAJOR) + spec_le16(PCAP_VERSION_MINOR)
        + spec_le32(0u32) + spec_le32(0u32) + spec_le32(PCAP_SNAPLEN) + spec_le32(PCAP_NETWORK)
}

/// Whole seconds of a nanosecond timestamp.
pub open spec fn spec_ts_sec(ts_ns: i64) -> u32
    recommends
        0 <= ts_ns,
        ts_ns / 1_000_000_000 <= u32::MAX,
{
    (ts_ns / 1_000_000_000) as u32
}

/// Microseconds within the second, capped at 999999.
pub open spec fn spec_ts_usec(ts_ns: i64) -> u32
    recommends
        0 <= ts_ns,
{
    let u = (ts_ns % 1_000_000_000) / 1_000;
    if u <= 999_999 {
        u as u32
    } else {
        999_999u32
    }
}

/// A record: 16-byte header carrying the split timestamp and the captured
/// and original lengths (equal here), then the raw bytes verbatim.
pub open spec fn spec_record(data: Seq<u8>, ts_sec: u32, ts_usec: u32) -> Seq<u8>
    recommends
        data.len() <= u32::MAX,
{
    spec_le32(ts_sec) + spec_le32(ts_usec) + spec_le32(data.len() as u32) + spec_le32(
        data.len() as u32,
    ) + data
}

/// The records for a list of summaries, in list order: each id found in the
/// cache contributes one record; missing ids contribute nothing.
pub open spec fn spec_export_records(
    cache: Seq<(u64, crate::model::CachedPacketView)>,
    list: Seq<SummaryView>,
) -> Seq<u8>
    decreases list.len(),
{
    if list.len() == 0 {
        Seq::empty()
    } else {
        (match spec_lookup(cache, list[0].id) {
            Some(p) => spec_record(p.data, spec_ts_sec(p.timestamp_ns), spec_ts_usec(p.timestamp_ns)),
            None => Seq::empty(),
        }) + spec_export_records(cache, list.skip(1))
    }
}

/// Appending one summary extends the records by its record.
pub proof fn lemma_records_snoc(
    cache: Seq<(u64, crate::model::CachedPacketView)>,
    list: Seq<SummaryView>,
    x: SummaryView,
)
    ensures
        spec_export_records(cache, list + seq![x]) == spec_export_records(cache, list) + (
        match spec_lookup(cache, x.id) {
            Some(p) => spec_record(p.data, spec_ts_sec(p.timestamp_ns), spec_ts_usec(p.timestamp_ns)),
            None => Seq::empty(),
        }),
    decreases list.len(),
{
    let rec_x: Seq<u8> = match spec_lookup(cache, x.id) {
        Some(p) => spec_record(p.data, spec_ts_sec(p.timestamp_ns), spec_ts_usec(p.timestamp_ns)),
        None => Seq::empty(),
    };
    if list.len() == 0 {
        assert((list + seq![x])[0] == x);
        assert((list + seq![x]).skip(1) =~= Seq::<SummaryView>::empty());
        assert(spec_export_records(cache, list + seq![x]) == rec_x + spec_export_records(
            cache,
            (list + seq![x]).skip(1),
        ));
        assert(rec_x + Seq::<u8>::empty() =~= rec_x);
        assert(spec_export_records(cache, list) + rec_x =~= rec_x);
    } else {
        lemma_records_snoc(cache, list.skip(1), x);
        let rec_0: Seq<u8> = match spec_lookup(cache, list[0].id) {
            Some(p) => spec_record(
                p.data,
                spec_ts_sec(p.timestamp_ns),
                spec_ts_usec(p.timestamp_ns),
            ),
            None => Seq::empty(),
        };
        assert((list + seq![x])[0] == list[0]);
        assert((list + seq![x]).skip(1) =~= list.skip(1) + seq![x]);
        assert(spec_export_records(cache, list + seq![x]) == rec_0 + spec_export_records(
            cache,
            list.skip(1) + seq![x],
        ));
        assert(spec_export_records(cache, list) == rec_0 + spec_export_records(
            cache,
            list.skip(1),
        ));
        assert(rec_0 + (spec_export_records(cache, list.skip(1)) + rec_x) =~= (rec_0
            + spec_export_records(cache, list.skip(1))) + rec_x);
    }
}

/// Splitting a list splits its records.
pub proof fn lemma_records_concat(
    cache: Seq<(u64, crate::model::CachedPacketView)>,
    a: Seq<SummaryView>,
    b: Seq<SummaryView>,
)
    ensures
        spec_export_records(cache, a + b) == spec_export_records(cache, a) + spec_export_records(
            cache,
            b,
        ),
    decreases a.len(),
{
    if a.len() == 0 {
        assert(a + b =~= b);
        assert(spec_export_records(cache, a) + spec_export_records(cache, b)
            =~= spec_export_records(cache, b));
    } else {
        lemma_records_concat(cache, a.skip(1), b);
        let rec_0: Seq<u8> = match spec_lookup(cache, a[0].id) {
            Some(p) => spec_record(
                p.data,
                spec_ts_sec(p.timestamp_ns),
                spec_ts_usec(p.timestamp_ns),
            ),
            None => Seq::empty(),
        };
        assert((a + b)[0] == a[0]);
        assert((a + b).skip(1) =~= a.skip(1) + b);
        assert(spec_export_records(cache, a + b) == rec_0 + spec_export_records(
            cache,
            a.skip(1) + b,
        ));
        assert(spec_export_records(cache, a) == rec_0 + spec_export_records(cache, a.skip(1)));
        assert(rec_0 + (spec_export_records(cache, a.skip(1)) + spec_export_records(cache, b))
            =~= (rec_0 + spec_export_records(cache, a.skip(1))) + spec_export_records(cache, b));
    }
}

/// The byte offset of the record for `list[i]` within the record area.
pub open spec fn spec_record_offset(
    cache: Seq<(u64, crate::model::CachedPacketView)>,
    list: Seq<SummaryView>,
    i: int,
) -> int {
    spec_export_records(cache, list.take(i)).len() as int
}

/// Round trip: in an encoded capture file, the raw bytes of each listed
/// frame found in the cache stand verbatim after that record's 16-byte
/// header, at the offset its position in the list determines.
pub proof fn lemma_export_round_trip(
    cache: Seq<(u64, crate::model::CachedPacketView)>,
    list: Seq<SummaryView>,
    i: int,
)
    requires
        0 <= i < list.len(),
        spec_lookup(cache, list[i].id) is Some,
    ensures
        ({
            let file = spec_pcap_header() + spec_export_records(cache, list);
            let p = spec_lookup(cache, list[i].id).unwrap();
            let off = 24 + spec_record_offset(cache, list, i);
            &&& file.len() >= off + 16 + p.data.len()
            &&& file.subrange(off + 16, off + 16 + p.data.len()) == p.data
        }),
{
    let file = spec_pcap_header() + spec_export_records(cache, list);
    let p = spec_lookup(cache, list[i].id).unwrap();
    let rec = spec_record(p.data, spec_ts_sec(p.timestamp_ns), spec_ts_usec(p.timestamp_ns));
    let off = 24 + spec_record_offset(cache, list, i);
    assert(spec_pcap_header().len() == 24);
    assert(rec.len() == 16 + p.data.len());
    lemma_records_concat(cache, list.take(i), list.skip(i));
    assert(list.take(i) + list.skip(i) =~= list);
    assert(list.skip(i)[0] == list[i]);
    assert(spec_export_records(cache, list.skip(i)) == rec + spec_export_records(
        cache,
        list.skip(i).skip(1),
    ));
    let head = spec_pcap_header() + spec_export_records(cache, list.take(i));
    let rest = spec_export_records(cache, list.skip(i).skip(1));
    assert(head.len() == off);
    assert(file =~= head + rec + rest);
    assert(file.subrange(off + 16, off + 16 + p.data.len()) =~= p.data);
}

/// Appends the little-endian bytes of a 16-bit value.
fn push_le16(out: &mut Vec<u8>, x: u16)
    ensures
        final(out)@ == old(out)@ + spec_le16(x),
{
    out.push((x % 256) as u8);
    out.push((x / 256) as u8);
    proof {
        assert(out@ =~= old(out)@ + spec_le16(x));
    }
}

/// Appends the little-endian bytes of a 32-bit value.
fn push_le32(out: &mut Vec<u8>, x: u32)
    ensures
        final(out)@ == old(out)@ + spec_le32(x),
{
    out.push((x % 256) as u8);
    out.push(((x / 256) % 256) as u8);
    out.push(((x / 0x10000) % 256) as u8);
    out.push(((x / 0x1000000) % 256) as u8);
    proof {
        assert(out@ =~= old(out)@ + spec_le32(x));
    }
}

/// Appends the 24-byte global header.
pub fn write_pcap_header(out: &mut Vec<u8>)
    ensures
        final(out)@ == old(out)@ + spec_pcap_header(),
{
    push_le32(out, PCAP_MAGIC);
    push_le16(out, PCAP_VERSION_MAJOR);
    push_le16(out, PCAP_VERSION_MINOR);
    push_le32(out, 0);
    push_le32(out, 0);
    push_le32(out, PCAP_SNAPLEN);
    push_le32(out, PCAP_NETWORK);
    proof {
        assert(out@ =~= old(out)@ + spec_pcap_header());
    }
}

/// Splits a non-negative nanosecond timestamp into whole seconds and the
/// microseconds within the second.
pub fn split_timestamp(ts_ns: i64) -> (r: (u32, u32))
    requires
        0 <= ts_ns,
        ts_ns / 1_000_000_000 <= u32::MAX,
    ensures
        r.0 == spec_ts_sec(ts_ns),
        r.1 == spec_ts_usec(ts_ns),
{
    let sec: i64 = ts_ns / 1_000_000_000;
    let rem: i64 = ts_ns % 1_000_000_000;
    let usec: i64 = rem / 1_000;
    let usec_capped: u32 = if usec <= 999_999 {
        usec as u32
    } else {
        999_999
    };
    (sec as u32, usec_capped)
}

/// Appends one record: the 16-byte header, then the raw bytes verbatim.
pub fn write_packet(out: &mut Vec<u8>, packet_data: &[u8], timestamp_sec: u32, timestamp_usec: u32)
    requires
        packet_data@.len() <= u32::MAX,
    ensures
        final(out)@ == old(out)@ + spec_record(packet_data@, timestamp_sec, timestamp_usec),
{
    push_le32(out, timestamp_sec);
    push_le32(out, timestamp_usec);
    push_le32(out, packet_data.len() as u32);
    push_le32(out, packet_data.len() as u32);
    let n: usize = packet_data.len();
    let mut i: usize = 0;
    while i < n
        invariant
            i <= n,
            n == packet_data@.len(),
            out@ == old(out)@ + spec_le32(timestamp_sec) + spec_le32(timestamp_usec) + spec_le32(
                packet_data@.len() as u32,
            ) + spec_le32(packet_data@.len() as u32) + packet_data@.take(i as int),
        decreases n - i,
    {
        out.push(*slice_index_get(packet_data, i));
        proof {
            assert(packet_data@.take(i + 1) =~= packet_data@.take(i as int).push(
                packet_data@[i as int],
            ));
            assert(out@ =~= old(out)@ + spec_le32(timestamp_sec) + spec_le32(timestamp_usec)
                + spec_le32(packet_data@.len() as u32) + spec_le32(packet_data@.len() as u32)
                + packet_data@.take(i + 1));
        }
        i = i + 1;
    }
    proof {
        assert(packet_data@.take(n as int) =~= packet_data@);
        assert(out@ =~= old(out)@ + spec_record(packet_data@, timestamp_sec, timestamp_usec));
    }
}

/// True when every packet of the cache carries an exportable timestamp and
/// length: a non-negative time whose seconds fit the record header, and
/// bytes whose count fits the length fields.
pub open spec fn exportable(cache: Seq<(u64, crate::model::CachedPacketView)>) -> bool {
    forall|i: int|
        0 <= i < cache.len() ==> 0 <= #[trigger] cache[i].1.timestamp_ns && cache[i].1.timestamp_ns
            / 1_000_000_000 <= u32::MAX && cache[i].1.data.len() <= u32::MAX
}

/// Appends the global header, then one record for each listed id found in
/// the cache, in list order.
pub fn export_pcap(packet_cache: &PacketCache, packet_list: &Vec<PacketSummary>, out: &mut Vec<u8>)
    requires
        exportable(packet_cache@),
    ensures
        final(out)@ == old(out)@ + spec_pcap_header() + spec_export_records(
            packet_cache@,
            summaries_view(packet_list@),
        ),
{
    write_pcap_header(out);
    let n: usize = packet_list.len();
    let mut i: usize = 0;
    proof {
        assert(summaries_view(packet_list@).take(0) =~= Seq::<SummaryView>::empty());
        assert(spec_export_records(packet_cache@, summaries_view(packet_list@).take(0))
            =~= Seq::<u8>::empty());
        assert(out@ =~= old(out)@ + spec_pcap_header() + spec_export_records(
            packet_cache@,
            summaries_view(packet_list@).take(0),
        ));
    }
    while i < n
        invariant
            i <= n,
            n == packet_list@.len(),
            exportable(packet_cache@),
            out@ == old(out)@ + spec_pcap_header() + spec_export_records(
                packet_cache@,
                summaries_view(packet_list@).take(i as int),
            ),
        decreases n - i,
    {
        let id: u64 = packet_list[i].id;
        match packet_cache.get(id) {
            Some(cached) => {
                proof {
                    lemma_lookup_in(packet_cache@, id);
                    let j = choose|j: int|
                        0 <= j < packet_cache@.len() && packet_cache@[j].0 == id
                            && packet_cache@[j].1 == spec_lookup(packet_cache@, id).unwrap();
                    assert(0 <= packet_cache@[j].1.timestamp_ns);
                    assert(packet_cache@[j].1.timestamp_ns / 1_000_000_000 <= u32::MAX);
                    assert(packet_cache@[j].1.data.len() <= u32::MAX);
                }
                let ts = split_timestamp(cached.timestamp_ns);
                write_packet(out, cached.data.as_slice(), ts.0, ts.1);
            },
            None => {},
        }
        proof {
            lemma_records_snoc(
                packet_cache@,
                summaries_view(packet_list@).take(i as int),
                summaries_view(packet_list@)[i as int],
            );
            assert(summaries_view(packet_list@).take(i + 1) =~= summaries_view(
                packet_list@,
            ).take(i as int) + seq![summaries_view(packet_list@)[i as int]]);
            assert(out@ =~= old(out)@ + spec_pcap_header() + spec_export_records(
                packet_cache@,
                summaries_view(packet_list@).take(i + 1),
            ));
        }
        i = i + 1;
    }
    proof {
        assert(summaries_view(packet_list@).take(n as int) =~= summaries_view(packet_list@));
    }
}

} // verus!
