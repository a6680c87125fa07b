use auracap::cache::PacketCache;
use auracap::export::{split_timestamp, write_packet, write_pcap_header};
use auracap::model::CachedPacket;
use auracap::session::{
    classify_open_failure, export_packets, get_packet_detail, DetailError, ExportError, Session,
    StartError,
};

fn ipv4_tcp_frame() -> Vec<u8> {
    let mut data = Vec::new();
    data.extend_from_slice(&[0x00, 0x11, 0x22, 0x33, 0x44, 0x55]);
    data.extend_from_slice(&[0x66, 0x77, 0x88, 0x99, 0xAA, 0xBB]);
    data.extend_from_slice(&[0x08, 0x00]);
    data.extend_from_slice(&[0x45, 0x00, 0x00, 0x3C]);
    data.extend_from_slice(&[0x00, 0x01, 0x00, 0x00]);
    data.extend_from_slice(&[0x40, 0x06, 0x00, 0x00]);
    data.extend_from_slice(&[0xC0, 0xA8, 0x01, 0x01]);
    data.extend_from_slice(&[0xC0, 0xA8, 0x01, 0x02]);
    data.extend_from_slice(&[0xD4, 0x31, 0x00, 0x50]);
    data.extend_from_slice(&[0x00, 0x00, 0x00, 0x00]);
    data.extend_from_slice(&[0x00, 0x00, 0x00, 0x00]);
    data.extend_from_slice(&[0x50, 0x02, 0x20, 0x00]);
    data.extend_from_slice(&[0x00, 0x00, 0x00, 0x00]);
    data
}

const HEADER_BYTES: [u8; 24] = [
    0xD4, 0xC3, 0xB2, 0xA1, 0x02, 0x00, 0x04, 0x00, 0x00, 0x00, 0x00, 0x00, 0x00, 0x00, 0x00,
    0x00, 0xFF, 0xFF, 0x00, 0x00, 0x01, 0x00, 0x00, 0x00,
];

#[test]
fn pcap_header_bytes_are_exact() {
    let mut out = Vec::new();
    write_pcap_header(&mut out);
    assert_eq!(out, HEADER_BYTES.to_vec());
}

#[test]
fn packet_record_layout() {
    let mut out = Vec::new();
    write_packet(&mut out, &[0xAB, 0xCD, 0xEF], 2, 999_999);
    assert_eq!(&out[0..4], &[2, 0, 0, 0]); // ts_sec
    assert_eq!(&out[4..8], &[0x3F, 0x42, 0x0F, 0x00]); // 999999 LE
    assert_eq!(&out[8..12], &[3, 0, 0, 0]); // captured length
    assert_eq!(&out[12..16], &[3, 0, 0, 0]); // original length
    assert_eq!(&out[16..], &[0xAB, 0xCD, 0xEF]);
}

#[test]
fn timestamp_split_matches_format() {
    assert_eq!(split_timestamp(1_000_000_000), (1, 0));
    assert_eq!(split_timestamp(1_500_001_999), (1, 500_001));
    assert_eq!(split_timestamp(999_999_999), (0, 999_999));
}

#[test]
fn export_single_packet_file_layout() {
    let mut cache = PacketCache::new();
    let frame = ipv4_tcp_frame();
    cache.insert(1, CachedPacket { data: frame.clone(), timestamp_ns: 1_000_000_000 });
    let (bytes, count) = export_packets(&cache, &vec![1]).unwrap();
    assert_eq!(count, 1);
    assert_eq!(&bytes[0..24], &HEADER_BYTES);
    assert_eq!(&bytes[24..28], &[1, 0, 0, 0]); // ts_sec = 1
    assert_eq!(&bytes[28..32], &[0, 0, 0, 0]); // ts_usec = 0
    assert_eq!(&bytes[32..36], &[54, 0, 0, 0]); // captured length
    assert_eq!(&bytes[36..40], &[54, 0, 0, 0]); // original length
    assert_eq!(&bytes[40..], frame.as_slice()); // raw bytes verbatim
    assert_eq!(bytes.len(), 24 + 16 + 54);
}

#[test]
fn export_orders_records_by_id() {
    let mut cache = PacketCache::new();
    cache.insert(2, CachedPacket { data: ipv4_tcp_frame(), timestamp_ns: 2_000_000_000 });
    cache.insert(1, CachedPacket { data: ipv4_tcp_frame(), timestamp_ns: 1_000_000_000 });
    // Input order is descending; the file is ascending by id.
    let (bytes, count) = export_packets(&cache, &vec![2, 1]).unwrap();
    assert_eq!(count, 2);
    assert_eq!(&bytes[24..28], &[1, 0, 0, 0]); // first record is id 1 (ts_sec 1)
    let second = 24 + 16 + 54;
    assert_eq!(&bytes[second..second + 4], &[2, 0, 0, 0]); // then id 2
}

#[test]
fn export_skips_missing_and_unparseable_ids() {
    let mut cache = PacketCache::new();
    cache.insert(1, CachedPacket { data: ipv4_tcp_frame(), timestamp_ns: 0 });
    cache.insert(2, CachedPacket { data: vec![0, 1, 2], timestamp_ns: 0 });
    let (bytes, count) = export_packets(&cache, &vec![1, 2, 9]).unwrap();
    assert_eq!(count, 1);
    assert_eq!(bytes.len(), 24 + 16 + 54);
}

#[test]
fn export_writes_duplicate_ids_twice() {
    let mut cache = PacketCache::new();
    cache.insert(1, CachedPacket { data: ipv4_tcp_frame(), timestamp_ns: 0 });
    let (bytes, count) = export_packets(&cache, &vec![1, 1]).unwrap();
    assert_eq!(count, 2);
    assert_eq!(bytes.len(), 24 + 2 * (16 + 54));
    assert_eq!(&bytes[24..24 + 70], &bytes[24 + 70..]);
}

#[test]
fn export_empty_inputs_are_distinct_errors() {
    let mut cache = PacketCache::new();
    let err = export_packets(&cache, &Vec::new()).unwrap_err();
    assert!(matches!(err, ExportError::NoPackets));
    assert_eq!(err.message(), "No packets to export");

    cache.insert(2, CachedPacket { data: vec![0, 1, 2], timestamp_ns: 0 });
    let err = export_packets(&cache, &vec![2, 3]).unwrap_err();
    assert!(matches!(err, ExportError::NoValidPackets));
    assert_eq!(err.message(), "No valid packets found in cache");
}

#[test]
fn detail_lookup_errors() {
    let mut cache = PacketCache::new();
    let err = get_packet_detail(&cache, 1).unwrap_err();
    assert!(matches!(err, DetailError::NotFound));
    assert_eq!(err.message(), "Packet not found in cache.");

    cache.insert(7, CachedPacket { data: vec![0, 1, 2], timestamp_ns: 0 });
    let err = get_packet_detail(&cache, 7).unwrap_err();
    assert!(matches!(err, DetailError::DissectFailed));
    assert_eq!(err.message(), "Failed to dissect packet.");

    cache.insert(8, CachedPacket { data: ipv4_tcp_frame(), timestamp_ns: 0 });
    let detail = get_packet_detail(&cache, 8).unwrap();
    assert_eq!(detail.summary.id, 8);
    assert_eq!(detail.layers.len(), 3);
    assert_eq!(detail.raw_bytes, ipv4_tcp_frame());
}

#[test]
fn open_failures_are_classified() {
    let e = classify_open_failure("socket: Operation not permitted (Permission denied)", false);
    assert!(matches!(e, StartError::Permission));
    assert_eq!(e.message(), "PermissionError");

    let e = classify_open_failure("you lack permission to capture", true);
    assert!(matches!(e, StartError::Permission));

    let e = classify_open_failure("No such device exists", false);
    assert_eq!(e.message(), "Failed to open device: No such device exists");

    let e = classify_open_failure("that device is not up", true);
    assert_eq!(e.message(), "Failed to activate capture: that device is not up");
}

#[test]
fn session_gate_admits_one_capture() {
    let mut session = Session::new();
    assert!(session.try_start().is_ok());
    let err = session.try_start().unwrap_err();
    assert!(matches!(err, StartError::AlreadyCapturing));
    assert_eq!(err.message(), "Capture already in progress");
    session.stop();
    assert!(session.try_start().is_ok());
}
