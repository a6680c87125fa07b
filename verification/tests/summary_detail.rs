use auracap::dissector::{dissect_packet, parse_application_layer, parse_summary};

fn ipv4_tcp_frame() -> Vec<u8> {
    let mut data = Vec::new();
    data.extend_from_slice(&[0x00, 0x11, 0x22, 0x33, 0x44, 0x55]);
    data.extend_from_slice(&[0x66, 0x77, 0x88, 0x99, 0xAA, 0xBB]);
    data.extend_from_slice(&[0x08, 0x00]);
    data.extend_from_slice(&[0x45, 0x00, 0x00, 0x3C]);
    data.extend_from_slice(&[0x00, 0x01, 0x00, 0x00]);
    data.extend_from_slice(&[0x40, 0x06, 0x00, 0x00]);
    data.extend_from_slice(&[0xC0, 0xA8, 0x01, 0x01]);
    data.extend_from_slice(&[0xC0, 0xA8, 0x01, 0x02]);
    data.extend_from_slice(&[0xD4, 0x31, 0x00, 0x50]);
    data.extend_from_slice(&[0x00, 0x00, 0x00, 0x00]);
    data.extend_from_slice(&[0x00, 0x00, 0x00, 0x00]);
    data.extend_from_slice(&[0x50, 0x02, 0x20, 0x00]);
    data.extend_from_slice(&[0x00, 0x00, 0x00, 0x00]);
    data
}

fn ipv4_udp_dns_frame() -> Vec<u8> {
    let mut data = Vec::new();
    data.extend_from_slice(&[0x00, 0x11, 0x22, 0x33, 0x44, 0x55]);
    data.extend_from_slice(&[0x66, 0x77, 0x88, 0x99, 0xAA, 0xBB]);
    data.extend_from_slice(&[0x08, 0x00]);
    data.extend_from_slice(&[0x45, 0x00, 0x00, 0x24]); // total len = 36
    data.extend_from_slice(&[0x00, 0x01, 0x00, 0x00]);
    data.extend_from_slice(&[0x40, 0x11, 0x00, 0x00]);
    data.extend_from_slice(&[0xC0, 0xA8, 0x01, 0x01]);
    data.extend_from_slice(&[0xC0, 0xA8, 0x01, 0x02]);
    data.extend_from_slice(&[0xC3, 0x50, 0x00, 0x35]); // src 50000, dst 53
    data.extend_from_slice(&[0x00, 0x10, 0x00, 0x00]); // length 16
    data.extend_from_slice(&[0xDE, 0xAD, 0xBE, 0xEF]); // 4 bytes of DNS payload
    data
}

#[test]
fn ipv4_tcp_summary_has_port_suffix() {
    let data = ipv4_tcp_frame();
    let summary = parse_summary(&data, 1, 1_000_000_000).unwrap();
    assert_eq!(summary.length, 54);
    assert_eq!(summary.info, "192.168.1.1 \u{2192} 192.168.1.2 [80]");
    assert!(summary.info.contains("[80]"));
}

#[test]
fn ipv4_udp_summary_has_port_suffix() {
    let data = ipv4_udp_dns_frame();
    let summary = parse_summary(&data, 2, 2_000_000_000).unwrap();
    assert_eq!(summary.protocol, "UDP");
    assert!(summary.info.contains("[53]"));
}

#[test]
fn ipv6_summary_omits_port_suffix() {
    let mut data = Vec::new();
    data.extend_from_slice(&[0x00, 0x11, 0x22, 0x33, 0x44, 0x55]);
    data.extend_from_slice(&[0x66, 0x77, 0x88, 0x99, 0xAA, 0xBB]);
    data.extend_from_slice(&[0x86, 0xDD]);
    data.extend_from_slice(&[0x60, 0x00, 0x00, 0x00]); // version 6, tc 0, flow 0
    data.extend_from_slice(&[0x00, 0x14, 0x06, 0x40]); // payload len 20, next TCP, hop 64
    let mut src = [0u8; 16];
    src[15] = 1; // ::1
    data.extend_from_slice(&src);
    let mut dst = [0u8; 16];
    dst[0] = 0xFE;
    dst[1] = 0x80;
    dst[15] = 1; // fe80::1
    data.extend_from_slice(&dst);
    // TCP header with dst port 443
    data.extend_from_slice(&[0xD4, 0x31, 0x01, 0xBB]);
    data.extend_from_slice(&[0x00, 0x00, 0x00, 0x00]);
    data.extend_from_slice(&[0x00, 0x00, 0x00, 0x00]);
    data.extend_from_slice(&[0x50, 0x02, 0x20, 0x00]);
    data.extend_from_slice(&[0x00, 0x00, 0x00, 0x00]);

    let summary = parse_summary(&data, 4, 0).unwrap();
    assert_eq!(summary.protocol, "TCP");
    assert_eq!(summary.source_addr, "::1");
    assert_eq!(summary.dest_addr, "fe80::1");
    // The IPv6 info line carries no destination port, even for TCP.
    assert_eq!(summary.info, "::1 \u{2192} fe80::1");
}

#[test]
fn unknown_ethertype_summary() {
    let mut data = Vec::new();
    data.extend_from_slice(&[0x00, 0x11, 0x22, 0x33, 0x44, 0x55]);
    data.extend_from_slice(&[0x66, 0x77, 0x88, 0x99, 0xAA, 0xBB]);
    data.extend_from_slice(&[0x12, 0x34]);
    data.extend_from_slice(&[0; 10]);
    let summary = parse_summary(&data, 5, 0).unwrap();
    assert_eq!(summary.protocol, "Unknown");
    assert_eq!(summary.info, "Unknown");
    assert_eq!(summary.source_addr, "66:77:88:99:aa:bb");
}

#[test]
fn short_ipv4_header_yields_absent() {
    // Ethernet claims IPv4 but only 10 payload bytes follow.
    let mut data = Vec::new();
    data.extend_from_slice(&[0x00, 0x11, 0x22, 0x33, 0x44, 0x55]);
    data.extend_from_slice(&[0x66, 0x77, 0x88, 0x99, 0xAA, 0xBB]);
    data.extend_from_slice(&[0x08, 0x00]);
    data.extend_from_slice(&[0x45, 0x00, 0x00, 0x3C, 0x00, 0x01, 0x00, 0x00, 0x40, 0x06]);
    assert!(parse_summary(&data, 1, 0).is_none());
    assert!(dissect_packet(&data, 1).is_none());
}

#[test]
fn tcp_detail_fields_are_exact() {
    let data = ipv4_tcp_frame();
    let detail = dissect_packet(&data, 1).unwrap();
    assert_eq!(detail.layers.len(), 3);
    assert_eq!(detail.raw_bytes, data);
    assert_eq!(detail.summary.id, 1);

    let eth = &detail.layers[0];
    assert_eq!(eth.name, "Ethernet");
    assert_eq!(eth.fields[0], ("Destination".to_string(), "00:11:22:33:44:55".to_string()));
    assert_eq!(eth.fields[1], ("Source".to_string(), "66:77:88:99:aa:bb".to_string()));
    assert_eq!(eth.fields[2], ("Type".to_string(), "0x0800".to_string()));

    let ip = &detail.layers[1];
    assert_eq!(ip.name, "Internet Protocol Version 4");
    assert_eq!(ip.fields[0], ("Version".to_string(), "4".to_string()));
    assert_eq!(ip.fields[1], ("Header Length".to_string(), "20 bytes".to_string()));
    assert_eq!(ip.fields[2], ("Total Length".to_string(), "60 bytes".to_string()));
    assert_eq!(ip.fields[3], ("Identification".to_string(), "0x0001".to_string()));
    assert_eq!(ip.fields[4], ("Flags".to_string(), "0x00".to_string()));
    assert_eq!(ip.fields[5], ("TTL".to_string(), "64".to_string()));
    assert_eq!(ip.fields[6], ("Protocol".to_string(), "6 (Tcp)".to_string()));
    assert_eq!(ip.fields[7], ("Source".to_string(), "192.168.1.1".to_string()));
    assert_eq!(ip.fields[8], ("Destination".to_string(), "192.168.1.2".to_string()));

    let tcp = &detail.layers[2];
    assert_eq!(tcp.name, "Transmission Control Protocol");
    assert_eq!(tcp.fields[0], ("Source Port".to_string(), "54321".to_string()));
    assert_eq!(tcp.fields[1], ("Destination Port".to_string(), "80".to_string()));
    assert_eq!(tcp.fields[2], ("Sequence Number".to_string(), "0".to_string()));
    assert_eq!(tcp.fields[3], ("Acknowledgment Number".to_string(), "0".to_string()));
    assert_eq!(tcp.fields[4], ("Data Offset".to_string(), "20 bytes".to_string()));
    assert_eq!(tcp.fields[5], ("Flags".to_string(), "0x02".to_string()));
    assert_eq!(tcp.fields[6], ("Window Size".to_string(), "8192".to_string()));
}

#[test]
fn udp_dns_detail_has_four_layers() {
    let data = ipv4_udp_dns_frame();
    let detail = dissect_packet(&data, 2).unwrap();
    assert_eq!(detail.layers.len(), 4);
    let udp = &detail.layers[2];
    assert_eq!(udp.name, "User Datagram Protocol");
    assert_eq!(udp.fields[0], ("Source Port".to_string(), "50000".to_string()));
    assert_eq!(udp.fields[1], ("Destination Port".to_string(), "53".to_string()));
    assert_eq!(udp.fields[2], ("Length".to_string(), "16 bytes".to_string()));
    assert_eq!(udp.fields[3], ("Checksum".to_string(), "0x0000".to_string()));
    let dns = &detail.layers[3];
    assert_eq!(dns.name, "Domain Name System");
    assert_eq!(dns.fields[0], ("Port".to_string(), "53 (Query)".to_string()));
    assert_eq!(dns.fields[1], ("Payload Length".to_string(), "4 bytes".to_string()));
}

#[test]
fn ipv6_detail_fields_are_exact() {
    let mut data = Vec::new();
    data.extend_from_slice(&[0x00, 0x11, 0x22, 0x33, 0x44, 0x55]);
    data.extend_from_slice(&[0x66, 0x77, 0x88, 0x99, 0xAA, 0xBB]);
    data.extend_from_slice(&[0x86, 0xDD]);
    data.extend_from_slice(&[0x60, 0x00, 0x00, 0x00]);
    data.extend_from_slice(&[0x00, 0x14, 0x06, 0x40]);
    let mut src = [0u8; 16];
    src[15] = 1;
    data.extend_from_slice(&src);
    let mut dst = [0u8; 16];
    dst[0] = 0xFE;
    dst[1] = 0x80;
    dst[15] = 1;
    data.extend_from_slice(&dst);
    data.extend_from_slice(&[0xD4, 0x31, 0x01, 0xBB]);
    data.extend_from_slice(&[0x00, 0x00, 0x00, 0x00]);
    data.extend_from_slice(&[0x00, 0x00, 0x00, 0x00]);
    data.extend_from_slice(&[0x50, 0x02, 0x20, 0x00]);
    data.extend_from_slice(&[0x00, 0x00, 0x00, 0x00]);

    let detail = dissect_packet(&data, 6).unwrap();
    // Ethernet, IPv6 and TCP; the TCP payload is empty, so no layer follows.
    assert_eq!(detail.layers.len(), 3);
    let ip = &detail.layers[1];
    assert_eq!(ip.name, "Internet Protocol Version 6");
    assert_eq!(ip.fields[0], ("Version".to_string(), "6".to_string()));
    assert_eq!(ip.fields[1], ("Traffic Class".to_string(), "0x00".to_string()));
    assert_eq!(ip.fields[2], ("Flow Label".to_string(), "0x00000".to_string()));
    assert_eq!(ip.fields[3], ("Payload Length".to_string(), "20 bytes".to_string()));
    assert_eq!(ip.fields[4], ("Next Header".to_string(), "6 (Tcp)".to_string()));
    assert_eq!(ip.fields[5], ("Hop Limit".to_string(), "64".to_string()));
    assert_eq!(ip.fields[6], ("Source".to_string(), "::1".to_string()));
    assert_eq!(ip.fields[7], ("Destination".to_string(), "fe80::1".to_string()));
    assert_eq!(detail.layers[2].name, "Transmission Control Protocol");
}

#[test]
fn icmp_detail_layer() {
    let mut data = Vec::new();
    data.extend_from_slice(&[0x00, 0x11, 0x22, 0x33, 0x44, 0x55]);
    data.extend_from_slice(&[0x66, 0x77, 0x88, 0x99, 0xAA, 0xBB]);
    data.extend_from_slice(&[0x08, 0x00]);
    data.extend_from_slice(&[0x45, 0x00, 0x00, 0x1C]); // total len 28: header + 8
    data.extend_from_slice(&[0x00, 0x01, 0x00, 0x00]);
    data.extend_from_slice(&[0x40, 0x01, 0x00, 0x00]); // protocol ICMP
    data.extend_from_slice(&[0xC0, 0xA8, 0x01, 0x01]);
    data.extend_from_slice(&[0xC0, 0xA8, 0x01, 0x02]);
    data.extend_from_slice(&[0x08, 0x00, 0x00, 0x00, 0x00, 0x01, 0x00, 0x01]); // echo request
    let detail = dissect_packet(&data, 3).unwrap();
    assert_eq!(detail.layers.len(), 3);
    let icmp = &detail.layers[2];
    assert_eq!(icmp.name, "Internet Control Message Protocol");
    assert_eq!(icmp.fields[0], ("Payload Length".to_string(), "8 bytes".to_string()));
    assert_eq!(detail.summary.protocol, "ICMP");
}

#[test]
fn arp_detail_layer() {
    let mut data = Vec::new();
    data.extend_from_slice(&[0xFF, 0xFF, 0xFF, 0xFF, 0xFF, 0xFF]);
    data.extend_from_slice(&[0x66, 0x77, 0x88, 0x99, 0xAA, 0xBB]);
    data.extend_from_slice(&[0x08, 0x06]);
    data.extend_from_slice(&[0u8; 28]);
    let detail = dissect_packet(&data, 4).unwrap();
    assert_eq!(detail.layers.len(), 2);
    let arp = &detail.layers[1];
    assert_eq!(arp.name, "Address Resolution Protocol");
    assert_eq!(arp.fields[0], ("Payload Length".to_string(), "28 bytes".to_string()));
}

#[test]
fn app_layer_http_methods_and_response() {
    let mut layers = Vec::new();
    parse_application_layer(&mut layers, 12345, 80, b"PUT /x HTTP/1.1\r\n\r\n", true);
    assert_eq!(layers[0].name, "Hypertext Transfer Protocol");
    assert!(layers[0].fields.iter().any(|(k, v)| k == "Method" && v == "PUT"));

    let mut layers = Vec::new();
    parse_application_layer(&mut layers, 443, 50000, b"HTTP/1.1 200 OK\r\n\r\n", true);
    assert_eq!(layers[0].name, "Hypertext Transfer Protocol Secure");
    assert!(layers[0].fields.iter().any(|(k, v)| k == "Type" && v == "Response"));

    let mut layers = Vec::new();
    parse_application_layer(&mut layers, 80, 50000, b"DELETE /x HTTP/1.1\r\n\r\n", true);
    assert!(layers[0].fields.iter().any(|(k, v)| k == "Method" && v == "DELETE"));
}

#[test]
fn app_layer_falls_back_to_application_data() {
    // No known port.
    let mut layers = Vec::new();
    parse_application_layer(&mut layers, 1000, 2000, b"GET /x", true);
    assert_eq!(layers.len(), 1);
    assert_eq!(layers[0].name, "Application Data");
    assert_eq!(layers[0].fields[0], ("Payload Length".to_string(), "6 bytes".to_string()));

    // Web port, but the text opens with no known token.
    let mut layers = Vec::new();
    parse_application_layer(&mut layers, 80, 50000, b"xyz", true);
    assert_eq!(layers[0].name, "Application Data");

    // Web port over UDP is not inspected as HTTP.
    let mut layers = Vec::new();
    parse_application_layer(&mut layers, 80, 50000, b"GET /x HTTP/1.1", false);
    assert_eq!(layers[0].name, "Application Data");

    // A known token followed by bytes that are not text.
    let mut layers = Vec::new();
    parse_application_layer(&mut layers, 80, 50000, b"GET \xFF\xFE", true);
    assert_eq!(layers[0].name, "Application Data");

    // An empty payload contributes no layer at all.
    let mut layers = Vec::new();
    parse_application_layer(&mut layers, 80, 50000, b"", true);
    assert_eq!(layers.len(), 0);
}

#[test]
fn summary_is_a_function_of_its_inputs() {
    // The same bytes, id and timestamp give the same summary, twice over.
    let data = ipv4_tcp_frame();
    let a = parse_summary(&data, 9, 42).unwrap();
    let b = parse_summary(&data, 9, 42).unwrap();
    assert_eq!(a.id, b.id);
    assert_eq!(a.timestamp, b.timestamp);
    assert_eq!(a.source_addr, b.source_addr);
    assert_eq!(a.dest_addr, b.dest_addr);
    assert_eq!(a.protocol, b.protocol);
    assert_eq!(a.length, b.length);
    assert_eq!(a.info, b.info);
}
