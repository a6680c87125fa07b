use auracap::addr::{ipv4_string, ipv6_string, mac_string};
use auracap::text::{dec_u64, hex_pad_u32, hex_u16, str_contains};

#[test]
fn decimal_rendering() {
    assert_eq!(dec_u64(0), "0");
    assert_eq!(dec_u64(7), "7");
    assert_eq!(dec_u64(10), "10");
    assert_eq!(dec_u64(54321), "54321");
    assert_eq!(dec_u64(u64::MAX), "18446744073709551615");
}

#[test]
fn hex_rendering() {
    assert_eq!(hex_pad_u32(0, 4), "0000");
    assert_eq!(hex_pad_u32(0x0800, 4), "0800");
    assert_eq!(hex_pad_u32(0xABC, 4), "0abc");
    assert_eq!(hex_pad_u32(0x2, 2), "02");
    assert_eq!(hex_pad_u32(0xFFFFF, 5), "fffff");
    assert_eq!(hex_u16(0), "0");
    assert_eq!(hex_u16(0x1A2B), "1a2b");
    assert_eq!(hex_u16(0xFE80), "fe80");
}

#[test]
fn substring_search() {
    assert!(str_contains("Permission denied (you must be root)", "Permission denied"));
    assert!(str_contains("no permission for that", "permission"));
    assert!(!str_contains("Network is down", "permission"));
    assert!(str_contains("abc", ""));
    assert!(!str_contains("ab", "abc"));
    assert!(str_contains("192.168.1.1 \u{2192} 192.168.1.2 [80]", "[80]"));
}

#[test]
fn ipv4_rendering() {
    assert_eq!(ipv4_string(&[192, 168, 1, 1]), "192.168.1.1");
    assert_eq!(ipv4_string(&[0, 0, 0, 0]), "0.0.0.0");
    assert_eq!(ipv4_string(&[255, 255, 255, 255]), "255.255.255.255");
}

#[test]
fn mac_rendering() {
    assert_eq!(mac_string(&[0x66, 0x77, 0x88, 0x99, 0xAA, 0xBB]), "66:77:88:99:aa:bb");
    assert_eq!(mac_string(&[0, 0, 0, 0, 0, 0]), "00:00:00:00:00:00");
}

#[test]
fn ipv6_rendering_compression() {
    // All zeros and loopback fall out of the general compression rule.
    assert_eq!(ipv6_string(&[0u8; 16]), "::");
    let mut loopback = [0u8; 16];
    loopback[15] = 1;
    assert_eq!(ipv6_string(&loopback), "::1");
    // fe80::1
    let mut ll = [0u8; 16];
    ll[0] = 0xFE;
    ll[1] = 0x80;
    ll[15] = 1;
    assert_eq!(ipv6_string(&ll), "fe80::1");
    // A single zero group is not compressed.
    let single = [
        0x00, 0x01, 0x00, 0x00, 0x00, 0x01, 0x00, 0x01, 0x00, 0x01, 0x00, 0x01, 0x00, 0x01, 0x00,
        0x01,
    ];
    assert_eq!(ipv6_string(&single), "1:0:1:1:1:1:1:1");
    // Two equally long runs: the leftmost is compressed.
    let tie = [
        0x00, 0x01, 0x00, 0x00, 0x00, 0x00, 0x00, 0x01, 0x00, 0x00, 0x00, 0x00, 0x00, 0x01, 0x00,
        0x01,
    ];
    assert_eq!(ipv6_string(&tie), "1::1:0:0:1:1");
    // The longer run wins even when it comes second.
    let longer = [
        0x00, 0x01, 0x00, 0x00, 0x00, 0x01, 0x00, 0x00, 0x00, 0x00, 0x00, 0x00, 0x00, 0x01, 0x00,
        0x01,
    ];
    assert_eq!(ipv6_string(&longer), "1:0:1::1:1");
    // Hex digits are unpadded and lower case.
    let full = [
        0x20, 0x01, 0x0D, 0xB8, 0x00, 0x0A, 0x00, 0x0B, 0x00, 0x0C, 0x00, 0x0D, 0x00, 0x0E, 0xAB,
        0xCD,
    ];
    assert_eq!(ipv6_string(&full), "2001:db8:a:b:c:d:e:abcd");
}

#[test]
fn ipv6_rendering_v4_mapped() {
    let mapped = [0, 0, 0, 0, 0, 0, 0, 0, 0, 0, 0xFF, 0xFF, 192, 168, 1, 1];
    assert_eq!(ipv6_string(&mapped), "::ffff:192.168.1.1");
}
