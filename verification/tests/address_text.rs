use netloc::ip::IpAddress;
use netloc::ip::parse_ip;
use netloc::ip::parse_ipv4;
use netloc::ip::parse_ipv6;

fn v4(a: u8, b: u8, c: u8, d: u8) -> IpAddress {
    IpAddress::V4 { a, b, c, d }
}

fn v6(g: [u16; 8]) -> IpAddress {
    IpAddress::V6 {
        s0: g[0],
        s1: g[1],
        s2: g[2],
        s3: g[3],
        s4: g[4],
        s5: g[5],
        s6: g[6],
        s7: g[7],
    }
}

#[test]
fn parses_dotted_decimal() {
    assert_eq!(parse_ipv4(b"203.0.113.5"), Some(v4(203, 0, 113, 5)));
    assert_eq!(parse_ipv4(b"0.0.0.0"), Some(v4(0, 0, 0, 0)));
    assert_eq!(parse_ipv4(b"255.255.255.255"), Some(v4(255, 255, 255, 255)));
}

#[test]
fn rejects_bad_dotted_decimal() {
    assert_eq!(parse_ipv4(b""), None);
    assert_eq!(parse_ipv4(b"1.2.3"), None);
    assert_eq!(parse_ipv4(b"1.2.3.4.5"), None);
    assert_eq!(parse_ipv4(b"256.0.0.1"), None);
    assert_eq!(parse_ipv4(b"01.2.3.4"), None);
    assert_eq!(parse_ipv4(b"1..2.3"), None);
    assert_eq!(parse_ipv4(b"1.2.3.4 "), None);
    assert_eq!(parse_ipv4(b"a.b.c.d"), None);
}

#[test]
fn parses_full_ipv6() {
    assert_eq!(
        parse_ipv6(b"1:2:3:4:5:6:7:8"),
        Some(v6([1, 2, 3, 4, 5, 6, 7, 8]))
    );
    assert_eq!(
        parse_ipv6(b"2001:db8:0:0:0:0:2:1"),
        Some(v6([0x2001, 0xdb8, 0, 0, 0, 0, 2, 1]))
    );
    assert_eq!(
        parse_ipv6(b"00ff:0:0:0:0:0:0:FFFF"),
        Some(v6([0xff, 0, 0, 0, 0, 0, 0, 0xffff]))
    );
}

#[test]
fn parses_compressed_ipv6() {
    assert_eq!(parse_ipv6(b"::"), Some(v6([0, 0, 0, 0, 0, 0, 0, 0])));
    assert_eq!(parse_ipv6(b"::1"), Some(v6([0, 0, 0, 0, 0, 0, 0, 1])));
    assert_eq!(parse_ipv6(b"1::"), Some(v6([1, 0, 0, 0, 0, 0, 0, 0])));
    assert_eq!(
        parse_ipv6(b"2001:db8::2:1"),
        Some(v6([0x2001, 0xdb8, 0, 0, 0, 0, 2, 1]))
    );
    assert_eq!(
        parse_ipv6(b"1:2:3:4:5:6:7::"),
        Some(v6([1, 2, 3, 4, 5, 6, 7, 0]))
    );
}

#[test]
fn parses_embedded_ipv4_tail() {
    assert_eq!(
        parse_ipv6(b"::ffff:192.0.2.128"),
        Some(v6([0, 0, 0, 0, 0, 0xffff, 0xc000, 0x0280]))
    );
    assert_eq!(
        parse_ipv6(b"1:2:3:4:5:6:192.0.2.1"),
        Some(v6([1, 2, 3, 4, 5, 6, 0xc000, 0x0201]))
    );
}

#[test]
fn rejects_bad_ipv6() {
    assert_eq!(parse_ipv6(b""), None);
    assert_eq!(parse_ipv6(b":"), None);
    assert_eq!(parse_ipv6(b":::"), None);
    assert_eq!(parse_ipv6(b"1:2:3:4:5:6:7"), None);
    assert_eq!(parse_ipv6(b"1:2:3:4:5:6:7:8:9"), None);
    assert_eq!(parse_ipv6(b"1:2:3:4:5:6:7:8::"), None);
    assert_eq!(parse_ipv6(b"::1:2:3:4:5:6:7:8"), None);
    assert_eq!(parse_ipv6(b"1::2::3"), None);
    assert_eq!(parse_ipv6(b"12345::"), None);
    assert_eq!(parse_ipv6(b"g::1"), None);
    assert_eq!(parse_ipv6(b"1:2:3:4:1.2.3.4::"), None);
    assert_eq!(parse_ipv6(b"fe80::1%eth0"), None);
}

#[test]
fn parse_ip_prefers_ipv4_then_ipv6() {
    assert_eq!(parse_ip(b"203.0.113.5"), Some(v4(203, 0, 113, 5)));
    assert_eq!(parse_ip(b"::1"), Some(v6([0, 0, 0, 0, 0, 0, 0, 1])));
    assert_eq!(parse_ip(b"not an address"), None);
}

#[test]
fn formats_dotted_decimal() {
    assert_eq!(v4(203, 0, 113, 5).text(), "203.0.113.5");
    assert_eq!(v4(0, 0, 0, 0).text(), "0.0.0.0");
    assert_eq!(v4(255, 10, 9, 100).text(), "255.10.9.100");
}

#[test]
fn formats_ipv6_compressed() {
    assert_eq!(v6([0, 0, 0, 0, 0, 0, 0, 0]).text(), "::");
    assert_eq!(v6([0, 0, 0, 0, 0, 0, 0, 1]).text(), "::1");
    assert_eq!(v6([1, 0, 0, 0, 0, 0, 0, 0]).text(), "1::");
    assert_eq!(
        v6([0x2001, 0xdb8, 0, 0, 0, 0xffff, 0xc000, 0x0280]).text(),
        "2001:db8::ffff:c000:280"
    );
}

#[test]
fn compresses_leftmost_longest_zero_run() {
    // Two equally long zero runs: the leftmost is compressed.
    assert_eq!(
        v6([0x2001, 0xdb8, 0, 0, 1, 0, 0, 1]).text(),
        "2001:db8::1:0:0:1"
    );
    // A single zero group is not compressed.
    assert_eq!(v6([1, 0, 2, 3, 4, 5, 6, 7]).text(), "1:0:2:3:4:5:6:7");
}

#[test]
fn formats_ipv4_mapped_with_dotted_tail() {
    assert_eq!(
        v6([0, 0, 0, 0, 0, 0xffff, 0xc000, 0x0280]).text(),
        "::ffff:192.0.2.128"
    );
    assert_eq!(
        v6([0, 0, 0, 0, 0, 0xffff, 0, 0]).text(),
        "::ffff:0.0.0.0"
    );
}

#[test]
fn text_round_trips_through_parse() {
    let samples = [
        v4(198, 51, 100, 1),
        v4(0, 0, 0, 0),
        v6([0, 0, 0, 0, 0, 0, 0, 1]),
        v6([0xfe80, 0, 0, 0, 0x1234, 0xabcd, 1, 0xffff]),
        v6([0, 0, 0, 0, 0, 0xffff, 0xc000, 0x0280]),
    ];
    for ip in &samples {
        let text = ip.text();
        assert_eq!(parse_ip(text.as_bytes()), Some(*ip));
    }
}
