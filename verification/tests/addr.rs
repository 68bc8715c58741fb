use tord::addr::SocketAddress;

fn text_of(o: [u8; 16]) -> String {
    SocketAddress::V6 { ip: o, port: 0, flowinfo: 0, scope_id: 0 }.to_text()
}

fn groups(g: [u16; 8]) -> [u8; 16] {
    let mut o = [0u8; 16];
    for i in 0..8 {
        o[2 * i] = (g[i] >> 8) as u8;
        o[2 * i + 1] = g[i] as u8;
    }
    o
}

#[test]
fn ipv6_text_forms() {
    let cases: Vec<([u16; 8], &str)> = vec![
        ([0; 8], "[::]:0"),
        ([0, 0, 0, 0, 0, 0, 0, 1], "[::1]:0"),
        ([1, 0, 0, 0, 0, 0, 0, 0], "[1::]:0"),
        ([0, 0, 0, 0, 0, 0xffff, 0xc000, 0x0201], "[::ffff:192.0.2.1]:0"),
        ([0, 0, 0, 0, 0, 0, 0xc000, 0x0201], "[::c000:201]:0"),
        ([0x2001, 0xdb8, 0, 0, 1, 0, 0, 1], "[2001:db8::1:0:0:1]:0"),
        ([0x2001, 0xdb8, 0, 0, 0, 1, 0, 1], "[2001:db8::1:0:1]:0"),
        ([0xfe80, 0, 0, 0, 0x21a, 0x2bff, 0xfe3c, 0x4d5e], "[fe80::21a:2bff:fe3c:4d5e]:0"),
        ([1, 0, 2, 0, 3, 0, 4, 5], "[1:0:2:0:3:0:4:5]:0"),
        ([0, 1, 0, 0, 1, 0, 0, 0], "[0:1:0:0:1::]:0"),
        ([1, 2, 3, 4, 5, 6, 7, 0], "[1:2:3:4:5:6:7:0]:0"),
        ([0xffff; 8], "[ffff:ffff:ffff:ffff:ffff:ffff:ffff:ffff]:0"),
        ([0xabcd, 0x12, 0, 0, 0, 0, 0, 0xef], "[abcd:12::ef]:0"),
    ];
    for (g, expected) in cases {
        assert_eq!(text_of(groups(g)), expected, "{g:x?}");
    }
}

#[test]
fn socket_address_text() {
    let v4 = SocketAddress::V4 { ip: [10, 0, 0, 254], port: 9050 };
    assert_eq!(v4.to_text(), "10.0.0.254:9050");
    let o = groups([0xfe80, 0, 0, 0, 0, 0, 0, 1]);
    let v6 = SocketAddress::V6 { ip: o, port: 443, flowinfo: 0, scope_id: 3 };
    assert_eq!(v6.to_text(), "[fe80::1%3]:443");
    let v6 = SocketAddress::V6 { ip: o, port: 1, flowinfo: 9, scope_id: 0 };
    assert_eq!(v6.to_text(), "[fe80::1]:1");
}

#[test]
fn unspecified_addresses() {
    assert!(SocketAddress::V4 { ip: [0, 0, 0, 0], port: 0 }.is_unspecified());
    assert!(SocketAddress::V4 { ip: [0, 0, 0, 0], port: 80 }.is_unspecified());
    assert!(!SocketAddress::V4 { ip: [127, 0, 0, 1], port: 0 }.is_unspecified());
    assert!(SocketAddress::V6 { ip: [0; 16], port: 0, flowinfo: 0, scope_id: 0 }.is_unspecified());
    let mut o = [0u8; 16];
    o[15] = 1;
    assert!(!SocketAddress::V6 { ip: o, port: 0, flowinfo: 0, scope_id: 0 }.is_unspecified());
}
