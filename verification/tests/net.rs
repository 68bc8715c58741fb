use tord::addr::SocketAddress;
use tord::runtime::net::TordNetProvider;

#[test]
fn source_follows_the_target_family() {
    let p = TordNetProvider::new(Some([192, 0, 2, 10]), None);
    let v4 = SocketAddress::V4 { ip: [198, 51, 100, 1], port: 9001 };
    let v6 = SocketAddress::V6 { ip: [0x20, 0x01, 0x0d, 0xb8, 0, 0, 0, 0, 0, 0, 0, 0, 0, 0, 0, 1], port: 443, flowinfo: 0, scope_id: 0 };
    assert!(matches!(p.source_for(&v4), Some(SocketAddress::V4 { ip: [192, 0, 2, 10], port: 0 })));
    assert!(p.source_for(&v6).is_none());
    let mut o = [0u8; 16];
    o[0] = 0xfe;
    let p = TordNetProvider::new(None, Some(o));
    assert!(p.source_for(&v4).is_none());
    match p.source_for(&v6) {
        Some(SocketAddress::V6 { ip, port, flowinfo, scope_id }) => {
            assert_eq!((ip, port, flowinfo, scope_id), (o, 0, 0, 0));
        }
        _ => panic!("v6 source expected"),
    }
}
