use tord::addr::SocketAddress;
use tord::metrics::Metrics;
use tord::streams::StreamRegistry;

fn v4(a: u8, port: u16) -> SocketAddress {
    SocketAddress::V4 { ip: [10, 0, 0, a], port }
}

#[test]
fn register_snapshot_remove() {
    let mut reg = StreamRegistry::new();
    assert!(reg.is_empty());
    let a = reg.register(v4(1, 1000), "a.example:443".to_string(), None, 1_000_000_000);
    let b = reg.register(SocketAddress::V4 { ip: [0, 0, 0, 0], port: 0 }, "b:853".to_string(), Some("dnsd".to_string()), 0);
    let c = reg.register(v4(3, 3000), "c:80".to_string(), None, 0);
    assert_eq!((a, b, c), (0, 1, 2));
    assert_eq!(reg.len(), 3);
    let rows = reg.snapshot(61_500_000_000);
    assert_eq!(rows.iter().map(|r| r.id).collect::<Vec<_>>(), vec![0, 1, 2]);
    assert_eq!(rows[0].peer, "10.0.0.1:1000");
    assert_eq!(rows[0].age_secs, 60);
    assert_eq!(rows[1].peer, "local");
    assert_eq!(rows[1].isolation.as_deref(), Some("dnsd"));
    assert_eq!(rows[1].age_secs, 61);
    reg.remove(b);
    let rows = reg.snapshot(0);
    assert_eq!(rows.iter().map(|r| r.id).collect::<Vec<_>>(), vec![0, 2]);
    assert_eq!(rows[0].age_secs, 0);
    reg.remove(b);
    assert_eq!(reg.len(), 2);
    let d = reg.register(v4(4, 4000), "d:1".to_string(), None, 0);
    assert_eq!(d, 3);
    reg.remove(a);
    reg.remove(c);
    reg.remove(d);
    assert!(reg.is_empty());
    assert!(reg.snapshot(0).is_empty());
}

#[test]
fn byte_counters_update_the_row() {
    let mut reg = StreamRegistry::new();
    let id = reg.register(v4(1, 1), "t:1".to_string(), None, 0);
    reg.add_to_upstream(id, 5);
    reg.add_to_upstream(id, 7);
    reg.add_to_client(id, 3);
    reg.add_to_client(99, 1000);
    let rows = reg.snapshot(0);
    assert_eq!(rows.len(), 1);
    assert_eq!(rows[0].bytes_to_upstream, 12);
    assert_eq!(rows[0].bytes_to_client, 3);
}

#[test]
fn metrics_snapshot_and_wrapping() {
    let mut m = Metrics::default();
    m.record_connect();
    m.record_connect();
    m.record_connect_ok();
    m.record_connect_failed();
    m.add_to_upstream(u64::MAX);
    m.add_to_upstream(2);
    m.add_to_client(9);
    let s = m.snapshot();
    assert_eq!(s.connects_total, 2);
    assert_eq!(s.connects_ok, 1);
    assert_eq!(s.connects_failed, 1);
    assert_eq!(s.bytes_to_upstream, 1);
    assert_eq!(s.bytes_to_client, 9);
}
