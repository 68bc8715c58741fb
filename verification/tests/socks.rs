use tord::addr::SocketAddress;
use tord::metrics::Metrics;
use tord::socks::server::{
    connect_reply, reply, ConnectRequest, Handshake, Next, SocksError, SocksServer, REP_ATYP_NOT_SUPPORTED,
    REP_CMD_NOT_SUPPORTED, REP_GENERAL_FAILURE, REP_SUCCESS,
};
use tord::streams::StreamRegistry;

/// Drive a handshake over a complete client byte stream, reading
/// exactly what the server asks for. Returns everything written and the
/// final decision; a stream that runs out before a decision is a failed
/// read.
fn drive(client: &[u8]) -> (Vec<u8>, Next) {
    let (mut hs, mut want) = Handshake::new();
    let mut pos = 0;
    let mut written = Vec::new();
    loop {
        if pos + want > client.len() {
            let step = hs.read_failed();
            written.extend_from_slice(&step.reply);
            return (written, step.next);
        }
        let step = hs.feed(&client[pos..pos + want]);
        pos += want;
        written.extend_from_slice(&step.reply);
        match step.next {
            Next::Read(n) => want = n,
            other => return (written, other),
        }
    }
}

fn connect_of(next: Next) -> ConnectRequest {
    match next {
        Next::Connect(r) => r,
        Next::Read(n) => panic!("still reading {n}"),
        Next::Close(e) => panic!("closed: {e:?}"),
    }
}

fn close_of(next: Next) -> SocksError {
    match next {
        Next::Close(e) => e,
        _ => panic!("not closed"),
    }
}

#[test]
fn noauth_ipv4_connect() {
    let client = [5, 1, 0, 5, 1, 0, 1, 93, 184, 216, 34, 0x01, 0xbb];
    let (written, next) = drive(&client);
    assert_eq!(written, vec![5, 0]);
    let r = connect_of(next);
    assert_eq!(r.host, "93.184.216.34");
    assert_eq!(r.port, 443);
    assert!(r.user.is_none());
}

#[test]
fn userpass_username_is_isolation_token() {
    let mut client = vec![5, 2, 0, 2, 1, 5];
    client.extend_from_slice(b"alice");
    client.push(3);
    client.extend_from_slice(b"pwd");
    client.extend_from_slice(&[5, 1, 0, 3, 11]);
    client.extend_from_slice(b"example.org");
    client.extend_from_slice(&[0x03, 0x55]);
    let (written, next) = drive(&client);
    assert_eq!(written, vec![5, 2, 1, 0]);
    let r = connect_of(next);
    assert_eq!(r.host, "example.org");
    assert_eq!(r.port, 853);
    assert_eq!(r.user.as_deref(), Some("alice"));
}

#[test]
fn any_password_is_accepted() {
    let mut client = vec![5, 1, 2, 1, 1, b'u', 0];
    client.extend_from_slice(&[5, 1, 0, 1, 10, 0, 0, 1, 0, 80]);
    let (written, next) = drive(&client);
    assert_eq!(written, vec![5, 2, 1, 0]);
    let r = connect_of(next);
    assert_eq!(r.host, "10.0.0.1");
    assert_eq!(r.port, 80);
    assert_eq!(r.user.as_deref(), Some("u"));
}

#[test]
fn domain_target_is_verbatim() {
    let name = "Grüße.Example.";
    let mut client = vec![5, 1, 0, 5, 1, 0, 3, name.len() as u8];
    client.extend_from_slice(name.as_bytes());
    client.extend_from_slice(&[0, 22]);
    let (_, next) = drive(&client);
    let r = connect_of(next);
    assert_eq!(r.host, name);
    assert_eq!(r.port, 22);
}

#[test]
fn ipv6_target_text() {
    let mut client = vec![5, 1, 0, 5, 1, 0, 4];
    client.extend_from_slice(&[0x20, 0x01, 0x0d, 0xb8, 0, 0, 0, 0, 0, 0, 0, 0, 0, 0, 0, 1]);
    client.extend_from_slice(&[0x01, 0xbb]);
    let (_, next) = drive(&client);
    let r = connect_of(next);
    assert_eq!(r.host, "2001:db8::1");
    assert_eq!(r.port, 443);
}

#[test]
fn bind_and_udp_associate_are_refused_with_0x07() {
    for cmd in [2u8, 3u8] {
        let client = [5, 1, 0, 5, cmd, 0, 1, 1, 2, 3, 4, 0, 80];
        let (written, next) = drive(&client);
        let mut expected = vec![5, 0];
        expected.extend_from_slice(&reply(REP_CMD_NOT_SUPPORTED));
        assert_eq!(written, expected);
        assert_eq!(close_of(next), SocksError::UnsupportedCommand { command: cmd });
    }
}

#[test]
fn unknown_address_type_gets_0x08() {
    let client = [5, 1, 0, 5, 1, 0, 9, 1, 2, 3, 4, 0, 80];
    let (written, next) = drive(&client);
    let mut expected = vec![5, 0];
    expected.extend_from_slice(&[5, REP_ATYP_NOT_SUPPORTED, 0, 1, 0, 0, 0, 0, 0, 0]);
    assert_eq!(written, expected);
    assert_eq!(close_of(next), SocksError::UnsupportedAddressType { atyp: 9 });
}

#[test]
fn domain_not_utf8_gets_0x08() {
    let client = [5, 1, 0, 5, 1, 0, 3, 2, 0xff, 0xfe, 0, 80];
    let (written, next) = drive(&client);
    assert_eq!(&written[2..], &reply(REP_ATYP_NOT_SUPPORTED)[..]);
    assert_eq!(close_of(next), SocksError::DomainNotUtf8);
}

#[test]
fn not_socks5_closes_without_reply() {
    let (written, next) = drive(&[4, 1, 0, 80]);
    assert!(written.is_empty());
    assert_eq!(close_of(next), SocksError::NotSocks5 { version: 4 });
}

#[test]
fn no_acceptable_method() {
    let (written, next) = drive(&[5, 2, 1, 3]);
    assert_eq!(written, vec![5, 0xff]);
    assert_eq!(close_of(next), SocksError::NoAcceptableMethod);
}

#[test]
fn no_methods_offered_is_not_acceptable() {
    let (written, next) = drive(&[5, 0]);
    assert_eq!(written, vec![5, 0xff]);
    assert_eq!(close_of(next), SocksError::NoAcceptableMethod);
}

#[test]
fn userpass_preferred_over_noauth() {
    let (written, next) = drive(&[5, 2, 0, 2, 9]);
    assert_eq!(written, vec![5, 2]);
    assert_eq!(close_of(next), SocksError::BadAuthVersion { version: 9 });
}

#[test]
fn username_not_utf8() {
    let (written, next) = drive(&[5, 1, 2, 1, 1, 0xff, 0]);
    assert_eq!(written, vec![5, 2]);
    assert_eq!(close_of(next), SocksError::UsernameNotUtf8);
}

#[test]
fn bad_request_version() {
    let (written, next) = drive(&[5, 1, 0, 4, 1, 0, 1]);
    assert_eq!(written, vec![5, 0]);
    assert_eq!(close_of(next), SocksError::BadRequestVersion { version: 4 });
}

#[test]
fn eof_while_reading_target_gets_0x08() {
    let (written, next) = drive(&[5, 1, 0, 5, 1, 0, 1, 127, 0]);
    let mut expected = vec![5, 0];
    expected.extend_from_slice(&reply(REP_ATYP_NOT_SUPPORTED));
    assert_eq!(written, expected);
    assert_eq!(close_of(next), SocksError::TargetReadFailed);
}

#[test]
fn eof_before_request_gets_no_reply() {
    let (written, next) = drive(&[5, 1, 0, 5, 1]);
    assert_eq!(written, vec![5, 0]);
    assert_eq!(close_of(next), SocksError::ReadFailed);
}

#[test]
fn reads_are_exact() {
    let (mut hs, want) = Handshake::new();
    assert_eq!(want, 2);
    let step = hs.feed(&[5, 3]);
    assert!(matches!(step.next, Next::Read(3)));
    let step = hs.feed(&[0]);
    assert!(matches!(step.next, Next::Read(2)));
    assert!(step.reply.is_empty());
    let step = hs.feed(&[1, 2]);
    assert_eq!(step.reply, vec![5, 2]);
    assert!(matches!(step.next, Next::Read(1)));
}

#[test]
fn replies_are_ten_bytes_with_zero_bound_address() {
    assert_eq!(reply(REP_SUCCESS), vec![5, 0, 0, 1, 0, 0, 0, 0, 0, 0]);
    assert_eq!(reply(REP_GENERAL_FAILURE), vec![5, 1, 0, 1, 0, 0, 0, 0, 0, 0]);
}

fn peer() -> SocketAddress {
    SocketAddress::V4 { ip: [192, 168, 1, 7], port: 50000 }
}

#[test]
fn connect_failure_fails_closed() {
    let mut server = SocksServer::new(Metrics::default(), StreamRegistry::new());
    let req = ConnectRequest { host: "example.org".to_string(), port: 443, user: None };
    let id = server.begin_connect(peer(), &req, 0);
    assert_eq!(server.metrics.connects_total, 1);
    let r = server.finish_connect(false);
    assert!(!r.splice);
    assert_eq!(r.reply, reply(REP_GENERAL_FAILURE));
    assert_eq!(server.metrics.connects_failed, 1);
    assert_eq!(server.metrics.connects_ok, 0);
    server.end_connection(id);
    assert!(server.streams.is_empty());
}

#[test]
fn connect_success_splices() {
    let mut server = SocksServer::new(Metrics::default(), StreamRegistry::new());
    let req = ConnectRequest { host: "2001:db8::1".to_string(), port: 853, user: Some("dnsd".to_string()) };
    let id = server.begin_connect(peer(), &req, 5_000_000_000);
    let rows = server.streams.snapshot(7_500_000_000);
    assert_eq!(rows.len(), 1);
    assert_eq!(rows[0].id, id);
    assert_eq!(rows[0].target, "2001:db8::1:853");
    assert_eq!(rows[0].isolation.as_deref(), Some("dnsd"));
    assert_eq!(rows[0].age_secs, 2);
    let r = server.finish_connect(true);
    assert!(r.splice);
    assert_eq!(r.reply, reply(REP_SUCCESS));
    assert_eq!(server.metrics.connects_ok, 0);
    assert_eq!(server.metrics.connects_failed, 0);
    server.metrics.record_connect_ok();
    assert_eq!(connect_reply(true).reply, reply(REP_SUCCESS));
    assert_eq!(server.metrics.connects_ok, 1);
    assert_eq!(server.metrics.connects_total, 1);
}

#[test]
fn metered_counts_into_totals_and_row() {
    let mut server = SocksServer::new(Metrics::default(), StreamRegistry::new());
    let req = ConnectRequest { host: "a".to_string(), port: 1, user: None };
    let id = server.begin_connect(peer(), &req, 0);
    server.record_client_read(id, 10, 110);
    server.record_client_read(id, 5, 5);
    server.record_client_write(id, 42);
    assert_eq!(server.metrics.bytes_to_upstream, 100);
    assert_eq!(server.metrics.bytes_to_client, 42);
    let rows = server.streams.snapshot(0);
    assert_eq!(rows[0].bytes_to_upstream, 100);
    assert_eq!(rows[0].bytes_to_client, 42);
    server.end_connection(id);
    server.record_client_write(id, 8);
    assert_eq!(server.metrics.bytes_to_client, 50);
    assert_eq!(server.streams.len(), 0);
}

#[test]
fn outcomes_never_exceed_attempts() {
    let mut server = SocksServer::new(Metrics::default(), StreamRegistry::new());
    let req = ConnectRequest { host: "example.org".to_string(), port: 443, user: None };
    let a = server.begin_connect(peer(), &req, 0);
    let b = server.begin_connect(peer(), &req, 0);
    let c = server.begin_connect(peer(), &req, 0);
    assert_eq!((a, b, c), (0, 1, 2));
    server.finish_connect(false);
    server.finish_connect(true);
    server.metrics.record_connect_ok();
    server.finish_connect(true);
    let m = server.metrics.snapshot();
    assert_eq!((m.connects_total, m.connects_ok, m.connects_failed), (3, 1, 1));
    assert!(m.connects_ok + m.connects_failed <= m.connects_total);
    server.end_connection(b);
    let d = server.begin_connect(peer(), &req, 0);
    assert_eq!(d, 3);
}
