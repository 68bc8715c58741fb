use tord::addr::SocketAddress;
use tord::config::{
    startup, Isolation, Startup, TorConfig, DEFAULT_BOOTSTRAP_TIMEOUT_SECS, DEFAULT_SOCKS_LISTEN,
    DEFAULT_STATE_DIR,
};

#[test]
fn defaults() {
    let cfg = TorConfig::default();
    assert!(!cfg.enabled);
    assert_eq!(cfg.isolation, Isolation::PerUpstream);
    assert_eq!(cfg.bootstrap_timeout_secs, DEFAULT_BOOTSTRAP_TIMEOUT_SECS);
    assert_eq!(cfg.bootstrap_timeout_secs, 120);
    assert_eq!(cfg.state_dir, DEFAULT_STATE_DIR);
    assert_eq!(cfg.state_dir, "/var/lib/tord");
    assert_eq!(Isolation::default(), Isolation::PerUpstream);
}

#[test]
fn default_listen_is_the_parsed_constant() {
    let cfg = TorConfig::default();
    assert_eq!(cfg.socks_listen.to_text(), DEFAULT_SOCKS_LISTEN);
    assert!(matches!(cfg.socks_listen, SocketAddress::V4 { ip: [127, 0, 0, 1], port: 9050 }));
}

#[test]
fn runs_only_when_enabled() {
    assert!(matches!(startup(None), Startup::Absent));
    assert!(matches!(startup(Some(TorConfig::default())), Startup::Disabled));
    let cfg = TorConfig { enabled: true, ..TorConfig::default() };
    match startup(Some(cfg)) {
        Startup::Run(c) => assert!(c.enabled),
        _ => panic!("enabled config must run"),
    }
}
