//! tord configuration — the `tor:` section of the router's YAML file.
//!
//! tord reads only its own section; every other key is ignored. Reading
//! the file is the daemon's job; this module holds the settings, their
//! defaults, and what the daemon does with them at start.

use vstd::prelude::*;
use crate::addr::SocketAddress;
use crate::addr::ipv4_text;
use crate::text::{decimal, push_str};

verus! {

pub const DEFAULT_CONFIG_PATH: &'static str = "/persistent/config/router.yaml";

pub const DEFAULT_SOCKS_LISTEN: &'static str = "127.0.0.1:9050";

pub const DEFAULT_STATE_DIR: &'static str = "/var/lib/tord";

pub const DEFAULT_BOOTSTRAP_TIMEOUT_SECS: u64 = 120;

/// Circuit-isolation policy. The SOCKS username (RFC 1929) is mapped to
/// an arti stream-isolation token per this setting.
#[derive(Clone, Copy, Debug, PartialEq, Eq, Structural)]
pub enum Isolation {
    /// All proxied streams share circuits.
    Shared,
    /// One circuit set per distinct SOCKS username (e.g. per upstream
    /// resolver). The default.
    PerUpstream,
    /// A fresh circuit per CONNECT — maximum unlinkability, highest
    /// latency.
    PerQuery,
}

impl Default for Isolation {
    /// `PerUpstream`.
    fn default() -> (i: Self)
        ensures
            i == Isolation::PerUpstream,
    {
        Isolation::PerUpstream
    }
}

/// The `tor:` block.
pub struct TorConfig {
    /// Master switch. When false (or the section is absent) tord exits
    /// cleanly.
    pub enabled: bool,
    /// Address the SOCKS5 server binds.
    pub socks_listen: SocketAddress,
    /// Circuit-isolation policy.
    pub isolation: Isolation,
    /// arti state directory — guard selection and consensus cache. Must
    /// be on persistent storage so guards survive reboots.
    pub state_dir: String,
    /// How long to wait for the Tor client to bootstrap before CONNECTs
    /// start failing fast (fail-closed).
    pub bootstrap_timeout_secs: u64,
}

/// The loopback address `127.0.0.1:9050`: local consumers only.
pub open spec fn default_socks_listen() -> SocketAddress {
    SocketAddress::V4 { ip: [127u8, 0u8, 0u8, 1u8], port: 9050 }
}

impl Default for TorConfig {
    /// Disabled, listening on `127.0.0.1:9050`, per-upstream isolation,
    /// state under `/var/lib/tord`, a 120 s bootstrap timeout.
    fn default() -> (c: Self)
        ensures
            !c.enabled,
            c.socks_listen == default_socks_listen(),
            c.isolation == Isolation::PerUpstream,
            c.state_dir@ == DEFAULT_STATE_DIR@,
            c.bootstrap_timeout_secs == DEFAULT_BOOTSTRAP_TIMEOUT_SECS,
    {
        let mut state_dir = String::new();
        push_str(&mut state_dir, DEFAULT_STATE_DIR);
        TorConfig {
            enabled: false,
            socks_listen: SocketAddress::V4 { ip: [127, 0, 0, 1], port: 9050 },
            isolation: Isolation::default(),
            state_dir,
            bootstrap_timeout_secs: DEFAULT_BOOTSTRAP_TIMEOUT_SECS,
        }
    }
}

/// The default listen address is the loopback `127.0.0.1:9050`
/// (local consumers only), and `DEFAULT_SOCKS_LISTEN` is its text.
pub proof fn lemma_default_listen()
    ensures
        default_socks_listen().text() == DEFAULT_SOCKS_LISTEN@,
{
    reveal_strlit("127.0.0.1:9050");
    assert(decimal(0) =~= seq!['0']);
    assert(decimal(1) =~= seq!['1']);
    assert(decimal(12) =~= seq!['1', '2']);
    assert(decimal(127) =~= seq!['1', '2', '7']);
    assert(decimal(9) =~= seq!['9']);
    assert(decimal(90) =~= seq!['9', '0']);
    assert(decimal(905) =~= seq!['9', '0', '5']);
    assert(decimal(9050) =~= seq!['9', '0', '5', '0']);
    let ip: [u8; 4] = [127u8, 0u8, 0u8, 1u8];
    assert(ipv4_text(ip@) =~= seq!['1', '2', '7', '.', '0', '.', '0', '.', '1']);
    assert(default_socks_listen().text() =~= DEFAULT_SOCKS_LISTEN@);
}

/// What the daemon does with the `tor:` section it loaded.
pub enum Startup {
    /// The section is present and enabled: run with it.
    Run(TorConfig),
    /// The section is present but disabled: exit cleanly.
    Disabled,
    /// There is no section (or no file): exit cleanly.
    Absent,
}

/// tord runs only when a `tor:` section is present and enabled; absent
/// or disabled, it exits cleanly.
pub fn startup(section: Option<TorConfig>) -> (s: Startup)
    ensures
        match section {
            Some(c) => if c.enabled {
                s == Startup::Run(c)
            } else {
                s is Disabled
            },
            None => s is Absent,
        },
{
    match section {
        Some(c) => if c.enabled {
            Startup::Run(c)
        } else {
            Startup::Disabled
        },
        None => Startup::Absent,
    }
}

} // verus!
