//! The TCP-stream provider handed to arti: which source address an
//! outbound connection binds.

use vstd::prelude::*;
use crate::addr::SocketAddress;

verus! {

/// Connect timeout for a single underlying TCP open, in seconds. arti
/// applies its own per-hop timeouts on top of this.
pub const CONNECT_TIMEOUT_SECS: u64 = 10;

/// TCP-stream provider for arti. The session layer can hand an outbound
/// session an unusable source address, so explicit source addresses can
/// be set per address family; `None` lets the stack choose.
pub struct TordNetProvider {
    pub source_v4: Option<[u8; 4]>,
    pub source_v6: Option<[u8; 16]>,
}

/// The source an outbound connection to `target` binds: the configured
/// address of the target's family, port 0 (any port).
pub open spec fn spec_source_for(p: TordNetProvider, target: SocketAddress) -> Option<SocketAddress> {
    match target {
        SocketAddress::V4 { .. } => match p.source_v4 {
            Some(ip) => Some(SocketAddress::V4 { ip, port: 0 }),
            None => None,
        },
        SocketAddress::V6 { .. } => match p.source_v6 {
            Some(ip) => Some(SocketAddress::V6 { ip, port: 0, flowinfo: 0, scope_id: 0 }),
            None => None,
        },
    }
}

/// `a` and `b` are of the same address family.
pub open spec fn same_family(a: SocketAddress, b: SocketAddress) -> bool {
    (a is V4 && b is V4) || (a is V6 && b is V6)
}

/// The source an outbound connection binds is always of the target's
/// own address family, on port 0 (any port), with no flow label or scope;
/// there is one exactly when a source is configured for that family,
/// and it is that configured address: for an IPv6 target the configured
/// IPv6 source whatever the IPv4 one is, and the other way round.
pub proof fn lemma_source_matches_target_family(p: TordNetProvider, target: SocketAddress)
    ensures
        spec_source_for(p, target) matches Some(s) ==> same_family(s, target),
        target is V4 ==> (spec_source_for(p, target) is Some <==> p.source_v4 is Some),
        target is V6 ==> (spec_source_for(p, target) is Some <==> p.source_v6 is Some),
        spec_source_for(p, target) matches Some(SocketAddress::V4 { ip, port }) ==> p.source_v4 == Some(ip)
            && port == 0,
        spec_source_for(p, target) matches Some(SocketAddress::V6 { ip, port, flowinfo, scope_id }) ==> p.source_v6
            == Some(ip) && port == 0 && flowinfo == 0 && scope_id == 0,
{
}

/// Which source is bound depends only on the source configured for the
/// target's family: two providers that agree on it bind the same source,
/// however their sources for the other family differ.
pub proof fn lemma_source_ignores_other_family(p: TordNetProvider, q: TordNetProvider, target: SocketAddress)
    requires
        target is V4 ==> p.source_v4 == q.source_v4,
        target is V6 ==> p.source_v6 == q.source_v6,
    ensures
        spec_source_for(p, target) == spec_source_for(q, target),
{
}

impl TordNetProvider {
    /// A provider binding these source addresses.
    pub fn new(source_v4: Option<[u8; 4]>, source_v6: Option<[u8; 16]>) -> (p: Self)
        ensures
            p.source_v4 == source_v4,
            p.source_v6 == source_v6,
    {
        TordNetProvider { source_v4, source_v6 }
    }

    /// The source address to bind for a connection to `target`.
    pub fn source_for(&self, target: &SocketAddress) -> (s: Option<SocketAddress>)
        ensures
            s == spec_source_for(*self, *target),
    {
        match target {
            SocketAddress::V4 { .. } => match self.source_v4 {
                Some(ip) => Some(SocketAddress::V4 { ip, port: 0 }),
                None => None,
            },
            SocketAddress::V6 { .. } => match self.source_v6 {
                Some(ip) => Some(SocketAddress::V6 { ip, port: 0, flowinfo: 0, scope_id: 0 }),
                None => None,
            },
        }
    }
}

} // verus!
