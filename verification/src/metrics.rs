//! Process-wide counters, surfaced over the control socket.
//!
//! Every counter wraps modulo 2^64, as an atomic `fetch_add` does.

use vstd::prelude::*;

verus! {

/// Counters bumped by the SOCKS server.
pub struct Metrics {
    pub connects_total: u64,
    pub connects_ok: u64,
    pub connects_failed: u64,
    pub bytes_to_upstream: u64,
    pub bytes_to_client: u64,
}

/// A read of every counter at one moment, for JSON.
pub struct MetricsSnapshot {
    pub connects_total: u64,
    pub connects_ok: u64,
    pub connects_failed: u64,
    pub bytes_to_upstream: u64,
    pub bytes_to_client: u64,
}

/// A step in one CONNECT's life, as the counters see it.
pub enum CountEvent {
    /// The request is complete and about to go to Tor.
    Attempt,
    /// Tor could not open the stream.
    Failed,
    /// The success reply has been written to the client.
    Succeeded,
    /// The stream opened but the success reply could not be written.
    Abandoned,
}

/// The counters after event `e`.
pub open spec fn count_event(m: Metrics, e: CountEvent) -> Metrics {
    match e {
        CountEvent::Attempt => Metrics { connects_total: m.connects_total.wrapping_add(1), ..m },
        CountEvent::Failed => Metrics { connects_failed: m.connects_failed.wrapping_add(1), ..m },
        CountEvent::Succeeded => Metrics { connects_ok: m.connects_ok.wrapping_add(1), ..m },
        CountEvent::Abandoned => m,
    }
}

/// The number of CONNECTs counted as attempted but not yet finished,
/// after event `e`.
pub open spec fn pending_after(pending: nat, e: CountEvent) -> int {
    match e {
        CountEvent::Attempt => pending as int + 1,
        _ => pending - 1,
    }
}

/// Every success and every failure counted belongs to a counted attempt:
/// successes, failures and the attempts still under way add up to at
/// most the attempts counted.
pub open spec fn outcomes_within_attempts(m: Metrics, pending: nat) -> bool {
    m.connects_ok + m.connects_failed + pending <= m.connects_total
}

/// Each CONNECT counts one attempt and then at most one outcome, so the
/// successes plus failures never exceed the attempts, whatever the
/// order in which connections interleave. It holds while the attempt
/// count has not wrapped around.
pub proof fn lemma_outcomes_within_attempts(m: Metrics, pending: nat, e: CountEvent)
    requires
        outcomes_within_attempts(m, pending),
        e is Attempt ==> m.connects_total < u64::MAX,
        !(e is Attempt) ==> pending > 0,
    ensures
        pending_after(pending, e) >= 0,
        outcomes_within_attempts(count_event(m, e), pending_after(pending, e) as nat),
        count_event(m, e).connects_ok + count_event(m, e).connects_failed <= count_event(m, e).connects_total,
{
}

impl Default for Metrics {
    /// All counters at zero.
    fn default() -> (m: Self)
        ensures
            m.connects_total == 0,
            m.connects_ok == 0,
            m.connects_failed == 0,
            m.bytes_to_upstream == 0,
            m.bytes_to_client == 0,
    {
        Metrics { connects_total: 0, connects_ok: 0, connects_failed: 0, bytes_to_upstream: 0, bytes_to_client: 0 }
    }
}

impl Metrics {
    /// Every counter, copied.
    pub fn snapshot(&self) -> (s: MetricsSnapshot)
        ensures
            s.connects_total == self.connects_total,
            s.connects_ok == self.connects_ok,
            s.connects_failed == self.connects_failed,
            s.bytes_to_upstream == self.bytes_to_upstream,
            s.bytes_to_client == self.bytes_to_client,
    {
        MetricsSnapshot {
            connects_total: self.connects_total,
            connects_ok: self.connects_ok,
            connects_failed: self.connects_failed,
            bytes_to_upstream: self.bytes_to_upstream,
            bytes_to_client: self.bytes_to_client,
        }
    }

    /// A CONNECT was attempted.
    pub fn record_connect(&mut self)
        ensures
            *final(self) == count_event(*old(self), CountEvent::Attempt),
    {
        self.connects_total = self.connects_total.wrapping_add(1);
    }

    /// A CONNECT succeeded.
    pub fn record_connect_ok(&mut self)
        ensures
            *final(self) == count_event(*old(self), CountEvent::Succeeded),
    {
        self.connects_ok = self.connects_ok.wrapping_add(1);
    }

    /// A CONNECT failed.
    pub fn record_connect_failed(&mut self)
        ensures
            *final(self) == count_event(*old(self), CountEvent::Failed),
    {
        self.connects_failed = self.connects_failed.wrapping_add(1);
    }

    /// `n` bytes went from a client towards Tor.
    pub fn add_to_upstream(&mut self, n: u64)
        ensures
            *final(self) == (Metrics { bytes_to_upstream: old(self).bytes_to_upstream.wrapping_add(n), ..*old(self) }),
    {
        self.bytes_to_upstream = self.bytes_to_upstream.wrapping_add(n);
    }

    /// `n` bytes came back from Tor to a client.
    pub fn add_to_client(&mut self, n: u64)
        ensures
            *final(self) == (Metrics { bytes_to_client: old(self).bytes_to_client.wrapping_add(n), ..*old(self) }),
    {
        self.bytes_to_client = self.bytes_to_client.wrapping_add(n);
    }
}

} // verus!
