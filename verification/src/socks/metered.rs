//! Byte counting for the proxied splice.
//!
//! The client half of the splice is wrapped so that both directions are
//! counted as the bytes flow: bytes read from the client are bound for
//! the Tor upstream, bytes written to the client came back from it.
//! Counting as the bytes flow keeps the totals right even when the copy
//! ends with an error. Every byte is counted twice over: into the
//! process-wide totals and into the connection's registry row.

use vstd::prelude::*;
use crate::metrics::Metrics;
use crate::socks::server::SocksServer;
use crate::streams::StreamEntry;

verus! {

impl SocksServer {
    /// A read from the client of connection `id` filled its buffer from
    /// `before` to `after` bytes: the difference is counted towards the
    /// upstream.
    pub fn record_client_read(&mut self, id: u64, before: usize, after: usize)
        requires
            before <= after,
        ensures
            final(self).streams.spec_next_id() == old(self).streams.spec_next_id(),
            final(self).streams.spec_issued() == old(self).streams.spec_issued(),
            final(self).metrics == (Metrics {
                bytes_to_upstream: old(self).metrics.bytes_to_upstream.wrapping_add((after - before) as u64),
                ..old(self).metrics
            }),
            final(self).streams@ == (if old(self).streams@.contains_key(id) {
                old(self).streams@.insert(
                    id,
                    StreamEntry {
                        to_upstream: old(self).streams@[id].to_upstream.wrapping_add((after - before) as u64),
                        ..old(self).streams@[id]
                    },
                )
            } else {
                old(self).streams@
            }),
    {
        let n = (after - before) as u64;
        if n > 0 {
            self.metrics.add_to_upstream(n);
            self.streams.add_to_upstream(id, n);
        } else {
            proof {
                assert(old(self).metrics.bytes_to_upstream.wrapping_add(0) == old(self).metrics.bytes_to_upstream);
                if old(self).streams@.contains_key(id) {
                    let e = old(self).streams@[id];
                    assert(e.to_upstream.wrapping_add(0) == e.to_upstream);
                    assert(old(self).streams@.insert(id, StreamEntry { to_upstream: e.to_upstream, ..e })
                        =~= old(self).streams@);
                }
            }
        }
    }

    /// A write of `n` bytes to the client of connection `id` completed:
    /// they are counted as having come back from the upstream.
    pub fn record_client_write(&mut self, id: u64, n: usize)
        ensures
            final(self).streams.spec_next_id() == old(self).streams.spec_next_id(),
            final(self).streams.spec_issued() == old(self).streams.spec_issued(),
            final(self).metrics == (Metrics {
                bytes_to_client: old(self).metrics.bytes_to_client.wrapping_add(n as u64),
                ..old(self).metrics
            }),
            final(self).streams@ == (if old(self).streams@.contains_key(id) {
                old(self).streams@.insert(
                    id,
                    StreamEntry {
                        to_client: old(self).streams@[id].to_client.wrapping_add(n as u64),
                        ..old(self).streams@[id]
                    },
                )
            } else {
                old(self).streams@
            }),
    {
        let n = n as u64;
        self.metrics.add_to_client(n);
        self.streams.add_to_client(id, n);
    }
}

} // verus!
