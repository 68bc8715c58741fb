//! Live registry of in-flight proxied connections.
//!
//! Every SOCKS connection that gets past target parsing is recorded
//! here for the lifetime of the splice, so `tord query streams` can
//! report what is connected through tord and where to. The
//! `streams_active` count in `stats` is just the row count.
//!
//! This is tord's own view of its connections, not Tor circuit detail.

use vstd::prelude::*;
use crate::addr::SocketAddress;
use crate::text::{opt_text, push_str};

verus! {

/// Removing a connection's row after registering it leaves the
/// registry as it was, when its id was not in use before.
pub proof fn lemma_register_remove(before: Map<u64, StreamEntry>, id: u64, e: StreamEntry)
    requires
        !before.contains_key(id),
    ensures
        before.insert(id, e).remove(id) == before,
{
    assert(before.insert(id, e).remove(id) =~= before);
}

/// Nanoseconds in a second: ages are whole seconds, rounded down.
pub const NANOS_PER_SEC: u64 = 1_000_000_000;

/// Per-connection state. Times are nanoseconds on the process's
/// monotonic clock; the byte counters wrap modulo 2^64.
pub struct StreamEntry {
    pub id: u64,
    pub peer: SocketAddress,
    pub target: String,
    pub isolation: Option<String>,
    pub started: u64,
    pub to_upstream: u64,
    pub to_client: u64,
}

/// One row of `tord query streams`.
pub struct StreamSnapshot {
    pub id: u64,
    pub peer: String,
    pub target: String,
    pub isolation: Option<String>,
    pub age_secs: u64,
    pub bytes_to_upstream: u64,
    pub bytes_to_client: u64,
}

/// Process-wide registry of live proxied connections, kept ordered by id.
pub struct StreamRegistry {
    entries: Vec<StreamEntry>,
    next_id: u64,
    issued: Ghost<nat>,
}

/// Ids issue from a 64-bit counter: there are this many before it wraps.
pub open spec fn id_space() -> nat {
    0x1_0000_0000_0000_0000
}

/// Every id in `rows` is below `bound`.
pub open spec fn ids_below(rows: Seq<StreamEntry>, bound: int) -> bool {
    forall|i: int| 0 <= i < rows.len() ==> #[trigger] rows[i].id < bound
}

proof fn lemma_next_id(issued: nat, id: u64)
    requires
        id as int == issued % id_space(),
    ensures
        id.wrapping_add(1) as int == (issued + 1) % id_space(),
{
    let m = id_space() as int;
    let q = issued as int / m;
    vstd::arithmetic::div_mod::lemma_fundamental_div_mod(issued as int, m);
    assert(issued as int == m * q + id);
    if id < u64::MAX {
        assert(issued + 1 == q * m + (id + 1)) by (nonlinear_arith)
            requires
                issued as int == m * q + id,
        ;
        vstd::arithmetic::div_mod::lemma_fundamental_div_mod_converse((issued + 1) as int, m, q, id + 1);
    } else {
        assert(issued + 1 == (q + 1) * m + 0) by (nonlinear_arith)
            requires
                issued as int == m * q + id,
                id + 1 == m,
        ;
        vstd::arithmetic::div_mod::lemma_fundamental_div_mod_converse((issued + 1) as int, m, q + 1, 0);
    }
}

/// Ids strictly increase along `rows`.
pub open spec fn sorted_ids(rows: Seq<StreamEntry>) -> bool {
    forall|i: int, j: int| 0 <= i < j < rows.len() ==> rows[i].id < rows[j].id
}

/// Some row of `rows` has id `k`.
pub open spec fn has_id(rows: Seq<StreamEntry>, k: u64) -> bool {
    exists|i: int| 0 <= i < rows.len() && rows[i].id == k
}

/// The rows keyed by id.
pub open spec fn rows_map(rows: Seq<StreamEntry>) -> Map<u64, StreamEntry> {
    Map::new(
        |k: u64| has_id(rows, k),
        |k: u64| rows[choose|i: int| 0 <= i < rows.len() && rows[i].id == k],
    )
}

/// How a connection's peer is shown: `local` for a cut-through client,
/// which reports the unspecified address, else the address's text.
pub open spec fn peer_text(peer: SocketAddress) -> Seq<char> {
    if peer.spec_is_unspecified() {
        "local"@
    } else {
        peer.text()
    }
}

/// Whole seconds from `started` to `now`; zero if `now` is earlier.
pub open spec fn age_secs(started: u64, now: u64) -> u64 {
    (if now >= started {
        (now - started) / (NANOS_PER_SEC as int)
    } else {
        0
    }) as u64
}

/// `s` is the snapshot of entry `e` taken at `now`.
pub open spec fn snapshot_of(s: StreamSnapshot, e: StreamEntry, now: u64) -> bool {
    &&& s.id == e.id
    &&& s.peer@ == peer_text(e.peer)
    &&& s.target@ == e.target@
    &&& opt_text(s.isolation) == opt_text(e.isolation)
    &&& s.age_secs == age_secs(e.started, now)
    &&& s.bytes_to_upstream == e.to_upstream
    &&& s.bytes_to_client == e.to_client
}

proof fn lemma_unique(rows: Seq<StreamEntry>, i: int, j: int)
    requires
        sorted_ids(rows),
        0 <= i < rows.len(),
        0 <= j < rows.len(),
        rows[i].id == rows[j].id,
    ensures
        i == j,
{
    if i < j {
        assert(rows[i].id < rows[j].id);
    } else if j < i {
        assert(rows[j].id < rows[i].id);
    }
}

proof fn lemma_map_at(rows: Seq<StreamEntry>, i: int)
    requires
        sorted_ids(rows),
        0 <= i < rows.len(),
    ensures
        rows_map(rows).contains_key(rows[i].id),
        rows_map(rows)[rows[i].id] == rows[i],
{
    let k = rows[i].id;
    assert(has_id(rows, k));
    let c = choose|j: int| 0 <= j < rows.len() && rows[j].id == k;
    lemma_unique(rows, i, c);
}

proof fn lemma_map_insert(rows: Seq<StreamEntry>, pos: int, e: StreamEntry)
    requires
        sorted_ids(rows),
        0 <= pos <= rows.len(),
        forall|i: int| 0 <= i < pos ==> rows[i].id < e.id,
        forall|i: int| pos <= i < rows.len() ==> rows[i].id > e.id,
    ensures
        sorted_ids(rows.insert(pos, e)),
        rows_map(rows.insert(pos, e)) == rows_map(rows).insert(e.id, e),
{
    let r2 = rows.insert(pos, e);
    assert(sorted_ids(r2));
    let m1 = rows_map(r2);
    let m2 = rows_map(rows).insert(e.id, e);
    assert forall|k: u64| m1.contains_key(k) <==> m2.contains_key(k) by {
        if has_id(r2, k) && k != e.id {
            let i = choose|i: int| 0 <= i < r2.len() && r2[i].id == k;
            if i < pos {
                assert(rows[i].id == k);
            } else {
                assert(rows[i - 1].id == k);
            }
        }
        if has_id(rows, k) {
            let i = choose|i: int| 0 <= i < rows.len() && rows[i].id == k;
            if i < pos {
                assert(r2[i].id == k);
            } else {
                assert(r2[i + 1].id == k);
            }
        }
        if k == e.id {
            assert(r2[pos].id == k);
        }
    }
    assert forall|k: u64| m1.contains_key(k) implies m1[k] == m2[k] by {
        let i = choose|i: int| 0 <= i < r2.len() && r2[i].id == k;
        lemma_map_at(r2, i);
        if i < pos {
            lemma_map_at(rows, i);
        } else if i > pos {
            lemma_map_at(rows, i - 1);
        }
    }
    assert(m1 =~= m2);
}

proof fn lemma_map_update(rows: Seq<StreamEntry>, pos: int, e: StreamEntry)
    requires
        sorted_ids(rows),
        0 <= pos < rows.len(),
        rows[pos].id == e.id,
    ensures
        sorted_ids(rows.update(pos, e)),
        rows_map(rows.update(pos, e)) == rows_map(rows).insert(e.id, e),
{
    let r2 = rows.update(pos, e);
    assert(sorted_ids(r2));
    let m1 = rows_map(r2);
    let m2 = rows_map(rows).insert(e.id, e);
    assert forall|k: u64| m1.contains_key(k) <==> m2.contains_key(k) by {
        if has_id(r2, k) {
            let i = choose|i: int| 0 <= i < r2.len() && r2[i].id == k;
            assert(rows[i].id == k);
        }
        if has_id(rows, k) {
            let i = choose|i: int| 0 <= i < rows.len() && rows[i].id == k;
            assert(r2[i].id == k);
        }
        if k == e.id {
            assert(r2[pos].id == k);
        }
    }
    assert forall|k: u64| m1.contains_key(k) implies m1[k] == m2[k] by {
        let i = choose|i: int| 0 <= i < r2.len() && r2[i].id == k;
        lemma_map_at(r2, i);
        if i != pos {
            lemma_map_at(rows, i);
        }
    }
    assert(m1 =~= m2);
}

proof fn lemma_map_remove(rows: Seq<StreamEntry>, pos: int)
    requires
        sorted_ids(rows),
        0 <= pos < rows.len(),
    ensures
        sorted_ids(rows.remove(pos)),
        rows_map(rows.remove(pos)) == rows_map(rows).remove(rows[pos].id),
{
    let r2 = rows.remove(pos);
    let id = rows[pos].id;
    assert(sorted_ids(r2));
    let m1 = rows_map(r2);
    let m2 = rows_map(rows).remove(id);
    assert forall|k: u64| m1.contains_key(k) <==> m2.contains_key(k) by {
        if has_id(r2, k) {
            let i = choose|i: int| 0 <= i < r2.len() && r2[i].id == k;
            if i < pos {
                assert(rows[i].id == k);
            } else {
                assert(rows[i + 1].id == k);
            }
        }
        if has_id(rows, k) && k != id {
            let i = choose|i: int| 0 <= i < rows.len() && rows[i].id == k;
            if i < pos {
                assert(r2[i].id == k);
            } else {
                assert(i != pos);
                assert(r2[i - 1].id == k);
            }
        }
    }
    assert forall|k: u64| m1.contains_key(k) implies m1[k] == m2[k] by {
        let i = choose|i: int| 0 <= i < r2.len() && r2[i].id == k;
        lemma_map_at(r2, i);
        if i < pos {
            lemma_map_at(rows, i);
        } else {
            lemma_map_at(rows, i + 1);
        }
    }
    assert(m1 =~= m2);
}

proof fn lemma_rows_len(rows: Seq<StreamEntry>)
    requires
        sorted_ids(rows),
    ensures
        rows_map(rows).dom().finite(),
        rows_map(rows).dom().len() == rows.len(),
    decreases rows.len(),
{
    if rows.len() == 0 {
        assert(rows_map(rows).dom() =~= Set::<u64>::empty());
    } else {
        let init = rows.drop_last();
        let e = rows.last();
        assert(sorted_ids(init));
        lemma_rows_len(init);
        assert(init.insert(init.len() as int, e) =~= rows);
        assert forall|i: int| 0 <= i < init.len() implies init[i].id < e.id by {
            assert(rows[i].id < rows[rows.len() - 1].id);
        }
        lemma_map_insert(init, init.len() as int, e);
        assert(!rows_map(init).contains_key(e.id)) by {
            if has_id(init, e.id) {
                let i = choose|i: int| 0 <= i < init.len() && init[i].id == e.id;
                assert(init[i].id < e.id);
            }
        }
        assert(rows_map(rows).dom() =~= rows_map(init).dom().insert(e.id));
    }
}

fn clone_opt(s: &Option<String>) -> (r: Option<String>)
    ensures
        opt_text(r) == opt_text(*s),
{
    match s {
        Some(s) => Some(s.clone()),
        None => None,
    }
}

impl View for StreamRegistry {
    type V = Map<u64, StreamEntry>;

    /// The live connections, keyed by id.
    open spec fn view(&self) -> Map<u64, StreamEntry> {
        rows_map(self.rows())
    }
}

impl StreamRegistry {
    /// The live connections in id order.
    pub closed spec fn rows(&self) -> Seq<StreamEntry> {
        self.entries@
    }

    /// The id the next registration gets.
    pub closed spec fn spec_next_id(&self) -> u64 {
        self.next_id
    }

    /// How many ids have been handed out since the registry was made.
    pub closed spec fn spec_issued(&self) -> nat {
        self.issued@
    }

    /// Every live id is below the next id to be handed out, so the next
    /// registration gets an id not in use.
    pub open spec fn ids_fresh(&self) -> bool {
        forall|k: u64| self@.contains_key(k) ==> k < self.spec_next_id()
    }

    /// The rows are kept ordered by strictly increasing id; the next id is
    /// the count of ids issued, modulo 2^64; and while fewer than 2^64
    /// ids have been issued, every live id is one issued earlier.
    #[verifier::type_invariant]
    spec fn wf(&self) -> bool {
        &&& sorted_ids(self.entries@)
        &&& self.next_id as int == self.issued@ % id_space()
        &&& self.issued@ < id_space() ==> ids_below(self.entries@, self.issued@ as int)
    }

    /// An empty registry whose first id is 0.
    pub fn new() -> (r: Self)
        ensures
            r.rows() == Seq::<StreamEntry>::empty(),
            r@ == Map::<u64, StreamEntry>::empty(),
            r.spec_next_id() == 0,
            r.spec_issued() == 0,
            r.ids_fresh(),
    {
        let r = StreamRegistry { entries: Vec::new(), next_id: 0, issued: Ghost(0) };
        assert(r@ =~= Map::<u64, StreamEntry>::empty());
        r
    }

    /// First index whose id is not below `id`.
    fn position(&self, id: u64) -> (pos: usize)
        ensures
            pos <= self.rows().len(),
            forall|i: int| 0 <= i < pos ==> self.rows()[i].id < id,
            forall|i: int| pos <= i < self.rows().len() ==> self.rows()[i].id >= id,
    {
        proof {
            use_type_invariant(&*self);
        }
        let mut i: usize = 0;
        while i < self.entries.len() && self.entries[i].id < id
            invariant
                i <= self.entries@.len(),
                sorted_ids(self.entries@),
                forall|j: int| 0 <= j < i ==> self.entries@[j].id < id,
            decreases self.entries@.len() - i,
        {
            i = i + 1;
        }
        proof {
            if i < self.entries@.len() {
                assert forall|j: int| i <= j < self.entries@.len() implies self.entries@[j].id >= id by {
                    if j > i {
                        assert(self.entries@[i as int].id < self.entries@[j].id);
                    }
                }
            }
        }
        i
    }

    /// Record a new connection under the next id, and return that id.
    /// The row stays until [`Self::remove`] is called with the id.
    pub fn register(&mut self, peer: SocketAddress, target: String, isolation: Option<String>, now: u64) -> (id: u64)
        ensures
            id == old(self).spec_next_id(),
            final(self).spec_next_id() == old(self).spec_next_id().wrapping_add(1),
            final(self)@ == old(self)@.insert(
                id,
                StreamEntry { id, peer, target, isolation, started: now, to_upstream: 0, to_client: 0 },
            ),
            final(self).spec_issued() == old(self).spec_issued() + 1,
            id as int == old(self).spec_issued() % id_space(),
            old(self).spec_issued() < id_space() ==> id == old(self).spec_issued() && !old(self)@.contains_key(id),
            old(self).ids_fresh() ==> !old(self)@.contains_key(id),
            old(self).ids_fresh() && old(self).spec_next_id() < u64::MAX ==> final(self).ids_fresh(),
    {
        proof {
            use_type_invariant(&*self);
            if self.issued@ < id_space() {
                vstd::arithmetic::div_mod::lemma_small_mod(self.issued@, id_space());
                assert forall|k: u64| self@.contains_key(k) implies k < self.spec_next_id() by {
                    let i = choose|i: int| 0 <= i < self.entries@.len() && self.entries@[i].id == k;
                    assert(self.entries@[i].id < self.issued@);
                }
            }
        }
        let id = self.next_id;
        let ghost issued = self.issued@;
        let e = StreamEntry { id, peer, target, isolation, started: now, to_upstream: 0, to_client: 0 };
        let pos = self.position(id);
        let ghost rows = self.entries@;
        let mut entries: Vec<StreamEntry> = Vec::new();
        std::mem::swap(&mut entries, &mut self.entries);
        if pos < entries.len() && entries[pos].id == id {
            entries.set(pos, e);
            proof {
                lemma_map_update(rows, pos as int, e);
            }
        } else {
            entries.insert(pos, e);
            proof {
                lemma_map_insert(rows, pos as int, e);
            }
        }
        proof {
            lemma_next_id(issued, id);
            if issued + 1 < id_space() {
                vstd::arithmetic::div_mod::lemma_small_mod(issued, id_space());
                assert forall|i: int| 0 <= i < entries@.len() implies #[trigger] entries@[i].id < issued + 1 by {
                    let k = entries@[i].id;
                    lemma_map_at(entries@, i);
                    if k != id {
                        assert(rows_map(rows).contains_key(k));
                        let j = choose|j: int| 0 <= j < rows.len() && rows[j].id == k;
                        assert(rows[j].id < issued);
                    }
                }
            }
        }
        *self = StreamRegistry { entries, next_id: id.wrapping_add(1), issued: Ghost(issued + 1) };
        proof {
            if old(self).ids_fresh() && id < u64::MAX {
                assert(self.spec_next_id() == id + 1);
                assert forall|k: u64| self@.contains_key(k) implies k < self.spec_next_id() by {
                    if k != id {
                        assert(old(self)@.contains_key(k));
                    }
                }
            }
        }
        id
    }

    /// Drop the row with this id, if there is one.
    pub fn remove(&mut self, id: u64)
        ensures
            final(self).spec_next_id() == old(self).spec_next_id(),
            final(self)@ == old(self)@.remove(id),
            final(self).spec_issued() == old(self).spec_issued(),
            old(self).ids_fresh() ==> final(self).ids_fresh(),
    {
        proof {
            use_type_invariant(&*self);
        }
        let pos = self.position(id);
        let ghost rows = self.entries@;
        if pos < self.entries.len() && self.entries[pos].id == id {
            let mut entries: Vec<StreamEntry> = Vec::new();
            std::mem::swap(&mut entries, &mut self.entries);
            entries.remove(pos);
            proof {
                lemma_map_remove(rows, pos as int);
                assert forall|i: int| 0 <= i < entries@.len() implies #[trigger] entries@[i].id == (if i < pos {
                    rows[i]
                } else {
                    rows[i + 1]
                }).id by {}
            }
            self.entries = entries;
        } else {
            proof {
                assert(!has_id(rows, id)) by {
                    if has_id(rows, id) {
                        let i = choose|i: int| 0 <= i < rows.len() && rows[i].id == id;
                        if i >= pos {
                            if i > pos {
                                assert(rows[pos as int].id < rows[i].id);
                            }
                        }
                    }
                }
                assert(self@ =~= old(self)@.remove(id));
            }
        }
        proof {
            assert forall|k: u64| self@.contains_key(k) implies old(self)@.contains_key(k) by {}
        }
    }

    /// Number of live connections.
    pub fn len(&self) -> (n: usize)
        ensures
            n == self.rows().len(),
            n == self@.dom().len(),
    {
        proof {
            use_type_invariant(self);
            lemma_rows_len(self.entries@);
        }
        self.entries.len()
    }

    /// True when no connection is being proxied.
    pub fn is_empty(&self) -> (b: bool)
        ensures
            b == (self.rows().len() == 0),
            b == (self@.dom().len() == 0),
    {
        self.len() == 0
    }

    /// Every live connection as seen at `now`, ordered by id.
    pub fn snapshot(&self, now: u64) -> (out: Vec<StreamSnapshot>)
        ensures
            out@.len() == self.rows().len(),
            forall|i: int| 0 <= i < out@.len() ==> snapshot_of(#[trigger] out@[i], self.rows()[i], now),
            forall|i: int, j: int| 0 <= i < j < out@.len() ==> out@[i].id < out@[j].id,
            out@.len() == self@.dom().len(),
            forall|i: int|
                0 <= i < out@.len() ==> self@.contains_key(#[trigger] out@[i].id) && snapshot_of(
                    out@[i],
                    self@[out@[i].id],
                    now,
                ),
            forall|k: u64| self@.contains_key(k) ==> exists|i: int| 0 <= i < out@.len() && #[trigger] out@[i].id == k,
    {
        proof {
            use_type_invariant(&*self);
            lemma_rows_len(self.entries@);
        }
        let mut out: Vec<StreamSnapshot> = Vec::new();
        let mut i: usize = 0;
        while i < self.entries.len()
            invariant
                i <= self.entries@.len(),
                out@.len() == i,
                forall|j: int| 0 <= j < i ==> snapshot_of(#[trigger] out@[j], self.entries@[j], now),
            decreases self.entries@.len() - i,
        {
            let e = &self.entries[i];
            let peer = if e.peer.is_unspecified() {
                let mut s = String::new();
                push_str(&mut s, "local");
                s
            } else {
                e.peer.to_text()
            };
            let age = now.saturating_sub(e.started) / NANOS_PER_SEC;
            out.push(
                StreamSnapshot {
                    id: e.id,
                    peer,
                    target: e.target.clone(),
                    isolation: clone_opt(&e.isolation),
                    age_secs: age,
                    bytes_to_upstream: e.to_upstream,
                    bytes_to_client: e.to_client,
                },
            );
            i = i + 1;
        }
        proof {
            let rows = self.entries@;
            assert forall|i: int| 0 <= i < out@.len() implies self@.contains_key(#[trigger] out@[i].id) && snapshot_of(
                out@[i],
                self@[out@[i].id],
                now,
            ) by {
                lemma_map_at(rows, i);
            }
            assert forall|k: u64| self@.contains_key(k) implies exists|i: int| 0 <= i < out@.len() && #[trigger] out@[i].id == k by {
                let i = choose|i: int| 0 <= i < rows.len() && rows[i].id == k;
                assert(out@[i].id == k);
            }
        }
        out
    }

    fn add_bytes(&mut self, id: u64, n: u64, upstream: bool)
        ensures
            final(self).spec_next_id() == old(self).spec_next_id(),
            final(self).spec_issued() == old(self).spec_issued(),
            final(self)@ == (if old(self)@.contains_key(id) {
                let e = old(self)@[id];
                old(self)@.insert(
                    id,
                    if upstream {
                        StreamEntry { to_upstream: e.to_upstream.wrapping_add(n), ..e }
                    } else {
                        StreamEntry { to_client: e.to_client.wrapping_add(n), ..e }
                    },
                )
            } else {
                old(self)@
            }),
    {
        proof {
            use_type_invariant(&*self);
        }
        let pos = self.position(id);
        let ghost rows = self.entries@;
        if pos < self.entries.len() && self.entries[pos].id == id {
            let mut entries: Vec<StreamEntry> = Vec::new();
            std::mem::swap(&mut entries, &mut self.entries);
            let mut e = entries.remove(pos);
            if upstream {
                e.to_upstream = e.to_upstream.wrapping_add(n);
            } else {
                e.to_client = e.to_client.wrapping_add(n);
            }
            entries.insert(pos, e);
            proof {
                assert(entries@ =~= rows.update(pos as int, e));
                assert forall|i: int| 0 <= i < entries@.len() implies #[trigger] entries@[i].id == rows[i].id by {}
                lemma_map_at(rows, pos as int);
                lemma_map_update(rows, pos as int, e);
            }
            self.entries = entries;
        } else {
            proof {
                assert(!has_id(rows, id)) by {
                    if has_id(rows, id) {
                        let i = choose|i: int| 0 <= i < rows.len() && rows[i].id == id;
                        if i > pos {
                            assert(rows[pos as int].id < rows[i].id);
                        }
                    }
                }
            }
        }
    }

    /// `n` more bytes went from the client of connection `id` towards Tor.
    pub fn add_to_upstream(&mut self, id: u64, n: u64)
        ensures
            final(self).spec_next_id() == old(self).spec_next_id(),
            final(self).spec_issued() == old(self).spec_issued(),
            final(self)@ == (if old(self)@.contains_key(id) {
                old(self)@.insert(
                    id,
                    StreamEntry { to_upstream: old(self)@[id].to_upstream.wrapping_add(n), ..old(self)@[id] },
                )
            } else {
                old(self)@
            }),
    {
        self.add_bytes(id, n, true);
    }

    /// `n` more bytes came back from Tor to the client of connection `id`.
    pub fn add_to_client(&mut self, id: u64, n: u64)
        ensures
            final(self).spec_next_id() == old(self).spec_next_id(),
            final(self).spec_issued() == old(self).spec_issued(),
            final(self)@ == (if old(self)@.contains_key(id) {
                old(self)@.insert(
                    id,
                    StreamEntry { to_client: old(self)@[id].to_client.wrapping_add(n), ..old(self)@[id] },
                )
            } else {
                old(self)@
            }),
    {
        self.add_bytes(id, n, false);
    }
}

} // verus!
