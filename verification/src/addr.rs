//! Socket addresses as plain values, and their textual forms.

use vstd::prelude::*;
use crate::text::{decimal, hex, push_char, push_decimal, push_hex};

verus! {

/// An IP socket address: what the listener reports for a peer.
#[derive(Clone, Copy, Debug)]
pub enum SocketAddress {
    V4 { ip: [u8; 4], port: u16 },
    V6 { ip: [u8; 16], port: u16, flowinfo: u32, scope_id: u32 },
}

/// Dotted-decimal text of a four-octet IPv4 address (`a.b.c.d`).
pub open spec fn ipv4_text(o: Seq<u8>) -> Seq<char> {
    decimal(o[0] as nat) + seq!['.'] + decimal(o[1] as nat) + seq!['.'] + decimal(o[2] as nat)
        + seq!['.'] + decimal(o[3] as nat)
}

/// The `i`-th 16-bit group of a sixteen-octet IPv6 address.
pub open spec fn group(o: Seq<u8>, i: int) -> nat {
    (o[2 * i] as nat) * 256 + (o[2 * i + 1] as nat)
}

/// Number of consecutive zero groups starting at group `i`.
pub open spec fn zero_run(o: Seq<u8>, i: int) -> nat
    decreases 8 - i,
{
    if 0 <= i < 8 && group(o, i) == 0 {
        1 + zero_run(o, i + 1)
    } else {
        0
    }
}

/// The longest run of zero groups at or after group `i`, as
/// `(start, length)`; of equally long runs the first one; `(0, 0)` when
/// there is none.
pub open spec fn longest_zero_run(o: Seq<u8>, i: int) -> (int, nat)
    decreases 8 - i,
{
    if i < 0 || i >= 8 {
        (0, 0)
    } else {
        let rest = longest_zero_run(o, i + 1);
        let z = zero_run(o, i);
        if z > 0 && z >= rest.1 {
            (i, z)
        } else {
            rest
        }
    }
}

/// Groups `a..b` in lowercase hex, separated by `:`.
pub open spec fn hex_groups(o: Seq<u8>, a: int, b: int) -> Seq<char>
    decreases b - a,
{
    if b <= a {
        Seq::empty()
    } else if b == a + 1 {
        hex(group(o, a))
    } else {
        hex_groups(o, a, b - 1) + seq![':'] + hex(group(o, b - 1))
    }
}

/// The address is IPv4-mapped (`::ffff:a.b.c.d`).
pub open spec fn is_ipv4_mapped(o: Seq<u8>) -> bool {
    &&& forall|i: int| 0 <= i < 10 ==> o[i] == 0u8
    &&& o[10] == 0xffu8
    &&& o[11] == 0xffu8
}

/// Text of a sixteen-octet IPv6 address as `std`'s `Ipv6Addr` displays
/// it: an IPv4-mapped address as `::ffff:a.b.c.d`; otherwise the eight
/// groups in lowercase hex, with the first longest run of two or more
/// zero groups written `::`.
pub open spec fn ipv6_text(o: Seq<u8>) -> Seq<char> {
    if is_ipv4_mapped(o) {
        seq![':', ':', 'f', 'f', 'f', 'f', ':'] + ipv4_text(o.subrange(12, 16))
    } else {
        let (start, len) = longest_zero_run(o, 0);
        if len > 1 {
            hex_groups(o, 0, start) + seq![':', ':'] + hex_groups(o, start + len, 8)
        } else {
            hex_groups(o, 0, 8)
        }
    }
}

proof fn lemma_zero_run_bound(o: Seq<u8>, i: int)
    requires
        0 <= i <= 8,
    ensures
        zero_run(o, i) <= 8 - i,
    decreases 8 - i,
{
    if i < 8 {
        lemma_zero_run_bound(o, i + 1);
    }
}

proof fn lemma_longest_bound(o: Seq<u8>, i: int)
    requires
        0 <= i <= 8,
    ensures
        longest_zero_run(o, i).1 == 0 || (i <= longest_zero_run(o, i).0 && longest_zero_run(o, i).0
            + longest_zero_run(o, i).1 <= 8),
    decreases 8 - i,
{
    if i < 8 {
        lemma_longest_bound(o, i + 1);
        lemma_zero_run_bound(o, i);
    }
}

/// Appends groups `a..b` of `o` in lowercase hex, `:`-separated.
fn push_hex_groups(out: &mut String, o: &[u8; 16], a: usize, b: usize)
    requires
        a <= b <= 8,
    ensures
        final(out)@ == old(out)@ + hex_groups(o@, a as int, b as int),
{
    let ghost start = out@;
    let mut i = a;
    while i < b
        invariant
            a <= i <= b <= 8,
            out@ == start + hex_groups(o@, a as int, i as int),
        decreases b - i,
    {
        if i > a {
            push_char(out, ':');
        }
        let g = (o[2 * i] as u64) * 256 + (o[2 * i + 1] as u64);
        push_hex(out, g);
        assert(out@ =~= start + hex_groups(o@, a as int, (i + 1) as int));
        i = i + 1;
    }
}

/// Appends the `Ipv6Addr` display text of the octets `o` to `out`.
pub fn push_ipv6(out: &mut String, o: &[u8; 16])
    ensures
        final(out)@ == old(out)@ + ipv6_text(o@),
{
    let ghost start = out@;
    let mut mapped = o[10] == 0xff && o[11] == 0xff;
    let mut k: usize = 0;
    while k < 10
        invariant
            k <= 10,
            mapped ==> forall|j: int| 0 <= j < k ==> o@[j] == 0u8,
            mapped ==> o@[10] == 0xffu8 && o@[11] == 0xffu8,
            !mapped ==> !is_ipv4_mapped(o@),
        decreases 10 - k,
    {
        if o[k] != 0 {
            mapped = false;
        }
        k = k + 1;
    }
    if mapped {
        push_char(out, ':');
        push_char(out, ':');
        push_char(out, 'f');
        push_char(out, 'f');
        push_char(out, 'f');
        push_char(out, 'f');
        push_char(out, ':');
        let v4: [u8; 4] = [o[12], o[13], o[14], o[15]];
        assert(v4@ =~= o@.subrange(12, 16));
        push_ipv4(out, &v4);
        assert(out@ =~= start + ipv6_text(o@));
        return;
    }
    // Longest run of zero groups, scanning from the last group back.
    let mut i: usize = 8;
    let mut run: usize = 0;
    let mut best_start: usize = 0;
    let mut best_len: usize = 0;
    while i > 0
        invariant
            i <= 8,
            run == zero_run(o@, i as int),
            (best_start as int, best_len as nat) == longest_zero_run(o@, i as int),
            run <= 8 - i,
        decreases i,
    {
        i = i - 1;
        let g = (o[2 * i] as u64) * 256 + (o[2 * i + 1] as u64);
        if g == 0 {
            run = run + 1;
        } else {
            run = 0;
        }
        if run > 0 && run >= best_len {
            best_start = i;
            best_len = run;
        }
    }
    proof {
        lemma_longest_bound(o@, 0);
    }
    if best_len > 1 {
        push_hex_groups(out, o, 0, best_start);
        push_char(out, ':');
        push_char(out, ':');
        push_hex_groups(out, o, best_start + best_len, 8);
    } else {
        push_hex_groups(out, o, 0, 8);
    }
    assert(out@ =~= start + ipv6_text(o@));
}

/// Appends the dotted-decimal text of `o` to `out`.
pub fn push_ipv4(out: &mut String, o: &[u8; 4])
    ensures
        final(out)@ == old(out)@ + ipv4_text(o@),
{
    let ghost start = out@;
    push_decimal(out, o[0] as u64);
    push_char(out, '.');
    push_decimal(out, o[1] as u64);
    push_char(out, '.');
    push_decimal(out, o[2] as u64);
    push_char(out, '.');
    push_decimal(out, o[3] as u64);
    assert(out@ =~= start + ipv4_text(o@));
}

fn all_zero(bytes: &[u8]) -> (b: bool)
    ensures
        b == (forall|i: int| 0 <= i < bytes@.len() ==> bytes@[i] == 0u8),
{
    let mut i: usize = 0;
    while i < bytes.len()
        invariant
            i <= bytes@.len(),
            forall|j: int| 0 <= j < i ==> bytes@[j] == 0u8,
        decreases bytes@.len() - i,
    {
        if bytes[i] != 0 {
            assert(bytes@[i as int] != 0u8);
            return false;
        }
        i = i + 1;
    }
    true
}

impl SocketAddress {
    /// True for the unspecified address (`0.0.0.0` or `::`), whatever
    /// the port.
    pub open spec fn spec_is_unspecified(self) -> bool {
        match self {
            SocketAddress::V4 { ip, .. } => forall|i: int| 0 <= i < 4 ==> ip@[i] == 0u8,
            SocketAddress::V6 { ip, .. } => forall|i: int| 0 <= i < 16 ==> ip@[i] == 0u8,
        }
    }

    /// The `Display` text of the address: `a.b.c.d:port`, `[v6]:port`, or
    /// `[v6%scope]:port` when the scope id is not zero.
    pub open spec fn text(self) -> Seq<char> {
        match self {
            SocketAddress::V4 { ip, port } => ipv4_text(ip@) + seq![':'] + decimal(port as nat),
            SocketAddress::V6 { ip, port, scope_id, .. } => seq!['['] + ipv6_text(ip@) + (if scope_id
                == 0 {
                Seq::empty()
            } else {
                seq!['%'] + decimal(scope_id as nat)
            }) + seq![']', ':'] + decimal(port as nat),
        }
    }

    /// The IP part is the unspecified address.
    pub fn is_unspecified(&self) -> (b: bool)
        ensures
            b == self.spec_is_unspecified(),
    {
        match self {
            SocketAddress::V4 { ip, .. } => all_zero(ip),
            SocketAddress::V6 { ip, .. } => all_zero(ip),
        }
    }

    /// The `Display` text of the address.
    pub fn to_text(&self) -> (s: String)
        ensures
            s@ == self.text(),
    {
        let mut s = String::new();
        match self {
            SocketAddress::V4 { ip, port } => {
                push_ipv4(&mut s, ip);
                push_char(&mut s, ':');
                push_decimal(&mut s, *port as u64);
            },
            SocketAddress::V6 { ip, port, scope_id, .. } => {
                push_char(&mut s, '[');
                push_ipv6(&mut s, ip);
                if *scope_id != 0 {
                    push_char(&mut s, '%');
                    push_decimal(&mut s, *scope_id as u64);
                }
                push_char(&mut s, ']');
                push_char(&mut s, ':');
                push_decimal(&mut s, *port as u64);
            },
        }
        assert(s@ =~= self.text());
        s
    }
}

} // verus!
