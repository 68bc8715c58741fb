//! The SOCKS5 handshake (RFC 1928, `CONNECT` only; RFC 1929
//! username/password) as a state machine that the I/O loop drives.
//!
//! The loop reads exactly the bytes the machine asks for, feeds them
//! in, writes back the reply bytes the machine returns and then does
//! what it says next: read more, open the Tor stream, or close.
//!
//! What the server does is fixed by [`handshake`]: given every byte the
//! client has sent so far, the bytes the server has written and what it
//! does next. `BIND` and `UDP ASSOCIATE` are refused with reply `0x07`;
//! an unknown address type with `0x08`; domain targets are handed on
//! verbatim, never resolved here. The username is the circuit-isolation
//! token, not a credential: any credentials are accepted.

use vstd::prelude::*;
use vstd::utf8::{decode_utf8, valid_utf8};
use crate::addr::{ipv4_text, ipv6_text, push_ipv4, push_ipv6, SocketAddress};
use crate::metrics::{count_event, CountEvent, Metrics};
use crate::streams::{id_space, StreamRegistry};
use crate::text::{decimal, opt_text, push_char, push_decimal, push_str};

verus! {

pub const SOCKS5: u8 = 0x05;
pub const METHOD_NOAUTH: u8 = 0x00;
pub const METHOD_USERPASS: u8 = 0x02;
pub const METHOD_NONE: u8 = 0xff;
pub const AUTH_USERPASS_VER: u8 = 0x01;
pub const CMD_CONNECT: u8 = 0x01;
pub const REP_SUCCESS: u8 = 0x00;
pub const REP_GENERAL_FAILURE: u8 = 0x01;
pub const REP_CMD_NOT_SUPPORTED: u8 = 0x07;
pub const REP_ATYP_NOT_SUPPORTED: u8 = 0x08;
pub const ATYP_IPV4: u8 = 0x01;
pub const ATYP_DOMAIN: u8 = 0x03;
pub const ATYP_IPV6: u8 = 0x04;

/// Why a SOCKS connection was closed.
#[derive(Clone, Copy, Debug, PartialEq, Eq, Structural)]
pub enum SocksError {
    /// The greeting's version byte is not 5.
    NotSocks5 { version: u8 },
    /// The client offered neither "no auth" nor username/password.
    NoAcceptableMethod,
    /// The RFC 1929 sub-negotiation version is not 1.
    BadAuthVersion { version: u8 },
    /// The RFC 1929 username is not UTF-8.
    UsernameNotUtf8,
    /// The request's version byte is not 5.
    BadRequestVersion { version: u8 },
    /// A command other than `CONNECT`.
    UnsupportedCommand { command: u8 },
    /// An address type other than IPv4, domain name or IPv6.
    UnsupportedAddressType { atyp: u8 },
    /// The requested domain name is not UTF-8.
    DomainNotUtf8,
    /// The client stream ended or failed while the target was read.
    TargetReadFailed,
    /// The client stream ended or failed before the request was read.
    ReadFailed,
}

/// A complete `CONNECT` request: where to, and the isolation token.
pub struct ConnectRequest {
    /// The target host: dotted IPv4, IPv6 text, or the domain verbatim.
    pub host: String,
    pub port: u16,
    /// The RFC 1929 username, when the client authenticated.
    pub user: Option<String>,
}

/// What the I/O loop does next.
pub enum Next {
    /// Read exactly this many more bytes from the client and feed them.
    Read(usize),
    /// Open the anonymised stream for this request.
    Connect(ConnectRequest),
    /// Close the connection.
    Close(SocksError),
}

/// The bytes to write to the client now, then what to do next.
pub struct Step {
    pub reply: Vec<u8>,
    pub next: Next,
}

/// What the server does next, as a mathematical value.
pub enum Stage {
    /// Needs `count` more bytes; `target` is true while the request's
    /// destination is being read (a failed read then gets reply `0x08`).
    Read { count: nat, target: bool },
    Connect { host: Seq<char>, port: u16, user: Option<Seq<char>> },
    Close(SocksError),
}

/// Everything the server has written, and what it does next.
pub struct Outcome {
    pub written: Seq<u8>,
    pub stage: Stage,
}

/// A SOCKS5 reply with code `rep`. The bound address is always
/// `0.0.0.0:0`: tord has no meaningful bound address to advertise.
pub open spec fn reply_bytes(rep: u8) -> Seq<u8> {
    seq![SOCKS5, rep, 0x00u8, ATYP_IPV4, 0u8, 0u8, 0u8, 0u8, 0u8, 0u8]
}

pub open spec fn need(written: Seq<u8>, count: int, target: bool) -> Outcome {
    Outcome { written, stage: Stage::Read { count: count as nat, target } }
}

pub open spec fn close(written: Seq<u8>, e: SocksError) -> Outcome {
    Outcome { written, stage: Stage::Close(e) }
}

/// What the server has done once it has read exactly `inp` from the
/// client (RFC 1928 §3–§4, RFC 1929).
pub open spec fn handshake(inp: Seq<u8>) -> Outcome {
    if inp.len() < 2 {
        need(Seq::empty(), 2 - inp.len(), false)
    } else if inp[0] != SOCKS5 {
        close(Seq::empty(), SocksError::NotSocks5 { version: inp[0] })
    } else {
        let m_end = 2 + inp[1];
        if inp.len() < m_end {
            need(Seq::empty(), m_end - inp.len(), false)
        } else if inp.subrange(2, m_end).contains(METHOD_USERPASS) {
            userpass_stage(inp, m_end)
        } else if inp.subrange(2, m_end).contains(METHOD_NOAUTH) {
            request_stage(inp, m_end, seq![SOCKS5, METHOD_NOAUTH], None)
        } else {
            close(seq![SOCKS5, METHOD_NONE], SocksError::NoAcceptableMethod)
        }
    }
}

/// Username/password chosen (`[5, 2]` written): the RFC 1929
/// sub-negotiation starts at `p`. Any password is accepted.
pub open spec fn userpass_stage(inp: Seq<u8>, p: int) -> Outcome {
    let w = seq![SOCKS5, METHOD_USERPASS];
    if inp.len() < p + 1 {
        need(w, p + 1 - inp.len(), false)
    } else if inp[p] != AUTH_USERPASS_VER {
        close(w, SocksError::BadAuthVersion { version: inp[p] })
    } else if inp.len() < p + 2 {
        need(w, p + 2 - inp.len(), false)
    } else {
        let u_end = p + 2 + inp[p + 1];
        if inp.len() < u_end + 1 {
            need(w, u_end + 1 - inp.len(), false)
        } else {
            let p_end = u_end + 1 + inp[u_end];
            if inp.len() < p_end {
                need(w, p_end - inp.len(), false)
            } else if !valid_utf8(inp.subrange(p + 2, u_end)) {
                close(w, SocksError::UsernameNotUtf8)
            } else {
                request_stage(
                    inp,
                    p_end,
                    w + seq![AUTH_USERPASS_VER, REP_SUCCESS],
                    Some(decode_utf8(inp.subrange(p + 2, u_end))),
                )
            }
        }
    }
}

/// The four-byte request header starts at `p`; `w` is written so far.
pub open spec fn request_stage(inp: Seq<u8>, p: int, w: Seq<u8>, user: Option<Seq<char>>) -> Outcome {
    if inp.len() < p + 4 {
        need(w, p + 4 - inp.len(), false)
    } else if inp[p] != SOCKS5 {
        close(w, SocksError::BadRequestVersion { version: inp[p] })
    } else if inp[p + 1] != CMD_CONNECT {
        close(w + reply_bytes(REP_CMD_NOT_SUPPORTED), SocksError::UnsupportedCommand { command: inp[p + 1] })
    } else {
        target_stage(inp, p + 4, w, user, inp[p + 3])
    }
}

/// The destination address of type `atyp` starts at `p`.
pub open spec fn target_stage(inp: Seq<u8>, p: int, w: Seq<u8>, user: Option<Seq<char>>, atyp: u8) -> Outcome {
    if atyp == ATYP_IPV4 {
        if inp.len() < p + 4 {
            need(w, p + 4 - inp.len(), true)
        } else {
            port_stage(inp, p + 4, w, user, ipv4_text(inp.subrange(p, p + 4)))
        }
    } else if atyp == ATYP_IPV6 {
        if inp.len() < p + 16 {
            need(w, p + 16 - inp.len(), true)
        } else {
            port_stage(inp, p + 16, w, user, ipv6_text(inp.subrange(p, p + 16)))
        }
    } else if atyp == ATYP_DOMAIN {
        if inp.len() < p + 1 {
            need(w, p + 1 - inp.len(), true)
        } else {
            let d_end = p + 1 + inp[p];
            if inp.len() < d_end {
                need(w, d_end - inp.len(), true)
            } else if !valid_utf8(inp.subrange(p + 1, d_end)) {
                close(w + reply_bytes(REP_ATYP_NOT_SUPPORTED), SocksError::DomainNotUtf8)
            } else {
                port_stage(inp, d_end, w, user, decode_utf8(inp.subrange(p + 1, d_end)))
            }
        }
    } else {
        close(w + reply_bytes(REP_ATYP_NOT_SUPPORTED), SocksError::UnsupportedAddressType { atyp })
    }
}

/// The big-endian port starts at `p`; `host` is the decoded target.
pub open spec fn port_stage(inp: Seq<u8>, p: int, w: Seq<u8>, user: Option<Seq<char>>, host: Seq<char>) -> Outcome {
    if inp.len() < p + 2 {
        need(w, p + 2 - inp.len(), true)
    } else {
        Outcome {
            written: w,
            stage: Stage::Connect { host, port: (inp[p] as int * 256 + inp[p + 1] as int) as u16, user },
        }
    }
}

/// What the server does when reading from the client fails (or the
/// client closes) while it waits in outcome `o`: while reading the
/// target it replies `0x08`; otherwise it closes without a reply.
pub open spec fn read_failure(o: Outcome) -> Outcome {
    match o.stage {
        Stage::Read { target, .. } => if target {
            close(o.written + reply_bytes(REP_ATYP_NOT_SUPPORTED), SocksError::TargetReadFailed)
        } else {
            close(o.written, SocksError::ReadFailed)
        },
        _ => o,
    }
}

/// The mathematical stage that `next` stands for.
pub open spec fn stage_of(next: &Next, target: bool) -> Stage {
    match next {
        Next::Read(k) => Stage::Read { count: *k as nat, target },
        Next::Connect(r) => Stage::Connect { host: r.host@, port: r.port, user: opt_text(r.user) },
        Next::Close(e) => Stage::Close(*e),
    }
}

/// `written` and `next` (with the target flag) are exactly `o`.
pub open spec fn matches_outcome(written: Seq<u8>, next: &Next, target: bool, o: Outcome) -> bool {
    written == o.written && stage_of(next, target) == o.stage
}

/// `String::from_utf8`: `Some` exactly when the bytes are valid UTF-8,
/// and then the characters they encode.
#[verifier::external_body]
fn utf8_string(bytes: Vec<u8>) -> (r: Option<String>)
    ensures
        r is Some <==> valid_utf8(bytes@),
        r matches Some(s) ==> s@ == decode_utf8(bytes@),
{
    String::from_utf8(bytes).ok()
}

fn contains_byte(inp: &[u8], a: usize, b: usize, x: u8) -> (r: bool)
    requires
        a <= b <= inp@.len(),
    ensures
        r == inp@.subrange(a as int, b as int).contains(x),
{
    let mut i = a;
    while i < b
        invariant
            a <= i <= b <= inp@.len(),
            forall|j: int| a <= j < i ==> inp@[j] != x,
        decreases b - i,
    {
        if inp[i] == x {
            assert(inp@.subrange(a as int, b as int)[i - a] == x);
            return true;
        }
        i = i + 1;
    }
    assert forall|j: int| 0 <= j < b - a implies inp@.subrange(a as int, b as int)[j] != x by {
        assert(inp@.subrange(a as int, b as int)[j] == inp@[a + j]);
    }
    false
}

fn copy_range(inp: &[u8], a: usize, b: usize) -> (v: Vec<u8>)
    requires
        a <= b <= inp@.len(),
    ensures
        v@ == inp@.subrange(a as int, b as int),
{
    let mut v: Vec<u8> = Vec::new();
    let mut i = a;
    while i < b
        invariant
            a <= i <= b <= inp@.len(),
            v@ == inp@.subrange(a as int, i as int),
        decreases b - i,
    {
        v.push(inp[i]);
        assert(inp@.subrange(a as int, (i + 1) as int) =~= inp@.subrange(a as int, i as int).push(inp@[i as int]));
        i = i + 1;
    }
    v
}

/// The ten reply bytes for code `rep`.
pub fn reply(rep: u8) -> (v: Vec<u8>)
    ensures
        v@ == reply_bytes(rep),
{
    let v = vec![SOCKS5, rep, 0x00, ATYP_IPV4, 0, 0, 0, 0, 0, 0];
    assert(v@ =~= reply_bytes(rep));
    v
}

fn append_reply(w: &mut Vec<u8>, rep: u8)
    ensures
        final(w)@ == old(w)@ + reply_bytes(rep),
{
    let mut r = reply(rep);
    w.append(&mut r);
}

fn eval_port(inp: &[u8], p: usize, w: Vec<u8>, user: Option<String>, host: String) -> (r: (Vec<u8>, Next, bool))
    requires
        p <= inp@.len(),
    ensures
        matches_outcome(r.0@, &r.1, r.2, port_stage(inp@, p as int, w@, opt_text(user), host@)),
{
    let left = inp.len() - p;
    if left < 2 {
        (w, Next::Read(2 - left), true)
    } else {
        let port = (inp[p] as u16) * 256 + (inp[p + 1] as u16);
        (w, Next::Connect(ConnectRequest { host, port, user }), false)
    }
}

fn eval_target(inp: &[u8], p: usize, w: Vec<u8>, user: Option<String>, atyp: u8) -> (r: (Vec<u8>, Next, bool))
    requires
        p <= inp@.len(),
    ensures
        matches_outcome(r.0@, &r.1, r.2, target_stage(inp@, p as int, w@, opt_text(user), atyp)),
{
    let left = inp.len() - p;
    if atyp == ATYP_IPV4 {
        if left < 4 {
            (w, Next::Read(4 - left), true)
        } else {
            let octets: [u8; 4] = [inp[p], inp[p + 1], inp[p + 2], inp[p + 3]];
            assert(octets@ =~= inp@.subrange(p as int, p + 4));
            let mut host = String::new();
            push_ipv4(&mut host, &octets);
            assert(host@ =~= ipv4_text(inp@.subrange(p as int, p + 4)));
            eval_port(inp, p + 4, w, user, host)
        }
    } else if atyp == ATYP_IPV6 {
        if left < 16 {
            (w, Next::Read(16 - left), true)
        } else {
            let octets: [u8; 16] = [
                inp[p],
                inp[p + 1],
                inp[p + 2],
                inp[p + 3],
                inp[p + 4],
                inp[p + 5],
                inp[p + 6],
                inp[p + 7],
                inp[p + 8],
                inp[p + 9],
                inp[p + 10],
                inp[p + 11],
                inp[p + 12],
                inp[p + 13],
                inp[p + 14],
                inp[p + 15],
            ];
            assert(octets@ =~= inp@.subrange(p as int, p + 16));
            let mut host = String::new();
            push_ipv6(&mut host, &octets);
            assert(host@ =~= ipv6_text(inp@.subrange(p as int, p + 16)));
            eval_port(inp, p + 16, w, user, host)
        }
    } else if atyp == ATYP_DOMAIN {
        if left < 1 {
            (w, Next::Read(1), true)
        } else {
            let dlen = inp[p] as usize;
            if left - 1 < dlen {
                (w, Next::Read(dlen - (left - 1)), true)
            } else {
                let name = copy_range(inp, p + 1, p + 1 + dlen);
                match utf8_string(name) {
                    Some(host) => eval_port(inp, p + 1 + dlen, w, user, host),
                    None => {
                        let mut w = w;
                        append_reply(&mut w, REP_ATYP_NOT_SUPPORTED);
                        (w, Next::Close(SocksError::DomainNotUtf8), false)
                    },
                }
            }
        }
    } else {
        let mut w = w;
        append_reply(&mut w, REP_ATYP_NOT_SUPPORTED);
        (w, Next::Close(SocksError::UnsupportedAddressType { atyp }), false)
    }
}

fn eval_request(inp: &[u8], p: usize, w: Vec<u8>, user: Option<String>) -> (r: (Vec<u8>, Next, bool))
    requires
        p <= inp@.len(),
    ensures
        matches_outcome(r.0@, &r.1, r.2, request_stage(inp@, p as int, w@, opt_text(user))),
{
    let left = inp.len() - p;
    if left < 4 {
        (w, Next::Read(4 - left), false)
    } else if inp[p] != SOCKS5 {
        (w, Next::Close(SocksError::BadRequestVersion { version: inp[p] }), false)
    } else if inp[p + 1] != CMD_CONNECT {
        let mut w = w;
        append_reply(&mut w, REP_CMD_NOT_SUPPORTED);
        (w, Next::Close(SocksError::UnsupportedCommand { command: inp[p + 1] }), false)
    } else {
        eval_target(inp, p + 4, w, user, inp[p + 3])
    }
}

fn eval_userpass(inp: &[u8], p: usize) -> (r: (Vec<u8>, Next, bool))
    requires
        p <= inp@.len(),
    ensures
        matches_outcome(r.0@, &r.1, r.2, userpass_stage(inp@, p as int)),
{
    let mut w: Vec<u8> = vec![SOCKS5, METHOD_USERPASS];
    assert(w@ =~= seq![SOCKS5, METHOD_USERPASS]);
    let left = inp.len() - p;
    if left < 1 {
        (w, Next::Read(1), false)
    } else if inp[p] != AUTH_USERPASS_VER {
        (w, Next::Close(SocksError::BadAuthVersion { version: inp[p] }), false)
    } else if left < 2 {
        (w, Next::Read(1), false)
    } else {
        let ulen = inp[p + 1] as usize;
        // bytes still to come before the password length byte is in
        if left - 2 < ulen + 1 {
            (w, Next::Read(ulen + 1 - (left - 2)), false)
        } else {
            let u_end = p + 2 + ulen;
            let plen = inp[u_end] as usize;
            if left - 3 - ulen < plen {
                (w, Next::Read(plen - (left - 3 - ulen)), false)
            } else {
                let p_end = u_end + 1 + plen;
                let name = copy_range(inp, p + 2, u_end);
                match utf8_string(name) {
                    Some(user) => {
                        w.push(AUTH_USERPASS_VER);
                        w.push(REP_SUCCESS);
                        assert(w@ =~= seq![SOCKS5, METHOD_USERPASS] + seq![AUTH_USERPASS_VER, REP_SUCCESS]);
                        eval_request(inp, p_end, w, Some(user))
                    },
                    None => (w, Next::Close(SocksError::UsernameNotUtf8), false),
                }
            }
        }
    }
}

/// What the server does once it has read exactly `inp`: the bytes it
/// has written, what it does next, and whether it is reading the target.
pub fn evaluate(inp: &[u8]) -> (r: (Vec<u8>, Next, bool))
    ensures
        matches_outcome(r.0@, &r.1, r.2, handshake(inp@)),
{
    let len = inp.len();
    if len < 2 {
        (Vec::new(), Next::Read(2 - len), false)
    } else if inp[0] != SOCKS5 {
        (Vec::new(), Next::Close(SocksError::NotSocks5 { version: inp[0] }), false)
    } else {
        let n = inp[1] as usize;
        if len - 2 < n {
            (Vec::new(), Next::Read(n - (len - 2)), false)
        } else if contains_byte(inp, 2, 2 + n, METHOD_USERPASS) {
            eval_userpass(inp, 2 + n)
        } else if contains_byte(inp, 2, 2 + n, METHOD_NOAUTH) {
            let w: Vec<u8> = vec![SOCKS5, METHOD_NOAUTH];
            assert(w@ =~= seq![SOCKS5, METHOD_NOAUTH]);
            eval_request(inp, 2 + n, w, None)
        } else {
            let w: Vec<u8> = vec![SOCKS5, METHOD_NONE];
            assert(w@ =~= seq![SOCKS5, METHOD_NONE]);
            (w, Next::Close(SocksError::NoAcceptableMethod), false)
        }
    }
}

proof fn lemma_target_written(inp: Seq<u8>, p: int, w: Seq<u8>, user: Option<Seq<char>>, atyp: u8)
    ensures
        w.is_prefix_of(target_stage(inp, p, w, user, atyp).written),
        target_stage(inp, p, w, user, atyp).stage is Read ==> target_stage(inp, p, w, user, atyp).written
            == w,
{
    assert(w.is_prefix_of(w + reply_bytes(REP_ATYP_NOT_SUPPORTED)));
}

proof fn lemma_request_written(inp: Seq<u8>, p: int, w: Seq<u8>, user: Option<Seq<char>>)
    ensures
        w.is_prefix_of(request_stage(inp, p, w, user).written),
        request_stage(inp, p, w, user).stage is Read ==> request_stage(inp, p, w, user).written == w,
{
    assert(w.is_prefix_of(w + reply_bytes(REP_CMD_NOT_SUPPORTED)));
    if inp.len() >= p + 4 {
        lemma_target_written(inp, p + 4, w, user, inp[p + 3]);
    }
}

proof fn lemma_agree(a: Seq<u8>, b: Seq<u8>)
    ensures
        forall|i: int| 0 <= i < a.len() ==> #[trigger] (a + b)[i] == a[i],
        forall|x: int, y: int|
            0 <= x <= y <= a.len() ==> #[trigger] (a + b).subrange(x, y) == a.subrange(x, y),
{
    assert forall|x: int, y: int| 0 <= x <= y <= a.len() implies #[trigger] (a + b).subrange(x, y)
        == a.subrange(x, y) by {
        assert((a + b).subrange(x, y) =~= a.subrange(x, y));
    }
}

proof fn lemma_userpass_grows(a: Seq<u8>, b: Seq<u8>, p: int)
    requires
        0 <= p <= a.len(),
        userpass_stage(a, p).stage is Read,
    ensures
        userpass_stage(a, p).written.is_prefix_of(userpass_stage(a + b, p).written),
{
    let c = a + b;
    let w = seq![SOCKS5, METHOD_USERPASS];
    lemma_agree(a, b);
    if c.len() >= p + 2 && c[p] == AUTH_USERPASS_VER {
        let u_end = p + 2 + c[p + 1];
        if c.len() >= u_end + 1 {
            let p_end = u_end + 1 + c[u_end];
            if c.len() >= p_end && valid_utf8(c.subrange(p + 2, u_end)) {
                let w2 = w + seq![AUTH_USERPASS_VER, REP_SUCCESS];
                let user = Some(decode_utf8(c.subrange(p + 2, u_end)));
                lemma_request_written(c, p_end, w2, user);
                assert(w.is_prefix_of(w2));
                if a.len() >= p_end {
                    assert(a.subrange(p + 2, u_end) == c.subrange(p + 2, u_end));
                    lemma_request_written(a, p_end, w2, user);
                }
            }
        }
    }
}

/// `CONNECT` is the only command served: a request with any other
/// command (`BIND`, `UDP ASSOCIATE`, ...) is answered with reply `0x07`
/// and the connection closes.
#[verifier::spinoff_prover]
#[verifier::rlimit(40)]
pub proof fn lemma_only_connect(inp: Seq<u8>, command: u8)
    requires
        handshake(inp).stage == Stage::Close(SocksError::UnsupportedCommand { command }),
    ensures
        command != CMD_CONNECT,
        handshake(inp).written.len() >= 10,
        handshake(inp).written.skip(handshake(inp).written.len() - 10) == reply_bytes(REP_CMD_NOT_SUPPORTED),
{
    let o = handshake(inp);
    assert forall|w: Seq<u8>| (w + reply_bytes(REP_CMD_NOT_SUPPORTED)).skip(w.len() as int) =~= reply_bytes(
        REP_CMD_NOT_SUPPORTED,
    ) by {}
    if inp.len() >= 2 && inp[0] == SOCKS5 && inp.len() >= 2 + inp[1] {
        let m_end = 2 + inp[1];
        if inp.subrange(2, m_end).contains(METHOD_USERPASS) {
            let p = m_end;
            if inp.len() >= p + 2 && inp[p] == AUTH_USERPASS_VER {
                let u_end = p + 2 + inp[p + 1];
                if inp.len() >= u_end + 1 {
                    let p_end = u_end + 1 + inp[u_end];
                    if inp.len() >= p_end && valid_utf8(inp.subrange(p + 2, u_end)) {
                        let w = seq![SOCKS5, METHOD_USERPASS] + seq![AUTH_USERPASS_VER, REP_SUCCESS];
                        let user = Some(decode_utf8(inp.subrange(p + 2, u_end)));
                        assert(o == request_stage(inp, p_end, w, user));
                    }
                }
            }
        }
    }
}

/// An address type other than IPv4, domain name or IPv6 is answered with
/// reply `0x08` and the connection closes.
#[verifier::spinoff_prover]
#[verifier::rlimit(40)]
pub proof fn lemma_unknown_address_type(inp: Seq<u8>, atyp: u8)
    requires
        handshake(inp).stage == Stage::Close(SocksError::UnsupportedAddressType { atyp }),
    ensures
        atyp != ATYP_IPV4 && atyp != ATYP_DOMAIN && atyp != ATYP_IPV6,
        handshake(inp).written.len() >= 10,
        handshake(inp).written.skip(handshake(inp).written.len() - 10) == reply_bytes(REP_ATYP_NOT_SUPPORTED),
{
    let o = handshake(inp);
    assert forall|w: Seq<u8>| (w + reply_bytes(REP_ATYP_NOT_SUPPORTED)).skip(w.len() as int) =~= reply_bytes(
        REP_ATYP_NOT_SUPPORTED,
    ) by {}
    if inp.len() >= 2 && inp[0] == SOCKS5 && inp.len() >= 2 + inp[1] {
        let m_end = 2 + inp[1];
        if inp.subrange(2, m_end).contains(METHOD_USERPASS) {
            let p = m_end;
            if inp.len() >= p + 2 && inp[p] == AUTH_USERPASS_VER {
                let u_end = p + 2 + inp[p + 1];
                if inp.len() >= u_end + 1 {
                    let p_end = u_end + 1 + inp[u_end];
                    if inp.len() >= p_end && valid_utf8(inp.subrange(p + 2, u_end)) {
                        let w = seq![SOCKS5, METHOD_USERPASS] + seq![AUTH_USERPASS_VER, REP_SUCCESS];
                        let user = Some(decode_utf8(inp.subrange(p + 2, u_end)));
                        assert(o == request_stage(inp, p_end, w, user));
                    }
                }
            }
        }
    }
}

/// A domain-name target is handed on verbatim — the decoded name, never
/// resolved here — whatever the name and port.
pub proof fn lemma_domain_verbatim(methods: Seq<u8>, rsv: u8, name: Seq<u8>, hi: u8, lo: u8)
    requires
        methods.len() <= 255,
        methods.contains(METHOD_NOAUTH),
        !methods.contains(METHOD_USERPASS),
        name.len() <= 255,
        valid_utf8(name),
    ensures
        handshake(
            seq![SOCKS5, methods.len() as u8] + methods + seq![SOCKS5, CMD_CONNECT, rsv, ATYP_DOMAIN, name.len() as u8]
                + name + seq![hi, lo],
        ) == (Outcome {
            written: seq![SOCKS5, METHOD_NOAUTH],
            stage: Stage::Connect { host: decode_utf8(name), port: (hi as int * 256 + lo as int) as u16, user: None },
        }),
{
    let head = seq![SOCKS5, methods.len() as u8] + methods;
    let req = seq![SOCKS5, CMD_CONNECT, rsv, ATYP_DOMAIN, name.len() as u8];
    let inp = head + req + name + seq![hi, lo];
    let m_end: int = 2 + methods.len() as int;
    assert(inp.subrange(2, m_end) =~= methods);
    assert(inp[m_end] == SOCKS5);
    assert(inp[m_end + 1] == CMD_CONNECT);
    assert(inp[m_end + 3] == ATYP_DOMAIN);
    let p = m_end + 4;
    assert(inp[p] == name.len() as u8);
    assert(inp.subrange(p + 1, p + 1 + name.len()) =~= name);
    assert(inp[p + 1 + name.len()] == hi);
    assert(inp[p + 2 + name.len()] == lo);
}

/// Any credentials are accepted: whatever the password, a username that
/// is UTF-8 gets the success reply `[1, 0]` and becomes the request's
/// isolation token.
pub proof fn lemma_any_credentials(methods: Seq<u8>, user: Seq<u8>, pass: Seq<u8>, rest: Seq<u8>)
    requires
        methods.len() <= 255,
        methods.contains(METHOD_USERPASS),
        user.len() <= 255,
        pass.len() <= 255,
        valid_utf8(user),
    ensures
        ({
            let head = seq![SOCKS5, methods.len() as u8] + methods;
            let inp = head + seq![AUTH_USERPASS_VER, user.len() as u8] + user + seq![pass.len() as u8] + pass
                + rest;
            handshake(inp) == request_stage(
                inp,
                head.len() + 3 + user.len() + pass.len() as int,
                seq![SOCKS5, METHOD_USERPASS, AUTH_USERPASS_VER, REP_SUCCESS],
                Some(decode_utf8(user)),
            )
        }),
{
    let head = seq![SOCKS5, methods.len() as u8] + methods;
    let inp = head + seq![AUTH_USERPASS_VER, user.len() as u8] + user + seq![pass.len() as u8] + pass + rest;
    let m_end: int = 2 + methods.len() as int;
    assert(inp.subrange(2, m_end) =~= methods);
    let p = m_end;
    assert(inp[p] == AUTH_USERPASS_VER);
    assert(inp[p + 1] == user.len() as u8);
    let u_end: int = p + 2 + user.len();
    assert(inp.subrange(p + 2, u_end) =~= user);
    assert(inp[u_end] == pass.len() as u8);
    assert(seq![SOCKS5, METHOD_USERPASS] + seq![AUTH_USERPASS_VER, REP_SUCCESS] =~= seq![
        SOCKS5,
        METHOD_USERPASS,
        AUTH_USERPASS_VER,
        REP_SUCCESS,
    ]);
}

/// The server's output only grows: once it waits for more bytes, what it
/// has written is a prefix of what it has written after any more input.
pub proof fn lemma_written_grows(a: Seq<u8>, b: Seq<u8>)
    requires
        handshake(a).stage is Read,
    ensures
        handshake(a).written.is_prefix_of(handshake(a + b).written),
{
    let c = a + b;
    lemma_agree(a, b);
    if a.len() >= 2 && a[0] == SOCKS5 && a.len() >= 2 + a[1] {
        let m_end = 2 + a[1];
        assert(c.subrange(2, m_end) == a.subrange(2, m_end));
        if a.subrange(2, m_end).contains(METHOD_USERPASS) {
            lemma_userpass_grows(a, b, m_end);
        } else if a.subrange(2, m_end).contains(METHOD_NOAUTH) {
            lemma_request_written(a, m_end, seq![SOCKS5, METHOD_NOAUTH], None);
            lemma_request_written(c, m_end, seq![SOCKS5, METHOD_NOAUTH], None);
        }
    }
}

/// `next` is what `stage` says to do.
pub open spec fn next_agrees(next: &Next, stage: Stage) -> bool {
    match next {
        Next::Read(k) => stage is Read && stage->count == *k as nat,
        Next::Connect(r) => stage == (Stage::Connect { host: r.host@, port: r.port, user: opt_text(r.user) }),
        Next::Close(e) => stage == Stage::Close(*e),
    }
}

/// The server side of one SOCKS5 handshake: every byte read from the
/// client so far, and how many reply bytes have been handed out.
pub struct Handshake {
    input: Vec<u8>,
    sent: usize,
}

fn concat(a: &Vec<u8>, b: &[u8]) -> (r: Vec<u8>)
    ensures
        r@ == a@ + b@,
{
    let mut r: Vec<u8> = Vec::new();
    let mut i: usize = 0;
    while i < a.len()
        invariant
            i <= a@.len(),
            r@ == a@.subrange(0, i as int),
        decreases a@.len() - i,
    {
        r.push(a[i]);
        assert(a@.subrange(0, (i + 1) as int) =~= a@.subrange(0, i as int).push(a@[i as int]));
        i = i + 1;
    }
    let mut i: usize = 0;
    while i < b.len()
        invariant
            i <= b@.len(),
            r@ == a@ + b@.subrange(0, i as int),
        decreases b@.len() - i,
    {
        r.push(b[i]);
        assert(b@.subrange(0, (i + 1) as int) =~= b@.subrange(0, i as int).push(b@[i as int]));
        i = i + 1;
    }
    assert(b@.subrange(0, b@.len() as int) =~= b@);
    assert(a@.subrange(0, a@.len() as int) =~= a@);
    r
}

fn copy_from(v: &Vec<u8>, start: usize) -> (r: Vec<u8>)
    requires
        start <= v@.len(),
    ensures
        r@ == v@.skip(start as int),
{
    let mut r: Vec<u8> = Vec::new();
    let mut i = start;
    while i < v.len()
        invariant
            start <= i <= v@.len(),
            r@ == v@.subrange(start as int, i as int),
        decreases v@.len() - i,
    {
        r.push(v[i]);
        assert(v@.subrange(start as int, (i + 1) as int) =~= v@.subrange(start as int, i as int).push(v@[i as int]));
        i = i + 1;
    }
    assert(v@.subrange(start as int, v@.len() as int) =~= v@.skip(start as int));
    r
}

impl Handshake {
    /// Every byte read from the client so far.
    pub closed spec fn consumed(&self) -> Seq<u8> {
        self.input@
    }

    /// The reply bytes handed out are exactly what [`handshake`] says
    /// the server has written.
    #[verifier::type_invariant]
    spec fn wf(&self) -> bool {
        self.sent == handshake(self.input@).written.len()
    }

    /// Where the handshake stands.
    pub open spec fn outcome(&self) -> Outcome {
        handshake(self.consumed())
    }

    /// A fresh handshake, and how many bytes to read first (the
    /// two-byte greeting).
    pub fn new() -> (r: (Handshake, usize))
        ensures
            r.0.consumed() == Seq::<u8>::empty(),
            r.0.outcome().stage == (Stage::Read { count: 2, target: false }),
            r.1 == 2,
    {
        (Handshake { input: Vec::new(), sent: 0 }, 2)
    }

    /// Feed bytes the client sent (at most as many as were asked for):
    /// returns the reply bytes to write now and what to do next.
    pub fn feed(&mut self, bytes: &[u8]) -> (step: Step)
        requires
            old(self).outcome().stage is Read,
            bytes@.len() <= old(self).outcome().stage->count,
        ensures
            final(self).consumed() == old(self).consumed() + bytes@,
            old(self).outcome().written.is_prefix_of(final(self).outcome().written),
            step.reply@ == final(self).outcome().written.skip(old(self).outcome().written.len() as int),
            next_agrees(&step.next, final(self).outcome().stage),
    {
        proof {
            use_type_invariant(&*self);
        }
        let ghost before = self.input@;
        let input = concat(&self.input, bytes);
        proof {
            lemma_written_grows(before, bytes@);
        }
        let (written, next, _target) = evaluate(input.as_slice());
        let reply = copy_from(&written, self.sent);
        let sent = written.len();
        *self = Handshake { input, sent };
        Step { reply, next }
    }

    /// Reading from the client failed or hit end of stream: returns the
    /// reply to write (`0x08` while the target was being read, else
    /// nothing) and the reason to close.
    pub fn read_failed(self) -> (step: Step)
        requires
            self.outcome().stage is Read,
        ensures
            step.reply@ == read_failure(self.outcome()).written.skip(self.outcome().written.len() as int),
            next_agrees(&step.next, read_failure(self.outcome()).stage),
    {
        proof {
            use_type_invariant(&self);
        }
        let (written, _next, target) = evaluate(self.input.as_slice());
        if target {
            let r = reply(REP_ATYP_NOT_SUPPORTED);
            assert((written@ + reply_bytes(REP_ATYP_NOT_SUPPORTED)).skip(written@.len() as int) =~= r@);
            Step { reply: r, next: Next::Close(SocksError::TargetReadFailed) }
        } else {
            assert(written@.skip(written@.len() as int) =~= Seq::<u8>::empty());
            Step { reply: Vec::new(), next: Next::Close(SocksError::ReadFailed) }
        }
    }
}

/// `host:port`, the target a connection is registered under.
pub open spec fn target_text(host: Seq<char>, port: u16) -> Seq<char> {
    host + seq![':'] + decimal(port as nat)
}

/// The counters and the live-connection registry that the SOCKS
/// server updates as connections come and go.
pub struct SocksServer {
    pub metrics: Metrics,
    pub streams: StreamRegistry,
}

/// How a CONNECT ends: the reply to write, and whether to splice the
/// client to the Tor stream (otherwise the connection closes).
pub struct ConnectReply {
    pub reply: Vec<u8>,
    pub splice: bool,
}

/// The reply to a CONNECT once Tor has opened the stream (`opened`) or
/// not: reply `0x00` and splice the client to the stream, or the
/// general-failure reply `0x01` and close — the server fails closed and
/// never falls back to a direct connection.
pub fn connect_reply(opened: bool) -> (r: ConnectReply)
    ensures
        r.splice == opened,
        r.reply@ == reply_bytes(if opened { REP_SUCCESS } else { REP_GENERAL_FAILURE }),
{
    if opened {
        ConnectReply { reply: reply(REP_SUCCESS), splice: true }
    } else {
        ConnectReply { reply: reply(REP_GENERAL_FAILURE), splice: false }
    }
}

impl SocksServer {
    /// A server over these counters and this registry.
    pub fn new(metrics: Metrics, streams: StreamRegistry) -> (s: Self)
        ensures
            s.metrics == metrics,
            s.streams == streams,
    {
        SocksServer { metrics, streams }
    }

    /// A complete request is about to be sent to Tor: count the CONNECT
    /// and register the connection under `host:port` with the username
    /// as its isolation token. Returns the registry id.
    pub fn begin_connect(&mut self, peer: SocketAddress, req: &ConnectRequest, now: u64) -> (id: u64)
        ensures
            final(self).metrics == count_event(old(self).metrics, CountEvent::Attempt),
            id == old(self).streams.spec_next_id(),
            final(self).streams.spec_issued() == old(self).streams.spec_issued() + 1,
            old(self).streams.spec_issued() < id_space() ==> id == old(self).streams.spec_issued()
                && !old(self).streams@.contains_key(id),
            final(self).streams.spec_next_id() == old(self).streams.spec_next_id().wrapping_add(1),
            final(self).streams@ == old(self).streams@.insert(id, final(self).streams@[id]),
            final(self).streams@[id].id == id,
            final(self).streams@[id].peer == peer,
            final(self).streams@[id].target@ == target_text(req.host@, req.port),
            opt_text(final(self).streams@[id].isolation) == opt_text(req.user),
            final(self).streams@[id].started == now,
            final(self).streams@[id].to_upstream == 0,
            final(self).streams@[id].to_client == 0,
            old(self).streams.ids_fresh() ==> !old(self).streams@.contains_key(id),
    {
        let mut target = String::new();
        push_str(&mut target, req.host.as_str());
        push_char(&mut target, ':');
        push_decimal(&mut target, req.port as u64);
        assert(target@ =~= target_text(req.host@, req.port));
        let isolation = match &req.user {
            Some(u) => Some(u.clone()),
            None => None,
        };
        self.metrics.record_connect();
        let id = self.streams.register(peer, target, isolation, now);
        id
    }

    /// The connection's handler returned, however it returned: its row
    /// leaves the registry.
    pub fn end_connection(&mut self, id: u64)
        ensures
            final(self).metrics == old(self).metrics,
            final(self).streams@ == old(self).streams@.remove(id),
            final(self).streams.spec_next_id() == old(self).streams.spec_next_id(),
            final(self).streams.spec_issued() == old(self).streams.spec_issued(),
    {
        self.streams.remove(id);
    }

    /// Tor has opened the stream (`opened`) or not: a failure is counted
    /// before its reply goes out, and the reply to write is returned —
    /// `0x00` and splice, or `0x01` and close. A success is counted once
    /// its reply has been written (`Metrics::record_connect_ok`).
    pub fn finish_connect(&mut self, opened: bool) -> (r: ConnectReply)
        ensures
            final(self).metrics == (if opened {
                old(self).metrics
            } else {
                count_event(old(self).metrics, CountEvent::Failed)
            }),
            final(self).streams == old(self).streams,
            r.splice == opened,
            r.reply@ == reply_bytes(if opened { REP_SUCCESS } else { REP_GENERAL_FAILURE }),
    {
        if !opened {
            self.metrics.record_connect_failed();
        }
        connect_reply(opened)
    }
}

} // verus!
