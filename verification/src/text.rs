//! Text building blocks shared by the renderers: decimal digits,
//! padding, trailing-whitespace trimming.

use vstd::prelude::*;

verus! {

/// The characters of an optional string.
pub open spec fn opt_text(s: Option<String>) -> Option<Seq<char>> {
    match s {
        Some(s) => Some(s@),
        None => None,
    }
}

/// The ASCII digit for `d` (`d < 10`).
pub open spec fn digit_char(d: nat) -> char {
    (48 + d) as char
}

/// Decimal representation of `n`, most significant digit first, with
/// no leading zeros (`0` is `"0"`).
pub open spec fn decimal(n: nat) -> Seq<char>
    decreases n,
{
    if n < 10 {
        seq![digit_char(n)]
    } else {
        decimal(n / 10).push(digit_char(n % 10))
    }
}

/// `n` copies of the space character.
pub open spec fn spaces(n: nat) -> Seq<char> {
    Seq::new(n, |_i: int| ' ')
}

/// Appends `c` to `s`.
#[verifier::external_body]
pub(crate) fn push_char(s: &mut String, c: char)
    ensures
        final(s)@ == old(s)@.push(c),
{
    s.push(c);
}

/// Appends `t` to `s`.
#[verifier::external_body]
pub(crate) fn push_str(s: &mut String, t: &str)
    ensures
        final(s)@ == old(s)@ + t@,
{
    s.push_str(t);
}

fn digit(d: u64) -> (c: char)
    requires
        d < 10,
    ensures
        c == digit_char(d as nat),
{
    ((48 + d) as u8) as char
}

/// Appends the decimal representation of `n` to `out`.
pub fn push_decimal(out: &mut String, n: u64)
    ensures
        final(out)@ == old(out)@ + decimal(n as nat),
{
    let mut suffix: Vec<char> = Vec::new();
    let mut m = n;
    while m >= 10
        invariant
            decimal(n as nat) == decimal(m as nat) + suffix@,
        decreases m,
    {
        let c = digit(m % 10);
        let ghost old_suffix = suffix@;
        suffix.insert(0, c);
        assert(decimal(m as nat) == decimal((m / 10) as nat).push(c));
        assert(suffix@ == seq![c] + old_suffix);
        assert(decimal((m / 10) as nat).push(c) + old_suffix =~= decimal((m / 10) as nat) + suffix@);
        m = m / 10;
    }
    let ghost start = out@;
    push_char(out, digit(m));
    let mut i: usize = 0;
    while i < suffix.len()
        invariant
            i <= suffix@.len(),
            out@ == start + seq![digit_char(m as nat)] + suffix@.subrange(0, i as int),
        decreases suffix@.len() - i,
    {
        push_char(out, suffix[i]);
        assert(suffix@.subrange(0, (i + 1) as int) =~= suffix@.subrange(0, i as int).push(suffix@[i as int]));
        i = i + 1;
    }
    assert(suffix@.subrange(0, suffix@.len() as int) =~= suffix@);
    assert(decimal(m as nat) == seq![digit_char(m as nat)]);
    assert(out@ =~= start + decimal(n as nat));
}

/// The decimal representation of `n` as a fresh string.
pub fn decimal_string(n: u64) -> (s: String)
    ensures
        s@ == decimal(n as nat),
{
    let mut s = String::new();
    push_decimal(&mut s, n);
    assert(s@ =~= decimal(n as nat));
    s
}

/// The lowercase hexadecimal digit for `d` (`d < 16`).
pub open spec fn hex_char(d: nat) -> char {
    if d < 10 {
        (48 + d) as char
    } else {
        (87 + d) as char
    }
}

/// Lowercase hexadecimal representation of `n` without leading zeros
/// (`0` is `"0"`), as `{:x}` formats it.
pub open spec fn hex(n: nat) -> Seq<char>
    decreases n,
{
    if n < 16 {
        seq![hex_char(n)]
    } else {
        hex(n / 16).push(hex_char(n % 16))
    }
}

fn hex_digit(d: u64) -> (c: char)
    requires
        d < 16,
    ensures
        c == hex_char(d as nat),
{
    if d < 10 {
        ((48 + d) as u8) as char
    } else {
        ((87 + d) as u8) as char
    }
}

/// Appends the lowercase hexadecimal representation of `n` to `out`.
pub fn push_hex(out: &mut String, n: u64)
    ensures
        final(out)@ == old(out)@ + hex(n as nat),
{
    let mut suffix: Vec<char> = Vec::new();
    let mut m = n;
    while m >= 16
        invariant
            hex(n as nat) == hex(m as nat) + suffix@,
        decreases m,
    {
        let c = hex_digit(m % 16);
        let ghost old_suffix = suffix@;
        suffix.insert(0, c);
        assert(hex(m as nat) == hex((m / 16) as nat).push(c));
        assert(hex((m / 16) as nat).push(c) + old_suffix =~= hex((m / 16) as nat) + suffix@);
        m = m / 16;
    }
    let ghost start = out@;
    push_char(out, hex_digit(m));
    let mut i: usize = 0;
    while i < suffix.len()
        invariant
            i <= suffix@.len(),
            out@ == start + seq![hex_char(m as nat)] + suffix@.subrange(0, i as int),
        decreases suffix@.len() - i,
    {
        push_char(out, suffix[i]);
        assert(suffix@.subrange(0, (i + 1) as int) =~= suffix@.subrange(0, i as int).push(suffix@[i as int]));
        i = i + 1;
    }
    assert(suffix@.subrange(0, suffix@.len() as int) =~= suffix@);
    assert(out@ =~= start + hex(n as nat));
}

/// Appends `n` spaces to `out`.
pub fn push_spaces(out: &mut String, n: usize)
    ensures
        final(out)@ == old(out)@ + spaces(n as nat),
{
    let ghost start = out@;
    let mut i: usize = 0;
    while i < n
        invariant
            i <= n,
            out@ == start + spaces(i as nat),
        decreases n - i,
    {
        push_char(out, ' ');
        assert(spaces((i + 1) as nat) =~= spaces(i as nat).push(' '));
        i = i + 1;
    }
}

/// Unicode `White_Space` (the property `str::trim_end` strips).
pub open spec fn is_whitespace(c: char) -> bool {
    ||| ('\u{9}' <= c && c <= '\u{d}')
    ||| c == ' '
    ||| c == '\u{85}'
    ||| c == '\u{a0}'
    ||| c == '\u{1680}'
    ||| ('\u{2000}' <= c && c <= '\u{200a}')
    ||| c == '\u{2028}'
    ||| c == '\u{2029}'
    ||| c == '\u{202f}'
    ||| c == '\u{205f}'
    ||| c == '\u{3000}'
}

/// `s` with its trailing whitespace removed: the longest prefix of `s`
/// that is empty or ends in a non-whitespace character.
pub open spec fn trim_end(s: Seq<char>) -> Seq<char>
    decreases s.len(),
{
    if s.len() > 0 && is_whitespace(s.last()) {
        trim_end(s.drop_last())
    } else {
        s
    }
}

fn char_is_whitespace(c: char) -> (b: bool)
    ensures
        b == is_whitespace(c),
{
    ('\u{9}' <= c && c <= '\u{d}') || c == ' ' || c == '\u{85}' || c == '\u{a0}'
        || c == '\u{1680}' || ('\u{2000}' <= c && c <= '\u{200a}') || c == '\u{2028}'
        || c == '\u{2029}' || c == '\u{202f}' || c == '\u{205f}' || c == '\u{3000}'
}

/// The characters of `s`, in order.
pub fn chars_of(s: &str) -> (v: Vec<char>)
    ensures
        v@ == s@,
{
    broadcast use vstd::string::group_string_axioms;
    let mut v: Vec<char> = Vec::new();
    for c in it: s.chars()
        invariant
            it.seq() == s@,
            v@ == s@.take(it.index() as int),
    {
        assert(s@.take(it.index() as int + 1) =~= v@.push(c));
        v.push(c);
    }
    assert(v@ =~= s@);
    v
}

/// A string holding exactly the characters `v[..len]`.
pub fn string_of_prefix(v: &Vec<char>, len: usize) -> (s: String)
    requires
        len <= v@.len(),
    ensures
        s@ == v@.subrange(0, len as int),
{
    let mut s = String::new();
    let mut i: usize = 0;
    while i < len
        invariant
            i <= len <= v@.len(),
            s@ == v@.subrange(0, i as int),
        decreases len - i,
    {
        push_char(&mut s, v[i]);
        assert(v@.subrange(0, (i + 1) as int) =~= v@.subrange(0, i as int).push(v@[i as int]));
        i = i + 1;
    }
    s
}

proof fn lemma_trim_end_prefix(s: Seq<char>, k: int)
    requires
        0 <= k <= s.len(),
        forall|j: int| k <= j < s.len() ==> is_whitespace(#[trigger] s[j]),
    ensures
        trim_end(s) == trim_end(s.subrange(0, k)),
    decreases s.len(),
{
    if k < s.len() {
        assert(s.drop_last() =~= s.subrange(0, s.len() - 1));
        assert(s.drop_last().subrange(0, k) =~= s.subrange(0, k));
        lemma_trim_end_prefix(s.drop_last(), k);
    } else {
        assert(s.subrange(0, k) =~= s);
    }
}

/// `s` without its trailing whitespace, as a fresh string.
pub fn trimmed_end(s: &str) -> (t: String)
    ensures
        t@ == trim_end(s@),
{
    let v = chars_of(s);
    let mut k = v.len();
    while k > 0 && char_is_whitespace(v[k - 1])
        invariant
            k <= v@.len(),
            forall|j: int| k <= j < v@.len() ==> is_whitespace(#[trigger] v@[j]),
        decreases k,
    {
        k = k - 1;
    }
    proof {
        lemma_trim_end_prefix(v@, k as int);
        let p = v@.subrange(0, k as int);
        if p.len() > 0 {
            assert(p.last() == v@[k - 1]);
        }
    }
    string_of_prefix(&v, k)
}

/// Whether two strings hold the same characters.
pub fn same_text(a: &str, b: &str) -> (r: bool)
    ensures
        r == (a@ == b@),
{
    let x = chars_of(a);
    let y = chars_of(b);
    if x.len() != y.len() {
        return false;
    }
    let mut i: usize = 0;
    while i < x.len()
        invariant
            i <= x@.len(),
            x@.len() == y@.len(),
            x@ == a@,
            y@ == b@,
            forall|j: int| 0 <= j < i ==> x@[j] == y@[j],
        decreases x@.len() - i,
    {
        if x[i] != y[i] {
            assert(a@[i as int] != b@[i as int]);
            return false;
        }
        i = i + 1;
    }
    assert(x@ =~= y@);
    true
}

} // verus!
