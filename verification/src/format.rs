//! Output formatting for `tord query`.
//!
//! The control socket always speaks JSON; this module renders a reply
//! for a terminal. `Table` (the default) is human-readable; `Json`
//! passes the reply through pretty-printed for scripts. The rendering
//! is driven off the JSON shape: a key/value view for object replies and
//! a column table for the `streams` list.

use vstd::prelude::*;
use vstd::utf8::encode_utf8;
use crate::json::{compact_json, json_compact, json_parse, json_pretty, parse_json, pretty_json, Json};
use crate::text::{
    decimal, digit_char, opt_text, push_char, push_decimal, push_spaces, push_str, same_text, spaces, trim_end,
    trimmed_end,
};

verus! {

/// How `tord query` renders a reply.
#[derive(Clone, Copy, Debug, PartialEq, Eq, Structural)]
pub enum OutputFormat {
    /// Human-readable text — key/value or a column table.
    Table,
    /// Pretty-printed JSON, as received on the wire.
    Json,
}

/// Bytes in the UTF-8 encoding of `s`, as `str::len` reports it.
pub open spec fn utf8_len(s: Seq<char>) -> nat {
    (encode_utf8(s).len() as usize) as nat
}

/// `s` left-aligned in a field `width` characters wide (`{s:<width$}`).
pub open spec fn pad(s: Seq<char>, width: nat) -> Seq<char> {
    if s.len() < width {
        s + spaces((width - s.len()) as nat)
    } else {
        s
    }
}

/// The first member of `m` named `key`.
pub open spec fn first_member(m: Seq<(String, Json)>, key: Seq<char>) -> Option<Json>
    decreases m.len(),
{
    if m.len() == 0 {
        None
    } else if m[0].0@ == key {
        Some(m[0].1)
    } else {
        first_member(m.drop_first(), key)
    }
}

/// `v.get(key)`: the member `key` of an object; `None` for anything
/// else.
pub open spec fn member(v: Json, key: Seq<char>) -> Option<Json> {
    match v {
        Json::Object(m) => first_member(m@, key),
        _ => None,
    }
}

/// `.and_then(Value::as_str)`.
pub open spec fn as_str(v: Option<Json>) -> Option<Seq<char>> {
    match v {
        Some(Json::Str(s)) => Some(s@),
        _ => None,
    }
}

/// `.and_then(Value::as_u64).unwrap_or(0)`.
pub open spec fn as_u64_or_zero(v: Option<Json>) -> u64 {
    match v {
        Some(Json::Number(n)) => match n.as_u64 {
            Some(x) => x,
            None => 0,
        },
        _ => 0,
    }
}

/// A JSON scalar without its JSON quoting: a string as itself, `null` as
/// `-`, booleans and numbers as their text; arrays and objects as compact
/// JSON (`-` if that cannot be printed).
pub open spec fn scalar_text(v: Json) -> Seq<char> {
    match v {
        Json::Str(s) => s@,
        Json::Null => seq!['-'],
        Json::Bool(b) => if b {
            seq!['t', 'r', 'u', 'e']
        } else {
            seq!['f', 'a', 'l', 's', 'e']
        },
        Json::Number(n) => n.text@,
        _ => match json_compact(v) {
            Some(t) => t,
            None => seq!['-'],
        },
    }
}

/// A string member, or `-` when it is absent or not a string.
pub open spec fn field_text(v: Json, key: Seq<char>) -> Seq<char> {
    match member(v, key) {
        Some(Json::Str(s)) => s@,
        _ => seq!['-'],
    }
}

/// One display line of an object reply: the (indented) key, and its
/// value — `None` for the header of a nested object.
pub type KvLine = (Seq<char>, Option<Seq<char>>);

/// The lines of an object at nesting depth `indent`; nothing for a
/// value that is not an object.
pub open spec fn kv_lines(v: Json, indent: nat) -> Seq<KvLine>
    decreases v,
{
    match v {
        Json::Object(m) => member_lines(m@, indent),
        _ => Seq::empty(),
    }
}

/// The lines of these members, in order: each member's key indented by
/// two spaces per level, a nested object as a header line followed by
/// its own lines one level deeper, anything else with its scalar text.
/// At the top level the `status` member (protocol framing) is dropped.
pub open spec fn member_lines(m: Seq<(String, Json)>, indent: nat) -> Seq<KvLine>
    decreases m,
{
    if m.len() == 0 {
        Seq::empty()
    } else {
        let last = m[m.len() - 1];
        let before = member_lines(m.subrange(0, m.len() - 1), indent);
        if indent == 0 && last.0@ == "status"@ {
            before
        } else {
            let key = spaces(2 * indent) + last.0@;
            match last.1 {
                Json::Object(_) => before + seq![(key, None::<Seq<char>>)] + kv_lines(last.1, indent + 1),
                _ => before + seq![(key, Some(scalar_text(last.1)))],
            }
        }
    }
}

/// `lines` with every key indented by `n` more spaces.
pub open spec fn indented(lines: Seq<KvLine>, n: nat) -> Seq<KvLine> {
    lines.map_values(|l: KvLine| (spaces(n) + l.0, l.1))
}

proof fn lemma_spaces_add(a: nat, b: nat)
    ensures
        spaces(a) + spaces(b) == spaces(a + b),
{
    assert(spaces(a) + spaces(b) =~= spaces(a + b));
}

proof fn lemma_indented_concat(x: Seq<KvLine>, y: Seq<KvLine>, n: nat)
    ensures
        indented(x + y, n) == indented(x, n) + indented(y, n),
{
    assert(indented(x + y, n) =~= indented(x, n) + indented(y, n));
}

proof fn lemma_member_shift(m: Seq<(String, Json)>, i: nat, k: nat)
    requires
        i >= 1,
    ensures
        member_lines(m, i + k) == indented(member_lines(m, i), 2 * k),
    decreases m,
{
    if m.len() > 0 {
        let last = m[m.len() - 1];
        let init = m.subrange(0, m.len() - 1);
        lemma_member_shift(init, i, k);
        lemma_spaces_add(2 * k, 2 * i);
        assert(spaces(2 * (i + k)) + last.0@ =~= spaces(2 * k) + (spaces(2 * i) + last.0@)) by {
            assert(2 * k + 2 * i == 2 * (i + k));
        }
        let key = spaces(2 * i) + last.0@;
        match last.1 {
            Json::Object(mm) => {
                assert(decreases_to!(m => m[m.len() - 1]));
                assert(decreases_to!(m[m.len() - 1] => m[m.len() - 1].1));
                assert(decreases_to!(last.1 => last.1->Object_0));
                assert(decreases_to!(mm => mm@));
                lemma_member_shift(mm@, i + 1, k);
                assert(i + k + 1 == (i + 1) + k);
                let a = member_lines(init, i);
                let h = seq![(key, None::<Seq<char>>)];
                let c = kv_lines(last.1, i + 1);
                lemma_indented_concat(a + h, c, 2 * k);
                lemma_indented_concat(a, h, 2 * k);
                assert(indented(h, 2 * k) =~= seq![(spaces(2 * (i + k)) + last.0@, None::<Seq<char>>)]);
                assert(c == member_lines(mm@, i + 1));
                assert(kv_lines(last.1, i + k + 1) == member_lines(mm@, (i + 1) + k));
                assert(member_lines(m, i) == a + h + c);
                assert(member_lines(m, i + k) == member_lines(init, i + k) + indented(h, 2 * k) + indented(c, 2 * k));
            },
            _ => {
                let a = member_lines(init, i);
                let h = seq![(key, Some(scalar_text(last.1)))];
                lemma_indented_concat(a, h, 2 * k);
                assert(indented(h, 2 * k) =~= seq![(spaces(2 * (i + k)) + last.0@, Some(scalar_text(last.1)))]);
                assert(member_lines(m, i) == a + h);
                assert(member_lines(m, i + k) == member_lines(init, i + k) + indented(h, 2 * k));
            },
        }
    } else {
        assert(indented(member_lines(m, i), 2 * k) =~= Seq::<KvLine>::empty());
    }
}

/// Each level of nesting indents by two more spaces: an object's lines
/// at depth `d` (for every `d >= 1`) are its depth-1 lines with every key
/// indented by `2 * (d - 1)` more spaces.
pub proof fn lemma_nesting_indents(v: Json, d: nat)
    requires
        d >= 1,
    ensures
        kv_lines(v, d) == indented(kv_lines(v, 1), 2 * (d - 1) as nat),
{
    match v {
        Json::Object(m) => {
            lemma_member_shift(m@, 1, (d - 1) as nat);
        },
        _ => {
            assert(indented(kv_lines(v, 1), 2 * (d - 1) as nat) =~= Seq::<KvLine>::empty());
        },
    }
}

/// A member holding an object is shown as a header line, its key
/// indented two spaces per level of depth `d`, followed by the nested
/// object's own lines one level deeper: its depth-1 lines indented by
/// `2 * d` more spaces.
pub proof fn lemma_nested_member(m: Seq<(String, Json)>, d: nat)
    requires
        m.len() > 0,
        m.last().1 is Object,
        d > 0 || m.last().0@ != "status"@,
    ensures
        member_lines(m, d) == member_lines(m.drop_last(), d) + seq![(spaces(2 * d) + m.last().0@, None::<Seq<char>>)]
            + indented(kv_lines(m.last().1, 1), 2 * d),
{
    assert(m.drop_last() == m.subrange(0, m.len() - 1));
    lemma_nesting_indents(m.last().1, d + 1);
}

/// The widest key (in bytes) among lines that carry a value.
pub open spec fn key_width(lines: Seq<KvLine>) -> nat
    decreases lines.len(),
{
    if lines.len() == 0 {
        0
    } else {
        let w = key_width(lines.drop_last());
        let l = lines.last();
        if l.1 is Some && utf8_len(l.0) > w {
            utf8_len(l.0)
        } else {
            w
        }
    }
}

/// The key column is exactly as wide as the longest key (in bytes) of
/// a line that carries a value: no such key is longer, and one of them
/// is that long (the width is 0 when no line carries a value).
pub proof fn lemma_key_width_is_widest_value_key(lines: Seq<KvLine>)
    ensures
        forall|j: int| 0 <= j < lines.len() && lines[j].1 is Some ==> utf8_len(#[trigger] lines[j].0) <= key_width(lines),
        key_width(lines) == 0 || exists|j: int|
            0 <= j < lines.len() && lines[j].1 is Some && #[trigger] utf8_len(lines[j].0) == key_width(lines),
    decreases lines.len(),
{
    if lines.len() > 0 {
        let init = lines.drop_last();
        lemma_key_width_is_widest_value_key(init);
        assert forall|j: int| 0 <= j < init.len() implies lines[j] == #[trigger] init[j] by {}
        let w = key_width(init);
        assert forall|j: int| 0 <= j < lines.len() && lines[j].1 is Some implies utf8_len(#[trigger] lines[j].0)
            <= key_width(lines) by {
            if j < init.len() {
                assert(lines[j] == init[j]);
                assert(utf8_len(init[j].0) <= w);
            } else {
                assert(lines[j] == lines.last());
            }
        }
        if w > 0 && key_width(lines) == w {
            let j = choose|j: int| 0 <= j < init.len() && init[j].1 is Some && #[trigger] utf8_len(init[j].0) == w;
            assert(lines[j] == init[j]);
        }
    }
}

/// A header line (the key of a nested object) never widens the key
/// column, whatever its length.
pub proof fn lemma_header_keeps_width(lines: Seq<KvLine>, key: Seq<char>)
    ensures
        key_width(lines.push((key, None))) == key_width(lines),
{
    assert(lines.push((key, None)).drop_last() =~= lines);
}

/// `key   value` with the key padded to `width`, or `key:` for a header.
pub open spec fn kv_line_text(l: KvLine, width: nat) -> Seq<char> {
    match l.1 {
        Some(v) => pad(l.0, width) + seq![' ', ' ', ' '] + v + seq!['\n'],
        None => l.0 + seq![':', '\n'],
    }
}

pub open spec fn kv_block(lines: Seq<KvLine>, width: nat) -> Seq<char>
    decreases lines.len(),
{
    if lines.len() == 0 {
        Seq::empty()
    } else {
        kv_block(lines.drop_last(), width) + kv_line_text(lines.last(), width)
    }
}

/// An object reply as aligned `key   value` lines; `command: ok` when it
/// has nothing to show.
pub open spec fn kv_text(command: Seq<char>, v: Json) -> Seq<char> {
    let lines = kv_lines(v, 0);
    if lines.len() == 0 {
        command + seq![':', ' ', 'o', 'k']
    } else {
        trim_end(kv_block(lines, key_width(lines)))
    }
}

/// The column headings of the `streams` table.
pub open spec fn stream_header() -> Seq<Seq<char>> {
    seq!["ID"@, "PEER"@, "TARGET"@, "ISO"@, "AGE"@, "UP"@, "DOWN"@]
}

/// The cells of one `streams` row.
pub open spec fn stream_cells(r: Json) -> Seq<Seq<char>> {
    seq![
        match member(r, "id"@) {
            Some(x) => scalar_text(x),
            None => Seq::empty(),
        },
        field_text(r, "peer"@),
        field_text(r, "target"@),
        field_text(r, "isolation"@),
        age_text(as_u64_or_zero(member(r, "age_secs"@))),
        bytes_text(as_u64_or_zero(member(r, "bytes_to_upstream"@))),
        bytes_text(as_u64_or_zero(member(r, "bytes_to_client"@))),
    ]
}

/// The widest cell (in bytes) of column `c` among the table's rows.
pub open spec fn column_width(table: Seq<Seq<Seq<char>>>, c: int) -> nat
    decreases table.len(),
{
    if table.len() == 0 {
        0
    } else {
        let w = column_width(table.drop_last(), c);
        let x = utf8_len(table.last()[c]);
        if x > w {
            x
        } else {
            w
        }
    }
}

/// The cells of a row padded to their column widths, joined by two
/// spaces.
pub open spec fn joined_cells(cells: Seq<Seq<char>>, widths: Seq<nat>, n: int) -> Seq<char>
    decreases n,
{
    if n <= 0 {
        Seq::empty()
    } else if n == 1 {
        pad(cells[0], widths[0])
    } else {
        joined_cells(cells, widths, n - 1) + seq![' ', ' '] + pad(cells[n - 1], widths[n - 1])
    }
}

pub open spec fn table_block(table: Seq<Seq<Seq<char>>>, widths: Seq<nat>) -> Seq<char>
    decreases table.len(),
{
    if table.len() == 0 {
        Seq::empty()
    } else {
        table_block(table.drop_last(), widths) + trim_end(joined_cells(table.last(), widths, 7)) + seq!['\n']
    }
}

/// The `streams` list as an aligned column table under a heading row.
pub open spec fn streams_text(rows: Seq<Json>) -> Seq<char> {
    if rows.len() == 0 {
        "no active connections"@
    } else {
        let table = seq![stream_header()] + rows.map_values(|r: Json| stream_cells(r));
        let widths = Seq::new(7, |c: int| column_width(table, c));
        trim_end(table_block(table, widths))
    }
}

/// A reply as text: `error: message` for an error reply, the column
/// table for a `streams` list, otherwise the key/value view.
pub open spec fn table_text(command: Seq<char>, v: Json) -> Seq<char> {
    if as_str(member(v, "status"@)) == Some("error"@) {
        "error: "@ + match as_str(member(v, "message"@)) {
            Some(m) => m,
            None => "(no message)"@,
        }
    } else {
        match member(v, "streams"@) {
            Some(Json::Array(rows)) => streams_text(rows@),
            _ => kv_text(command, v),
        }
    }
}

/// A control-socket reply rendered for display: the reply itself
/// (trailing whitespace trimmed) when it is not JSON; pretty-printed JSON
/// for `Json`; the table view for `Table`.
pub open spec fn rendered(command: Seq<char>, reply: Seq<char>, format: OutputFormat) -> Seq<char> {
    match json_parse(reply) {
        None => trim_end(reply),
        Some(v) => match format {
            OutputFormat::Json => match json_pretty(v) {
                Some(t) => t,
                None => trim_end(reply),
            },
            OutputFormat::Table => table_text(command, v),
        },
    }
}

/// The key/value lines held in `v`, as text.
pub open spec fn lines_view(v: Seq<(String, Option<String>)>) -> Seq<KvLine> {
    v.map_values(|l: (String, Option<String>)| (l.0@, opt_text(l.1)))
}

fn literal(t: &str) -> (s: String)
    ensures
        s@ == t@,
{
    let mut s = String::new();
    push_str(&mut s, t);
    s
}

/// `v.get(key)`.
fn get_member<'a>(v: &'a Json, key: &str) -> (r: Option<&'a Json>)
    ensures
        match r {
            Some(x) => member(*v, key@) == Some(*x),
            None => member(*v, key@) is None,
        },
{
    match v {
        Json::Object(m) => {
            let mut i: usize = 0;
            assert(m@.skip(0) =~= m@);
            while i < m.len()
                invariant
                    i <= m@.len(),
                    *v == Json::Object(*m),
                    first_member(m@, key@) == first_member(m@.skip(i as int), key@),
                decreases m@.len() - i,
            {
                assert(m@.skip(i as int).drop_first() =~= m@.skip(i + 1));
                assert(m@.skip(i as int)[0] == m@[i as int]);
                if same_text(m[i].0.as_str(), key) {
                    return Some(&m[i].1);
                }
                i = i + 1;
            }
            None
        },
        _ => None,
    }
}

/// `.and_then(Value::as_u64).unwrap_or(0)` on `v.get(key)`.
fn member_u64(v: &Json, key: &str) -> (n: u64)
    ensures
        n == as_u64_or_zero(member(*v, key@)),
{
    match get_member(v, key) {
        Some(Json::Number(n)) => match n.as_u64 {
            Some(x) => x,
            None => 0,
        },
        _ => 0,
    }
}

/// Render a JSON scalar without the JSON quoting; `null` becomes `-`.
pub fn scalar(v: &Json) -> (s: String)
    ensures
        s@ == scalar_text(*v),
{
    match v {
        Json::Str(t) => t.clone(),
        Json::Null => {
            let mut s = String::new();
            push_char(&mut s, '-');
            assert(s@ =~= seq!['-']);
            s
        },
        Json::Bool(b) => {
            let mut s = String::new();
            if *b {
                push_char(&mut s, 't');
                push_char(&mut s, 'r');
                push_char(&mut s, 'u');
                push_char(&mut s, 'e');
            } else {
                push_char(&mut s, 'f');
                push_char(&mut s, 'a');
                push_char(&mut s, 'l');
                push_char(&mut s, 's');
                push_char(&mut s, 'e');
            }
            assert(s@ =~= scalar_text(*v));
            s
        },
        Json::Number(n) => n.text.clone(),
        _ => match compact_json(v) {
            Some(t) => t,
            None => {
                let mut s = String::new();
                push_char(&mut s, '-');
                assert(s@ =~= seq!['-']);
                s
            },
        },
    }
}

/// A string field, or `-` when absent or not a string.
pub fn field(v: &Json, key: &str) -> (s: String)
    ensures
        s@ == field_text(*v, key@),
{
    match get_member(v, key) {
        Some(Json::Str(t)) => t.clone(),
        _ => {
            let mut s = String::new();
            push_char(&mut s, '-');
            assert(s@ =~= seq!['-']);
            s
        },
    }
}

/// Flatten an object into display lines, appended to `out`: `prefix`
/// is the indentation of depth `indent`, `top` says the depth is 0.
fn collect_kv(
    v: &Json,
    prefix: &String,
    top: bool,
    Ghost(indent): Ghost<nat>,
    out: &mut Vec<(String, Option<String>)>,
)
    requires
        prefix@ == spaces(2 * indent),
        top == (indent == 0),
    ensures
        lines_view(final(out)@) == lines_view(old(out)@) + kv_lines(*v, indent),
    decreases *v,
{
    let ghost start = lines_view(out@);
    match v {
        Json::Object(m) => {
            let mut i: usize = 0;
            while i < m.len()
                invariant
                    i <= m@.len(),
                    prefix@ == spaces(2 * indent),
                    top == (indent == 0),
                    *v == Json::Object(*m),
                    lines_view(out@) == start + member_lines(m@.subrange(0, i as int), indent),
                decreases m@.len() - i,
            {
                let ghost before = lines_view(out@);
                assert(m@.subrange(0, (i + 1) as int).subrange(0, i as int) =~= m@.subrange(0, i as int));
                let k = &m[i].0;
                let val = &m[i].1;
                if top && same_text(k.as_str(), "status") {
                } else {
                    let mut key = prefix.clone();
                    push_str(&mut key, k.as_str());
                    match val {
                        Json::Object(_) => {
                            out.push((key, None));
                            assert(lines_view(out@) =~= before + seq![(spaces(2 * indent) + k@, None::<Seq<char>>)]);
                            let mut deeper = prefix.clone();
                            push_char(&mut deeper, ' ');
                            push_char(&mut deeper, ' ');
                            assert(deeper@ =~= spaces(2 * (indent + 1)));
                            let ghost mid = lines_view(out@);
                            assert(v->Object_0 == *m);
                            assert(decreases_to!(*v => v->Object_0));
                            assert(decreases_to!(*m => m@));
                            assert(decreases_to!(m@ => m@[i as int]));
                            assert(decreases_to!(m@[i as int] => m@[i as int].1));
                            assert(decreases_to!(*v => *val));
                            collect_kv(val, &deeper, false, Ghost(indent + 1), out);
                        },
                        _ => {
                            out.push((key, Some(scalar(val))));
                            assert(lines_view(out@) =~= before + seq![(spaces(2 * indent) + k@, Some(scalar_text(*val)))]);
                        },
                    }
                }
                assert(lines_view(out@) =~= start + member_lines(m@.subrange(0, (i + 1) as int), indent));
                i = i + 1;
            }
            assert(m@.subrange(0, m@.len() as int) =~= m@);
        },
        _ => {
            assert(lines_view(out@) =~= start + kv_lines(*v, indent));
        },
    }
}

/// Appends `s` left-aligned in a field `width` characters wide.
fn push_padded(out: &mut String, s: &str, width: usize)
    ensures
        final(out)@ == old(out)@ + pad(s@, width as nat),
{
    let n = s.unicode_len();
    push_str(out, s);
    if n < width {
        push_spaces(out, width - n);
    }
}

/// Render an object reply (`status`, `stats`, `ping`, `reload`) as
/// aligned `key   value` lines, recursing into nested objects.
pub fn render_kv(command: &str, v: &Json) -> (s: String)
    ensures
        s@ == kv_text(command@, *v),
{
    let mut lines: Vec<(String, Option<String>)> = Vec::new();
    let prefix = String::new();
    assert(prefix@ =~= spaces(0));
    collect_kv(v, &prefix, true, Ghost(0), &mut lines);
    let ghost view = lines_view(lines@);
    assert(view =~= kv_lines(*v, 0));
    if lines.len() == 0 {
        let mut s = literal(command);
        push_char(&mut s, ':');
        push_char(&mut s, ' ');
        push_char(&mut s, 'o');
        push_char(&mut s, 'k');
        assert(s@ =~= kv_text(command@, *v));
        return s;
    }
    let mut width: usize = 0;
    let mut i: usize = 0;
    while i < lines.len()
        invariant
            i <= lines@.len(),
            view == lines_view(lines@),
            width == key_width(view.take(i as int)),
        decreases lines@.len() - i,
    {
        assert(view.take((i + 1) as int).drop_last() =~= view.take(i as int));
        assert(view.take((i + 1) as int).last() == view[i as int]);
        assert(view[i as int] == (lines@[i as int].0@, opt_text(lines@[i as int].1)));
        if lines[i].1.is_some() {
            let l = lines[i].0.as_str().len();
            if l > width {
                width = l;
            }
        }
        i = i + 1;
    }
    assert(view.take(lines@.len() as int) =~= view);
    let mut out = String::new();
    let mut i: usize = 0;
    while i < lines.len()
        invariant
            i <= lines@.len(),
            view == lines_view(lines@),
            width == key_width(view),
            out@ == kv_block(view.take(i as int), width as nat),
        decreases lines@.len() - i,
    {
        assert(view.take((i + 1) as int).drop_last() =~= view.take(i as int));
        let ghost before = out@;
        match &lines[i].1 {
            Some(val) => {
                push_padded(&mut out, lines[i].0.as_str(), width);
                push_char(&mut out, ' ');
                push_char(&mut out, ' ');
                push_char(&mut out, ' ');
                push_str(&mut out, val.as_str());
                push_char(&mut out, '\n');
            },
            None => {
                push_str(&mut out, lines[i].0.as_str());
                push_char(&mut out, ':');
                push_char(&mut out, '\n');
            },
        }
        assert(out@ =~= before + kv_line_text(view[i as int], width as nat));
        i = i + 1;
    }
    assert(view.take(lines@.len() as int) =~= view);
    trimmed_end(out.as_str())
}

/// The text of each cell of each row.
pub open spec fn table_view(t: Seq<Vec<String>>) -> Seq<Seq<Seq<char>>> {
    t.map_values(|r: Vec<String>| r@.map_values(|c: String| c@))
}

fn header_row() -> (cells: Vec<String>)
    ensures
        cells@.map_values(|c: String| c@) == stream_header(),
{
    let cells = vec![
        literal("ID"),
        literal("PEER"),
        literal("TARGET"),
        literal("ISO"),
        literal("AGE"),
        literal("UP"),
        literal("DOWN"),
    ];
    assert(cells@.map_values(|c: String| c@) =~= stream_header());
    cells
}

fn stream_row(r: &Json) -> (cells: Vec<String>)
    ensures
        cells@.map_values(|c: String| c@) == stream_cells(*r),
{
    let id = match get_member(r, "id") {
        Some(x) => scalar(x),
        None => String::new(),
    };
    let cells = vec![
        id,
        field(r, "peer"),
        field(r, "target"),
        field(r, "isolation"),
        human_age(member_u64(r, "age_secs")),
        human_bytes(member_u64(r, "bytes_to_upstream")),
        human_bytes(member_u64(r, "bytes_to_client")),
    ];
    assert(cells@.map_values(|c: String| c@) =~= stream_cells(*r));
    cells
}

/// Render the `streams` list as an aligned column table.
pub fn render_streams(rows: &Vec<Json>) -> (s: String)
    ensures
        s@ == streams_text(rows@),
{
    if rows.len() == 0 {
        return literal("no active connections");
    }
    let ghost cells_of = |r: Json| stream_cells(r);
    let mut table: Vec<Vec<String>> = Vec::new();
    table.push(header_row());
    let mut i: usize = 0;
    while i < rows.len()
        invariant
            i <= rows@.len(),
            cells_of == (|r: Json| stream_cells(r)),
            table_view(table@) == seq![stream_header()] + rows@.take(i as int).map_values(cells_of),
        decreases rows@.len() - i,
    {
        let row = stream_row(&rows[i]);
        let ghost old_t = table@;
        let ghost row_v = row;
        table.push(row);
        assert(table@ == old_t.push(row_v));
        assert(table_view(table@) =~= table_view(old_t).push(stream_cells(rows@[i as int])));
        assert(rows@.take((i + 1) as int).map_values(cells_of) =~= rows@.take(i as int).map_values(cells_of).push(
            stream_cells(rows@[i as int]),
        ));
        assert(table_view(table@) =~= seq![stream_header()] + rows@.take((i + 1) as int).map_values(cells_of));
        i = i + 1;
    }
    assert(rows@.take(rows@.len() as int) =~= rows@);
    let ghost tv = table_view(table@);
    assert(tv == seq![stream_header()] + rows@.map_values(cells_of));
    assert forall|t: int| 0 <= t < tv.len() implies (#[trigger] tv[t]).len() == 7 by {
        if t > 0 {
            assert(tv[t] == stream_cells(rows@[t - 1]));
        }
    }
    // Column widths.
    let mut widths: Vec<usize> = vec![0, 0, 0, 0, 0, 0, 0];
    let mut t: usize = 0;
    while t < table.len()
        invariant
            t <= table@.len(),
            tv == table_view(table@),
            forall|u: int| 0 <= u < tv.len() ==> (#[trigger] tv[u]).len() == 7,
            widths@.len() == 7,
            forall|c: int| 0 <= c < 7 ==> widths@[c] == column_width(tv.take(t as int), c),
        decreases table@.len() - t,
    {
        assert(tv.take((t + 1) as int).drop_last() =~= tv.take(t as int));
        assert(tv.take((t + 1) as int).last() == tv[t as int]);
        let mut c: usize = 0;
        while c < 7
            invariant
                c <= 7,
                t < table@.len(),
                tv == table_view(table@),
                tv[t as int].len() == 7,
                tv.take((t + 1) as int).drop_last() == tv.take(t as int),
                tv.take((t + 1) as int).last() == tv[t as int],
                widths@.len() == 7,
                forall|d: int| 0 <= d < c ==> widths@[d] == column_width(tv.take((t + 1) as int), d),
                forall|d: int| c <= d < 7 ==> widths@[d] == column_width(tv.take(t as int), d),
            decreases 7 - c,
        {
            assert(table@[t as int]@.map_values(|x: String| x@)[c as int] == table@[t as int]@[c as int]@);
            let l = table[t][c].as_str().len();
            if l > widths[c] {
                widths.set(c, l);
            }
            c = c + 1;
        }
        t = t + 1;
    }
    assert(tv.take(table@.len() as int) =~= tv);
    let ghost wseq = Seq::new(7, |c: int| column_width(tv, c));
    // Lines.
    let mut out = String::new();
    let mut t: usize = 0;
    while t < table.len()
        invariant
            t <= table@.len(),
            tv == table_view(table@),
            forall|u: int| 0 <= u < tv.len() ==> (#[trigger] tv[u]).len() == 7,
            widths@.len() == 7,
            forall|c: int| 0 <= c < 7 ==> widths@[c] == wseq[c],
            wseq == Seq::new(7, |c: int| column_width(tv, c)),
            out@ == table_block(tv.take(t as int), wseq),
        decreases table@.len() - t,
    {
        assert(tv.take((t + 1) as int).drop_last() =~= tv.take(t as int));
        assert(tv.take((t + 1) as int).last() == tv[t as int]);
        let mut line = String::new();
        let mut c: usize = 0;
        while c < 7
            invariant
                c <= 7,
                t < table@.len(),
                tv == table_view(table@),
                tv[t as int].len() == 7,
                widths@.len() == 7,
                forall|d: int| 0 <= d < 7 ==> widths@[d] == wseq[d],
                line@ == joined_cells(tv[t as int], wseq, c as int),
            decreases 7 - c,
        {
            assert(table@[t as int]@.map_values(|x: String| x@)[c as int] == table@[t as int]@[c as int]@);
            if c > 0 {
                push_char(&mut line, ' ');
                push_char(&mut line, ' ');
            }
            push_padded(&mut line, table[t][c].as_str(), widths[c]);
            assert(line@ =~= joined_cells(tv[t as int], wseq, (c + 1) as int));
            c = c + 1;
        }
        let trimmed = trimmed_end(line.as_str());
        push_str(&mut out, trimmed.as_str());
        push_char(&mut out, '\n');
        assert(out@ =~= table_block(tv.take((t + 1) as int), wseq));
        t = t + 1;
    }
    assert(tv.take(table@.len() as int) =~= tv);
    trimmed_end(out.as_str())
}

/// Render a parsed reply as text: `error: message` for an error reply,
/// the column table for a `streams` list, the key/value view otherwise.
pub fn render_table(command: &str, v: &Json) -> (s: String)
    ensures
        s@ == table_text(command@, *v),
{
    let status = get_member(v, "status");
    let is_error = match status {
        Some(Json::Str(t)) => same_text(t.as_str(), "error"),
        _ => false,
    };
    if is_error {
        let mut s = literal("error: ");
        match get_member(v, "message") {
            Some(Json::Str(m)) => push_str(&mut s, m.as_str()),
            _ => push_str(&mut s, "(no message)"),
        }
        return s;
    }
    match get_member(v, "streams") {
        Some(Json::Array(rows)) => render_streams(rows),
        _ => render_kv(command, v),
    }
}

/// Render a control-socket reply for display.
pub fn render(command: &str, reply: &str, format: OutputFormat) -> (s: String)
    ensures
        s@ == rendered(command@, reply@, format),
{
    let value = match parse_json(reply) {
        Some(v) => v,
        // The control socket should always send JSON; if it somehow did
        // not, show the raw text rather than nothing.
        None => return trimmed_end(reply),
    };
    match format {
        OutputFormat::Json => match pretty_json(&value) {
            Some(t) => t,
            None => trimmed_end(reply),
        },
        OutputFormat::Table => render_table(command, &value),
    }
}

/// `secs` as `45s`, `1m15s` (under an hour) or `2h5m`.
pub open spec fn age_text(secs: u64) -> Seq<char> {
    if secs < 60 {
        decimal(secs as nat) + seq!['s']
    } else if secs < 3600 {
        decimal((secs / 60) as nat) + seq!['m'] + decimal((secs % 60) as nat) + seq!['s']
    } else {
        decimal((secs / 3600) as nat) + seq!['h'] + decimal(((secs % 3600) / 60) as nat) + seq!['m']
    }
}

/// `75` → `1m15s`, for the age column.
pub fn human_age(secs: u64) -> (s: String)
    ensures
        s@ == age_text(secs),
{
    let mut s = String::new();
    if secs < 60 {
        push_decimal(&mut s, secs);
        push_char(&mut s, 's');
    } else if secs < 3600 {
        push_decimal(&mut s, secs / 60);
        push_char(&mut s, 'm');
        push_decimal(&mut s, secs % 60);
        push_char(&mut s, 's');
    } else {
        push_decimal(&mut s, secs / 3600);
        push_char(&mut s, 'h');
        push_decimal(&mut s, (secs % 3600) / 60);
        push_char(&mut s, 'm');
    }
    assert(s@ =~= age_text(secs));
    s
}

/// An age of an hour or more reads `HhMm`: `H` whole hours, then the
/// `M` whole minutes left over, always below 60 — for every `H` and
/// `M` with `H*3600 + M*60 <= secs < H*3600 + (M+1)*60`.
pub proof fn lemma_age_hours_minutes(secs: u64, h: nat, m: nat)
    requires
        secs >= 3600,
        m < 60,
        h * 3600 + m * 60 <= secs,
        secs < h * 3600 + m * 60 + 60,
    ensures
        age_text(secs) == decimal(h) + seq!['h'] + decimal(m) + seq!['m'],
{
    let r: int = secs - h * 3600 - m * 60;
    vstd::arithmetic::div_mod::lemma_fundamental_div_mod_converse(secs as int, 3600, h as int, m * 60 + r);
    vstd::arithmetic::div_mod::lemma_fundamental_div_mod_converse(m * 60 + r, 60, m as int, r);
}

/// An age of a minute up to an hour reads `MmSs`: `M` whole minutes and
/// the `S` seconds left over, below 60 — for every `M` and `S` with
/// `secs == M*60 + S`.
pub proof fn lemma_age_minutes_seconds(secs: u64, m: nat, sec: nat)
    requires
        60 <= secs < 3600,
        sec < 60,
        secs == m * 60 + sec,
    ensures
        age_text(secs) == decimal(m) + seq!['m'] + decimal(sec) + seq!['s'],
{
    vstd::arithmetic::div_mod::lemma_fundamental_div_mod_converse(secs as int, 60, m as int, sec as int);
}

/// An age under a minute reads as its seconds and `s`.
pub proof fn lemma_age_seconds(secs: u64)
    requires
        secs < 60,
    ensures
        age_text(secs) == decimal(secs as nat) + seq!['s'],
{
}

/// The gap between neighbouring `f64` values around `n`: 1 below 2^53,
/// doubling with each power of two above.
pub open spec fn f64_spacing(n: nat) -> nat {
    if n < 0x20_0000_0000_0000 {
        1
    } else if n < 0x40_0000_0000_0000 {
        2
    } else if n < 0x80_0000_0000_0000 {
        4
    } else if n < 0x100_0000_0000_0000 {
        8
    } else if n < 0x200_0000_0000_0000 {
        16
    } else if n < 0x400_0000_0000_0000 {
        32
    } else if n < 0x800_0000_0000_0000 {
        64
    } else if n < 0x1000_0000_0000_0000 {
        128
    } else if n < 0x2000_0000_0000_0000 {
        256
    } else if n < 0x4000_0000_0000_0000 {
        512
    } else if n < 0x8000_0000_0000_0000 {
        1024
    } else {
        2048
    }
}

/// `num / den` rounded to the nearest integer, ties to the even one.
pub open spec fn round_half_even(num: nat, den: nat) -> nat {
    let q = num / den;
    let r = num % den;
    if 2 * r > den || (2 * r == den && q % 2 == 1) {
        q + 1
    } else {
        q
    }
}

/// The value of `n as f64`: `n` rounded to a multiple of the spacing
/// there, ties to the even multiple.
pub open spec fn f64_value(n: u64) -> nat {
    let p = f64_spacing(n as nat);
    round_half_even(n as nat, p) * p
}

/// The divisor for unit `u`: 1024^u.
pub open spec fn unit_scale(u: nat) -> nat {
    if u == 1 {
        0x400
    } else if u == 2 {
        0x10_0000
    } else if u == 3 {
        0x4000_0000
    } else {
        0x100_0000_0000
    }
}

/// The largest unit (up to `T`) whose scale does not exceed `n`.
pub open spec fn unit_of(n: u64) -> nat {
    if n < 0x400 {
        0
    } else if n < 0x10_0000 {
        1
    } else if n < 0x4000_0000 {
        2
    } else if n < 0x100_0000_0000 {
        3
    } else {
        4
    }
}

pub open spec fn unit_letter(u: nat) -> char {
    if u == 1 {
        'K'
    } else if u == 2 {
        'M'
    } else if u == 3 {
        'G'
    } else {
        'T'
    }
}

/// `n` bytes for the byte columns: `512B` below 1024; otherwise the
/// value `n as f64` divided by the largest power of 1024 (up to `T`)
/// not above it, with one decimal, ties to even: `1536` → `1.5K`.
pub open spec fn bytes_text(n: u64) -> Seq<char> {
    let u = unit_of(n);
    if u == 0 {
        decimal(n as nat) + seq!['B']
    } else {
        let q = round_half_even(10 * f64_value(n), unit_scale(u));
        decimal(q / 10) + seq!['.', digit_char(q % 10), unit_letter(u)]
    }
}

proof fn lemma_div_mul_le(n: nat, p: nat)
    requires
        p > 0,
    ensures
        (n / p) * p <= n,
        n - (n / p) * p == n % p,
        n % p < p,
{
    assert((n / p) * p <= n) by (nonlinear_arith)
        requires
            p > 0,
    {
        vstd::arithmetic::div_mod::lemma_fundamental_div_mod(n as int, p as int);
    }
    vstd::arithmetic::div_mod::lemma_fundamental_div_mod(n as int, p as int);
    assert(n as int == p * (n / p) + n % p);
    assert(p * (n / p) == (n / p) * p) by (nonlinear_arith);
}

/// `n as f64`, as an exact integer.
fn f64_of(n: u64) -> (f: u128)
    ensures
        f == f64_value(n),
        f <= 0x1_0000_0000_0000_0000,
{
    let p: u64 = if n < 0x20_0000_0000_0000 {
        1
    } else if n < 0x40_0000_0000_0000 {
        2
    } else if n < 0x80_0000_0000_0000 {
        4
    } else if n < 0x100_0000_0000_0000 {
        8
    } else if n < 0x200_0000_0000_0000 {
        16
    } else if n < 0x400_0000_0000_0000 {
        32
    } else if n < 0x800_0000_0000_0000 {
        64
    } else if n < 0x1000_0000_0000_0000 {
        128
    } else if n < 0x2000_0000_0000_0000 {
        256
    } else if n < 0x4000_0000_0000_0000 {
        512
    } else if n < 0x8000_0000_0000_0000 {
        1024
    } else {
        2048
    };
    assert(p as nat == f64_spacing(n as nat));
    let m = n / p;
    let r = n % p;
    proof {
        lemma_div_mul_le(n as nat, p as nat);
        assert(n < 0x20_0000_0000_0000 * (p as int));
        assert(m < 0x20_0000_0000_0000) by (nonlinear_arith)
            requires
                m * p <= n,
                n < 0x20_0000_0000_0000 * (p as int),
                p >= 1,
        ;
    }
    let m2: u64 = if 2 * (r as u128) > p as u128 || (2 * (r as u128) == p as u128 && m % 2 == 1) {
        m + 1
    } else {
        m
    };
    proof {
        assert(m2 * p <= 0x1_0000_0000_0000_0000) by (nonlinear_arith)
            requires
                m2 <= 0x20_0000_0000_0000,
                p <= 2048,
        ;
    }
    (m2 as u128) * (p as u128)
}

/// `1536` → `1.5K`, for the byte columns.
pub fn human_bytes(n: u64) -> (s: String)
    ensures
        s@ == bytes_text(n),
{
    let mut s = String::new();
    if n < 0x400 {
        push_decimal(&mut s, n);
        push_char(&mut s, 'B');
        assert(s@ =~= bytes_text(n));
        return s;
    }
    let (den, letter): (u128, char) = if n < 0x10_0000 {
        (0x400, 'K')
    } else if n < 0x4000_0000 {
        (0x10_0000, 'M')
    } else if n < 0x100_0000_0000 {
        (0x4000_0000, 'G')
    } else {
        (0x100_0000_0000, 'T')
    };
    assert(den == unit_scale(unit_of(n)) && letter == unit_letter(unit_of(n)));
    let f = f64_of(n);
    let num = f * 10;
    let q0 = num / den;
    let r = num % den;
    proof {
        lemma_div_mul_le(num as nat, den as nat);
        assert(q0 <= num) by (nonlinear_arith)
            requires
                q0 * den <= num,
                den >= 1,
        ;
    }
    let q: u128 = if 2 * r > den || (2 * r == den && q0 % 2 == 1) {
        q0 + 1
    } else {
        q0
    };
    assert(q == round_half_even(10 * f64_value(n), unit_scale(unit_of(n))));
    proof {
        assert(q0 <= num / 1024) by (nonlinear_arith)
            requires
                q0 == num / den,
                den >= 1024,
        ;
    }
    let whole = (q / 10) as u64;
    let tenth = (q % 10) as u64;
    push_decimal(&mut s, whole);
    push_char(&mut s, '.');
    push_char(&mut s, ((48 + tenth) as u8) as char);
    push_char(&mut s, letter);
    assert(s@ =~= bytes_text(n));
    s
}

} // verus!
