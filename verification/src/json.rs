//! JSON as the frozen files are read: a value model and a decoder for the
//! part of the JSON grammar (RFC 8259) made of strings, arrays and objects.
//! The laws about the generated files state what this decoder reads back.

use vstd::prelude::*;
use crate::text::join;
use crate::views::{json_char, json_chars, json_string};

verus! {

/// A JSON value built from strings, arrays and objects.
pub enum Json {
    /// A string.
    Str(Seq<char>),
    /// An array, in order.
    Arr(Seq<Json>),
    /// An object: its members in order.
    Obj(Seq<(Seq<char>, Json)>),
}

/// JSON insignificant whitespace.
pub open spec fn is_json_ws(c: char) -> bool {
    c == ' ' || c == '\n' || c == '\t' || c == '\r'
}

/// `s` without its leading whitespace.
pub open spec fn skip_jws(s: Seq<char>) -> Seq<char>
    decreases s.len(),
{
    if s.len() > 0 && is_json_ws(s[0]) {
        skip_jws(s.skip(1))
    } else {
        s
    }
}

/// The value of a hexadecimal digit.
pub open spec fn hex_value(c: char) -> Option<int> {
    if '0' <= c && c <= '9' {
        Some((c as u32) - ('0' as u32))
    } else if 'a' <= c && c <= 'f' {
        Some((c as u32) - ('a' as u32) + 10)
    } else if 'A' <= c && c <= 'F' {
        Some((c as u32) - ('A' as u32) + 10)
    } else {
        None
    }
}

/// The character a `\uXXXX` escape with digits `d` stands for (a surrogate
/// half is not read as a character).
pub open spec fn unicode_escape(d: Seq<char>) -> Option<char> {
    if d.len() != 4 {
        None
    } else {
        match (hex_value(d[0]), hex_value(d[1]), hex_value(d[2]), hex_value(d[3])) {
            (Some(a), Some(b), Some(c), Some(e)) => {
                let v = a * 4096 + b * 256 + c * 16 + e;
                if 0xD800 <= v && v <= 0xDFFF {
                    None
                } else {
                    Some(v as char)
                }
            },
            _ => None,
        }
    }
}

/// What the two-character escape `\c` stands for.
pub open spec fn simple_escape(c: char) -> Option<char> {
    if c == '"' {
        Some('"')
    } else if c == '\\' {
        Some('\\')
    } else if c == '/' {
        Some('/')
    } else if c == 'b' {
        Some('\u{8}')
    } else if c == 'f' {
        Some('\u{c}')
    } else if c == 'n' {
        Some('\n')
    } else if c == 'r' {
        Some('\r')
    } else if c == 't' {
        Some('\t')
    } else {
        None
    }
}

/// The decoded characters of a string literal whose opening quote has been
/// read, up to its closing quote, and what follows that quote.
pub open spec fn str_body(s: Seq<char>) -> Option<(Seq<char>, Seq<char>)>
    decreases s.len(),
{
    if s.len() == 0 {
        None
    } else if s[0] == '"' {
        Some((seq![], s.skip(1)))
    } else if s[0] == '\\' {
        if s.len() < 2 {
            None
        } else if s[1] == 'u' {
            if s.len() < 6 {
                None
            } else {
                match unicode_escape(s.subrange(2, 6)) {
                    Some(c) => match str_body(s.skip(6)) {
                        Some((b, r)) => Some((seq![c] + b, r)),
                        None => None,
                    },
                    None => None,
                }
            }
        } else {
            match simple_escape(s[1]) {
                Some(c) => match str_body(s.skip(2)) {
                    Some((b, r)) => Some((seq![c] + b, r)),
                    None => None,
                },
                None => None,
            }
        }
    } else if (s[0] as u32) < 0x20 {
        None
    } else {
        match str_body(s.skip(1)) {
            Some((b, r)) => Some((seq![s[0]] + b, r)),
            None => None,
        }
    }
}

/// One value read from the start of `s` (after leading whitespace), and
/// what follows it.
pub open spec fn parse_value(s: Seq<char>) -> Option<(Json, Seq<char>)>
    decreases s.len(), 0int,
{
    let t = skip_jws(s);
    if t.len() == 0 {
        None
    } else if t[0] == '"' {
        match str_body(t.skip(1)) {
            Some((x, r)) => Some((Json::Str(x), r)),
            None => None,
        }
    } else if t[0] == '[' {
        let u = skip_jws(t.skip(1));
        if u.len() > 0 && u[0] == ']' {
            Some((Json::Arr(seq![]), u.skip(1)))
        } else if u.len() < s.len() {
            match parse_elems(u) {
                Some((vs, r)) => Some((Json::Arr(vs), r)),
                None => None,
            }
        } else {
            None
        }
    } else if t[0] == '{' {
        let u = skip_jws(t.skip(1));
        if u.len() > 0 && u[0] == '}' {
            Some((Json::Obj(seq![]), u.skip(1)))
        } else if u.len() < s.len() {
            match parse_members(u) {
                Some((fs, r)) => Some((Json::Obj(fs), r)),
                None => None,
            }
        } else {
            None
        }
    } else {
        None
    }
}

/// The elements of a non-empty array whose `[` has been read, and what
/// follows its `]`.
pub open spec fn parse_elems(s: Seq<char>) -> Option<(Seq<Json>, Seq<char>)>
    decreases s.len(), 1int,
{
    match parse_value(s) {
        None => None,
        Some((v, r)) => {
            let r1 = skip_jws(r);
            if r1.len() > 0 && r1[0] == ']' {
                Some((seq![v], r1.skip(1)))
            } else if r1.len() > 0 && r1[0] == ',' && r1.len() <= s.len() {
                match parse_elems(r1.skip(1)) {
                    Some((vs, r2)) => Some((seq![v] + vs, r2)),
                    None => None,
                }
            } else {
                None
            }
        },
    }
}

/// The members of a non-empty object whose `{` has been read, and what
/// follows its `}`.
pub open spec fn parse_members(s: Seq<char>) -> Option<(Seq<(Seq<char>, Json)>, Seq<char>)>
    decreases s.len(), 1int,
{
    let t = skip_jws(s);
    if t.len() == 0 || t[0] != '"' {
        None
    } else {
        match str_body(t.skip(1)) {
            None => None,
            Some((k, r)) => {
                let r1 = skip_jws(r);
                if r1.len() > 0 && r1[0] == ':' && r1.len() <= s.len() {
                    match parse_value(r1.skip(1)) {
                        None => None,
                        Some((v, r2)) => {
                            let r3 = skip_jws(r2);
                            if r3.len() > 0 && r3[0] == '}' {
                                Some((seq![(k, v)], r3.skip(1)))
                            } else if r3.len() > 0 && r3[0] == ',' && r3.len() <= s.len() {
                                match parse_members(r3.skip(1)) {
                                    Some((fs, r4)) => Some((seq![(k, v)] + fs, r4)),
                                    None => None,
                                }
                            } else {
                                None
                            }
                        },
                    }
                } else {
                    None
                }
            },
        }
    }
}

/// `text` is one JSON value, `v`, with nothing but whitespace around it.
pub open spec fn decodes_to(text: Seq<char>, v: Json) -> bool {
    match parse_value(text) {
        Some((x, r)) => x == v && skip_jws(r).len() == 0,
        None => false,
    }
}

// ───────────────────────────── lemmas ─────────────────────────────

/// `text` reads as `v`, leaving whatever follows it.
pub open spec fn parses_as(text: Seq<char>, v: Json) -> bool {
    forall|r: Seq<char>| #[trigger] parse_value(text + r) == Some((v, r))
}

/// Characters that the generated files escape as two-character escapes or
/// copy: no control character other than newline, tab and carriage return.
pub open spec fn plain(s: Seq<char>) -> bool {
    forall|i: int|
        0 <= i < s.len() ==> !((#[trigger] s[i] as u32) < 0x20) || s[i] == '\n' || s[i] == '\t'
            || s[i] == '\r'
}

/// Skipping whitespace leaves a suffix.
pub proof fn lemma_skip_jws_len(s: Seq<char>)
    ensures
        skip_jws(s).len() <= s.len(),
        skip_jws(s) == s.skip(s.len() - skip_jws(s).len()),
    decreases s.len(),
{
    if s.len() > 0 && is_json_ws(s[0]) {
        lemma_skip_jws_len(s.skip(1));
        assert(s.skip(1).skip(s.len() - 1 - skip_jws(s.skip(1)).len()) =~= s.skip(
            s.len() - skip_jws(s.skip(1)).len(),
        ));
    } else {
        assert(s.skip(0) =~= s);
    }
}

/// Whitespace `w` in front of `t` is skipped.
pub proof fn lemma_skip_ws_prefix(w: Seq<char>, t: Seq<char>)
    requires
        forall|i: int| 0 <= i < w.len() ==> is_json_ws(#[trigger] w[i]),
    ensures
        skip_jws(w + t) == skip_jws(t),
    decreases w.len(),
{
    if w.len() > 0 {
        assert((w + t).skip(1) =~= w.skip(1) + t);
        assert(w[0] == (w + t)[0]);
        lemma_skip_ws_prefix(w.skip(1), t);
    } else {
        assert(w + t =~= t);
    }
}

/// Escaping distributes over concatenation.
pub proof fn lemma_json_chars_concat(a: Seq<char>, b: Seq<char>)
    ensures
        json_chars(a + b) == json_chars(a) + json_chars(b),
    decreases b.len(),
{
    if b.len() == 0 {
        assert(a + b =~= a);
    } else {
        lemma_json_chars_concat(a, b.drop_last());
        assert((a + b).drop_last() =~= a + b.drop_last());
        assert((a + b).last() == b.last());
    }
}

/// The escaped body of a plain string, then a quote, decodes back.
pub proof fn lemma_str_body(x: Seq<char>, r: Seq<char>)
    requires
        plain(x),
    ensures
        str_body(json_chars(x) + seq!['"'] + r) == Some((x, r)),
    decreases x.len(),
{
    if x.len() == 0 {
        assert(json_chars(x) + seq!['"'] + r =~= seq!['"'] + r);
        assert((seq!['"'] + r).skip(1) =~= r);
        assert(x =~= Seq::<char>::empty());
    } else {
        let c = x[0];
        let y = x.skip(1);
        assert(x =~= seq![c] + y);
        lemma_json_chars_concat(seq![c], y);
        assert(json_chars(seq![c]) =~= json_char(c)) by {
            assert(seq![c].drop_last() =~= Seq::<char>::empty());
            assert(json_chars(Seq::<char>::empty()) == Seq::<char>::empty());
            assert(seq![c].last() == c);
            assert(Seq::<char>::empty() + json_char(c) =~= json_char(c));
        }
        assert(plain(y)) by {
            assert forall|i: int| 0 <= i < y.len() implies !((#[trigger] y[i] as u32) < 0x20)
                || y[i] == '\n' || y[i] == '\t' || y[i] == '\r' by {
                assert(y[i] == x[i + 1]);
            }
        }
        lemma_str_body(y, r);
        let tail = json_chars(y) + seq!['"'] + r;
        let s = json_chars(x) + seq!['"'] + r;
        assert(s =~= json_char(c) + tail);
        assert(!((c as u32) < 0x20) || c == '\n' || c == '\t' || c == '\r') by {
            assert(c == x[0]);
        }
        if c == '"' || c == '\\' || c == '\n' || c == '\t' || c == '\r' {
            assert(json_char(c).len() == 2);
            assert(s.skip(2) =~= tail);
            assert(s[0] == '\\');
        } else {
            assert(json_char(c) == seq![c]);
            assert(s.skip(1) =~= tail);
            assert(s[0] == c);
        }
        assert(seq![c] + y =~= x);
    }
}

/// A plain string literal reads as that string.
pub proof fn lemma_string_parses(x: Seq<char>)
    requires
        plain(x),
    ensures
        parses_as(json_string(x), Json::Str(x)),
{
    assert forall|r: Seq<char>| #[trigger] parse_value(json_string(x) + r) == Some((Json::Str(x), r)) by {
        let s = json_string(x) + r;
        assert(s[0] == '"');
        assert(skip_jws(s) == s);
        lemma_str_body(x, r);
        assert(s.skip(1) =~= json_chars(x) + seq!['"'] + r);
    }
}

/// Every character of `w` is whitespace.
pub open spec fn all_ws(w: Seq<char>) -> bool {
    forall|i: int| 0 <= i < w.len() ==> is_json_ws(#[trigger] w[i])
}

/// One object member as text: the key's string literal, `: `, the value.
pub open spec fn member_text(m: (Seq<char>, Seq<char>)) -> Seq<char> {
    json_string(m.0) + seq![':', ' '] + m.1
}

/// The texts of members `ms`.
pub open spec fn member_texts(ms: Seq<(Seq<char>, Seq<char>)>) -> Seq<Seq<char>> {
    ms.map_values(|m: (Seq<char>, Seq<char>)| member_text(m))
}

/// An array as text: `[`, whitespace `wo`, the item texts separated by `,`
/// and whitespace `ws`, whitespace `wc`, `]`.
pub open spec fn arr_text(items: Seq<Seq<char>>, wo: Seq<char>, ws: Seq<char>, wc: Seq<char>) -> Seq<
    char,
> {
    seq!['['] + wo + join(items, seq![','] + ws) + wc + seq![']']
}

/// An object as text: `{`, whitespace `wo`, the member texts separated by
/// `,` and whitespace `ws`, whitespace `wc`, `}`.
pub open spec fn obj_text(
    ms: Seq<(Seq<char>, Seq<char>)>,
    wo: Seq<char>,
    ws: Seq<char>,
    wc: Seq<char>,
) -> Seq<char> {
    seq!['{'] + wo + join(member_texts(ms), seq![','] + ws) + wc + seq!['}']
}

/// The members `ms` (key, value text) with their read values `vals`.
pub open spec fn members_of(ms: Seq<(Seq<char>, Seq<char>)>, vals: Seq<Json>) -> Seq<
    (Seq<char>, Json),
> {
    Seq::new(ms.len(), |i: int| (ms[i].0, vals[i]))
}

/// `join` seen from the front.
pub proof fn lemma_join_front(parts: Seq<Seq<char>>, sep: Seq<char>)
    requires
        parts.len() >= 2,
    ensures
        join(parts, sep) == parts[0] + sep + join(parts.skip(1), sep),
    decreases parts.len(),
{
    if parts.len() == 2 {
        assert(parts.drop_last() =~= seq![parts[0]]);
        assert(parts.skip(1) =~= seq![parts[1]]);
        assert(join(seq![parts[0]], sep) == parts[0]);
        assert(join(seq![parts[1]], sep) == parts[1]);
        assert(join(parts, sep) == join(parts.drop_last(), sep) + sep + parts.last());
    } else {
        lemma_join_front(parts.drop_last(), sep);
        assert(parts.drop_last().skip(1) =~= parts.skip(1).drop_last());
        assert(parts.skip(1).last() == parts.last());
        assert(parts.drop_last()[0] == parts[0]);
        assert(join(parts, sep) == join(parts.drop_last(), sep) + sep + parts.last());
        assert(join(parts.skip(1), sep) == join(parts.skip(1).drop_last(), sep) + sep
            + parts.skip(1).last());
        assert(join(parts, sep) =~= parts[0] + sep + join(parts.skip(1), sep));
    }
}

/// Whitespace before a value is skipped.
pub proof fn lemma_value_ws(w: Seq<char>, t: Seq<char>)
    requires
        all_ws(w),
    ensures
        parse_value(w + t) == parse_value(t),
{
    lemma_skip_ws_prefix(w, t);
    let x = skip_jws(t);
    lemma_skip_jws_len(t);
    if x.len() > 0 {
        lemma_skip_jws_len(x.skip(1));
    }
}

/// A string starting with a non-whitespace character is not moved by
/// whitespace skipping.
pub proof fn lemma_skip_none(t: Seq<char>)
    requires
        t.len() > 0,
        !is_json_ws(t[0]),
    ensures
        skip_jws(t) == t,
{
}

/// `t` starts with the opening character of a string, array or object.
pub open spec fn starts_value(t: Seq<char>) -> bool {
    t.len() > 0 && (t[0] == '"' || t[0] == '[' || t[0] == '{')
}

/// Array elements written as text read as their values.
pub proof fn lemma_elems(
    items: Seq<Seq<char>>,
    vals: Seq<Json>,
    w: Seq<char>,
    ws: Seq<char>,
    wc: Seq<char>,
    r: Seq<char>,
)
    requires
        items.len() > 0,
        items.len() == vals.len(),
        all_ws(w),
        all_ws(ws),
        all_ws(wc),
        forall|i: int| 0 <= i < items.len() ==> parses_as(#[trigger] items[i], vals[i]),
    ensures
        parse_elems(w + join(items, seq![','] + ws) + wc + seq![']'] + r) == Some((vals, r)),
    decreases items.len(),
{
    let sep = seq![','] + ws;
    let x0 = items[0];
    let s = w + join(items, sep) + wc + seq![']'] + r;
    assert(parses_as(x0, vals[0]));
    if items.len() == 1 {
        assert(join(items, sep) == x0);
        let tail = wc + seq![']'] + r;
        assert(s =~= w + (x0 + tail));
        lemma_value_ws(w, x0 + tail);
        assert(parse_value(x0 + tail) == Some((vals[0], tail)));
        lemma_skip_ws_prefix(wc, seq![']'] + r);
        assert(wc + seq![']'] + r =~= wc + (seq![']'] + r));
        lemma_skip_none(seq![']'] + r);
        assert((seq![']'] + r).skip(1) =~= r);
        assert(vals =~= seq![vals[0]]);
    } else {
        lemma_join_front(items, sep);
        let rest = items.skip(1);
        let tail = sep + join(rest, sep) + wc + seq![']'] + r;
        assert(s =~= w + (x0 + tail));
        lemma_value_ws(w, x0 + tail);
        assert(parse_value(x0 + tail) == Some((vals[0], tail)));
        assert(tail[0] == ',');
        lemma_skip_none(tail);
        assert(tail.skip(1) =~= ws + join(rest, sep) + wc + seq![']'] + r);
        assert forall|i: int| 0 <= i < rest.len() implies parses_as(#[trigger] rest[i], vals.skip(1)[i]) by {
            assert(rest[i] == items[i + 1]);
            assert(parses_as(items[i + 1], vals[i + 1]));
        }
        lemma_elems(rest, vals.skip(1), ws, ws, wc, r);
        assert(seq![vals[0]] + vals.skip(1) =~= vals);
    }
}

/// An array written as text reads as the array of the items' values.
pub proof fn lemma_array(items: Seq<Seq<char>>, vals: Seq<Json>, wo: Seq<char>, ws: Seq<char>, wc: Seq<char>)
    requires
        items.len() == vals.len(),
        all_ws(wo),
        all_ws(ws),
        all_ws(wc),
        forall|i: int| 0 <= i < items.len() ==> parses_as(#[trigger] items[i], vals[i]),
        forall|i: int| 0 <= i < items.len() ==> starts_value(#[trigger] items[i]),
    ensures
        parses_as(arr_text(items, wo, ws, wc), Json::Arr(vals)),
{
    let sep = seq![','] + ws;
    assert forall|r: Seq<char>| #[trigger] parse_value(arr_text(items, wo, ws, wc) + r) == Some((Json::Arr(vals), r)) by {
        let s = arr_text(items, wo, ws, wc) + r;
        assert(s[0] == '[');
        lemma_skip_none(s);
        let body = wo + join(items, sep) + wc + seq![']'] + r;
        assert(s.skip(1) =~= body);
        if items.len() == 0 {
            assert(join(items, sep) == Seq::<char>::empty());
            assert(body =~= (wo + wc) + (seq![']'] + r));
            assert(all_ws(wo + wc)) by {
                assert forall|i: int| 0 <= i < (wo + wc).len() implies is_json_ws(#[trigger] (wo + wc)[i]) by {
                    if i < wo.len() {
                        assert((wo + wc)[i] == wo[i]);
                    } else {
                        assert((wo + wc)[i] == wc[i - wo.len()]);
                    }
                }
            }
            lemma_skip_ws_prefix(wo + wc, seq![']'] + r);
            lemma_skip_none(seq![']'] + r);
            assert((seq![']'] + r).skip(1) =~= r);
            assert(vals =~= Seq::<Json>::empty());
        } else {
            let inner = join(items, sep) + wc + seq![']'] + r;
            assert(body =~= wo + inner);
            lemma_skip_ws_prefix(wo, inner);
            if items.len() == 1 {
                assert(join(items, sep) == items[0]);
            } else {
                lemma_join_front(items, sep);
            }
            assert(inner[0] == items[0][0]);
            lemma_skip_none(inner);
            lemma_elems(items, vals, seq![], ws, wc, r);
            assert(Seq::<char>::empty() + join(items, sep) + wc + seq![']'] + r =~= inner);
            assert(all_ws(Seq::<char>::empty()));
        }
    }
}

/// Reading the first member `"k0": vt0` (after whitespace `w`) of a member
/// list: the steps `parse_members` takes up to the text that follows it.
proof fn lemma_first_member(k0: Seq<char>, vt0: Seq<char>, v0: Json, w: Seq<char>, tail: Seq<char>)
    requires
        plain(k0),
        parses_as(vt0, v0),
        all_ws(w),
    ensures
        ({
            let m0 = json_string(k0) + seq![':', ' '] + vt0;
            let after_key = seq![':', ' '] + vt0 + tail;
            &&& skip_jws(w + (m0 + tail)) == m0 + tail
            &&& (m0 + tail).len() > 0 && (m0 + tail)[0] == '"'
            &&& str_body((m0 + tail).skip(1)) == Some((k0, after_key))
            &&& skip_jws(after_key) == after_key
            &&& after_key[0] == ':'
            &&& after_key.len() <= (w + (m0 + tail)).len()
            &&& parse_value(after_key.skip(1)) == Some((v0, tail))
        }),
{
    let m0 = json_string(k0) + seq![':', ' '] + vt0;
    let after_key = seq![':', ' '] + vt0 + tail;
    lemma_skip_ws_prefix(w, m0 + tail);
    assert((m0 + tail)[0] == '"');
    lemma_skip_none(m0 + tail);
    lemma_str_body(k0, after_key);
    assert((m0 + tail).skip(1) =~= json_chars(k0) + seq!['"'] + after_key);
    lemma_skip_none(after_key);
    assert(after_key.skip(1) =~= seq![' '] + (vt0 + tail));
    assert(all_ws(seq![' ']));
    lemma_value_ws(seq![' '], vt0 + tail);
    assert(parse_value(vt0 + tail) == Some((v0, tail)));
}

/// Object members written as text read as their keys and values.
#[verifier::rlimit(40)]
pub proof fn lemma_members(
    ms: Seq<(Seq<char>, Seq<char>)>,
    vals: Seq<Json>,
    w: Seq<char>,
    ws: Seq<char>,
    wc: Seq<char>,
    r: Seq<char>,
)
    requires
        ms.len() > 0,
        ms.len() == vals.len(),
        all_ws(w),
        all_ws(ws),
        all_ws(wc),
        forall|i: int| 0 <= i < ms.len() ==> plain(#[trigger] ms[i].0),
        forall|i: int| 0 <= i < ms.len() ==> parses_as(#[trigger] ms[i].1, vals[i]),
    ensures
        parse_members(w + join(member_texts(ms), seq![','] + ws) + wc + seq!['}'] + r) == Some(
            (members_of(ms, vals), r),
        ),
    decreases ms.len(),
{
    let sep = seq![','] + ws;
    let texts = member_texts(ms);
    let (k0, vt0) = ms[0];
    assert(plain(k0) && parses_as(vt0, vals[0])) by {
        assert(plain(ms[0].0));
        assert(parses_as(ms[0].1, vals[0]));
    }
    let m0 = texts[0];
    assert(m0 == json_string(k0) + seq![':', ' '] + vt0);
    let tail = if ms.len() == 1 {
        wc + seq!['}'] + r
    } else {
        sep + join(texts.skip(1), sep) + wc + seq!['}'] + r
    };
    if ms.len() == 1 {
        assert(join(texts, sep) == m0);
    } else {
        lemma_join_front(texts, sep);
    }
    let s = w + join(texts, sep) + wc + seq!['}'] + r;
    assert(s =~= w + (m0 + tail));
    lemma_first_member(k0, vt0, vals[0], w, tail);
    if ms.len() == 1 {
        lemma_skip_ws_prefix(wc, seq!['}'] + r);
        assert(wc + seq!['}'] + r =~= wc + (seq!['}'] + r));
        lemma_skip_none(seq!['}'] + r);
        assert((seq!['}'] + r).skip(1) =~= r);
        assert(members_of(ms, vals) =~= seq![(k0, vals[0])]);
    } else {
        let rest = ms.skip(1);
        assert(texts.skip(1) =~= member_texts(rest));
        assert(tail[0] == ',');
        lemma_skip_none(tail);
        assert(tail.skip(1) =~= ws + join(member_texts(rest), sep) + wc + seq!['}'] + r);
        assert forall|i: int| 0 <= i < rest.len() implies plain(#[trigger] rest[i].0) by {
            assert(rest[i] == ms[i + 1]);
            assert(plain(ms[i + 1].0));
        }
        assert forall|i: int| 0 <= i < rest.len() implies parses_as(#[trigger] rest[i].1, vals.skip(1)[i]) by {
            assert(rest[i] == ms[i + 1]);
            assert(parses_as(ms[i + 1].1, vals[i + 1]));
        }
        lemma_members(rest, vals.skip(1), ws, ws, wc, r);
        assert(seq![(k0, vals[0])] + members_of(rest, vals.skip(1)) =~= members_of(ms, vals));
    }
}

/// An object written as text reads as the object of its keys and values.
pub proof fn lemma_object(
    ms: Seq<(Seq<char>, Seq<char>)>,
    vals: Seq<Json>,
    wo: Seq<char>,
    ws: Seq<char>,
    wc: Seq<char>,
)
    requires
        ms.len() > 0,
        ms.len() == vals.len(),
        all_ws(wo),
        all_ws(ws),
        all_ws(wc),
        forall|i: int| 0 <= i < ms.len() ==> plain(#[trigger] ms[i].0),
        forall|i: int| 0 <= i < ms.len() ==> parses_as(#[trigger] ms[i].1, vals[i]),
    ensures
        parses_as(obj_text(ms, wo, ws, wc), Json::Obj(members_of(ms, vals))),
{
    let sep = seq![','] + ws;
    let texts = member_texts(ms);
    assert forall|r: Seq<char>| #[trigger] parse_value(obj_text(ms, wo, ws, wc) + r) == Some(
        (Json::Obj(members_of(ms, vals)), r),
    ) by {
        let s = obj_text(ms, wo, ws, wc) + r;
        assert(s[0] == '{');
        lemma_skip_none(s);
        let inner = join(texts, sep) + wc + seq!['}'] + r;
        assert(s.skip(1) =~= wo + inner);
        lemma_skip_ws_prefix(wo, inner);
        if ms.len() == 1 {
            assert(join(texts, sep) == texts[0]);
        } else {
            lemma_join_front(texts, sep);
        }
        assert(inner[0] == '"');
        lemma_skip_none(inner);
        lemma_members(ms, vals, seq![], ws, wc, r);
        assert(Seq::<char>::empty() + join(texts, sep) + wc + seq!['}'] + r =~= inner);
        assert(all_ws(Seq::<char>::empty()));
    }
}

} // verus!
