//! Schema extraction — the "what the data is" input layer.
//!
//! Best-effort discovery of a table's columns by parsing its model `struct` from
//! the project's Rust source, then mapping each Rust field type to the view
//! editor's vocabulary (text / number / timestamp / uuid / enum / …). This feeds
//! two consumers: the Adaptive View Editor (so it lists real fields) and
//! `views::lint` (so field names are validated against real columns).
//!
//! It reads source rather than compiling it; a model it cannot parse degrades
//! to "columns unknown".

use vstd::prelude::*;
use crate::nav::{all_name_chars, strip_comments, strip_line_comments, type_name_ok};
use crate::unicode::{alnum, is_alphanumeric};
use crate::views::{json_chars, json_str, json_string};
use crate::json::{
    all_ws, arr_text, decodes_to, is_json_ws, lemma_array, lemma_object, lemma_string_parses,
    member_texts, members_of, obj_text, parse_value, parses_as, plain, skip_jws, starts_value,
    Json,
};
use crate::text::{
    after_last, after_last_of, ascii_lower, ascii_lowered, char_is_ws, chars_of, contains,
    contains_str, eq, eq_str, find, find_at, find_char_at, find_from, find_in, is_ws, join,
    lemma_chars_deep, lemma_find_from, lemma_push_deep, occurs_at, push_all, push_str, slice_copy,
    split, split_on, starts_with, starts_with_str, string_of, trim, trim_end_char,
    trim_start_matches, trimmed, trimmed_end_char, trimmed_start_matches,
};

verus! {

broadcast use lemma_chars_deep;

/// A discovered column: a field name and its inferred view type.
pub struct Column {
    /// The struct field name.
    pub name: String,
    /// The view type: text | number | timestamp | uuid | enum | boolean | email | phone.
    pub ty: String,
}

/// The model of a `Column`.
pub struct ColumnModel {
    /// The field name.
    pub name: Seq<char>,
    /// The view type.
    pub ty: Seq<char>,
}

impl DeepView for Column {
    type V = ColumnModel;

    open spec fn deep_view(&self) -> ColumnModel {
        ColumnModel { name: self.name@, ty: self.ty@ }
    }
}

// ───────────────────────────── type vocabulary ─────────────────────────────

/// The inner type a field's type is judged by: leading `&`s (references) are
/// dropped, then `Option<T>` / `Vec<T>` are unwrapped, trailing `>`s dropped.
pub open spec fn inner_type(ty: Seq<char>) -> Seq<char> {
    let a = trim(trim_start_matches(trim(ty), seq!['&']));
    if starts_with(a, "Option<"@) {
        trim(trim_end_char(a.skip(7), '>'))
    } else if starts_with(a, "Vec<"@) {
        trim(trim_end_char(a.skip(4), '>'))
    } else {
        a
    }
}

/// The Rust numeric type names (and `Decimal`).
pub open spec fn is_number_type(t: Seq<char>) -> bool {
    ||| t == "i8"@ || t == "i16"@ || t == "i32"@ || t == "i64"@ || t == "i128"@ || t == "isize"@
    ||| t == "u8"@ || t == "u16"@ || t == "u32"@ || t == "u64"@ || t == "u128"@ || t == "usize"@
    ||| t == seq!['f', '3', '2'] || t == seq!['f', '6', '4']
    ||| t == "Decimal"@
}

/// The view type of a Rust field type.
pub open spec fn rust_type_kind(ty: Seq<char>) -> Seq<char> {
    let last = after_last(inner_type(ty), "::"@);
    let lower = ascii_lower(last);
    if contains(lower, "datetime"@) || contains(lower, "timestamp"@) || lower == "date"@ || lower
        == "time"@ || lower == "naivedatetime"@ || lower == "naivedate"@ {
        "timestamp"@
    } else if contains(lower, "uuid"@) {
        "uuid"@
    } else if last == "bool"@ {
        "boolean"@
    } else if is_number_type(last) {
        "number"@
    } else if contains(lower, "email"@) {
        "email"@
    } else if contains(lower, "phone"@) {
        "phone"@
    } else {
        "text"@
    }
}

// ───────────────────────────── struct bodies ─────────────────────────────

/// Index of the `}` that closes a brace open at depth `depth`, scanning from `i`.
pub open spec fn close_brace(s: Seq<char>, i: int, depth: nat) -> Option<int>
    decreases s.len() - i,
{
    if i < 0 || i >= s.len() {
        None
    } else if s[i] == '{' {
        close_brace(s, i + 1, depth + 1)
    } else if s[i] == '}' {
        if depth <= 1 {
            Some(i)
        } else {
            close_brace(s, i + 1, (depth - 1) as nat)
        }
    } else {
        close_brace(s, i + 1, depth)
    }
}

/// Index just past the `]` that closes an attribute open at depth `depth`,
/// scanning from `i` (the end of `s` when it never closes).
pub open spec fn attr_end(s: Seq<char>, i: int, depth: nat) -> int
    decreases s.len() - i,
{
    if i < 0 || i >= s.len() {
        s.len() as int
    } else if s[i] == '[' {
        attr_end(s, i + 1, depth + 1)
    } else if s[i] == ']' {
        if depth <= 1 {
            i + 1
        } else {
            attr_end(s, i + 1, (depth - 1) as nat)
        }
    } else {
        attr_end(s, i + 1, depth)
    }
}

/// `attr_end` moves forward and stays within `s`.
pub proof fn lemma_attr_end(s: Seq<char>, i: int, depth: nat)
    requires
        0 <= i <= s.len(),
    ensures
        i <= attr_end(s, i, depth) <= s.len(),
    decreases s.len() - i,
{
    if i < s.len() {
        if s[i] == '[' {
            lemma_attr_end(s, i + 1, depth + 1);
        } else if s[i] == ']' {
            if depth > 1 {
                lemma_attr_end(s, i + 1, (depth - 1) as nat);
            }
        } else {
            lemma_attr_end(s, i + 1, depth);
        }
    }
}

/// `s` from index `i` on with every `#[…]` attribute span removed (brackets
/// balanced, so commas inside an attribute go with it).
pub open spec fn strip_attrs_from(s: Seq<char>, i: int) -> Seq<char>
    decreases s.len() - i,
{
    if i < 0 || i >= s.len() {
        seq![]
    } else if s[i] == '#' && i + 1 < s.len() && s[i + 1] == '[' {
        proof {
            lemma_attr_end(s, i + 2, 1);
        }
        strip_attrs_from(s, attr_end(s, i + 2, 1))
    } else {
        seq![s[i]] + strip_attrs_from(s, i + 1)
    }
}

/// A character that can continue a Rust identifier.
pub open spec fn is_ident_char(c: char) -> bool {
    alnum(c) || c == '_'
}

/// The first occurrence of `needle` at or after `i` in `code` that is not
/// followed by an identifier character (so `struct Order` does not match the
/// start of `struct OrderItem`).
pub open spec fn whole_at(code: Seq<char>, needle: Seq<char>, i: int) -> Option<int>
    decreases code.len() + 1 - i,
{
    match find_from(code, needle, i) {
        None => None,
        Some(p) => if i <= p <= code.len() {
            let e = p + needle.len();
            if 0 <= e < code.len() && is_ident_char(code[e]) {
                whole_at(code, needle, p + 1)
            } else {
                Some(p)
            }
        } else {
            None
        },
    }
}

/// The body (between the braces) of `struct <model>` in comment-free `code`,
/// where the name after `struct ` is exactly `model`.
pub open spec fn struct_body(code: Seq<char>, model: Seq<char>) -> Option<Seq<char>> {
    let needle = "struct "@ + model;
    match whole_at(code, needle, 0) {
        None => None,
        Some(start) => match find_from(code, seq!['{'], start + needle.len()) {
            None => None,
            Some(open) => {
                let bs = open + 1;
                let end = match close_brace(code, bs, 1) {
                    Some(e) => e,
                    None => bs,
                };
                Some(code.subrange(bs, end))
            },
        },
    }
}

/// `t` without a leading visibility: the word `pub`, or `pub(…)` up to its
/// closing parenthesis.
pub open spec fn strip_vis(t: Seq<char>) -> Seq<char> {
    if starts_with(t, "pub("@) {
        match find(t, seq![')']) {
            Some(k) => trim(t.skip(k + 1)),
            None => t,
        }
    } else if starts_with(t, "pub"@) && (t.len() == 3 || is_ws(t[3])) {
        trim(t.skip(3))
    } else {
        t
    }
}

/// The field name of a `name: Type` line whose first `:` is at `colon`.
pub open spec fn field_name(line: Seq<char>, colon: int) -> Seq<char> {
    strip_vis(trim(line.take(colon)))
}

/// The column one comma-separated piece of a struct body declares, if any.
pub open spec fn field_of(raw: Seq<char>) -> Option<ColumnModel> {
    let line = trim(raw);
    if line.len() == 0 || line[0] == '#' {
        None
    } else {
        match find(line, seq![':']) {
            None => None,
            Some(c) => {
                let name = field_name(line, c);
                if type_name_ok(name) {
                    Some(ColumnModel { name, ty: rust_type_kind(trim(line.skip(c + 1))) })
                } else {
                    None
                }
            },
        }
    }
}

/// The columns the first `n` pieces declare, in order.
pub open spec fn fields_of(pieces: Seq<Seq<char>>, n: int) -> Seq<ColumnModel>
    decreases n,
{
    if n <= 0 || n > pieces.len() {
        seq![]
    } else {
        fields_of(pieces, n - 1) + match field_of(pieces[n - 1]) {
            Some(c) => seq![c],
            None => seq![],
        }
    }
}

/// The columns of `struct <model>` in `src` (empty when it is not found).
pub open spec fn columns_of(src: Seq<char>, model: Seq<char>) -> Seq<ColumnModel> {
    match struct_body(strip_line_comments(src), model) {
        None => seq![],
        Some(body) => {
            let pieces = split(strip_attrs_from(body, 0), ',');
            fields_of(pieces, pieces.len() as int)
        },
    }
}

// ───────────────────────────── JSON ─────────────────────────────

/// One column as a JSON line; `more` adds the separating comma.
pub open spec fn column_line(c: ColumnModel, more: bool) -> Seq<char> {
    "    { \"name\": "@ + json_string(c.name) + ", \"type\": "@ + json_string(c.ty) + " }"@ + (if more {
        seq![',']
    } else {
        seq![]
    }) + seq!['\n']
}

/// The JSON lines of the first `n` of `cols`.
pub open spec fn column_lines(cols: Seq<ColumnModel>, n: int) -> Seq<char>
    decreases n,
{
    if n <= 0 || n > cols.len() {
        seq![]
    } else {
        column_lines(cols, n - 1) + column_line(cols[n - 1], n < cols.len())
    }
}

/// The view-editor schema file for `cols` of `table` in `project`.
pub open spec fn schema_json(project: Seq<char>, table: Seq<char>, cols: Seq<ColumnModel>) -> Seq<
    char,
> {
    "{\n"@ + "  \"project\": "@ + json_string(project) + ",\n"@ + "  \"table\": "@ + json_string(table)
        + ",\n"@ + "  \"columns\": [\n"@ + column_lines(cols, cols.len() as int) + "  ],\n"@
        + "  \"sample\": []\n"@ + "}\n"@
}

// ───────────────────────────── executable ─────────────────────────────

/// Map a Rust type to the view editor's type vocabulary (best-effort).
pub fn map_rust_type(ty: &str) -> (r: &'static str)
    ensures
        r@ == rust_type_kind(ty@),
{
    let tyv = chars_of(ty);
    let t = trimmed(&tyv);
    let amp = vec!['&'];
    let a0 = trimmed_start_matches(&t, &amp);
    let a = trimmed(&a0);
    proof {
        reveal_strlit("Option<");
        reveal_strlit("Vec<");
    }
    assert(amp@ == seq!['&']);
    let inner = if starts_with_str(&a, "Option<") {
        let rest = slice_copy(&a, 7, a.len());
        assert(rest@ == a@.skip(7));
        let cut = trimmed_end_char(&rest, '>');
        trimmed(&cut)
    } else if starts_with_str(&a, "Vec<") {
        let rest = slice_copy(&a, 4, a.len());
        assert(rest@ == a@.skip(4));
        let cut = trimmed_end_char(&rest, '>');
        trimmed(&cut)
    } else {
        a
    };
    assert(inner@ == inner_type(ty@));
    let sep = vec![':', ':'];
    proof {
        reveal_strlit("::");
    }
    assert(sep@ == "::"@);
    let last = after_last_of(&inner, &sep);
    let lower = ascii_lowered(&last);
    if contains_str(&lower, "datetime") || contains_str(&lower, "timestamp") || eq_str(&lower, "date")
        || eq_str(&lower, "time") || eq_str(&lower, "naivedatetime") || eq_str(
        &lower,
        "naivedate",
    ) {
        "timestamp"
    } else if contains_str(&lower, "uuid") {
        "uuid"
    } else if eq_str(&last, "bool") {
        "boolean"
    } else if is_number_name(&last) {
        "number"
    } else if contains_str(&lower, "email") {
        "email"
    } else if contains_str(&lower, "phone") {
        "phone"
    } else {
        "text"
    }
}

/// Whether `t` names a Rust numeric type (or `Decimal`).
fn is_number_name(t: &[char]) -> (r: bool)
    ensures
        r == is_number_type(t@),
{
    let f32_name = vec!['f', '3', '2'];
    let f64_name = vec!['f', '6', '4'];
    eq_str(t, "i8") || eq_str(t, "i16") || eq_str(t, "i32") || eq_str(t, "i64") || eq_str(
        t,
        "i128",
    ) || eq_str(t, "isize") || eq_str(t, "u8") || eq_str(t, "u16") || eq_str(t, "u32") || eq_str(
        t,
        "u64",
    ) || eq_str(t, "u128") || eq_str(t, "usize") || eq(t, &f32_name) || eq(t, &f64_name)
        || eq_str(t, "Decimal")
}

/// Remove `#[…]` attribute spans from a struct body, with balanced-bracket
/// tracking so commas inside an attribute (`choices = ["a", "b"]`) don't leak
/// into field parsing.
fn strip_attributes(s: &[char]) -> (r: Vec<char>)
    ensures
        r@ == strip_attrs_from(s@, 0),
{
    let mut out: Vec<char> = Vec::new();
    let mut i: usize = 0;
    while i < s.len()
        invariant
            i <= s.len(),
            out@ + strip_attrs_from(s@, i as int) == strip_attrs_from(s@, 0),
        decreases s.len() - i,
    {
        if s[i] == '#' && i + 1 < s.len() && s[i + 1] == '[' {
            let mut j: usize = i + 2;
            let mut depth: usize = 1;
            proof {
                lemma_attr_end(s@, j as int, 1);
            }
            loop
                invariant_except_break
                    attr_end(s@, j as int, depth as nat) == attr_end(s@, i + 2, 1),
                invariant
                    i + 2 <= j <= s.len(),
                    1 <= depth <= j,
                    i < s.len(),
                ensures
                    j == attr_end(s@, i + 2, 1),
                    j <= s.len(),
                decreases s.len() - j,
            {
                if j >= s.len() {
                    break;
                }
                let d = s[j];
                if d == '[' {
                    depth += 1;
                } else if d == ']' {
                    if depth == 1 {
                        j += 1;
                        break;
                    }
                    depth -= 1;
                }
                j += 1;
            }
            i = j;
        } else {
            out.push(s[i]);
            i += 1;
        }
    }
    out
}

/// Parse `src` for `struct <model> { … }` and return its fields as columns.
///
/// Line comments and attribute spans (`#[…]`) are skipped; a leading `pub` /
/// `pub(…)` visibility is stripped; references are looked through;
/// `Option<T>` is unwrapped to `T`. Returns empty if the struct is not found.
pub fn model_columns(src: &str, model: &str) -> (r: Vec<Column>)
    ensures
        r.deep_view() == columns_of(src@, model@),
{
    let s = chars_of(src);
    let code = strip_comments(&s);
    let mut needle: Vec<char> = Vec::new();
    push_str(&mut needle, "struct ");
    push_str(&mut needle, model);
    let start = match find_whole(&code, &needle) {
        Some(k) => k,
        None => {
            let empty: Vec<Column> = Vec::new();
            assert(empty.deep_view() =~= Seq::<ColumnModel>::empty());
            return empty;
        },
    };
    let nl = needle.len();
    assert(occurs_at(code@, needle@, start as int));
    assert(start + nl <= code.len());
    let after = start + nl;
    let open = match find_char_at(&code, '{', after) {
        Some(k) => k,
        None => {
            let empty: Vec<Column> = Vec::new();
            assert(empty.deep_view() =~= Seq::<ColumnModel>::empty());
            return empty;
        },
    };
    proof {
        lemma_find_from(code@, seq!['{'], after as int);
    }
    assert(occurs_at(code@, seq!['{'], open as int));
    assert(open < code.len());
    let bs = open + 1;
    let end = matching_brace(&code, bs);
    let raw = slice_copy(&code, bs, end);
    let body = strip_attributes(&raw);
    let pieces = split_on(&body, ',');
    let ghost pv = pieces.deep_view();
    let mut out: Vec<Column> = Vec::new();
    assert(out.deep_view() =~= Seq::<ColumnModel>::empty());
    let mut i: usize = 0;
    while i < pieces.len()
        invariant
            i <= pieces.len(),
            pv == pieces.deep_view(),
            out.deep_view() == fields_of(pv, i as int),
        decreases pieces.len() - i,
    {
        assert(pieces[i as int]@ == pv[i as int]);
        match field_from(&pieces[i]) {
            Some(col) => {
                let ghost before = out;
                let ghost cg = col;
                out.push(col);
                proof {
                    lemma_push_deep(before, out, cg);
                }
            },
            None => {},
        }
        i += 1;
    }
    out
}

/// The first occurrence of `needle` in `code` not followed by an identifier
/// character.
fn find_whole(code: &[char], needle: &[char]) -> (r: Option<usize>)
    ensures
        r matches Some(p) ==> whole_at(code@, needle@, 0) == Some(p as int) && occurs_at(
            code@,
            needle@,
            p as int,
        ),
        r is None ==> whole_at(code@, needle@, 0) is None,
{
    let mut i: usize = 0;
    loop
        invariant
            i <= code.len() + 1,
            whole_at(code@, needle@, i as int) == whole_at(code@, needle@, 0),
        decreases code.len() + 1 - i,
    {
        if i > code.len() {
            proof {
                lemma_find_from(code@, needle@, i as int);
                if let Some(p) = find_from(code@, needle@, i as int) {
                    assert(occurs_at(code@, needle@, p));
                }
            }
            return None;
        }
        match find_at(code, needle, i) {
            None => return None,
            Some(p) => {
                proof {
                    lemma_find_from(code@, needle@, i as int);
                }
                assert(occurs_at(code@, needle@, p as int));
                let n = needle.len();
                assert(p + n <= code.len());
                let e = p + n;
                if e < code.len() && (is_alphanumeric(code[e]) || code[e] == '_') {
                    i = p + 1;
                } else {
                    return Some(p);
                }
            },
        }
    }
}

/// Index of the `}` closing the brace opened just before `start` (or `start`
/// itself when it never closes).
fn matching_brace(s: &[char], start: usize) -> (e: usize)
    requires
        1 <= start <= s.len(),
    ensures
        e == match close_brace(s@, start as int, 1) {
            Some(k) => k,
            None => start as int,
        },
        start <= e <= s.len(),
{
    let mut depth: usize = 1;
    let mut i: usize = start;
    while i < s.len()
        invariant
            start <= i <= s.len(),
            1 <= start,
            1 <= depth,
            depth + start <= i + 1,
            close_brace(s@, i as int, depth as nat) == close_brace(s@, start as int, 1),
        decreases s.len() - i,
    {
        if s[i] == '{' {
            depth += 1;
        } else if s[i] == '}' {
            if depth == 1 {
                return i;
            }
            depth -= 1;
        }
        i += 1;
    }
    start
}

/// `t` without a leading `pub` or `pub(…)` visibility.
fn without_visibility(t: &[char]) -> (r: Vec<char>)
    ensures
        r@ == strip_vis(t@),
{
    proof {
        reveal_strlit("pub(");
        reveal_strlit("pub");
    }
    if starts_with_str(t, "pub(") {
        let close = vec![')'];
        match find_in(t, &close) {
            Some(k) => {
                proof {
                    lemma_find_from(t@, close@, 0);
                }
                assert(close@ == seq![')']);
                assert(occurs_at(t@, close@, k as int));
                let n = close.len();
                assert(k + n <= t.len());
                let rest = slice_copy(t, k + n, t.len());
                assert(rest@ == t@.skip(k + 1));
                return trimmed(&rest);
            },
            None => {
                assert(close@ == seq![')']);
                return slice_copy(t, 0, t.len());
            },
        }
    }
    if starts_with_str(t, "pub") && (t.len() == 3 || char_is_ws(t[3])) {
        let rest = slice_copy(t, 3, t.len());
        assert(rest@ == t@.skip(3));
        return trimmed(&rest);
    }
    slice_copy(t, 0, t.len())
}

/// The column one comma-separated piece of a struct body declares, if any.
fn field_from(raw: &[char]) -> (r: Option<Column>)
    ensures
        match r {
            Some(c) => field_of(raw@) == Some(c.deep_view()),
            None => field_of(raw@) is None,
        },
{
    let line = trimmed(raw);
    if line.len() == 0 || line[0] == '#' {
        return None;
    }
    let colon = match find_char_at(&line, ':', 0) {
        Some(c) => c,
        None => return None,
    };
    proof {
        lemma_find_from(line@, seq![':'], 0);
    }
    let head = slice_copy(&line, 0, colon);
    let h1 = trimmed(&head);
    let name = without_visibility(&h1);
    assert(name@ == field_name(line@, colon as int)) by {
        assert(head@ == line@.take(colon as int));
    }
    if name.len() == 0 || !all_name_chars(&name) {
        return None;
    }
    let tail = slice_copy(&line, colon + 1, line.len());
    let ty_text = trimmed(&tail);
    let ty_string = string_of(&ty_text);
    let kind = map_rust_type(ty_string.as_str());
    let kind_chars = chars_of(kind);
    assert(tail@ == line@.skip(colon + 1));
    Some(Column { name: string_of(&name), ty: string_of(&kind_chars) })
}

/// A JSON string literal, with quotes, backslashes and control characters
/// escaped.
fn j(s: &str) -> (r: Vec<char>)
    ensures
        r@ == json_string(s@),
{
    json_str(s)
}

/// One column as its JSON line.
fn column_json_line(c: &Column, more: bool) -> (out: Vec<char>)
    ensures
        out@ == column_line(c.deep_view(), more),
{
    let mut out: Vec<char> = Vec::new();
    push_str(&mut out, "    { \"name\": ");
    let n = j(c.name.as_str());
    push_all(&mut out, &n);
    push_str(&mut out, ", \"type\": ");
    let t = j(c.ty.as_str());
    push_all(&mut out, &t);
    push_str(&mut out, " }");
    if more {
        out.push(',');
    }
    out.push('\n');
    out
}

/// Render columns as a view-editor schema file (JSON), ready to drop into the
/// editor's `data/schemas/<project>/<table>.json`.
pub fn columns_json(project: &str, table: &str, cols: &[Column]) -> (s: String)
    ensures
        s@ == schema_json(project@, table@, cols.deep_view()),
{
    let ghost cv = cols.deep_view();
    let mut out: Vec<char> = Vec::new();
    push_str(&mut out, "{\n");
    push_str(&mut out, "  \"project\": ");
    let p = j(project);
    push_all(&mut out, &p);
    push_str(&mut out, ",\n");
    push_str(&mut out, "  \"table\": ");
    let t = j(table);
    push_all(&mut out, &t);
    push_str(&mut out, ",\n");
    push_str(&mut out, "  \"columns\": [\n");
    let ghost pre = out@;
    let n = cols.len();
    let mut i: usize = 0;
    while i < n
        invariant
            i <= n,
            n == cols.len(),
            cv == cols.deep_view(),
            out@ == pre + column_lines(cv, i as int),
        decreases n - i,
    {
        assert(cols[i as int].deep_view() == cv[i as int]);
        let line = column_json_line(&cols[i], i + 1 < n);
        push_all(&mut out, &line);
        i += 1;
    }
    push_str(&mut out, "  ],\n");
    push_str(&mut out, "  \"sample\": []\n");
    push_str(&mut out, "}\n");
    string_of(&out)
}

// ───────────────────────────── laws ─────────────────────────────

/// The view types a column can have.
pub open spec fn is_view_type(t: Seq<char>) -> bool {
    ||| t == "text"@
    ||| t == "number"@
    ||| t == "timestamp"@
    ||| t == "uuid"@
    ||| t == "boolean"@
    ||| t == "email"@
    ||| t == "phone"@
}

/// Every column read from the first `n` pieces is well formed.
proof fn lemma_fields_well_formed(pieces: Seq<Seq<char>>, n: int)
    ensures
        forall|k: int|
            0 <= k < fields_of(pieces, n).len() ==> type_name_ok(
                (#[trigger] fields_of(pieces, n)[k]).name,
            ) && is_view_type(fields_of(pieces, n)[k].ty),
    decreases n,
{
    if 0 < n <= pieces.len() {
        lemma_fields_well_formed(pieces, n - 1);
        let prev = fields_of(pieces, n - 1);
        let here: Seq<ColumnModel> = match field_of(pieces[n - 1]) {
            Some(c) => seq![c],
            None => seq![],
        };
        assert forall|k: int| 0 <= k < (prev + here).len() implies type_name_ok(
            (#[trigger] (prev + here)[k]).name,
        ) && is_view_type((prev + here)[k].ty) by {
            if k < prev.len() {
                assert((prev + here)[k] == prev[k]);
            }
        }
    }
}

/// Every extracted column has a bare identifier as its name and one of the
/// view editor's types (text, number, timestamp, uuid, boolean, email, phone).
pub proof fn law_columns_are_well_formed(src: Seq<char>, model: Seq<char>)
    ensures
        forall|k: int|
            0 <= k < columns_of(src, model).len() ==> type_name_ok(
                (#[trigger] columns_of(src, model)[k]).name,
            ) && is_view_type(columns_of(src, model)[k].ty),
{
    match struct_body(strip_line_comments(src), model) {
        None => {},
        Some(body) => {
            let pieces = split(strip_attrs_from(body, 0), ',');
            lemma_fields_well_formed(pieces, pieces.len() as int);
        },
    }
}

// ───────────────────────────── the schema file as JSON ─────────────────────────────

/// A column's object, as written on its line.
pub open spec fn column_obj(c: ColumnModel) -> Seq<char> {
    obj_text(
        seq![("name"@, json_string(c.name)), ("type"@, json_string(c.ty))],
        seq![' '],
        seq![' '],
        seq![' '],
    )
}

/// What a column reads back as.
pub open spec fn column_value(c: ColumnModel) -> Json {
    Json::Obj(seq![("name"@, Json::Str(c.name)), ("type"@, Json::Str(c.ty))])
}

/// Each column's object.
pub open spec fn column_objs(cols: Seq<ColumnModel>) -> Seq<Seq<char>> {
    cols.map_values(|c: ColumnModel| column_obj(c))
}

/// What each column reads back as.
pub open spec fn column_values(cols: Seq<ColumnModel>) -> Seq<Json> {
    cols.map_values(|c: ColumnModel| column_value(c))
}

/// The `columns` array, as written.
pub open spec fn columns_text(cols: Seq<ColumnModel>) -> Seq<char> {
    if cols.len() == 0 {
        arr_text(seq![], seq!['\n'], seq!['\n', ' ', ' ', ' ', ' '], seq![' ', ' '])
    } else {
        arr_text(
            column_objs(cols),
            seq!['\n', ' ', ' ', ' ', ' '],
            seq!['\n', ' ', ' ', ' ', ' '],
            seq!['\n', ' ', ' '],
        )
    }
}

/// The members of the schema file's object, as (key, value text).
pub open spec fn schema_members(project: Seq<char>, table: Seq<char>, cols: Seq<ColumnModel>) -> Seq<
    (Seq<char>, Seq<char>),
> {
    seq![
        ("project"@, json_string(project)),
        ("table"@, json_string(table)),
        ("columns"@, columns_text(cols)),
        ("sample"@, arr_text(seq![], seq![], seq![], seq![])),
    ]
}

/// What the schema file reads back as: one object with, in order, `project`,
/// `table`, `columns` (one `{ name, type }` object per column) and an empty
/// `sample` array.
pub open spec fn schema_value(project: Seq<char>, table: Seq<char>, cols: Seq<ColumnModel>) -> Json {
    Json::Obj(
        seq![
            ("project"@, Json::Str(project)),
            ("table"@, Json::Str(table)),
            ("columns"@, Json::Arr(column_values(cols))),
            ("sample"@, Json::Arr(seq![])),
        ],
    )
}

/// The key words of the schema file are written without escapes.
proof fn lemma_schema_words()
    ensures
        json_string("name"@) == "\"name\""@,
        json_string("type"@) == "\"type\""@,
        json_string("project"@) == "\"project\""@,
        json_string("table"@) == "\"table\""@,
        json_string("columns"@) == "\"columns\""@,
        json_string("sample"@) == "\"sample\""@,
        plain("name"@),
        plain("type"@),
        plain("project"@),
        plain("table"@),
        plain("columns"@),
        plain("sample"@),
{
    reveal_strlit("name");
    reveal_strlit("type");
    reveal_strlit("project");
    reveal_strlit("table");
    reveal_strlit("columns");
    reveal_strlit("sample");
    reveal_strlit("\"name\"");
    reveal_strlit("\"type\"");
    reveal_strlit("\"project\"");
    reveal_strlit("\"table\"");
    reveal_strlit("\"columns\"");
    reveal_strlit("\"sample\"");
    reveal_with_fuel(json_chars, 9);
    assert(json_chars("name"@) =~= "name"@);
    assert(json_chars("type"@) =~= "type"@);
    assert(json_chars("project"@) =~= "project"@);
    assert(json_chars("table"@) =~= "table"@);
    assert(json_chars("columns"@) =~= "columns"@);
    assert(json_chars("sample"@) =~= "sample"@);
    assert(json_string("name"@) =~= "\"name\""@);
    assert(json_string("type"@) =~= "\"type\""@);
    assert(json_string("project"@) =~= "\"project\""@);
    assert(json_string("table"@) =~= "\"table\""@);
    assert(json_string("columns"@) =~= "\"columns\""@);
    assert(json_string("sample"@) =~= "\"sample\""@);
}

/// A column's line is its object, indented, with the separating comma.
proof fn lemma_column_line(c: ColumnModel, more: bool)
    ensures
        column_line(c, more) == seq![' ', ' ', ' ', ' '] + column_obj(c) + (if more {
            seq![',']
        } else {
            seq![]
        }) + seq!['\n'],
{
    lemma_schema_words();
    reveal_strlit("    { \"name\": ");
    reveal_strlit(", \"type\": ");
    reveal_strlit(" }");
    reveal_strlit("\"name\"");
    reveal_strlit("\"type\"");
    let sep = seq![','] + seq![' '];
    let t0 = json_string("name"@) + seq![':', ' '] + json_string(c.name);
    let t1 = json_string("type"@) + seq![':', ' '] + json_string(c.ty);
    let ms = seq![("name"@, json_string(c.name)), ("type"@, json_string(c.ty))];
    assert(member_texts(ms) =~= seq![t0, t1]);
    assert(seq![t0, t1].drop_last() =~= seq![t0]);
    assert(join(seq![t0], sep) == t0);
    assert(join(seq![t0, t1], sep) == t0 + sep + t1);
    let tail = if more {
        seq![',']
    } else {
        seq![]
    };
    assert("    { \"name\": "@ =~= seq![' ', ' ', ' ', ' ', '{', ' '] + "\"name\""@ + seq![':', ' ']);
    assert(", \"type\": "@ =~= sep + "\"type\""@ + seq![':', ' ']);
    assert(" }"@ =~= seq![' ', '}']);
    assert(column_obj(c) =~= seq!['{', ' '] + (t0 + sep + t1) + seq![' ', '}']);
    assert(column_line(c, more) =~= seq![' ', ' ', ' ', ' '] + column_obj(c) + tail + seq!['\n']);
}

/// The first `n` column lines.
proof fn lemma_columns_prefix(cols: Seq<ColumnModel>, n: int)
    requires
        1 <= n <= cols.len(),
    ensures
        column_lines(cols, n) == seq![' ', ' ', ' ', ' '] + join(
            column_objs(cols).take(n),
            seq![','] + seq!['\n', ' ', ' ', ' ', ' '],
        ) + (if n < cols.len() {
            seq![',', '\n']
        } else {
            seq!['\n']
        }),
    decreases n,
{
    let objs = column_objs(cols);
    let sep = seq![','] + seq!['\n', ' ', ' ', ' ', ' '];
    lemma_column_line(cols[n - 1], n < cols.len());
    assert(objs[n - 1] == column_obj(cols[n - 1]));
    assert(objs.take(n) =~= objs.take(n - 1).push(objs[n - 1]));
    crate::text::lemma_join_push(objs.take(n - 1), sep, objs[n - 1]);
    let tail = if n < cols.len() {
        seq![',']
    } else {
        seq![]
    };
    if n == 1 {
        assert(column_lines(cols, 0) == Seq::<char>::empty());
        assert(column_lines(cols, 1) =~= seq![' ', ' ', ' ', ' '] + column_obj(cols[0]) + tail
            + seq!['\n']);
    } else {
        lemma_columns_prefix(cols, n - 1);
        assert(column_lines(cols, n) =~= seq![' ', ' ', ' ', ' '] + join(objs.take(n), sep) + tail
            + seq!['\n']);
    }
}

/// The written `columns` array is `columns_text`.
proof fn lemma_columns_text(cols: Seq<ColumnModel>)
    ensures
        seq!['[', '\n'] + column_lines(cols, cols.len() as int) + seq![' ', ' ', ']']
            == columns_text(cols),
{
    if cols.len() == 0 {
        assert(join(Seq::<Seq<char>>::empty(), seq![',']) == Seq::<char>::empty());
        assert(seq!['[', '\n'] + column_lines(cols, 0) + seq![' ', ' ', ']'] =~= columns_text(cols));
    } else {
        lemma_columns_prefix(cols, cols.len() as int);
        assert(column_objs(cols).take(cols.len() as int) =~= column_objs(cols));
        assert(seq!['[', '\n'] + column_lines(cols, cols.len() as int) + seq![' ', ' ', ']']
            =~= columns_text(cols));
    }
}

/// Plain columns, written as the `columns` array, read back as their values.
proof fn lemma_columns_parse(cols: Seq<ColumnModel>)
    requires
        forall|i: int| 0 <= i < cols.len() ==> plain(#[trigger] cols[i].name) && plain(cols[i].ty),
    ensures
        parses_as(columns_text(cols), Json::Arr(column_values(cols))),
{
    lemma_schema_words();
    let objs = column_objs(cols);
    let vals = column_values(cols);
    assert forall|i: int| 0 <= i < objs.len() implies parses_as(#[trigger] objs[i], vals[i])
        && starts_value(objs[i]) by {
        let c = cols[i];
        assert(plain(c.name) && plain(c.ty));
        lemma_string_parses(c.name);
        lemma_string_parses(c.ty);
        let ms = seq![("name"@, json_string(c.name)), ("type"@, json_string(c.ty))];
        let mv = seq![Json::Str(c.name), Json::Str(c.ty)];
        assert(all_ws(seq![' ']));
        assert forall|j: int| 0 <= j < ms.len() implies plain(#[trigger] ms[j].0) by {}
        assert forall|j: int| 0 <= j < ms.len() implies parses_as(#[trigger] ms[j].1, mv[j]) by {}
        lemma_object(ms, mv, seq![' '], seq![' '], seq![' ']);
        assert(members_of(ms, mv) =~= seq![("name"@, Json::Str(c.name)), ("type"@, Json::Str(c.ty))]);
    }
    let i4 = seq!['\n', ' ', ' ', ' ', ' '];
    assert(all_ws(i4));
    assert(all_ws(seq!['\n']));
    assert(all_ws(seq![' ', ' ']));
    assert(all_ws(seq!['\n', ' ', ' ']));
    if cols.len() == 0 {
        lemma_array(seq![], seq![], seq!['\n'], i4, seq![' ', ' ']);
        assert(vals =~= Seq::<Json>::empty());
    } else {
        lemma_array(objs, vals, i4, i4, seq!['\n', ' ', ' ']);
    }
}

/// The keys of the schema object, written, with their `: ` and the separator.
proof fn lemma_schema_keys()
    ensures
        ",\n  "@ == seq![','] + seq!['\n', ' ', ' '],
        "\"project\": "@ == "\"project\""@ + seq![':', ' '],
        "\"table\": "@ == "\"table\""@ + seq![':', ' '],
        "\"columns\": "@ == "\"columns\""@ + seq![':', ' '],
        "\"sample\": []"@ == "\"sample\""@ + seq![':', ' '] + seq!['[', ']'],
{
    assert(",\n  "@ =~= seq![','] + seq!['\n', ' ', ' ']) by {
        reveal_strlit(",\n  ");
    }
    assert("\"project\": "@ =~= "\"project\""@ + seq![':', ' ']) by {
        reveal_strlit("\"project\": ");
        reveal_strlit("\"project\"");
    }
    assert("\"table\": "@ =~= "\"table\""@ + seq![':', ' ']) by {
        reveal_strlit("\"table\": ");
        reveal_strlit("\"table\"");
    }
    assert("\"columns\": "@ =~= "\"columns\""@ + seq![':', ' ']) by {
        reveal_strlit("\"columns\": ");
        reveal_strlit("\"columns\"");
    }
    assert("\"sample\": []"@ =~= "\"sample\""@ + seq![':', ' '] + seq!['[', ']']) by {
        reveal_strlit("\"sample\": []");
        reveal_strlit("\"sample\"");
    }
}

/// `join` of four parts.
proof fn lemma_join4(p: Seq<Seq<char>>, sep: Seq<char>)
    requires
        p.len() == 4,
    ensures
        join(p, sep) == p[0] + sep + p[1] + sep + p[2] + sep + p[3],
{
    reveal_with_fuel(join, 5);
    assert(p.drop_last().drop_last().drop_last() =~= seq![p[0]]);
    assert(join(p, sep) =~= p[0] + sep + p[1] + sep + p[2] + sep + p[3]);
}

/// Four members, each a key and a value, flattened.
proof fn lemma_flatten4(
    k0: Seq<char>,
    v0: Seq<char>,
    k1: Seq<char>,
    v1: Seq<char>,
    k2: Seq<char>,
    v2: Seq<char>,
    t3: Seq<char>,
    sep: Seq<char>,
)
    ensures
        (k0 + v0) + sep + (k1 + v1) + sep + (k2 + v2) + sep + t3 == k0 + v0 + sep + k1 + v1 + sep + k2
            + v2 + sep + t3,
{
    assert((k0 + v0) + sep + (k1 + v1) + sep + (k2 + v2) + sep + t3 =~= k0 + v0 + sep + k1 + v1 + sep
        + k2 + v2 + sep + t3);
}

/// The member lines of the schema object, joined by `,` and a line break.
proof fn lemma_schema_join(project: Seq<char>, table: Seq<char>, cols: Seq<ColumnModel>)
    ensures
        join(member_texts(schema_members(project, table, cols)), seq![','] + seq!['\n', ' ', ' '])
            == "\"project\": "@ + json_string(project) + ",\n  "@ + "\"table\": "@
            + json_string(table) + ",\n  "@ + "\"columns\": "@ + columns_text(cols) + ",\n  "@
            + "\"sample\": []"@,
{
    lemma_schema_words();
    lemma_schema_keys();
    let sep = seq![','] + seq!['\n', ' ', ' '];
    let t0 = "\"project\": "@ + json_string(project);
    let t1 = "\"table\": "@ + json_string(table);
    let t2 = "\"columns\": "@ + columns_text(cols);
    let t3 = "\"sample\": []"@;
    assert(arr_text(seq![], seq![], seq![], seq![]) =~= seq!['[', ']']) by {
        assert(join(Seq::<Seq<char>>::empty(), seq![',']) == Seq::<char>::empty());
    }
    let texts = member_texts(schema_members(project, table, cols));
    assert(texts =~= seq![t0, t1, t2, t3]);
    lemma_join4(texts, sep);
    lemma_flatten4(
        "\"project\": "@,
        json_string(project),
        "\"table\": "@,
        json_string(table),
        "\"columns\": "@,
        columns_text(cols),
        t3,
        sep,
    );
}

/// How the fixed lines of the schema file split into their parts.
proof fn lemma_schema_pieces()
    ensures
        "{\n"@ + seq![' ', ' '] == seq!['{', '\n', ' ', ' '],
        "  \"project\": "@ == seq![' ', ' '] + "\"project\": "@,
        ",\n"@ + "  \"table\": "@ == ",\n  "@ + "\"table\": "@,
        ",\n"@ + "  \"columns\": [\n"@ == ",\n  "@ + "\"columns\": "@ + seq!['[', '\n'],
        "  ],\n"@ + "  \"sample\": []\n"@ + "}\n"@ == seq![' ', ' ', ']'] + ",\n  "@
            + "\"sample\": []"@ + seq!['\n', '}', '\n'],
{
    assert("{\n"@ + seq![' ', ' '] =~= seq!['{', '\n', ' ', ' ']) by {
        reveal_strlit("{\n");
    }
    assert("  \"project\": "@ =~= seq![' ', ' '] + "\"project\": "@) by {
        reveal_strlit("  \"project\": ");
        reveal_strlit("\"project\": ");
    }
    assert(",\n"@ + "  \"table\": "@ =~= ",\n  "@ + "\"table\": "@) by {
        reveal_strlit(",\n");
        reveal_strlit("  \"table\": ");
        reveal_strlit(",\n  ");
        reveal_strlit("\"table\": ");
    }
    assert(",\n"@ + "  \"columns\": [\n"@ =~= ",\n  "@ + "\"columns\": "@ + seq!['[', '\n']) by {
        reveal_strlit(",\n");
        reveal_strlit("  \"columns\": [\n");
        reveal_strlit(",\n  ");
        reveal_strlit("\"columns\": ");
    }
    assert("  ],\n"@ + "  \"sample\": []\n"@ + "}\n"@ =~= seq![' ', ' ', ']'] + ",\n  "@
        + "\"sample\": []"@ + seq!['\n', '}', '\n']) by {
        reveal_strlit("  ],\n");
        reveal_strlit("  \"sample\": []\n");
        reveal_strlit("}\n");
        reveal_strlit(",\n  ");
        reveal_strlit("\"sample\": []");
    }
}

/// Regrouping the schema file's parts into the object's opening, body and close.
proof fn lemma_schema_regroup(
    a: Seq<char>,
    pl: Seq<char>,
    jp: Seq<char>,
    c: Seq<char>,
    tl: Seq<char>,
    jt: Seq<char>,
    kl: Seq<char>,
    lines: Seq<char>,
    tail: Seq<char>,
    h: Seq<char>,
    sp: Seq<char>,
    pq: Seq<char>,
    sep: Seq<char>,
    tq: Seq<char>,
    kq: Seq<char>,
    lb: Seq<char>,
    cl: Seq<char>,
    rest: Seq<char>,
)
    requires
        a + sp == h,
        pl == sp + pq,
        c + tl == sep + tq,
        c + kl == sep + kq + lb,
        tail == cl + rest,
    ensures
        a + pl + jp + c + tl + jt + c + kl + lines + tail == h + (pq + jp + sep + tq + jt + sep + kq
            + (lb + lines + cl)) + rest,
{
    let b1 = pq + jp;
    let b2 = b1 + sep + tq + jt;
    assert(a + pl + jp =~= h + b1);
    assert(a + pl + jp + c + tl + jt =~= (h + b1) + (c + tl) + jt);
    assert(a + pl + jp + c + tl + jt =~= h + b2);
    assert(h + b2 + c + kl + lines =~= h + b2 + (c + kl) + lines);
    assert(a + pl + jp + c + tl + jt + c + kl + lines + tail =~= h + (b2 + sep + kq + (lb + lines
        + cl)) + rest);
}

/// The schema file is the object of `schema_members`, then a line break.
#[verifier::rlimit(40)]
proof fn lemma_schema_text(project: Seq<char>, table: Seq<char>, cols: Seq<ColumnModel>)
    ensures
        schema_json(project, table, cols) == obj_text(
            schema_members(project, table, cols),
            seq!['\n', ' ', ' '],
            seq!['\n', ' ', ' '],
            seq!['\n'],
        ) + seq!['\n'],
{
    lemma_schema_join(project, table, cols);
    lemma_columns_text(cols);
    lemma_schema_pieces();
    let lines = column_lines(cols, cols.len() as int);
    let h = seq!['{', '\n', ' ', ' '];
    let sep = ",\n  "@;
    assert(seq![' ', ' ', ']'] + sep + "\"sample\": []"@ + seq!['\n', '}', '\n'] =~= seq![' ', ' ', ']']
        + (sep + "\"sample\": []"@ + seq!['\n', '}', '\n']));
    lemma_schema_regroup(
        "{\n"@,
        "  \"project\": "@,
        json_string(project),
        ",\n"@,
        "  \"table\": "@,
        json_string(table),
        "  \"columns\": [\n"@,
        lines,
        "  ],\n"@ + "  \"sample\": []\n"@ + "}\n"@,
        h,
        seq![' ', ' '],
        "\"project\": "@,
        sep,
        "\"table\": "@,
        "\"columns\": "@,
        seq!['[', '\n'],
        seq![' ', ' ', ']'],
        sep + "\"sample\": []"@ + seq!['\n', '}', '\n'],
    );
    let x = "{\n"@ + "  \"project\": "@ + json_string(project) + ",\n"@ + "  \"table\": "@
        + json_string(table) + ",\n"@ + "  \"columns\": [\n"@ + lines;
    lemma_assoc3(x, "  ],\n"@, "  \"sample\": []\n"@, "}\n"@);
    assert(schema_json(project, table, cols) == x + "  ],\n"@ + "  \"sample\": []\n"@ + "}\n"@);
    let body = "\"project\": "@ + json_string(project) + sep + "\"table\": "@ + json_string(table)
        + sep + "\"columns\": "@ + columns_text(cols);
    lemma_close_object(h, body, sep, "\"sample\": []"@);
}

/// `x + p + q + r` regrouped.
proof fn lemma_assoc3(x: Seq<char>, p: Seq<char>, q: Seq<char>, r: Seq<char>)
    ensures
        x + p + q + r == x + (p + q + r),
{
    assert(x + p + q + r =~= x + (p + q + r));
}

/// The close of the schema object: the last member, a line break and `}`.
proof fn lemma_close_object(h: Seq<char>, b: Seq<char>, sep: Seq<char>, sq: Seq<char>)
    requires
        h == seq!['{', '\n', ' ', ' '],
    ensures
        h + b + (sep + sq + seq!['\n', '}', '\n']) == seq!['{'] + seq!['\n', ' ', ' '] + (b + sep
            + sq) + seq!['\n'] + seq!['}'] + seq!['\n'],
{
    assert(h + b + (sep + sq + seq!['\n', '}', '\n']) =~= seq!['{'] + seq!['\n', ' ', ' '] + (b + sep
        + sq) + seq!['\n'] + seq!['}'] + seq!['\n']);
}

/// The schema file's object reads back as `schema_value`.
proof fn lemma_schema_object(project: Seq<char>, table: Seq<char>, cols: Seq<ColumnModel>)
    requires
        plain(project),
        plain(table),
        forall|i: int| 0 <= i < cols.len() ==> plain(#[trigger] cols[i].name) && plain(cols[i].ty),
    ensures
        decodes_to(
            obj_text(
                schema_members(project, table, cols),
                seq!['\n', ' ', ' '],
                seq!['\n', ' ', ' '],
                seq!['\n'],
            ) + seq!['\n'],
            schema_value(project, table, cols),
        ),
{
    lemma_schema_words();
    lemma_columns_parse(cols);
    lemma_string_parses(project);
    lemma_string_parses(table);
    assert(all_ws(Seq::<char>::empty()));
    lemma_array(seq![], seq![], seq![], seq![], seq![]);
    let i2 = seq!['\n', ' ', ' '];
    assert(all_ws(i2));
    assert(all_ws(seq!['\n']));
    let ms = schema_members(project, table, cols);
    let vals = seq![
        Json::Str(project),
        Json::Str(table),
        Json::Arr(column_values(cols)),
        Json::Arr(seq![]),
    ];
    assert forall|i: int| 0 <= i < ms.len() implies plain(#[trigger] ms[i].0) by {}
    assert forall|i: int| 0 <= i < ms.len() implies parses_as(#[trigger] ms[i].1, vals[i]) by {}
    lemma_object(ms, vals, i2, i2, seq!['\n']);
    assert(members_of(ms, vals) =~= seq![
        ("project"@, Json::Str(project)),
        ("table"@, Json::Str(table)),
        ("columns"@, Json::Arr(column_values(cols))),
        ("sample"@, Json::Arr(seq![])),
    ]);
    let text = obj_text(ms, i2, i2, seq!['\n']);
    assert(parse_value(text + seq!['\n']) == Some((schema_value(project, table, cols), seq!['\n'])));
    assert(skip_jws(seq!['\n']) =~= Seq::<char>::empty()) by {
        assert(seq!['\n'].skip(1) =~= Seq::<char>::empty());
        assert(is_json_ws(seq!['\n'][0]));
        assert(skip_jws(Seq::<char>::empty()) == Seq::<char>::empty());
    }
}

/// The view-editor schema file is valid JSON: when the project, the table
/// and every column's name and type hold no control character other than
/// newline, tab and carriage return, `schema_json(project, table, cols)` is
/// one JSON object whose members are, in order, `project`, `table`,
/// `columns` (one `{ name, type }` object per column) and an empty `sample`.
pub proof fn law_schema_json_decodes(project: Seq<char>, table: Seq<char>, cols: Seq<ColumnModel>)
    requires
        plain(project),
        plain(table),
        forall|i: int| 0 <= i < cols.len() ==> plain(#[trigger] cols[i].name) && plain(cols[i].ty),
    ensures
        decodes_to(schema_json(project, table, cols), schema_value(project, table, cols)),
{
    lemma_schema_text(project, table, cols);
    lemma_schema_object(project, table, cols);
}

} // verus!

verus! {

/// A plain Rust type name: non-empty, of ASCII letters, digits and `_`.
pub open spec fn plain_type_name(t: Seq<char>) -> bool {
    &&& t.len() > 0
    &&& forall|i: int|
        0 <= i < t.len() ==> ('a' <= #[trigger] t[i] <= 'z') || ('A' <= t[i] <= 'Z') || ('0' <= t[i]
            <= '9') || t[i] == '_'
}

/// The numeric type names of Rust, and `Decimal`.
pub open spec fn numeric_type_names() -> Seq<Seq<char>> {
    seq![
        seq!['i', '8'], seq!['i', '1', '6'], seq!['i', '3', '2'], seq!['i', '6', '4'],
        seq!['i', '1', '2', '8'], seq!['i', 's', 'i', 'z', 'e'],
        seq!['u', '8'], seq!['u', '1', '6'], seq!['u', '3', '2'], seq!['u', '6', '4'],
        seq!['u', '1', '2', '8'], seq!['u', 's', 'i', 'z', 'e'],
        seq!['f', '3', '2'], seq!['f', '6', '4'],
        seq!['D', 'e', 'c', 'i', 'm', 'a', 'l'],
    ]
}

/// A text with no whitespace at either end is its own trim.
proof fn lemma_trim_plain(s: Seq<char>)
    requires
        s.len() > 0,
        !is_ws(s[0]),
        !is_ws(s.last()),
    ensures
        trim(s) == s,
{
    assert(crate::text::skip_ws(s, 0) == 0);
    assert(s.skip(0) =~= s);
    assert(crate::text::skip_ws_back(s, s.len() as int) == s.len());
    assert(s.take(s.len() as int) =~= s);
}

/// A plain name is what `inner_type` looks at, bare, behind `&`, or inside
/// `Option<…>` or `Vec<…>`.
proof fn lemma_inner_plain(t: Seq<char>)
    requires
        plain_type_name(t),
    ensures
        inner_type(t) == t,
        inner_type(seq!['&'] + t) == t,
        inner_type("Option<"@ + t + seq!['>']) == t,
        inner_type("Vec<"@ + t + seq!['>']) == t,
{
    reveal_strlit("Option<");
    reveal_strlit("Vec<");
    let o = "Option<"@;
    let v = "Vec<"@;
    assert(t[0] == t[0] && t.last() == t[t.len() - 1]);
    lemma_trim_plain(t);
    // bare
    assert(!starts_with(t, seq!['&'])) by {
        if starts_with(t, seq!['&']) {
            assert(t.take(1)[0] == t[0]);
        }
    }
    assert(crate::text::trim_start_matches(t, seq!['&']) == t);
    assert(!starts_with(t, o)) by {
        if starts_with(t, o) {
            assert(t.take(7)[6] == t[6]);
        }
    }
    assert(!starts_with(t, v)) by {
        if starts_with(t, v) {
            assert(t.take(4)[3] == t[3]);
        }
    }
    // behind `&`
    let r = seq!['&'] + t;
    assert(r[0] == '&' && r.last() == t.last());
    lemma_trim_plain(r);
    assert(starts_with(r, seq!['&'])) by {
        assert(r.take(1) =~= seq!['&']);
    }
    assert(r.skip(1) =~= t);
    assert(crate::text::trim_start_matches(r, seq!['&']) == crate::text::trim_start_matches(t, seq!['&']));
    // inside `Option<…>` and `Vec<…>`
    let te = t + seq!['>'];
    assert(te.drop_last() =~= t);
    assert(trim_end_char(te, '>') == trim_end_char(t, '>'));
    assert(trim_end_char(t, '>') == t);
    let ow = o + te;
    assert(o + t + seq!['>'] =~= ow);
    assert(ow[0] == 'O' && ow.last() == '>');
    lemma_trim_plain(ow);
    assert(!starts_with(ow, seq!['&'])) by {
        if starts_with(ow, seq!['&']) {
            assert(ow.take(1)[0] == ow[0]);
        }
    }
    assert(crate::text::trim_start_matches(ow, seq!['&']) == ow);
    assert(starts_with(ow, o)) by {
        assert(ow.take(7) =~= o);
    }
    assert(ow.skip(7) =~= te);
    let vw = v + te;
    assert(v + t + seq!['>'] =~= vw);
    assert(vw[0] == 'V' && vw.last() == '>');
    lemma_trim_plain(vw);
    assert(!starts_with(vw, seq!['&'])) by {
        if starts_with(vw, seq!['&']) {
            assert(vw.take(1)[0] == vw[0]);
        }
    }
    assert(crate::text::trim_start_matches(vw, seq!['&']) == vw);
    assert(!starts_with(vw, o)) by {
        if starts_with(vw, o) {
            assert(vw.take(7)[0] == vw[0]);
        }
    }
    assert(starts_with(vw, v)) by {
        assert(vw.take(4) =~= v);
    }
    assert(vw.skip(4) =~= te);
}

/// References, `Option<…>` and `Vec<…>` are looked through: a plain type name
/// maps to the same view type bare, behind `&`, or inside `Option<…>` or
/// `Vec<…>`.
pub proof fn law_wrapped_types_keep_their_kind(t: Seq<char>)
    requires
        plain_type_name(t),
    ensures
        rust_type_kind(seq!['&'] + t) == rust_type_kind(t),
        rust_type_kind("Option<"@ + t + seq!['>']) == rust_type_kind(t),
        rust_type_kind("Vec<"@ + t + seq!['>']) == rust_type_kind(t),
{
    lemma_inner_plain(t);
}

/// An occurrence of `p` (of two or more characters) starts with its first
/// two characters side by side.
proof fn lemma_contains_pair(s: Seq<char>, p: Seq<char>)
    requires
        p.len() >= 2,
        contains(s, p),
    ensures
        exists|i: int| 0 <= i && i + 1 < s.len() && #[trigger] s[i] == p[0] && s[i + 1] == p[1],
{
    lemma_find_from(s, p, 0);
    let i = find(s, p)->0;
    assert(s.subrange(i, i + p.len())[0] == s[i]);
    assert(s.subrange(i, i + p.len())[1] == s[i + 1]);
}

/// No `::` in a name without `:`, so its last path segment is itself.
proof fn lemma_last_segment(t: Seq<char>)
    requires
        forall|i: int| 0 <= i < t.len() ==> t[i] != ':',
    ensures
        after_last(t, "::"@) == t,
{
    reveal_strlit("::");
    crate::text::lemma_rfind_upto(t, "::"@, t.len() as int);
    if let Some(k) = crate::text::rfind(t, "::"@) {
        assert(t.subrange(k, k + 2)[0] == t[k]);
    }
}

/// A numeric name maps to `number`.
proof fn lemma_number_kind(t: Seq<char>)
    requires
        plain_type_name(t),
        t.len() <= 7,
        t[0] == 'i' || t[0] == 'u' || t[0] == 'f' || t[0] == 'D',
        t[0] == 'D' ==> t.len() == 7,
        forall|i: int| 0 <= i < t.len() ==> t[i] != ':',
        forall|i: int|
            0 <= i && i + 1 < t.len() ==> !(#[trigger] ascii_lower(t)[i] == 'u' && ascii_lower(t)[i + 1] == 'u'),
        is_number_type(t),
    ensures
        rust_type_kind(t) == "number"@,
{
    reveal_strlit("datetime");
    reveal_strlit("timestamp");
    reveal_strlit("date");
    reveal_strlit("time");
    reveal_strlit("naivedatetime");
    reveal_strlit("naivedate");
    reveal_strlit("uuid");
    reveal_strlit("bool");
    lemma_inner_plain(t);
    lemma_last_segment(t);
    let lower = ascii_lower(t);
    assert(lower.len() == t.len());
    assert(!contains(lower, "datetime"@));
    assert(!contains(lower, "timestamp"@));
    assert(lower[0] == crate::text::ascii_lower_char(t[0]));
    assert(lower != "date"@) by {
        if lower == "date"@ {
            assert(lower[0] == 'd');
        }
    }
    assert(lower != "time"@) by {
        if lower == "time"@ {
            assert(lower[0] == 't');
        }
    }
    assert(lower != "naivedatetime"@);
    assert(lower != "naivedate"@);
    assert(!contains(lower, "uuid"@)) by {
        if contains(lower, "uuid"@) {
            lemma_contains_pair(lower, "uuid"@);
        }
    }
    assert(t != "bool"@) by {
        if t == "bool"@ {
            assert(t[0] == 'b');
        }
    }
}

/// Every Rust numeric type name, and `Decimal`, maps to the view type
/// `number` — bare, behind `&`, or inside `Option<…>` or `Vec<…>`.
pub proof fn law_numeric_types_are_numbers(k: int)
    requires
        0 <= k < numeric_type_names().len(),
    ensures
        rust_type_kind(numeric_type_names()[k]) == "number"@,
        rust_type_kind(seq!['&'] + numeric_type_names()[k]) == "number"@,
        rust_type_kind("Option<"@ + numeric_type_names()[k] + seq!['>']) == "number"@,
        rust_type_kind("Vec<"@ + numeric_type_names()[k] + seq!['>']) == "number"@,
{
    let t = numeric_type_names()[k];
    reveal_strlit("i8");
    reveal_strlit("i16");
    reveal_strlit("i32");
    reveal_strlit("i64");
    reveal_strlit("i128");
    reveal_strlit("isize");
    reveal_strlit("u8");
    reveal_strlit("u16");
    reveal_strlit("u32");
    reveal_strlit("u64");
    reveal_strlit("u128");
    reveal_strlit("usize");
    reveal_strlit("Decimal");
    assert(is_number_type(t)) by {
        assert(seq!['i', '8'] =~= "i8"@);
        assert(seq!['i', '1', '6'] =~= "i16"@);
        assert(seq!['i', '3', '2'] =~= "i32"@);
        assert(seq!['i', '6', '4'] =~= "i64"@);
        assert(seq!['i', '1', '2', '8'] =~= "i128"@);
        assert(seq!['i', 's', 'i', 'z', 'e'] =~= "isize"@);
        assert(seq!['u', '8'] =~= "u8"@);
        assert(seq!['u', '1', '6'] =~= "u16"@);
        assert(seq!['u', '3', '2'] =~= "u32"@);
        assert(seq!['u', '6', '4'] =~= "u64"@);
        assert(seq!['u', '1', '2', '8'] =~= "u128"@);
        assert(seq!['u', 's', 'i', 'z', 'e'] =~= "usize"@);
        assert(seq!['D', 'e', 'c', 'i', 'm', 'a', 'l'] =~= "Decimal"@);
    }
    assert(plain_type_name(t));
    assert(forall|i: int| 0 <= i < t.len() ==> t[i] != ':');
    let lower = ascii_lower(t);
    assert forall|i: int| 0 <= i && i + 1 < t.len() implies !(#[trigger] lower[i] == 'u' && lower[i + 1] == 'u') by {
        assert(lower[i + 1] == crate::text::ascii_lower_char(t[i + 1]));
        assert(lower[i] == crate::text::ascii_lower_char(t[i]));
    }
    lemma_number_kind(t);
    law_wrapped_types_keep_their_kind(t);
}

} // verus!
