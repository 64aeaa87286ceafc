//! A tiny, strict TOML *subset* reader — just enough for `rustio.design.toml`.
//!
//! * `# comment` lines and blank lines are ignored.
//! * `[section]` headers open a section.
//! * `key = "string"` — a double-quoted string (supports `\"` and `\\`).
//! * `key = """ ... """` — a triple-quoted multi-line string (for raw CSS).
//! * `key = true` / `key = false` — a boolean.
//!
//! Anything outside this grammar is a hard parse error with a line number.
//! The grammar is stated once, as `parse_lines`, and `Document::parse` is
//! proved to compute exactly that.

use vstd::prelude::*;
use crate::text::{
    before, chars_of, contains, decimal, decimal_of, eq, eq_str, find, find_char_at, find_in,
    lemma_chars_deep, lemma_find_from, lemma_push_deep, lines_of, occurs, occurs_at, push_all,
    push_str, slice_copy, starts_with, string_of, trim, trimmed,
};

verus! {

broadcast use lemma_chars_deep;

/// A parsed scalar value.
#[derive(Debug, Clone)]
pub enum Value {
    /// A string value (single- or triple-quoted in the source).
    Str(String),
    /// A boolean value.
    Bool(bool),
}

/// The mathematical model of a `Value`.
pub enum ValueModel {
    /// A string.
    Str(Seq<char>),
    /// A boolean.
    Bool(bool),
}

impl View for Value {
    type V = ValueModel;

    open spec fn view(&self) -> ValueModel {
        match self {
            Value::Str(s) => ValueModel::Str(s@),
            Value::Bool(b) => ValueModel::Bool(*b),
        }
    }
}

impl DeepView for Value {
    type V = ValueModel;

    open spec fn deep_view(&self) -> ValueModel {
        self@
    }
}

/// The string held by a value model, if it is one.
pub open spec fn model_str(v: ValueModel) -> Option<Seq<char>> {
    match v {
        ValueModel::Str(s) => Some(s),
        ValueModel::Bool(_) => None,
    }
}

/// The boolean held by a value model, if it is one.
pub open spec fn model_bool(v: ValueModel) -> Option<bool> {
    match v {
        ValueModel::Bool(b) => Some(b),
        ValueModel::Str(_) => None,
    }
}

/// The view of an optional string slice.
pub open spec fn opt_str(o: Option<&str>) -> Option<Seq<char>> {
    match o {
        Some(s) => Some(s@),
        None => None,
    }
}

impl Value {
    /// Borrow this value as a string slice, if it is a string.
    pub fn as_str(&self) -> (r: Option<&str>)
        ensures
            opt_str(r) == model_str(self@),
    {
        match self {
            Value::Str(s) => Some(s.as_str()),
            Value::Bool(_) => None,
        }
    }

    /// Read this value as a boolean, if it is one.
    pub fn as_bool(&self) -> (r: Option<bool>)
        ensures
            r == model_bool(self@),
    {
        match self {
            Value::Bool(b) => Some(*b),
            Value::Str(_) => None,
        }
    }
}

/// One `[section]` and its ordered key/value entries.
#[derive(Debug, Clone)]
pub struct Section {
    /// The section name (the top-level section before any header is `""`).
    pub name: String,
    /// Entries in source order.
    pub entries: Vec<(String, Value)>,
}

/// The mathematical model of a `Section`.
pub struct SectionModel {
    /// The section name.
    pub name: Seq<char>,
    /// Entries in source order.
    pub entries: Seq<(Seq<char>, ValueModel)>,
}

impl View for Section {
    type V = SectionModel;

    open spec fn view(&self) -> SectionModel {
        SectionModel { name: self.name@, entries: self.entries.deep_view() }
    }
}

impl DeepView for Section {
    type V = SectionModel;

    open spec fn deep_view(&self) -> SectionModel {
        self@
    }
}

/// The value of the first entry at or after `i` whose key is `key`.
pub open spec fn lookup_from(es: Seq<(Seq<char>, ValueModel)>, key: Seq<char>, i: int) -> Option<
    ValueModel,
>
    decreases es.len() - i,
{
    if i < 0 || i >= es.len() {
        None
    } else if es[i].0 == key {
        Some(es[i].1)
    } else {
        lookup_from(es, key, i + 1)
    }
}

/// The value of the first entry whose key is `key`.
pub open spec fn lookup(es: Seq<(Seq<char>, ValueModel)>, key: Seq<char>) -> Option<ValueModel> {
    lookup_from(es, key, 0)
}

/// The string under `key`, if the first such entry holds one.
pub open spec fn lookup_str(es: Seq<(Seq<char>, ValueModel)>, key: Seq<char>) -> Option<Seq<char>> {
    match lookup(es, key) {
        Some(v) => model_str(v),
        None => None,
    }
}

/// The boolean under `key`, if the first such entry holds one.
pub open spec fn lookup_bool(es: Seq<(Seq<char>, ValueModel)>, key: Seq<char>) -> Option<bool> {
    match lookup(es, key) {
        Some(v) => model_bool(v),
        None => None,
    }
}

impl Section {
    /// Look up a key within this section (its first entry wins).
    pub fn get(&self, key: &str) -> (r: Option<&Value>)
        ensures
            r.deep_view() == lookup(self@.entries, key@),
    {
        let k = chars_of(key);
        let mut i: usize = 0;
        while i < self.entries.len()
            invariant
                i <= self.entries.len(),
                k@ == key@,
                lookup_from(self@.entries, key@, i as int) == lookup(self@.entries, key@),
            decreases self.entries.len() - i,
        {
            let e = &self.entries[i];
            let ek = chars_of(e.0.as_str());
            if eq(&ek, &k) {
                return Some(&e.1);
            }
            i += 1;
        }
        None
    }

    /// Convenience: read a key as a string slice.
    pub fn str(&self, key: &str) -> (r: Option<&str>)
        ensures
            opt_str(r) == lookup_str(self@.entries, key@),
    {
        match self.get(key) {
            Some(v) => v.as_str(),
            None => None,
        }
    }

    /// Convenience: read a key as a boolean.
    pub fn boolean(&self, key: &str) -> (r: Option<bool>)
        ensures
            r == lookup_bool(self@.entries, key@),
    {
        match self.get(key) {
            Some(v) => v.as_bool(),
            None => None,
        }
    }
}

/// A parsed document: an ordered list of sections.
#[derive(Debug, Clone)]
pub struct Document {
    /// Sections in source order.
    pub sections: Vec<Section>,
}

impl View for Document {
    type V = Seq<SectionModel>;

    open spec fn view(&self) -> Seq<SectionModel> {
        self.sections.deep_view()
    }
}

/// The first section at or after `i` named `name`.
pub open spec fn section_from(secs: Seq<SectionModel>, name: Seq<char>, i: int) -> Option<
    SectionModel,
>
    decreases secs.len() - i,
{
    if i < 0 || i >= secs.len() {
        None
    } else if secs[i].name == name {
        Some(secs[i])
    } else {
        section_from(secs, name, i + 1)
    }
}

/// The first section named `name`.
pub open spec fn find_section(secs: Seq<SectionModel>, name: Seq<char>) -> Option<SectionModel> {
    section_from(secs, name, 0)
}

// ───────────────────────────── the grammar ─────────────────────────────

/// The triple-quote delimiter.
pub open spec fn tq() -> Seq<char> {
    seq!['"', '"', '"']
}

/// `\"`, `\\`, `\n` and `\t` escapes of a double-quoted string; any other
/// backslash is kept as written.
pub open spec fn unescape(s: Seq<char>) -> Seq<char>
    decreases s.len(),
{
    if s.len() == 0 {
        seq![]
    } else if s[0] == '\\' {
        if s.len() == 1 {
            seq!['\\']
        } else {
            escaped(s[1]) + unescape(s.skip(2))
        }
    } else {
        seq![s[0]] + unescape(s.skip(1))
    }
}

/// What the escape `\c` stands for.
pub open spec fn escaped(c: char) -> Seq<char> {
    if c == '"' {
        seq!['"']
    } else if c == '\\' {
        seq!['\\']
    } else if c == 'n' {
        seq!['\n']
    } else if c == 't' {
        seq!['\t']
    } else {
        seq!['\\', c]
    }
}

/// Index of the `"` that closes a double-quoted string, scanning `s` from `i`
/// and stepping over each backslash-escaped character.
pub open spec fn close_quote(s: Seq<char>, i: int) -> Option<int>
    decreases s.len() - i,
{
    if i < 0 || i >= s.len() {
        None
    } else if s[i] == '\\' {
        if i + 1 < s.len() {
            close_quote(s, i + 2)
        } else {
            None
        }
    } else if s[i] == '"' {
        Some(i)
    } else {
        close_quote(s, i + 1)
    }
}

/// `close_quote` lands inside `s`.
pub proof fn lemma_close_quote(s: Seq<char>, i: int)
    requires
        0 <= i,
    ensures
        close_quote(s, i) matches Some(k) ==> i <= k < s.len(),
    decreases s.len() - i,
{
    if i < s.len() {
        if s[i] == '\\' {
            if i + 1 < s.len() {
                lemma_close_quote(s, i + 2);
            }
        } else if s[i] != '"' {
            lemma_close_quote(s, i + 1);
        }
    }
}

/// The first line at or after `j` that holds a closing `"""`.
pub open spec fn close_line(ls: Seq<Seq<char>>, j: int) -> Option<int>
    decreases ls.len() - j,
{
    if j < 0 || j >= ls.len() {
        None
    } else if contains(ls[j], tq()) {
        Some(j)
    } else {
        close_line(ls, j + 1)
    }
}

/// Lines `j..k` of a multi-line string, each followed by a newline.
pub open spec fn gather(ls: Seq<Seq<char>>, j: int, k: int) -> Seq<char>
    decreases k - j,
{
    if k <= j || k > ls.len() || j < 0 {
        seq![]
    } else {
        gather(ls, j, k - 1) + ls[k - 1] + seq!['\n']
    }
}

/// A triple-quoted string's content with one leading newline dropped.
pub open spec fn drop_leading_newline(s: Seq<char>) -> Seq<char> {
    if s.len() > 0 && s[0] == '\n' {
        s.skip(1)
    } else {
        s
    }
}

/// `line <n>` followed by `tail`.
pub open spec fn line_msg(n: nat, tail: Seq<char>) -> Seq<char> {
    "line "@ + decimal(n) + tail
}

/// A section with one more entry.
pub open spec fn with_entry(cur: SectionModel, key: Seq<char>, v: ValueModel) -> SectionModel {
    SectionModel { name: cur.name, entries: cur.entries.push((key, v)) }
}

/// The document grammar, read from line `i` on with the finished sections
/// `done` and the open section `cur`.
pub open spec fn parse_lines(
    ls: Seq<Seq<char>>,
    i: int,
    done: Seq<SectionModel>,
    cur: SectionModel,
) -> Result<Seq<SectionModel>, Seq<char>>
    decreases ls.len() - i,
{
    if i < 0 || i >= ls.len() {
        Ok(done.push(cur))
    } else {
        let line = trim(ls[i]);
        let n = (i + 1) as nat;
        if line.len() == 0 || line[0] == '#' {
            parse_lines(ls, i + 1, done, cur)
        } else if line[0] == '[' {
            let stripped = line.skip(1);
            match find(stripped, seq![']']) {
                None => Err(line_msg(n, ": missing `]` in section header"@)),
                Some(e) => parse_lines(
                    ls,
                    i + 1,
                    done.push(cur),
                    SectionModel { name: trim(stripped.take(e)), entries: seq![] },
                ),
            }
        } else {
            match find(line, seq!['=']) {
                None => Err(line_msg(n, ": expected `key = value`"@)),
                Some(eq) => {
                    let key = trim(line.take(eq));
                    let rhs = trim(line.skip(eq + 1));
                    if key.len() == 0 {
                        Err(line_msg(n, ": empty key"@))
                    } else if starts_with(rhs, tq()) {
                        let after = rhs.skip(3);
                        match find(after, tq()) {
                            Some(c) => parse_lines(
                                ls,
                                i + 1,
                                done,
                                with_entry(
                                    cur,
                                    key,
                                    ValueModel::Str(drop_leading_newline(after.take(c))),
                                ),
                            ),
                            None => match close_line(ls, i + 1) {
                                None => Err(
                                    line_msg(ls.len(), ": unterminated `\"\"\"` string"@),
                                ),
                                Some(k) => if i < k < ls.len() {
                                    let last = ls[k];
                                    let content = after + seq!['\n'] + gather(ls, i + 1, k)
                                        + last.take(find(last, tq())->0);
                                    parse_lines(
                                        ls,
                                        k + 1,
                                        done,
                                        with_entry(
                                            cur,
                                            key,
                                            ValueModel::Str(drop_leading_newline(content)),
                                        ),
                                    )
                                } else {
                                    Ok(done)
                                },
                            },
                        }
                    } else if starts_with(rhs, seq!['"']) {
                        let rest = rhs.skip(1);
                        match close_quote(rest, 0) {
                            None => Err(line_msg(n, ": unterminated string"@)),
                            Some(c) => parse_lines(
                                ls,
                                i + 1,
                                done,
                                with_entry(cur, key, ValueModel::Str(unescape(rest.take(c)))),
                            ),
                        }
                    } else {
                        let bare = trim(before(rhs, seq!['#']));
                        if bare == "true"@ {
                            parse_lines(ls, i + 1, done, with_entry(cur, key, ValueModel::Bool(true)))
                        } else if bare == "false"@ {
                            parse_lines(
                                ls,
                                i + 1,
                                done,
                                with_entry(cur, key, ValueModel::Bool(false)),
                            )
                        } else {
                            Err(
                                line_msg(n, ": unsupported value `"@) + bare
                                    + "` — strings must be quoted"@,
                            )
                        }
                    }
                },
            }
        }
    }
}

/// What `Document::parse` yields for `input`: the sections in order (the
/// first one is the unnamed top-level section), or the message of the first
/// line that breaks the grammar.
pub open spec fn parse_doc(input: Seq<char>) -> Result<Seq<SectionModel>, Seq<char>> {
    parse_lines(crate::text::lines(input), 0, seq![], SectionModel { name: seq![], entries: seq![] })
}

/// The view of a parse result.
pub open spec fn parsed_view(r: Result<Document, String>) -> Result<Seq<SectionModel>, Seq<char>> {
    match r {
        Ok(d) => Ok(d@),
        Err(e) => Err(e@),
    }
}

/// `line <n><tail>` as a string.
fn line_error(n: usize, tail: &str) -> (r: String)
    ensures
        r@ == line_msg(n as nat, tail@),
{
    let mut out: Vec<char> = Vec::new();
    push_str(&mut out, "line ");
    let d = decimal_of(n);
    push_all(&mut out, &d);
    push_str(&mut out, tail);
    string_of(&out)
}

/// Decode the escapes of a double-quoted string.
fn unescape_chars(s: &[char]) -> (r: Vec<char>)
    ensures
        r@ == unescape(s@),
{
    let mut out: Vec<char> = Vec::new();
    let mut i: usize = 0;
    assert(s@.skip(0) == s@);
    assert(out@ + unescape(s@) == unescape(s@));
    while i < s.len()
        invariant
            i <= s.len(),
            out@ + unescape(s@.skip(i as int)) == unescape(s@),
        decreases s.len() - i,
    {
        let ghost rest = s@.skip(i as int);
        let ghost before_out = out@;
        let c = s[i];
        if c == '\\' {
            if i + 1 == s.len() {
                out.push('\\');
                assert(s@.skip(i + 1) == Seq::<char>::empty());
                assert(unescape(s@.skip(i + 1)) == Seq::<char>::empty());
                i += 1;
            } else {
                let d = s[i + 1];
                if d == '"' {
                    out.push('"');
                } else if d == '\\' {
                    out.push('\\');
                } else if d == 'n' {
                    out.push('\n');
                } else if d == 't' {
                    out.push('\t');
                } else {
                    out.push('\\');
                    out.push(d);
                }
                assert(out@ == before_out + escaped(d));
                assert(rest.skip(2) == s@.skip(i + 2));
                i += 2;
            }
        } else {
            out.push(c);
            assert(out@ == before_out + seq![c]);
            assert(rest.skip(1) == s@.skip(i + 1));
            i += 1;
        }
    }
    assert(s@.skip(s.len() as int) == Seq::<char>::empty());
    assert(unescape(s@.skip(s.len() as int)) == Seq::<char>::empty());
    out
}

/// Whether `s` holds `"""` at `i`.
fn tq_at(s: &[char], i: usize) -> (r: bool)
    ensures
        r == occurs_at(s@, tq(), i as int),
{
    let t = vec!['"', '"', '"'];
    assert(t@ == tq());
    occurs(s, &t, i)
}

/// The first `"""` in `s`.
fn find_tq(s: &[char]) -> (r: Option<usize>)
    ensures
        r matches Some(k) ==> find(s@, tq()) == Some(k as int),
        r is None ==> find(s@, tq()) is None,
{
    let t = vec!['"', '"', '"'];
    assert(t@ == tq());
    find_in(s, &t)
}

/// Lemma: `gather` grows by one line on the right.
proof fn lemma_gather_step(ls: Seq<Seq<char>>, j: int, k: int)
    requires
        0 <= j <= k < ls.len(),
    ensures
        gather(ls, j, k + 1) == gather(ls, j, k) + ls[k] + seq!['\n'],
{
}

/// The index of the `"` closing a double-quoted string that starts at the
/// beginning of `s`, stepping over backslash escapes.
fn closing_quote(s: &[char]) -> (r: Option<usize>)
    ensures
        r matches Some(k) ==> close_quote(s@, 0) == Some(k as int),
        r is None ==> close_quote(s@, 0) is None,
{
    let mut i: usize = 0;
    while i < s.len()
        invariant
            close_quote(s@, i as int) == close_quote(s@, 0),
        decreases s.len() - i,
    {
        if s[i] == '\\' {
            if i + 1 < s.len() {
                i += 2;
            } else {
                return None;
            }
        } else if s[i] == '"' {
            return Some(i);
        } else {
            i += 1;
        }
    }
    None
}

impl Document {
    /// Find the first section with the given name.
    pub fn section(&self, name: &str) -> (r: Option<&Section>)
        ensures
            r.deep_view() == find_section(self@, name@),
    {
        let k = chars_of(name);
        let mut i: usize = 0;
        while i < self.sections.len()
            invariant
                i <= self.sections.len(),
                k@ == name@,
                section_from(self@, name@, i as int) == find_section(self@, name@),
            decreases self.sections.len() - i,
        {
            let s = &self.sections[i];
            let sk = chars_of(s.name.as_str());
            if eq(&sk, &k) {
                return Some(s);
            }
            i += 1;
        }
        None
    }

    /// Parse a `rustio.design.toml` document from source text.
    pub fn parse(input: &str) -> (r: Result<Document, String>)
        ensures
            parsed_view(r) == parse_doc(input@),
    {
        let src = chars_of(input);
        let lines = lines_of(&src);
        let ghost ls = lines.deep_view();
        let mut sections: Vec<Section> = Vec::new();
        let mut current = Section { name: String::new(), entries: Vec::new() };
        assert(current.entries.deep_view() =~= Seq::<(Seq<char>, ValueModel)>::empty());
        assert(sections.deep_view() =~= Seq::<SectionModel>::empty());
        let mut i: usize = 0;
        while i < lines.len()
            invariant
                i <= lines.len(),
                ls == lines.deep_view(),
                ls.len() == lines.len(),
                ls == crate::text::lines(input@),
                parse_lines(ls, i as int, sections.deep_view(), current@) == parse_doc(input@),
            decreases lines.len() - i,
        {
            let raw = &lines[i];
            assert(raw@ == ls[i as int]);
            let line = trimmed(raw);
            if line.len() == 0 || line[0] == '#' {
                i += 1;
                continue;
            }
            if line[0] == '[' {
                let stripped = slice_copy(&line, 1, line.len());
                assert(stripped@ == line@.skip(1));
                match find_char_at(&stripped, ']', 0) {
                    None => {
                        return Err(line_error(i + 1, ": missing `]` in section header"));
                    },
                    Some(end) => {
                        proof {
                            lemma_find_from(stripped@, seq![']'], 0);
                        }
                        let head = slice_copy(&stripped, 0, end);
                        let name_chars = trimmed(&head);
                        let fresh = Section { name: string_of(&name_chars), entries: Vec::new() };
                        assert(fresh.entries.deep_view() =~= Seq::<(Seq<char>, ValueModel)>::empty());
                        let finished = current;
                        let ghost before = sections;
                        let ghost fin = finished;
                        sections.push(finished);
                        proof {
                            lemma_push_deep(before, sections, fin);
                            assert(head@ == stripped@.take(end as int));
                        }
                        current = fresh;
                        i += 1;
                        continue;
                    },
                }
            }
            let eqpos = match find_char_at(&line, '=', 0) {
                None => {
                    return Err(line_error(i + 1, ": expected `key = value`"));
                },
                Some(p) => p,
            };
            proof {
                lemma_find_from(line@, seq!['='], 0);
            }
            let key_head = slice_copy(&line, 0, eqpos);
            let key = trimmed(&key_head);
            assert(key_head@ == line@.take(eqpos as int));
            if key.len() == 0 {
                return Err(line_error(i + 1, ": empty key"));
            }
            let rhs_tail = slice_copy(&line, eqpos + 1, line.len());
            assert(rhs_tail@ == line@.skip(eqpos + 1));
            let rhs = trimmed(&rhs_tail);
            let is_tq = rhs.len() >= 3 && tq_at(&rhs, 0);
            assert(is_tq == starts_with(rhs@, tq())) by {
                if rhs.len() >= 3 {
                    assert(rhs@.subrange(0, 3) == rhs@.take(3));
                }
            }
            if is_tq {
                let after = slice_copy(&rhs, 3, rhs.len());
                assert(after@ == rhs@.skip(3));
                match find_tq(&after) {
                    Some(close) => {
                        proof {
                            lemma_find_from(after@, tq(), 0);
                        }
                        let body = slice_copy(&after, 0, close);
                        assert(body@ == after@.take(close as int));
                        let content = if body.len() > 0 && body[0] == '\n' {
                            slice_copy(&body, 1, body.len())
                        } else {
                            body
                        };
                        assert(content@ == drop_leading_newline(after@.take(close as int)));
                        let ghost before = current.entries;
                        let kv = (string_of(&key), Value::Str(string_of(&content)));
                        let ghost kvg = kv;
                        current.entries.push(kv);
                        proof {
                            lemma_push_deep(before, current.entries, kvg);
                        }
                        i += 1;
                        continue;
                    },
                    None => {
                        let mut content = after;
                        content.push('\n');
                        let start = i + 1;
                        let mut j = i + 1;
                        let mut closed = false;
                        loop
                            invariant_except_break
                                !closed,
                                content@ == after@ + seq!['\n'] + gather(
                                    ls,
                                    start as int,
                                    j as int,
                                ),
                            invariant
                                i < start == i + 1,
                                start <= j <= lines.len(),
                                ls == lines.deep_view(),
                                ls.len() == lines.len(),
                                close_line(ls, j as int) == close_line(ls, start as int),
                            ensures
                                closed ==> j < lines.len(),
                                closed ==> close_line(ls, start as int) == Some(j as int),
                                !closed ==> j == lines.len() && close_line(ls, start as int) is None,
                                closed ==> content@ == after@ + seq!['\n'] + gather(ls, start as int, j as int)
                                    + ls[j as int].take(find(ls[j as int], tq())->0),
                            decreases lines.len() - j,
                        {
                            if j >= lines.len() {
                                assert(close_line(ls, j as int) is None);
                                break ;
                            }
                            let l = &lines[j];
                            assert(l@ == ls[j as int]);
                            match find_tq(l) {
                                Some(close) => {
                                    proof {
                                        lemma_find_from(l@, tq(), 0);
                                    }
                                    assert(contains(ls[j as int], tq()));
                                    assert(close_line(ls, j as int) == Some(j as int));
                                    let tail = slice_copy(l, 0, close);
                                    push_all(&mut content, &tail);
                                    assert(tail@ == l@.take(close as int));
                                    closed = true;
                                    break ;
                                },
                                None => {
                                    proof {
                                        lemma_gather_step(ls, start as int, j as int);
                                    }
                                    assert(!contains(ls[j as int], tq()));
                                    push_all(&mut content, l);
                                    content.push('\n');
                                    assert(content@ == after@ + seq!['\n'] + gather(
                                        ls,
                                        start as int,
                                        j + 1,
                                    ));
                                    j += 1;
                                },
                            }
                        }
                        if !closed {
                            return Err(line_error(j, ": unterminated `\"\"\"` string"));
                        }
                        let text = if content.len() > 0 && content[0] == '\n' {
                            slice_copy(&content, 1, content.len())
                        } else {
                            content
                        };
                        let ghost before = current.entries;
                        let kv = (string_of(&key), Value::Str(string_of(&text)));
                        let ghost kvg = kv;
                        current.entries.push(kv);
                        proof {
                            lemma_push_deep(before, current.entries, kvg);
                        }
                        i = j + 1;
                        continue;
                    },
                }
            }
            if rhs.len() >= 1 && rhs[0] == '"' {
                assert(starts_with(rhs@, seq!['"'])) by {
                    assert(rhs@.take(1) == seq!['"']);
                }
                let rest = slice_copy(&rhs, 1, rhs.len());
                assert(rest@ == rhs@.skip(1));
                match closing_quote(&rest) {
                    None => {
                        return Err(line_error(i + 1, ": unterminated string"));
                    },
                    Some(close) => {
                        proof {
                            lemma_close_quote(rest@, 0);
                        }
                        let inner = slice_copy(&rest, 0, close);
                        assert(inner@ == rest@.take(close as int));
                        let val = unescape_chars(&inner);
                        let ghost before = current.entries;
                        let kv = (string_of(&key), Value::Str(string_of(&val)));
                        let ghost kvg = kv;
                        current.entries.push(kv);
                        proof {
                            lemma_push_deep(before, current.entries, kvg);
                        }
                        i += 1;
                        continue;
                    },
                }
            }
            assert(!starts_with(rhs@, seq!['"'])) by {
                if rhs.len() >= 1 {
                    assert(rhs@.take(1)[0] == rhs@[0]);
                }
            }
            let head = match find_char_at(&rhs, '#', 0) {
                Some(h) => {
                    proof {
                        lemma_find_from(rhs@, seq!['#'], 0);
                    }
                    slice_copy(&rhs, 0, h)
                },
                None => slice_copy(&rhs, 0, rhs.len()),
            };
            assert(head@ == before(rhs@, seq!['#'])) by {
                if find(rhs@, seq!['#']) is None {
                    assert(rhs@.subrange(0, rhs.len() as int) == rhs@);
                }
            }
            let bare = trimmed(&head);
            let b = if eq_str(&bare, "true") {
                true
            } else if eq_str(&bare, "false") {
                false
            } else {
                let mut msg: Vec<char> = Vec::new();
                push_str(&mut msg, "line ");
                let d = decimal_of(i + 1);
                push_all(&mut msg, &d);
                push_str(&mut msg, ": unsupported value `");
                push_all(&mut msg, &bare);
                push_str(&mut msg, "` — strings must be quoted");
                return Err(string_of(&msg));
            };
            let ghost before = current.entries;
            let kv = (string_of(&key), Value::Bool(b));
            let ghost kvg = kv;
            current.entries.push(kv);
            proof {
                lemma_push_deep(before, current.entries, kvg);
            }
            i += 1;
        }
        let ghost before = sections;
        let ghost fin = current;
        sections.push(current);
        proof {
            lemma_push_deep(before, sections, fin);
        }
        Ok(Document { sections })
    }
}

// ───────────────────────────── laws ─────────────────────────────

/// Every error the grammar reports from line `i` on names a line of the input.
proof fn lemma_errors_name_a_line(
    ls: Seq<Seq<char>>,
    i: int,
    done: Seq<SectionModel>,
    cur: SectionModel,
)
    requires
        0 <= i,
    ensures
        parse_lines(ls, i, done, cur) matches Err(e) ==> exists|n: nat, tail: Seq<char>|
            1 <= n <= ls.len() && e == #[trigger] line_msg(n, tail),
    decreases ls.len() - i,
{
    if i < ls.len() {
        let line = trim(ls[i]);
        let n = (i + 1) as nat;
        if line.len() == 0 || line[0] == '#' {
            lemma_errors_name_a_line(ls, i + 1, done, cur);
        } else if line[0] == '[' {
            let stripped = line.skip(1);
            match find(stripped, seq![']']) {
                None => {
                    assert(1 <= n <= ls.len());
                },
                Some(e) => lemma_errors_name_a_line(
                    ls,
                    i + 1,
                    done.push(cur),
                    SectionModel { name: trim(stripped.take(e)), entries: seq![] },
                ),
            }
        } else {
            match find(line, seq!['=']) {
                None => {
                    assert(1 <= n <= ls.len());
                },
                Some(eq) => {
                    let key = trim(line.take(eq));
                    let rhs = trim(line.skip(eq + 1));
                    if key.len() == 0 {
                        assert(1 <= n <= ls.len());
                    } else if starts_with(rhs, tq()) {
                        let after = rhs.skip(3);
                        match find(after, tq()) {
                            Some(c) => lemma_errors_name_a_line(
                                ls,
                                i + 1,
                                done,
                                with_entry(
                                    cur,
                                    key,
                                    ValueModel::Str(drop_leading_newline(after.take(c))),
                                ),
                            ),
                            None => match close_line(ls, i + 1) {
                                None => {
                                    let m = ls.len() as nat;
                                    assert(1 <= m <= ls.len());
                                    assert(line_msg(m, ": unterminated `\"\"\"` string"@)
                                        == line_msg(m, ": unterminated `\"\"\"` string"@));
                                },
                                Some(k) => if i < k < ls.len() {
                                    let last = ls[k];
                                    let content = after + seq!['\n'] + gather(ls, i + 1, k)
                                        + last.take(find(last, tq())->0);
                                    lemma_errors_name_a_line(
                                        ls,
                                        k + 1,
                                        done,
                                        with_entry(
                                            cur,
                                            key,
                                            ValueModel::Str(drop_leading_newline(content)),
                                        ),
                                    );
                                },
                            },
                        }
                    } else if starts_with(rhs, seq!['"']) {
                        let rest = rhs.skip(1);
                        match close_quote(rest, 0) {
                            None => {
                                assert(1 <= n <= ls.len());
                            },
                            Some(c) => lemma_errors_name_a_line(
                                ls,
                                i + 1,
                                done,
                                with_entry(cur, key, ValueModel::Str(unescape(rest.take(c)))),
                            ),
                        }
                    } else {
                        let bare = trim(before(rhs, seq!['#']));
                        if bare == "true"@ {
                            lemma_errors_name_a_line(
                                ls,
                                i + 1,
                                done,
                                with_entry(cur, key, ValueModel::Bool(true)),
                            );
                        } else if bare == "false"@ {
                            lemma_errors_name_a_line(
                                ls,
                                i + 1,
                                done,
                                with_entry(cur, key, ValueModel::Bool(false)),
                            );
                        } else {
                            let tail = ": unsupported value `"@ + bare + "` — strings must be quoted"@;
                            assert(line_msg(n, ": unsupported value `"@) + bare
                                + "` — strings must be quoted"@ =~= line_msg(n, tail));
                            assert(1 <= n <= ls.len());
                        }
                    }
                },
            }
        }
    }
}

/// A malformed spec fails loudly: every parse error is `line <n>…`, naming
/// one of the input's lines.
pub proof fn law_parse_errors_name_a_line(input: Seq<char>)
    ensures
        parse_doc(input) matches Err(e) ==> exists|n: nat, tail: Seq<char>|
            1 <= n <= crate::text::lines(input).len() && e == #[trigger] line_msg(n, tail),
{
    lemma_errors_name_a_line(
        crate::text::lines(input),
        0,
        seq![],
        SectionModel { name: seq![], entries: seq![] },
    );
}

} // verus!

verus! {

/// A text with no whitespace at either end is its own trim.
proof fn lemma_trim_ends(s: Seq<char>)
    requires
        s.len() > 0,
        !crate::text::is_ws(s[0]),
        !crate::text::is_ws(s.last()),
    ensures
        trim(s) == s,
{
    assert(crate::text::skip_ws(s, 0) == 0);
    assert(s.skip(0) =~= s);
    assert(crate::text::skip_ws_back(s, s.len() as int) == s.len());
    assert(s.take(s.len() as int) =~= s);
}

/// A key followed by one space trims back to the key.
proof fn lemma_trim_key_space(key: Seq<char>)
    requires
        key.len() > 0,
        !crate::text::is_ws(key[0]),
        !crate::text::is_ws(key.last()),
    ensures
        trim(key + seq![' ']) == key,
{
    let t = key + seq![' '];
    assert(crate::text::skip_ws(t, 0) == 0);
    assert(t.skip(0) =~= t);
    assert(t[key.len() as int] == ' ');
    assert(t[key.len() - 1] == key.last());
    assert(crate::text::skip_ws_back(t, key.len() as int) == key.len());
    assert(crate::text::skip_ws_back(t, t.len() as int) == key.len());
    assert(t.take(key.len() as int) =~= key);
}

/// The first `c` of `s` is at `p`.
proof fn lemma_find_char(s: Seq<char>, c: char, p: int)
    requires
        0 <= p < s.len(),
        s[p] == c,
        forall|m: int| 0 <= m < p ==> s[m] != c,
    ensures
        find(s, seq![c]) == Some(p),
{
    assert(s.subrange(p, p + 1) =~= seq![c]);
    assert forall|m: int| 0 <= m < p implies !occurs_at(s, seq![c], m) by {
        if occurs_at(s, seq![c], m) {
            assert(s.subrange(m, m + 1)[0] == s[m]);
        }
    }
    crate::text::lemma_find_from_char(s, seq![c], 0, Some(p));
}

/// The first line at or after `j` holding `"""`.
proof fn lemma_close_line_at(ls: Seq<Seq<char>>, j: int, k: int)
    requires
        0 <= j <= k < ls.len(),
        forall|t: int| j <= t < k ==> !contains(#[trigger] ls[t], tq()),
        contains(ls[k], tq()),
    ensures
        close_line(ls, j) == Some(k),
    decreases k - j,
{
    if j < k {
        lemma_close_line_at(ls, j + 1, k);
    }
}

/// In `b` then `"""`, with no `"""` in `b` and `b` not ending in `"`, the first
/// `"""` is the closing one.
proof fn lemma_find_closing(b: Seq<char>)
    requires
        !contains(b, tq()),
        b.len() == 0 || b.last() != '"',
    ensures
        find(b + tq(), tq()) == Some(b.len() as int),
{
    let s = b + tq();
    lemma_find_from(b, tq(), 0);
    assert(s.subrange(b.len() as int, (b.len() + 3) as int) =~= tq());
    assert forall|m: int| 0 <= m < b.len() implies !occurs_at(s, tq(), m) by {
        if occurs_at(s, tq(), m) {
            if m + 3 <= b.len() {
                assert(b.subrange(m, m + 3) =~= s.subrange(m, m + 3));
                assert(occurs_at(b, tq(), m));
            } else {
                assert(s.subrange(m, m + 3)[b.len() - 1 - m] == s[b.len() - 1]);
                assert(s[b.len() - 1] == b.last());
            }
        }
    }
    crate::text::lemma_find_from_char(s, tq(), 0, Some(b.len() as int));
}

/// The body lines `2..2+t`, each with its newline, then `x`: the lines joined
/// by newlines.
proof fn lemma_gather_join(ls: Seq<Seq<char>>, body: Seq<Seq<char>>, t: int, x: Seq<char>)
    requires
        0 <= t <= body.len(),
        ls.len() >= 2 + body.len(),
        forall|u: int| 0 <= u < body.len() ==> ls[2 + u] == body[u],
    ensures
        gather(ls, 2, 2 + t) + x == crate::text::join(body.take(t).push(x), seq!['\n']),
    decreases t,
{
    if t == 0 {
        assert(gather(ls, 2, 2) == Seq::<char>::empty());
        assert(body.take(0).push(x) =~= seq![x]);
    } else {
        lemma_gather_join(ls, body, t - 1, body[t - 1]);
        assert(body.take(t - 1).push(body[t - 1]) =~= body.take(t));
        assert(body.take(t).push(x).drop_last() =~= body.take(t));
        assert(ls[1 + t] == body[t - 1]);
        assert(gather(ls, 2, 2 + t) + x =~= (gather(ls, 2, 1 + t) + body[t - 1]) + seq!['\n'] + x);
    }
}

/// The header line `[sec]` opens a section named `trim(sec)`.
proof fn lemma_header_line(sec: Seq<char>)
    requires
        forall|t: int| 0 <= t < sec.len() ==> sec[t] != ']',
    ensures
        trim(seq!['['] + sec + seq![']']) == seq!['['] + sec + seq![']'],
        find((seq!['['] + sec + seq![']']).skip(1), seq![']']) == Some(sec.len() as int),
        (seq!['['] + sec + seq![']']).skip(1).take(sec.len() as int) == sec,
{
    let hdr = seq!['['] + sec + seq![']'];
    lemma_trim_ends(hdr);
    let stripped = hdr.skip(1);
    assert(stripped =~= sec + seq![']']);
    lemma_find_char(stripped, ']', sec.len() as int);
    assert(stripped.take(sec.len() as int) =~= sec);
}

/// The key line `key = """a` splits into the key and `"""a`.
proof fn lemma_key_line(key: Seq<char>, a: Seq<char>)
    requires
        key.len() > 0,
        !crate::text::is_ws(key[0]),
        !crate::text::is_ws(key.last()),
        forall|t: int| 0 <= t < key.len() ==> key[t] != '=',
        a.len() > 0 ==> !crate::text::is_ws(a.last()),
    ensures
        trim(key + seq![' ', '=', ' ', '"', '"', '"'] + a) == key + seq![' ', '=', ' ', '"', '"', '"'] + a,
        find(key + seq![' ', '=', ' ', '"', '"', '"'] + a, seq!['=']) == Some(key.len() + 1 as int),
        trim((key + seq![' ', '=', ' ', '"', '"', '"'] + a).take((key.len() + 1) as int)) == key,
        trim((key + seq![' ', '=', ' ', '"', '"', '"'] + a).skip((key.len() + 2) as int)) == tq() + a,
        starts_with(tq() + a, tq()),
        (tq() + a).skip(3) == a,
{
    let kl = key + seq![' ', '=', ' ', '"', '"', '"'] + a;
    assert(kl[0] == key[0]);
    assert(kl.last() == if a.len() == 0 { '"' } else { a.last() });
    lemma_trim_ends(kl);
    lemma_find_char(kl, '=', (key.len() + 1) as int);
    assert(kl.take((key.len() + 1) as int) =~= key + seq![' ']);
    lemma_trim_key_space(key);
    let rhs0 = kl.skip((key.len() + 2) as int);
    let ra = tq() + a;
    assert(rhs0 =~= seq![' '] + ra);
    assert(ra[0] == '"' && ra.last() == if a.len() == 0 { '"' } else { a.last() });
    lemma_trim_ends(ra);
    assert(rhs0[0] == ' ' && rhs0[1] == '"');
    assert(crate::text::skip_ws(rhs0, 1) == 1);
    assert(crate::text::skip_ws(rhs0, 0) == 1);
    assert(crate::text::trim_start(rhs0) =~= ra);
    assert(starts_with(ra, tq())) by {
        assert(ra.take(3) =~= tq());
    }
    assert(ra.skip(3) =~= a);
}

/// The body and the closing line: the value's text and where parsing resumes.
proof fn lemma_closing_lines(ls: Seq<Seq<char>>, body: Seq<Seq<char>>, a: Seq<char>, b: Seq<char>)
    requires
        ls.len() == 3 + body.len(),
        forall|u: int| 0 <= u < body.len() ==> ls[2 + u] == body[u],
        ls[2 + body.len() as int] == b + tq(),
        forall|t: int| 0 <= t < body.len() ==> !contains(#[trigger] body[t], tq()),
        !contains(b, tq()),
        b.len() == 0 || b.last() != '"',
        a.len() > 0 ==> a[0] != '\n',
    ensures
        close_line(ls, 2) == Some(2 + body.len() as int),
        find(b + tq(), tq()) == Some(b.len() as int),
        drop_leading_newline(
            a + seq!['\n'] + gather(ls, 2, 2 + body.len() as int) + (b + tq()).take(b.len() as int),
        ) == if a.len() == 0 {
            crate::text::join(body.push(b), seq!['\n'])
        } else {
            a + seq!['\n'] + crate::text::join(body.push(b), seq!['\n'])
        },
{
    let n = body.len() as int;
    lemma_find_closing(b);
    lemma_find_from(b + tq(), tq(), 0);
    assert forall|t: int| 2 <= t < 2 + n implies !contains(#[trigger] ls[t], tq()) by {
        assert(ls[t] == body[t - 2]);
    }
    lemma_close_line_at(ls, 2, 2 + n);
    assert((b + tq()).take(b.len() as int) =~= b);
    lemma_gather_join(ls, body, n, b);
    assert(body.take(n) =~= body);
    let j = crate::text::join(body.push(b), seq!['\n']);
    let content = a + seq!['\n'] + gather(ls, 2, 2 + n) + b;
    if a.len() == 0 {
        assert(content =~= seq!['\n'] + j);
        assert(drop_leading_newline(content) =~= j);
    } else {
        assert(content =~= a + seq!['\n'] + j);
    }
}

/// A triple-quoted value keeps all of its text: for a section `[sec]` whose key
/// opens `"""` (with text `a`, possibly none, after it on the same line),
/// followed by body lines and a last line that closes with `"""`, the value is
/// every line between the delimiters — the text before the closing `"""`
/// included — joined by newlines, the empty rest of the opening line dropped.
pub proof fn law_triple_quoted_value_keeps_every_line(
    input: Seq<char>,
    sec: Seq<char>,
    key: Seq<char>,
    a: Seq<char>,
    body: Seq<Seq<char>>,
    b: Seq<char>,
)
    requires
        crate::text::lines(input) == seq![
            seq!['['] + sec + seq![']'],
            key + seq![' ', '=', ' ', '"', '"', '"'] + a,
        ] + body + seq![b + tq()],
        forall|t: int| 0 <= t < sec.len() ==> sec[t] != ']',
        key.len() > 0,
        !crate::text::is_ws(key[0]),
        !crate::text::is_ws(key.last()),
        key[0] != '#',
        key[0] != '[',
        forall|t: int| 0 <= t < key.len() ==> key[t] != '=',
        !contains(a, tq()),
        a.len() > 0 ==> !crate::text::is_ws(a.last()) && a[0] != '\n',
        forall|t: int| 0 <= t < body.len() ==> !contains(#[trigger] body[t], tq()),
        !contains(b, tq()),
        b.len() == 0 || b.last() != '"',
    ensures
        parse_doc(input) == Ok::<Seq<SectionModel>, Seq<char>>(
            seq![
                SectionModel { name: seq![], entries: seq![] },
                SectionModel {
                    name: trim(sec),
                    entries: seq![
                        (
                            key,
                            ValueModel::Str(
                                if a.len() == 0 {
                                    crate::text::join(body.push(b), seq!['\n'])
                                } else {
                                    a + seq!['\n'] + crate::text::join(body.push(b), seq!['\n'])
                                },
                            ),
                        ),
                    ],
                },
            ],
        ),
{
    let ls = crate::text::lines(input);
    let n = body.len() as int;
    let kl = key + seq![' ', '=', ' ', '"', '"', '"'] + a;
    let c0 = SectionModel { name: seq![], entries: seq![] };
    assert(ls[0] == seq!['['] + sec + seq![']'] && ls[1] == kl && ls[2 + n] == b + tq() && ls.len()
        == 3 + n);
    assert forall|u: int| 0 <= u < n implies ls[2 + u] == body[u] by {}
    lemma_header_line(sec);
    let c1 = SectionModel { name: trim(sec), entries: seq![] };
    assert(parse_lines(ls, 0, seq![], c0) == parse_lines(ls, 1, seq![c0], c1));
    lemma_key_line(key, a);
    assert(kl[0] == key[0]);
    assert(find(a, tq()) is None);
    lemma_closing_lines(ls, body, a, b);
    let j = crate::text::join(body.push(b), seq!['\n']);
    let v = if a.len() == 0 {
        j
    } else {
        a + seq!['\n'] + j
    };
    let c2 = with_entry(c1, key, ValueModel::Str(v));
    assert(parse_lines(ls, 1, seq![c0], c1) == parse_lines(ls, 3 + n, seq![c0], c2));
    assert(c2.entries =~= seq![(key, ValueModel::Str(v))]);
    assert(seq![c0].push(c2) =~= seq![c0, c2]);
}

/// A triple-quoted value closed on its own line is the text between the
/// delimiters: `key = """x"""` under `[sec]` gives `x`.
pub proof fn law_one_line_triple_quoted_value(input: Seq<char>, sec: Seq<char>, key: Seq<char>, x: Seq<char>)
    requires
        crate::text::lines(input) == seq![
            seq!['['] + sec + seq![']'],
            key + seq![' ', '=', ' ', '"', '"', '"'] + (x + tq()),
        ],
        forall|t: int| 0 <= t < sec.len() ==> sec[t] != ']',
        key.len() > 0,
        !crate::text::is_ws(key[0]),
        !crate::text::is_ws(key.last()),
        key[0] != '#',
        key[0] != '[',
        forall|t: int| 0 <= t < key.len() ==> key[t] != '=',
        !contains(x, tq()),
        x.len() == 0 || x.last() != '"',
        x.len() > 0 ==> x[0] != '\n',
    ensures
        parse_doc(input) == Ok::<Seq<SectionModel>, Seq<char>>(
            seq![
                SectionModel { name: seq![], entries: seq![] },
                SectionModel { name: trim(sec), entries: seq![(key, ValueModel::Str(x))] },
            ],
        ),
{
    let ls = crate::text::lines(input);
    let a = x + tq();
    let kl = key + seq![' ', '=', ' ', '"', '"', '"'] + a;
    let c0 = SectionModel { name: seq![], entries: seq![] };
    lemma_header_line(sec);
    let c1 = SectionModel { name: trim(sec), entries: seq![] };
    assert(parse_lines(ls, 0, seq![], c0) == parse_lines(ls, 1, seq![c0], c1));
    assert(a.last() == '"');
    lemma_key_line(key, a);
    assert(kl[0] == key[0]);
    lemma_find_closing(x);
    assert(a.take(x.len() as int) =~= x);
    assert(drop_leading_newline(x) == x);
    let c2 = with_entry(c1, key, ValueModel::Str(x));
    assert(parse_lines(ls, 1, seq![c0], c1) == parse_lines(ls, 2, seq![c0], c2));
    assert(c2.entries =~= seq![(key, ValueModel::Str(x))]);
    assert(seq![c0].push(c2) =~= seq![c0, c2]);
}

} // verus!
