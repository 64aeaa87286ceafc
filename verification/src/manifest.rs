//! The build manifest — content fingerprints that make drift and staleness
//! observable.
//!
//! After every `build`, the manifest records the SHA-256 of the spec and of each
//! generated file; `check` re-reads it. The format is `sha256sum`-style lines:
//!
//! ```text
//! # rustio-design manifest — generated, do not edit
//! <64-hex>  rustio.design.toml
//! <64-hex>  tokens.css
//! ```

use vstd::prelude::*;
use crate::text::{
    chars_of, eq, find, find_in, is_ws, lemma_chars_deep, lemma_find_from, lemma_find_from_char,
    lemma_push_deep, lines, lines_from, lines_of, occurs_at, push_all, push_str, skip_ws,
    skip_ws_back, slice_copy, string_of, strip_cr, trim, trimmed, find_from, lemma_find_shift,
};

verus! {

broadcast use lemma_chars_deep;

/// A parsed manifest: ordered `(relative_path, sha256_hex)` entries.
pub struct Manifest {
    /// Entries in write order.
    pub entries: Vec<(String, String)>,
}

impl View for Manifest {
    type V = Seq<(Seq<char>, Seq<char>)>;

    open spec fn view(&self) -> Seq<(Seq<char>, Seq<char>)> {
        self.entries.deep_view()
    }
}

/// Index of the first entry at or after `i` recorded for `path`.
pub open spec fn index_from(es: Seq<(Seq<char>, Seq<char>)>, path: Seq<char>, i: int) -> Option<int>
    decreases es.len() - i,
{
    if i < 0 || i >= es.len() {
        None
    } else if es[i].0 == path {
        Some(i)
    } else {
        index_from(es, path, i + 1)
    }
}

/// Index of the first entry recorded for `path`.
pub open spec fn index_of(es: Seq<(Seq<char>, Seq<char>)>, path: Seq<char>) -> Option<int> {
    index_from(es, path, 0)
}

/// The entries after recording `hash` for `path`: the first entry for `path`
/// takes the new hash, or a new entry is appended.
pub open spec fn set_entry(es: Seq<(Seq<char>, Seq<char>)>, path: Seq<char>, hash: Seq<char>) -> Seq<
    (Seq<char>, Seq<char>),
> {
    match index_of(es, path) {
        Some(k) => es.update(k, (path, hash)),
        None => es.push((path, hash)),
    }
}

/// The hash recorded for `path`.
pub open spec fn hash_of(es: Seq<(Seq<char>, Seq<char>)>, path: Seq<char>) -> Option<Seq<char>> {
    match index_of(es, path) {
        Some(k) => Some(es[k].1),
        None => None,
    }
}

/// The first line of every manifest file.
pub open spec fn header() -> Seq<char> {
    "# rustio-design manifest — generated, do not edit\n"@
}

/// One entry as a manifest line.
pub open spec fn entry_line(e: (Seq<char>, Seq<char>)) -> Seq<char> {
    e.1 + "  "@ + e.0 + seq!['\n']
}

/// The entry lines, in order.
pub open spec fn body(es: Seq<(Seq<char>, Seq<char>)>) -> Seq<char>
    decreases es.len(),
{
    if es.len() == 0 {
        seq![]
    } else {
        entry_line(es[0]) + body(es.skip(1))
    }
}

/// The manifest file for `es`.
pub open spec fn manifest_text(es: Seq<(Seq<char>, Seq<char>)>) -> Seq<char> {
    header() + body(es)
}

/// The entry one line holds: blank and `#` lines hold none; otherwise the
/// text before the first two-space gap is the hash and the rest the path.
pub open spec fn line_entry(raw: Seq<char>) -> Option<(Seq<char>, Seq<char>)> {
    let line = trim(raw);
    if line.len() == 0 || line[0] == '#' {
        None
    } else {
        match find(line, "  "@) {
            Some(k) => Some((trim(line.skip(k + 2)), trim(line.take(k)))),
            None => None,
        }
    }
}

/// The entries the lines `ls` hold, in order.
pub open spec fn entries_of(ls: Seq<Seq<char>>) -> Seq<(Seq<char>, Seq<char>)>
    decreases ls.len(),
{
    if ls.len() == 0 {
        seq![]
    } else {
        match line_entry(ls[0]) {
            Some(e) => seq![e] + entries_of(ls.skip(1)),
            None => entries_of(ls.skip(1)),
        }
    }
}

/// What `Manifest::parse` reads from a manifest file.
pub open spec fn parse_manifest(text: Seq<char>) -> Seq<(Seq<char>, Seq<char>)> {
    entries_of(lines(text))
}

impl Manifest {
    /// Build an empty manifest.
    pub fn new() -> (m: Self)
        ensures
            m@ == Seq::<(Seq<char>, Seq<char>)>::empty(),
    {
        let m = Manifest { entries: Vec::new() };
        assert(m@ =~= Seq::<(Seq<char>, Seq<char>)>::empty());
        m
    }

    /// Index of the first entry for `path`.
    fn position(&self, path: &[char]) -> (r: Option<usize>)
        ensures
            r matches Some(k) ==> index_of(self@, path@) == Some(k as int) && k < self@.len(),
            r is None ==> index_of(self@, path@) is None,
    {
        proof {
            lemma_index_from(self@, path@, 0);
        }
        let mut i: usize = 0;
        while i < self.entries.len()
            invariant
                i <= self.entries.len(),
                index_from(self@, path@, i as int) == index_of(self@, path@),
            decreases self.entries.len() - i,
        {
            let p = chars_of(self.entries[i].0.as_str());
            if eq(&p, path) {
                return Some(i);
            }
            i += 1;
        }
        None
    }

    /// Record (or replace) the hash for a path.
    pub fn set(&mut self, path: &str, hash: &str)
        ensures
            final(self)@ == set_entry(old(self)@, path@, hash@),
    {
        let p = chars_of(path);
        match self.position(&p) {
            Some(k) => {
                let ghost before = self.entries;
                let e = (String::from_str(path), String::from_str(hash));
                let ghost eg = e;
                self.entries.set(k, e);
                assert(self@ =~= before.deep_view().update(k as int, eg.deep_view()));
            },
            None => {
                let ghost before = self.entries;
                let e = (String::from_str(path), String::from_str(hash));
                let ghost eg = e;
                self.entries.push(e);
                proof {
                    lemma_push_deep(before, self.entries, eg);
                }
            },
        }
    }

    /// Look up the recorded hash for a path.
    pub fn get(&self, path: &str) -> (r: Option<&str>)
        ensures
            crate::toml_lite::opt_str(r) == hash_of(self@, path@),
    {
        let p = chars_of(path);
        match self.position(&p) {
            Some(k) => Some(self.entries[k].1.as_str()),
            None => None,
        }
    }

    /// Serialize to the on-disk text format.
    pub fn to_text(&self) -> (s: String)
        ensures
            s@ == manifest_text(self@),
    {
        let mut out: Vec<char> = Vec::new();
        push_str(&mut out, "# rustio-design manifest — generated, do not edit\n");
        let ghost es = self@;
        assert(es.skip(0) == es);
        let mut i: usize = 0;
        while i < self.entries.len()
            invariant
                i <= self.entries.len(),
                es == self@,
                out@ + body(es.skip(i as int)) == manifest_text(es),
            decreases self.entries.len() - i,
        {
            let ghost before = out@;
            let h = chars_of(self.entries[i].1.as_str());
            let p = chars_of(self.entries[i].0.as_str());
            push_all(&mut out, &h);
            push_str(&mut out, "  ");
            push_all(&mut out, &p);
            out.push('\n');
            assert(es.skip(i as int)[0] == es[i as int]);
            assert(es.skip(i as int).skip(1) == es.skip(i + 1));
            assert(out@ == before + entry_line(es[i as int]));
            i += 1;
        }
        assert(es.skip(i as int).len() == 0);
        string_of(&out)
    }

    /// Parse the on-disk text format. Unknown / malformed lines are skipped.
    pub fn parse(text: &str) -> (m: Self)
        ensures
            m@ == parse_manifest(text@),
    {
        let src = chars_of(text);
        let ls = lines_of(&src);
        let ghost lv = ls.deep_view();
        let mut entries: Vec<(String, String)> = Vec::new();
        assert(lv.skip(0) == lv);
        assert(entries.deep_view() =~= Seq::<(Seq<char>, Seq<char>)>::empty());
        let gap = vec![' ', ' '];
        assert(gap@ == "  "@) by {
            reveal_strlit("  ");
        }
        assert(gap@ == seq![' ', ' ']);
        let mut i: usize = 0;
        while i < ls.len()
            invariant
                i <= ls.len(),
                lv == ls.deep_view(),
                lv.len() == ls.len(),
                lv == lines(text@),
                gap@ == "  "@,
                gap@ == seq![' ', ' '],
                entries.deep_view() + entries_of(lv.skip(i as int)) == parse_manifest(text@),
            decreases ls.len() - i,
        {
            let ghost before = entries;
            assert(lv.skip(i as int)[0] == lv[i as int]);
            assert(lv.skip(i as int).skip(1) == lv.skip(i + 1));
            let line = trimmed(&ls[i]);
            if line.len() == 0 || line[0] == '#' {
                i += 1;
                continue;
            }
            match find_in(&line, &gap) {
                Some(k) => {
                    proof {
                        lemma_find_from(line@, gap@, 0);
                    }
                    let hpart = slice_copy(&line, 0, k);
                    let ppart = slice_copy(&line, k + 2, line.len());
                    assert(hpart@ == line@.take(k as int));
                    assert(ppart@ == line@.skip(k + 2));
                    let path = trimmed(&ppart);
                    let hash = trimmed(&hpart);
                    let e = (string_of(&path), string_of(&hash));
                    let ghost eg = e;
                    entries.push(e);
                    proof {
                        lemma_push_deep(before, entries, eg);
                    }
                },
                None => {},
            }
            i += 1;
        }
        assert(lv.skip(i as int).len() == 0);
        Manifest { entries }
    }
}

impl Default for Manifest {
    fn default() -> (m: Self)
        ensures
            m@ == Seq::<(Seq<char>, Seq<char>)>::empty(),
    {
        Self::new()
    }
}

// ───────────────────────────── laws ─────────────────────────────

/// Lemma: `index_from` finds a matching entry, with none earlier.
proof fn lemma_index_from(es: Seq<(Seq<char>, Seq<char>)>, path: Seq<char>, i: int)
    requires
        0 <= i,
    ensures
        index_from(es, path, i) matches Some(k) ==> i <= k < es.len() && es[k].0 == path
            && forall|m: int| i <= m < k ==> es[m].0 != path,
        index_from(es, path, i) is None ==> forall|m: int| i <= m < es.len() ==> es[m].0 != path,
    decreases es.len() - i,
{
    if i < es.len() && es[i].0 != path {
        lemma_index_from(es, path, i + 1);
    }
}

/// Reading a path right after recording a hash for it gives that hash back.
pub proof fn law_get_after_set(es: Seq<(Seq<char>, Seq<char>)>, path: Seq<char>, hash: Seq<char>)
    ensures
        hash_of(set_entry(es, path, hash), path) == Some(hash),
{
    lemma_index_from(es, path, 0);
    let after = set_entry(es, path, hash);
    lemma_index_from(after, path, 0);
    match index_of(es, path) {
        Some(k) => {
            match index_of(after, path) {
                Some(j) => {
                    if j < k {
                        assert(after[j] == es[j]);
                    } else if k < j {
                        assert(after[k].0 == path);
                    }
                },
                None => {
                    assert(after[k].0 == path);
                },
            }
        },
        None => {
            let n = es.len() as int;
            match index_of(after, path) {
                Some(j) => {
                    if j < n {
                        assert(after[j] == es[j]);
                    }
                },
                None => {
                    assert(after[n].0 == path);
                },
            }
        },
    }
}

/// Recording a hash for one path leaves what every other path reads unchanged.
pub proof fn law_set_keeps_other_paths(
    es: Seq<(Seq<char>, Seq<char>)>,
    path: Seq<char>,
    hash: Seq<char>,
    other: Seq<char>,
)
    requires
        other != path,
    ensures
        hash_of(set_entry(es, path, hash), other) == hash_of(es, other),
{
    lemma_index_from(es, path, 0);
    lemma_index_from(es, other, 0);
    let after = set_entry(es, path, hash);
    lemma_index_from(after, other, 0);
    assert(forall|m: int| 0 <= m < es.len() ==> (after[m].0 == other <==> es[m].0 == other));
    if index_of(es, path) is None {
        assert(after[es.len() as int].0 != other);
    }
    match (index_of(es, other), index_of(after, other)) {
        (Some(a), Some(b)) => {
            if a < b {
                assert(after[a].0 == other);
            } else if b < a {
                assert(es[b].0 == other);
            }
        },
        (Some(a), None) => {
            assert(after[a].0 == other);
        },
        (None, Some(b)) => {
            assert(es[b].0 == other);
        },
        (None, None) => {},
    }
}

/// An entry that survives a write/read round trip: both parts non-empty, with
/// no surrounding whitespace and no line break; the hash holds no two-space gap
/// and does not start a comment.
pub open spec fn entry_wf(e: (Seq<char>, Seq<char>)) -> bool {
    let (path, hash) = e;
    &&& path.len() > 0
    &&& hash.len() > 0
    &&& !is_ws(path[0]) && !is_ws(path.last())
    &&& !is_ws(hash[0]) && !is_ws(hash.last())
    &&& !path.contains('\n')
    &&& !hash.contains('\n')
    &&& find(hash, "  "@) is None
    &&& hash[0] != '#'
}

/// Lemma: `lines_from` reads a suffix.
proof fn lemma_lines_shift(s: Seq<char>, i: int)
    requires
        0 <= i <= s.len(),
    ensures
        lines_from(s, i) == lines(s.skip(i)),
    decreases s.len() - i,
{
    let t = s.skip(i);
    lemma_find_shift(s, seq!['\n'], i, i);
    lemma_find_from(s, seq!['\n'], i);
    lemma_find_from(t, seq!['\n'], 0);
    if i < s.len() {
        match find_from(s, seq!['\n'], i) {
            Some(k) => {
                assert(s.subrange(i, k) == t.subrange(0, k - i));
                lemma_lines_shift(s, k + 1);
                lemma_lines_shift(t, k - i + 1);
                assert(t.skip(k - i + 1) == s.skip(k + 1));
            },
            None => {
                assert(s.subrange(i, s.len() as int) == t.subrange(0, t.len() as int));
            },
        }
    }
}

/// Lemma: a line without a break, then a break, then the rest.
proof fn lemma_lines_cons(x: Seq<char>, y: Seq<char>)
    requires
        !x.contains('\n'),
    ensures
        lines(x + seq!['\n'] + y) == seq![strip_cr(x)] + lines(y),
{
    let s = x + seq!['\n'] + y;
    let n = x.len() as int;
    assert(occurs_at(s, seq!['\n'], n)) by {
        assert(s.subrange(n, n + 1) == seq!['\n']);
    }
    assert forall|m: int| 0 <= m < n implies !occurs_at(s, seq!['\n'], m) by {
        if occurs_at(s, seq!['\n'], m) {
            assert(s.subrange(m, m + 1)[0] == s[m]);
            assert(x[m] == '\n');
        }
    }
    lemma_find_from_char(s, seq!['\n'], 0, Some(n));
    assert(s.subrange(0, n) == x);
    lemma_lines_shift(s, n + 1);
    assert(s.skip(n + 1) == y);
}

/// Lemma: `trim` leaves alone a text with no whitespace at either end.
proof fn lemma_trim_noop(s: Seq<char>)
    requires
        s.len() > 0,
        !is_ws(s[0]),
        !is_ws(s.last()),
    ensures
        trim(s) == s,
{
    assert(skip_ws(s, 0) == 0);
    assert(s.skip(0) == s);
    assert(skip_ws_back(s, s.len() as int) == s.len());
    assert(s.take(s.len() as int) == s);
}

/// Lemma: one well-formed entry line reads back as the entry.
proof fn lemma_entry_roundtrip(e: (Seq<char>, Seq<char>))
    requires
        entry_wf(e),
    ensures
        line_entry(strip_cr(e.1 + "  "@ + e.0)) == Some(e),
{
    reveal_strlit("  ");
    let (path, hash) = e;
    let gap = "  "@;
    let line = hash + gap + path;
    let h = hash.len() as int;
    assert(line.last() == path.last());
    assert(strip_cr(line) == line);
    assert(line[0] == hash[0]);
    lemma_trim_noop(line);
    lemma_find_from(hash, gap, 0);
    assert(occurs_at(line, gap, h)) by {
        assert(line.subrange(h, h + 2) == gap);
    }
    assert forall|m: int| 0 <= m < h implies !occurs_at(line, gap, m) by {
        if occurs_at(line, gap, m) {
            assert(line.subrange(m, m + 2)[0] == line[m]);
            assert(line.subrange(m, m + 2)[1] == line[m + 1]);
            if m + 1 < h {
                assert(hash.subrange(m, m + 2) == line.subrange(m, m + 2));
                assert(occurs_at(hash, gap, m));
            } else {
                assert(line[m] == hash.last());
            }
        }
    }
    lemma_find_from_char(line, gap, 0, Some(h));
    assert(line.skip(h + 2) == path);
    assert(line.take(h) == hash);
    lemma_trim_noop(path);
    lemma_trim_noop(hash);
}

/// Lemma: the body of well-formed entries reads back as those entries.
proof fn lemma_body_roundtrip(es: Seq<(Seq<char>, Seq<char>)>)
    requires
        forall|i: int| 0 <= i < es.len() ==> entry_wf(#[trigger] es[i]),
    ensures
        entries_of(lines(body(es))) == es,
    decreases es.len(),
{
    reveal_strlit("  ");
    if es.len() == 0 {
        assert(lines(seq![]) == Seq::<Seq<char>>::empty());
    } else {
        let e = es[0];
        let rest = es.skip(1);
        assert forall|i: int| 0 <= i < rest.len() implies entry_wf(#[trigger] rest[i]) by {
            assert(rest[i] == es[i + 1]);
        }
        lemma_body_roundtrip(rest);
        let x = e.1 + "  "@ + e.0;
        assert(!x.contains('\n')) by {
            if x.contains('\n') {
                let k = choose|k: int| 0 <= k < x.len() && x[k] == '\n';
                if k < e.1.len() {
                    assert(e.1[k] == '\n');
                } else if k >= e.1.len() + 2 {
                    assert(e.0[k - e.1.len() - 2] == '\n');
                }
            }
        }
        assert(body(es) == x + seq!['\n'] + body(rest));
        lemma_lines_cons(x, body(rest));
        lemma_entry_roundtrip(e);
        let ls = lines(body(es));
        assert(ls[0] == strip_cr(x));
        assert(ls.skip(1) == lines(body(rest)));
        assert(seq![e] + rest == es);
    }
}

/// Writing a manifest and reading the text back yields the same entries, for
/// every manifest whose entries are well formed (as hashes and paths are).
pub proof fn law_text_roundtrip(es: Seq<(Seq<char>, Seq<char>)>)
    requires
        forall|i: int| 0 <= i < es.len() ==> entry_wf(#[trigger] es[i]),
    ensures
        parse_manifest(manifest_text(es)) == es,
{
    let hl = "# rustio-design manifest — generated, do not edit"@;
    reveal_strlit("# rustio-design manifest — generated, do not edit\n");
    reveal_strlit("# rustio-design manifest — generated, do not edit");
    assert(header() == hl + seq!['\n']);
    assert(!hl.contains('\n')) by {
        assert(forall|k: int| 0 <= k < hl.len() ==> hl[k] != '\n');
    }
    assert(manifest_text(es) == hl + seq!['\n'] + body(es));
    lemma_lines_cons(hl, body(es));
    lemma_body_roundtrip(es);
    let ls = lines(manifest_text(es));
    assert(strip_cr(hl) == hl);
    assert(!is_ws(hl[0]));
    lemma_skip_first(hl);
    assert(line_entry(ls[0]) is None);
    assert(ls.skip(1) == lines(body(es)));
}

/// Lemma: trimming a text that starts with a non-blank character keeps it.
proof fn lemma_skip_first(s: Seq<char>)
    requires
        s.len() > 0,
        !is_ws(s[0]),
    ensures
        trim(s).len() > 0,
        trim(s)[0] == s[0],
{
    assert(skip_ws(s, 0) == 0);
    assert(s.skip(0) == s);
    crate::text::lemma_skip_ws_back(s, s.len() as int);
}

} // verus!
