//! Character-sequence helpers shared by every module.
//!
//! Strings are reasoned about as `Seq<char>` (the view of `&str` / `String`).
//! Each spec function here states one std string operation the library relies
//! on (`trim`, `find`, `split`, `lines`, ...); the executable functions work on
//! `[char]` buffers and are proved against those statements.

use vstd::prelude::*;

verus! {

/// `String::push` appends one character.
pub assume_specification[ String::push ](s: &mut String, ch: char)
    ensures
        final(s)@ == old(s)@.push(ch),
;

/// `str::trim`: the slice of `s` without leading and trailing Unicode
/// whitespace.
pub fn trim_slice(s: &str) -> (r: &str)
    ensures
        r@ == trim(s@),
{
    let c = chars_of(s);
    let mut i: usize = 0;
    while i < c.len() && char_is_ws(c[i])
        invariant
            i <= c.len(),
            c@ == s@,
            skip_ws(s@, i as int) == skip_ws(s@, 0),
        decreases c.len() - i,
    {
        i += 1;
    }
    let ghost t = s@.skip(i as int);
    let mut j: usize = c.len();
    while j > i && char_is_ws(c[j - 1])
        invariant
            i <= j <= c.len(),
            c@ == s@,
            t == s@.skip(i as int),
            skip_ws_back(t, j - i) == skip_ws_back(t, t.len() as int),
        decreases j,
    {
        j -= 1;
    }
    let r = s.substring_char(i, j);
    assert(r@ == t.take(j - i));
    r
}

// ───────────────────────────── spec vocabulary ─────────────────────────────

/// Unicode `White_Space`, the set `char::is_whitespace` (and so `str::trim`)
/// uses.
pub open spec fn is_ws(c: char) -> bool {
    ||| ('\u{9}' <= c && c <= '\u{d}')
    ||| c == ' '
    ||| c == '\u{85}'
    ||| c == '\u{a0}'
    ||| c == '\u{1680}'
    ||| ('\u{2000}' <= c && c <= '\u{200a}')
    ||| c == '\u{2028}'
    ||| c == '\u{2029}'
    ||| c == '\u{202f}'
    ||| c == '\u{205f}'
    ||| c == '\u{3000}'
}

/// Index of the first non-whitespace character at or after `i`.
pub open spec fn skip_ws(s: Seq<char>, i: int) -> int
    decreases s.len() - i,
{
    if 0 <= i < s.len() && is_ws(s[i]) {
        skip_ws(s, i + 1)
    } else {
        i
    }
}

/// End of `s.take(j)` once trailing whitespace is dropped.
pub open spec fn skip_ws_back(s: Seq<char>, j: int) -> int
    decreases j,
{
    if 0 < j <= s.len() && is_ws(s[j - 1]) {
        skip_ws_back(s, j - 1)
    } else {
        j
    }
}

/// `str::trim_start`.
pub open spec fn trim_start(s: Seq<char>) -> Seq<char> {
    s.skip(skip_ws(s, 0))
}

/// `str::trim_end`.
pub open spec fn trim_end(s: Seq<char>) -> Seq<char> {
    s.take(skip_ws_back(s, s.len() as int))
}

/// `str::trim`.
pub open spec fn trim(s: Seq<char>) -> Seq<char> {
    trim_end(trim_start(s))
}

/// `s` starts with `p`.
pub open spec fn starts_with(s: Seq<char>, p: Seq<char>) -> bool {
    p.len() <= s.len() && s.take(p.len() as int) == p
}

/// `s` ends with `p`.
pub open spec fn ends_with(s: Seq<char>, p: Seq<char>) -> bool {
    p.len() <= s.len() && s.skip(s.len() - p.len()) == p
}

/// `p` occurs in `s` at index `i`.
pub open spec fn occurs_at(s: Seq<char>, p: Seq<char>, i: int) -> bool {
    0 <= i && i + p.len() <= s.len() && s.subrange(i, i + p.len()) == p
}

/// First occurrence of `p` in `s` at or after `i` (`str::find` from `i`).
pub open spec fn find_from(s: Seq<char>, p: Seq<char>, i: int) -> Option<int>
    decreases s.len() + 1 - i,
{
    if i < 0 || i + p.len() > s.len() {
        None
    } else if occurs_at(s, p, i) {
        Some(i)
    } else {
        find_from(s, p, i + 1)
    }
}

/// `str::find`.
pub open spec fn find(s: Seq<char>, p: Seq<char>) -> Option<int> {
    find_from(s, p, 0)
}

/// `str::contains`.
pub open spec fn contains(s: Seq<char>, p: Seq<char>) -> bool {
    find(s, p) is Some
}

/// Last occurrence of `p` in `s` that ends at or before `j`.
pub open spec fn rfind_upto(s: Seq<char>, p: Seq<char>, j: int) -> Option<int>
    decreases j + 1,
{
    if j < p.len() || j > s.len() {
        None
    } else if occurs_at(s, p, j - p.len()) {
        Some(j - p.len())
    } else {
        rfind_upto(s, p, j - 1)
    }
}

/// `str::rfind`.
pub open spec fn rfind(s: Seq<char>, p: Seq<char>) -> Option<int> {
    rfind_upto(s, p, s.len() as int)
}

/// The text before the first `p` (all of `s` when there is none), i.e.
/// `s.split(p).next()`.
pub open spec fn before(s: Seq<char>, p: Seq<char>) -> Seq<char> {
    match find(s, p) {
        Some(i) => s.take(i),
        None => s,
    }
}

/// The text after the last `p` (all of `s` when there is none), i.e.
/// `s.rsplit(p).next()`.
pub open spec fn after_last(s: Seq<char>, p: Seq<char>) -> Seq<char> {
    match rfind(s, p) {
        Some(i) => s.skip(i + p.len()),
        None => s,
    }
}

/// `str::trim_start_matches` with a non-empty pattern.
pub open spec fn trim_start_matches(s: Seq<char>, p: Seq<char>) -> Seq<char>
    decreases s.len(),
{
    if p.len() > 0 && starts_with(s, p) {
        trim_start_matches(s.skip(p.len() as int), p)
    } else {
        s
    }
}

/// `str::trim_end_matches` with a single character.
pub open spec fn trim_end_char(s: Seq<char>, c: char) -> Seq<char>
    decreases s.len(),
{
    if s.len() > 0 && s.last() == c {
        trim_end_char(s.drop_last(), c)
    } else {
        s
    }
}

/// The pieces of `s` from index `i` on, split at every `c`.
pub open spec fn split_from(s: Seq<char>, c: char, i: int) -> Seq<Seq<char>>
    decreases s.len() - i,
{
    match find_from(s, seq![c], i) {
        Some(k) => if i <= k < s.len() {
            seq![s.subrange(i, k)] + split_from(s, c, k + 1)
        } else {
            seq![]
        },
        None => seq![s.subrange(i, s.len() as int)],
    }
}

/// `str::split` on a character (always at least one piece).
pub open spec fn split(s: Seq<char>, c: char) -> Seq<Seq<char>> {
    split_from(s, c, 0)
}

/// One line as `str::lines` yields it: a trailing `\r` is dropped.
pub open spec fn strip_cr(s: Seq<char>) -> Seq<char> {
    if s.len() > 0 && s.last() == '\r' {
        s.drop_last()
    } else {
        s
    }
}

/// The lines of `s` from index `i` on.
pub open spec fn lines_from(s: Seq<char>, i: int) -> Seq<Seq<char>>
    decreases s.len() - i,
{
    if i < 0 || i >= s.len() {
        seq![]
    } else {
        match find_from(s, seq!['\n'], i) {
            Some(k) => if i <= k < s.len() {
                seq![strip_cr(s.subrange(i, k))] + lines_from(s, k + 1)
            } else {
                seq![]
            },
            None => seq![s.subrange(i, s.len() as int)],
        }
    }
}

/// `str::lines`: split at `\n`, drop the `\r` of a `\r\n` ending, and yield
/// no empty line after a final `\n`.
pub open spec fn lines(s: Seq<char>) -> Seq<Seq<char>> {
    lines_from(s, 0)
}

/// Concatenate `parts`, putting `sep` between neighbours (`[..].join(sep)`).
pub open spec fn join(parts: Seq<Seq<char>>, sep: Seq<char>) -> Seq<char>
    decreases parts.len(),
{
    if parts.len() == 0 {
        seq![]
    } else if parts.len() == 1 {
        parts[0]
    } else {
        join(parts.drop_last(), sep) + sep + parts.last()
    }
}

/// `char::to_ascii_lowercase`.
pub open spec fn ascii_lower_char(c: char) -> char {
    if 'A' <= c && c <= 'Z' {
        ((c as u32) + 32) as char
    } else {
        c
    }
}

/// `str::to_ascii_lowercase`.
pub open spec fn ascii_lower(s: Seq<char>) -> Seq<char> {
    s.map_values(|c: char| ascii_lower_char(c))
}

/// Every occurrence of the non-empty `p` in `s`, left to right and without
/// overlap, replaced by `r` (`str::replace`).
pub open spec fn replace(s: Seq<char>, p: Seq<char>, r: Seq<char>) -> Seq<char>
    decreases s.len(),
{
    if p.len() == 0 {
        s
    } else {
        match find(s, p) {
            Some(i) => if 0 <= i && i + p.len() <= s.len() {
                s.take(i) + r + replace(s.skip(i + p.len()), p, r)
            } else {
                s
            },
            None => s,
        }
    }
}

/// `s` without the characters in `set` (`str::replace` of a char set by "").
pub open spec fn drop_chars(s: Seq<char>, set: Seq<char>) -> Seq<char>
    decreases s.len(),
{
    if s.len() == 0 {
        seq![]
    } else if set.contains(s[0]) {
        drop_chars(s.skip(1), set)
    } else {
        seq![s[0]] + drop_chars(s.skip(1), set)
    }
}

/// The decimal digits of `n` (`usize`'s `Display`).
pub open spec fn decimal(n: nat) -> Seq<char>
    decreases n,
{
    if n < 10 {
        seq![digit_char(n)]
    } else {
        decimal(n / 10).push(digit_char(n % 10))
    }
}

/// The ASCII digit for `d < 10`.
pub open spec fn digit_char(d: nat) -> char {
    (('0' as u32) + d) as char
}

/// No two positions of `s` hold the same string.
pub open spec fn no_repeats(s: Seq<Seq<char>>) -> bool {
    forall|i: int, j: int| 0 <= i < j < s.len() ==> s[i] != s[j]
}

// ───────────────────────────── lemmas ─────────────────────────────

/// `skip_ws` stays in range and lands on a non-whitespace character or the end.
pub proof fn lemma_skip_ws(s: Seq<char>, i: int)
    requires
        0 <= i <= s.len(),
    ensures
        i <= skip_ws(s, i) <= s.len(),
        skip_ws(s, i) < s.len() ==> !is_ws(s[skip_ws(s, i)]),
        forall|k: int| i <= k < skip_ws(s, i) ==> is_ws(#[trigger] s[k]),
    decreases s.len() - i,
{
    if i < s.len() && is_ws(s[i]) {
        lemma_skip_ws(s, i + 1);
    }
}

/// `skip_ws_back` stays in range and lands after a non-whitespace character.
pub proof fn lemma_skip_ws_back(s: Seq<char>, j: int)
    requires
        0 <= j <= s.len(),
    ensures
        0 <= skip_ws_back(s, j) <= j,
        skip_ws_back(s, j) > 0 ==> !is_ws(s[skip_ws_back(s, j) - 1]),
        forall|k: int| skip_ws_back(s, j) <= k < j ==> is_ws(#[trigger] s[k]),
    decreases j,
{
    if 0 < j && is_ws(s[j - 1]) {
        lemma_skip_ws_back(s, j - 1);
    }
}

/// A found occurrence really occurs, and none occurs earlier.
pub proof fn lemma_find_from(s: Seq<char>, p: Seq<char>, i: int)
    requires
        0 <= i,
    ensures
        find_from(s, p, i) matches Some(k) ==> i <= k && occurs_at(s, p, k)
            && forall|m: int| i <= m < k ==> !occurs_at(s, p, m),
        find_from(s, p, i) is None ==> forall|m: int| i <= m ==> !occurs_at(s, p, m),
    decreases s.len() + 1 - i,
{
    if i + p.len() > s.len() {
    } else if occurs_at(s, p, i) {
    } else {
        lemma_find_from(s, p, i + 1);
    }
}

/// A found last occurrence really occurs, and none ends later.
pub proof fn lemma_rfind_upto(s: Seq<char>, p: Seq<char>, j: int)
    requires
        j <= s.len(),
    ensures
        rfind_upto(s, p, j) matches Some(k) ==> 0 <= k && k + p.len() <= j && occurs_at(s, p, k)
            && forall|m: int| k < m && m + p.len() <= j ==> !occurs_at(s, p, m),
        rfind_upto(s, p, j) is None ==> forall|m: int|
            0 <= m && m + p.len() <= j ==> !occurs_at(s, p, m),
    decreases j + 1,
{
    if j < p.len() {
    } else if occurs_at(s, p, j - p.len()) {
    } else {
        lemma_rfind_upto(s, p, j - 1);
    }
}

/// Lemma: `find_from` on a suffix, shifted.
pub proof fn lemma_find_shift(s: Seq<char>, p: Seq<char>, d: int, i: int)
    requires
        0 <= d <= i,
        d <= s.len(),
    ensures
        find_from(s, p, i) == (match find_from(s.skip(d), p, i - d) {
            Some(k) => Some(k + d),
            None => None,
        }),
    decreases s.len() + 1 - i,
{
    let t = s.skip(d);
    assert(occurs_at(s, p, i) == occurs_at(t, p, i - d)) by {
        if 0 <= i && i + p.len() <= s.len() {
            assert(s.subrange(i, i + p.len()) == t.subrange(i - d, i - d + p.len()));
        }
    }
    if i + p.len() > s.len() {
    } else if occurs_at(s, p, i) {
    } else {
        lemma_find_shift(s, p, d, i + 1);
    }
}

/// Characterise `find_from` by its two properties.
pub proof fn lemma_find_from_char(s: Seq<char>, p: Seq<char>, i: int, k: Option<int>)
    requires
        0 <= i,
        k matches Some(kk) ==> i <= kk && occurs_at(s, p, kk) && forall|m: int|
            i <= m < kk ==> !occurs_at(s, p, m),
        k is None ==> forall|m: int| i <= m ==> !occurs_at(s, p, m),
    ensures
        find_from(s, p, i) == k,
{
    lemma_find_from(s, p, i);
    match find_from(s, p, i) {
        Some(f) => {
            match k {
                Some(kk) => {
                    if f < kk {
                        assert(!occurs_at(s, p, f));
                    } else if kk < f {
                        assert(!occurs_at(s, p, kk));
                    }
                },
                None => {
                    assert(!occurs_at(s, p, f));
                },
            }
        },
        None => {
            if let Some(kk) = k {
                assert(!occurs_at(s, p, kk));
            }
        },
    }
}

/// A prefix of a sequence without repeats has none either.
pub proof fn lemma_no_repeats_prefix(a: Seq<Seq<char>>, b: Seq<Seq<char>>)
    requires
        no_repeats(a + b),
    ensures
        no_repeats(a),
{
    assert forall|i: int, j: int| 0 <= i < j < a.len() implies a[i] != a[j] by {
        assert((a + b)[i] == a[i] && (a + b)[j] == a[j]);
    }
}

/// `join` with one more part.
pub proof fn lemma_join_push(parts: Seq<Seq<char>>, sep: Seq<char>, x: Seq<char>)
    ensures
        join(parts.push(x), sep) == if parts.len() == 0 {
            x
        } else {
            join(parts, sep) + sep + x
        },
{
    assert(parts.push(x).drop_last() == parts);
}

/// A character buffer's deep view is its view.
pub broadcast proof fn lemma_chars_deep(v: &Vec<char>)
    ensures
        #[trigger] v.deep_view() == v@,
{
    assert(v.deep_view() =~= v@);
}

/// Pushing onto a vector pushes the element's deep view.
pub proof fn lemma_push_deep<T: DeepView>(a: Vec<T>, b: Vec<T>, x: T)
    requires
        b@ == a@.push(x),
    ensures
        b.deep_view() == a.deep_view().push(x.deep_view()),
{
    assert(b.deep_view() =~= a.deep_view().push(x.deep_view()));
}

// ───────────────────────────── executable helpers ─────────────────────────────

/// The characters of a string slice, in order.
pub fn chars_of(s: &str) -> (v: Vec<char>)
    ensures
        v@ == s@,
{
    broadcast use vstd::string::group_string_axioms;

    let mut v: Vec<char> = Vec::new();
    for c in it: s.chars()
        invariant
            v@ == it.seq().take(it.index() as int),
            it.seq() == s@,
    {
        v.push(c);
    }
    v
}

/// Collect characters into an owned string.
pub fn string_of(v: &[char]) -> (s: String)
    ensures
        s@ == v@,
{
    let mut s = String::new();
    let mut i: usize = 0;
    while i < v.len()
        invariant
            i <= v.len(),
            s@ == v@.take(i as int),
        decreases v.len() - i,
    {
        s.push(v[i]);
        assert(v@.take(i as int + 1) == v@.take(i as int).push(v@[i as int]));
        i += 1;
    }
    assert(v@.take(v.len() as int) == v@);
    s
}

/// Append characters to a buffer.
pub fn push_all(out: &mut Vec<char>, s: &[char])
    ensures
        final(out)@ == old(out)@ + s@,
{
    let mut i: usize = 0;
    while i < s.len()
        invariant
            i <= s.len(),
            out@ == old(out)@ + s@.take(i as int),
        decreases s.len() - i,
    {
        out.push(s[i]);
        assert(s@.take(i as int + 1) == s@.take(i as int).push(s@[i as int]));
        i += 1;
    }
    assert(s@.take(s.len() as int) == s@);
}

/// Append a string slice to a buffer.
pub fn push_str(out: &mut Vec<char>, s: &str)
    ensures
        final(out)@ == old(out)@ + s@,
{
    let v = chars_of(s);
    push_all(out, &v);
}

/// A copy of `s[a..b]`.
pub fn slice_copy(s: &[char], a: usize, b: usize) -> (r: Vec<char>)
    requires
        a <= b <= s.len(),
    ensures
        r@ == s@.subrange(a as int, b as int),
{
    let mut r: Vec<char> = Vec::new();
    let mut i = a;
    while i < b
        invariant
            a <= i <= b <= s.len(),
            r@ == s@.subrange(a as int, i as int),
        decreases b - i,
    {
        r.push(s[i]);
        assert(s@.subrange(a as int, i + 1) == s@.subrange(a as int, i as int).push(s@[i as int]));
        i += 1;
    }
    r
}

/// Whether two character buffers are equal.
pub fn eq(a: &[char], b: &[char]) -> (r: bool)
    ensures
        r == (a@ == b@),
{
    if a.len() != b.len() {
        return false;
    }
    let mut i: usize = 0;
    while i < a.len()
        invariant
            a.len() == b.len(),
            i <= a.len(),
            forall|k: int| 0 <= k < i ==> a@[k] == b@[k],
        decreases a.len() - i,
    {
        if a[i] != b[i] {
            return false;
        }
        i += 1;
    }
    assert(a@ == b@);
    true
}

/// Whether a buffer equals a string slice.
pub fn eq_str(a: &[char], s: &str) -> (r: bool)
    ensures
        r == (a@ == s@),
{
    let v = chars_of(s);
    eq(a, &v)
}

/// Whether a character is Unicode whitespace.
pub fn char_is_ws(c: char) -> (r: bool)
    ensures
        r == is_ws(c),
{
    ('\u{9}' <= c && c <= '\u{d}') || c == ' ' || c == '\u{85}' || c == '\u{a0}' || c
        == '\u{1680}' || ('\u{2000}' <= c && c <= '\u{200a}') || c == '\u{2028}' || c
        == '\u{2029}' || c == '\u{202f}' || c == '\u{205f}' || c == '\u{3000}'
}

/// `str::trim`.
pub fn trimmed(s: &[char]) -> (r: Vec<char>)
    ensures
        r@ == trim(s@),
{
    let mut i: usize = 0;
    while i < s.len() && char_is_ws(s[i])
        invariant
            i <= s.len(),
            skip_ws(s@, i as int) == skip_ws(s@, 0),
        decreases s.len() - i,
    {
        i += 1;
    }
    let ghost t = s@.skip(i as int);
    let mut j: usize = s.len();
    while j > i && char_is_ws(s[j - 1])
        invariant
            i <= j <= s.len(),
            t == s@.skip(i as int),
            skip_ws_back(t, j - i) == skip_ws_back(t, t.len() as int),
        decreases j,
    {
        j -= 1;
    }
    let r = slice_copy(s, i, j);
    assert(r@ == t.take(j - i));
    r
}

/// `str::trim_start`.
pub fn trimmed_start(s: &[char]) -> (r: Vec<char>)
    ensures
        r@ == trim_start(s@),
{
    let mut i: usize = 0;
    while i < s.len() && char_is_ws(s[i])
        invariant
            i <= s.len(),
            skip_ws(s@, i as int) == skip_ws(s@, 0),
        decreases s.len() - i,
    {
        i += 1;
    }
    slice_copy(s, i, s.len())
}

/// Whether `p` occurs in `s` at `i`.
pub fn occurs(s: &[char], p: &[char], i: usize) -> (r: bool)
    ensures
        r == occurs_at(s@, p@, i as int),
{
    if i > s.len() || p.len() > s.len() - i {
        return false;
    }
    let mut k: usize = 0;
    while k < p.len()
        invariant
            i + p.len() <= s.len(),
            k <= p.len(),
            forall|m: int| 0 <= m < k ==> s@[i + m] == p@[m],
        decreases p.len() - k,
    {
        if s[i + k] != p[k] {
            assert(s@.subrange(i as int, i + p.len())[k as int] != p@[k as int]);
            return false;
        }
        k += 1;
    }
    assert(s@.subrange(i as int, i + p.len()) == p@);
    true
}

/// `str::find` starting from `i`.
pub fn find_at(s: &[char], p: &[char], i: usize) -> (r: Option<usize>)
    ensures
        r matches Some(k) ==> find_from(s@, p@, i as int) == Some(k as int),
        r is None ==> find_from(s@, p@, i as int) is None,
{
    let mut j = i;
    while j <= s.len() && p.len() <= s.len() - j
        invariant
            i <= j,
            find_from(s@, p@, j as int) == find_from(s@, p@, i as int),
        decreases s.len() + 1 - j,
    {
        if occurs(s, p, j) {
            return Some(j);
        }
        if j == s.len() {
            assert(find_from(s@, p@, j + 1) is None);
            return None;
        }
        j += 1;
    }
    None
}

/// `str::find`.
pub fn find_in(s: &[char], p: &[char]) -> (r: Option<usize>)
    ensures
        r matches Some(k) ==> find(s@, p@) == Some(k as int),
        r is None ==> find(s@, p@) is None,
{
    find_at(s, p, 0)
}

/// `str::find` of a single character from `i`.
pub fn find_char_at(s: &[char], c: char, i: usize) -> (r: Option<usize>)
    ensures
        r matches Some(k) ==> find_from(s@, seq![c], i as int) == Some(k as int),
        r is None ==> find_from(s@, seq![c], i as int) is None,
{
    let p = vec![c];
    assert(p@ == seq![c]);
    find_at(s, &p, i)
}

/// `str::contains` with a string-slice pattern.
pub fn contains_str(s: &[char], p: &str) -> (r: bool)
    ensures
        r == contains(s@, p@),
{
    let pv = chars_of(p);
    find_in(s, &pv).is_some()
}

/// `str::rfind`.
pub fn rfind_in(s: &[char], p: &[char]) -> (r: Option<usize>)
    ensures
        r matches Some(k) ==> rfind(s@, p@) == Some(k as int),
        r is None ==> rfind(s@, p@) is None,
{
    let mut j = s.len();
    while j >= p.len()
        invariant
            j <= s.len(),
            rfind_upto(s@, p@, j as int) == rfind(s@, p@),
        decreases j,
    {
        if occurs(s, p, j - p.len()) {
            return Some(j - p.len());
        }
        if j == 0 {
            assert(rfind_upto(s@, p@, -1) is None);
            return None;
        }
        j -= 1;
    }
    None
}

/// Whether `s` starts with the string slice `p`.
pub fn starts_with_str(s: &[char], p: &str) -> (r: bool)
    ensures
        r == starts_with(s@, p@),
{
    let pv = chars_of(p);
    let r = occurs(s, &pv, 0);
    assert(r == starts_with(s@, p@)) by {
        if pv.len() <= s.len() {
            assert(s@.subrange(0, pv.len() as int) == s@.take(pv.len() as int));
        }
    }
    r
}

/// Whether `s` ends with the string slice `p`.
pub fn ends_with_str(s: &[char], p: &str) -> (r: bool)
    ensures
        r == ends_with(s@, p@),
{
    let pv = chars_of(p);
    if pv.len() > s.len() {
        return false;
    }
    let r = occurs(s, &pv, s.len() - pv.len());
    assert(s@.subrange(s.len() - pv.len(), s.len() as int) == s@.skip(s.len() - pv.len()));
    r
}

/// `str::trim_start_matches` with a non-empty pattern.
pub fn trimmed_start_matches(s: &[char], p: &[char]) -> (r: Vec<char>)
    requires
        p.len() > 0,
    ensures
        r@ == trim_start_matches(s@, p@),
{
    let mut i: usize = 0;
    assert(s@.skip(0) == s@);
    while p.len() <= s.len() - i && occurs(s, p, i)
        invariant
            i <= s.len(),
            p.len() > 0,
            trim_start_matches(s@.skip(i as int), p@) == trim_start_matches(s@, p@),
        decreases s.len() - i,
    {
        let ghost t = s@.skip(i as int);
        assert(starts_with(t, p@)) by {
            assert(t.take(p.len() as int) == s@.subrange(i as int, i + p.len()));
        }
        assert(t.skip(p.len() as int) == s@.skip(i + p.len()));
        i += p.len();
    }
    let ghost t = s@.skip(i as int);
    assert(!starts_with(t, p@)) by {
        if p.len() <= t.len() {
            assert(t.take(p.len() as int) == s@.subrange(i as int, i + p.len()));
        }
    }
    slice_copy(s, i, s.len())
}

/// `str::trim_end_matches` with a single character.
pub fn trimmed_end_char(s: &[char], c: char) -> (r: Vec<char>)
    ensures
        r@ == trim_end_char(s@, c),
{
    let mut j: usize = s.len();
    assert(s@.take(j as int) == s@);
    while j > 0 && s[j - 1] == c
        invariant
            j <= s.len(),
            trim_end_char(s@.take(j as int), c) == trim_end_char(s@, c),
        decreases j,
    {
        assert(s@.take(j as int).drop_last() == s@.take(j - 1));
        j -= 1;
    }
    assert(s@.subrange(0, j as int) == s@.take(j as int));
    slice_copy(s, 0, j)
}

/// The text after the last `p` (all of `s` when there is none).
pub fn after_last_of(s: &[char], p: &[char]) -> (r: Vec<char>)
    ensures
        r@ == after_last(s@, p@),
{
    match rfind_in(s, p) {
        Some(k) => {
            proof {
                lemma_rfind_upto(s@, p@, s@.len() as int);
            }
            let n = p.len();
            assert(k + n <= s.len());
            slice_copy(s, k + n, s.len())
        },
        None => slice_copy(s, 0, s.len()),
    }
}

/// `str::split` on a character.
pub fn split_on(s: &[char], c: char) -> (r: Vec<Vec<char>>)
    ensures
        r.deep_view() == split(s@, c),
{
    broadcast use lemma_chars_deep;

    let mut out: Vec<Vec<char>> = Vec::new();
    let mut i: usize = 0;
    loop
        invariant
            i <= s.len(),
            out.deep_view() + split_from(s@, c, i as int) == split(s@, c),
        decreases s.len() - i,
    {
        let ghost old_out = out.deep_view();
        match find_char_at(s, c, i) {
            Some(k) => {
                proof {
                    lemma_find_from(s@, seq![c], i as int);
                }
                let piece = slice_copy(s, i, k);
                let ghost before = out;
                let ghost pv = piece;
                out.push(piece);
                proof {
                    lemma_push_deep(before, out, pv);
                    lemma_chars_deep(&pv);
                }
                assert(split_from(s@, c, i as int) == seq![piece@] + split_from(s@, c, k + 1));
                assert(old_out + split_from(s@, c, i as int) == out.deep_view() + split_from(
                    s@,
                    c,
                    k + 1,
                ));
                i = k + 1;
            },
            None => {
                let piece = slice_copy(s, i, s.len());
                let ghost before = out;
                let ghost pv = piece;
                out.push(piece);
                proof {
                    lemma_push_deep(before, out, pv);
                    lemma_chars_deep(&pv);
                }
                return out;
            },
        }
    }
}

/// `str::lines`.
pub fn lines_of(s: &[char]) -> (r: Vec<Vec<char>>)
    ensures
        r.deep_view() == lines(s@),
{
    broadcast use lemma_chars_deep;

    let mut out: Vec<Vec<char>> = Vec::new();
    let mut i: usize = 0;
    while i < s.len()
        invariant
            i <= s.len(),
            out.deep_view() + lines_from(s@, i as int) == lines(s@),
        decreases s.len() - i,
    {
        let ghost old_out = out.deep_view();
        match find_char_at(s, '\n', i) {
            Some(k) => {
                proof {
                    lemma_find_from(s@, seq!['\n'], i as int);
                }
                let mut piece = slice_copy(s, i, k);
                if piece.len() > 0 && piece[piece.len() - 1] == '\r' {
                    piece.pop();
                }
                let ghost before = out;
                let ghost pv = piece;
                out.push(piece);
                proof {
                    lemma_push_deep(before, out, pv);
                    lemma_chars_deep(&pv);
                }
                assert(lines_from(s@, i as int) == seq![piece@] + lines_from(s@, k + 1));
                assert(old_out + lines_from(s@, i as int) == out.deep_view() + lines_from(
                    s@,
                    k + 1,
                ));
                i = k + 1;
            },
            None => {
                let piece = slice_copy(s, i, s.len());
                let ghost before = out;
                let ghost pv = piece;
                out.push(piece);
                proof {
                    lemma_push_deep(before, out, pv);
                    lemma_chars_deep(&pv);
                }
                assert(lines_from(s@, s.len() as int) == Seq::<Seq<char>>::empty());
                assert(out.deep_view() + lines_from(s@, s.len() as int) == out.deep_view());
                return out;
            },
        }
    }
    assert(out.deep_view() + lines_from(s@, i as int) == out.deep_view());
    out
}

/// `str::to_ascii_lowercase`.
pub fn ascii_lowered(s: &[char]) -> (r: Vec<char>)
    ensures
        r@ == ascii_lower(s@),
{
    let mut out: Vec<char> = Vec::new();
    let mut i: usize = 0;
    while i < s.len()
        invariant
            i <= s.len(),
            out@ == ascii_lower(s@.take(i as int)),
        decreases s.len() - i,
    {
        let c = s[i];
        let l = if 'A' <= c && c <= 'Z' {
            ((c as u32) + 32) as u8 as char
        } else {
            c
        };
        assert(l == ascii_lower_char(c)) by {
            if 'A' <= c && c <= 'Z' {
                assert((c as u32) + 32 < 256);
            }
        }
        out.push(l);
        assert(ascii_lower(s@.take(i + 1)) == ascii_lower(s@.take(i as int)).push(l)) by {
            assert(s@.take(i + 1) == s@.take(i as int).push(c));
        }
        i += 1;
    }
    assert(s@.take(s.len() as int) == s@);
    out
}

/// `str::replace` with a non-empty pattern.
pub fn replace_all(s: &[char], p: &[char], r: &[char]) -> (out: Vec<char>)
    requires
        p.len() > 0,
    ensures
        out@ == replace(s@, p@, r@),
{
    let mut out: Vec<char> = Vec::new();
    let mut i: usize = 0;
    assert(s@.skip(0) == s@);
    loop
        invariant
            i <= s.len(),
            p.len() > 0,
            out@ + replace(s@.skip(i as int), p@, r@) == replace(s@, p@, r@),
        decreases s.len() - i,
    {
        let ghost rest = s@.skip(i as int);
        proof {
            lemma_find_shift(s@, p@, i as int, i as int);
            lemma_find_from(s@, p@, i as int);
        }
        match find_at(s, p, i) {
            Some(k) => {
                let head = slice_copy(s, i, k);
                assert(head@ == rest.take(k - i));
                assert(rest.skip(k - i + p.len()) == s@.skip(k + p.len()));
                push_all(&mut out, &head);
                push_all(&mut out, r);
                i = k + p.len();
            },
            None => {
                let tail = slice_copy(s, i, s.len());
                assert(tail@ == rest);
                push_all(&mut out, &tail);
                return out;
            },
        }
    }
}

/// `s` without the characters in `set`.
pub fn drop_chars_of(s: &[char], set: &[char]) -> (out: Vec<char>)
    ensures
        out@ == drop_chars(s@, set@),
{
    let mut out: Vec<char> = Vec::new();
    let mut i: usize = 0;
    assert(s@.skip(0) == s@);
    while i < s.len()
        invariant
            i <= s.len(),
            out@ + drop_chars(s@.skip(i as int), set@) == drop_chars(s@, set@),
        decreases s.len() - i,
    {
        let ghost rest = s@.skip(i as int);
        assert(rest[0] == s@[i as int]);
        assert(rest.skip(1) == s@.skip(i + 1));
        let c = s[i];
        let mut j: usize = 0;
        let mut member = false;
        while j < set.len()
            invariant
                j <= set.len(),
                member == exists|k: int| 0 <= k < j && set@[k] == c,
            decreases set.len() - j,
        {
            if set[j] == c {
                member = true;
            }
            j += 1;
        }
        assert(member == set@.contains(c));
        if !member {
            out.push(c);
        }
        i += 1;
    }
    assert(s@.skip(i as int).len() == 0);
    out
}

/// The decimal digits of `n`.
pub fn decimal_of(n: usize) -> (r: Vec<char>)
    ensures
        r@ == decimal(n as nat),
    decreases n,
{
    let d = (n % 10) as u8;
    let c = (48u8 + d) as char;
    assert(c == digit_char((n % 10) as nat));
    if n < 10 {
        vec![c]
    } else {
        let mut r = decimal_of(n / 10);
        r.push(c);
        r
    }
}

} // verus!
