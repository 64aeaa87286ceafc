//! The canonical `--rio-*` token allowlist and spec-key → token resolution.
//!
//! Every spec key is resolved to a real token name; an unknown key is rejected
//! *with the closest valid suggestion* before a single byte is generated. The
//! list mirrors `crates/rustio-admin/assets/static/admin/tokens/*.css`.

use vstd::prelude::*;
use crate::text::{chars_of, eq_str, push_all, push_str, string_of};

verus! {

/// Every canonical `--rio-*` custom property the framework recognises, in
/// declaration order.
pub open spec fn canonical() -> Seq<Seq<char>> {
    seq![
        "--rio-brand-light"@,
        "--rio-brand-dark"@,
        "--rio-brand-adaptive"@,
        "--rio-brand-surface"@,
        "--rio-brand-accent"@,
        "--rio-brand-secondary"@,
        "--rio-brand-hover"@,
        "--rio-brand-active"@,
        "--rio-brand-tint"@,
        "--rio-brand-text"@,
        "--rio-muted"@,
        "--rio-accent"@,
        "--rio-accent-hover"@,
        "--rio-accent-rgb"@,
        "--rio-accent-soft"@,
        "--rio-accent-border"@,
        "--rio-bg"@,
        "--rio-surface"@,
        "--rio-surface-2"@,
        "--rio-surface-3"@,
        "--rio-surface-chrome"@,
        "--rio-surface-elevated"@,
        "--rio-text-strong"@,
        "--rio-text"@,
        "--rio-text-muted"@,
        "--rio-text-subtle"@,
        "--rio-border-soft"@,
        "--rio-border"@,
        "--rio-border-strong"@,
        "--rio-success"@,
        "--rio-warning"@,
        "--rio-danger"@,
        "--rio-success-bg"@,
        "--rio-warning-bg"@,
        "--rio-danger-bg"@,
        "--rio-info-bg"@,
        "--rio-s1"@,
        "--rio-s2"@,
        "--rio-s3"@,
        "--rio-s4"@,
        "--rio-s5"@,
        "--rio-s6"@,
        "--rio-s7"@,
        "--rio-sidebar-w"@,
        "--rio-topbar-h"@,
        "--rio-content-max"@,
        "--rio-z-sidebar"@,
        "--rio-z-topbar"@,
        "--rio-z-dropdown"@,
        "--rio-z-modal"@,
        "--rio-radius"@,
        "--rio-radius-sm"@,
        "--rio-radius-lg"@,
        "--rio-font-sans"@,
        "--rio-font-arabic"@,
        "--rio-font-arabic-body"@,
        "--rio-font-mono"@,
        "--rio-font-japanese"@,
        "--rio-font-korean"@,
        "--rio-font-chinese"@,
        "--rio-font-thai"@,
        "--rio-font-devanagari"@,
        "--rio-font-size-base"@,
        "--rio-fs-xs"@,
        "--rio-fs-sm"@,
        "--rio-fs-md"@,
        "--rio-fs-base"@,
        "--rio-fs-lg"@,
        "--rio-fs-xl"@,
        "--rio-fs-h3"@,
        "--rio-fs-h2"@,
        "--rio-fs-h1"@,
        "--rio-fs-display"@,
        "--rio-lh-tight"@,
        "--rio-lh-ui"@,
        "--rio-lh-body"@,
        "--rio-lh-arabic"@,
        "--rio-fw-regular"@,
        "--rio-fw-medium"@,
        "--rio-fw-semibold"@,
        "--rio-fw-bold"@,
    ]
}

/// The canonical token list.
pub fn canonical_tokens() -> (v: Vec<&'static str>)
    ensures
        v@.len() == canonical().len(),
        forall|i: int| 0 <= i < v@.len() ==> #[trigger] v@[i]@ == canonical()[i],
{
    let v = vec![
        "--rio-brand-light",
        "--rio-brand-dark",
        "--rio-brand-adaptive",
        "--rio-brand-surface",
        "--rio-brand-accent",
        "--rio-brand-secondary",
        "--rio-brand-hover",
        "--rio-brand-active",
        "--rio-brand-tint",
        "--rio-brand-text",
        "--rio-muted",
        "--rio-accent",
        "--rio-accent-hover",
        "--rio-accent-rgb",
        "--rio-accent-soft",
        "--rio-accent-border",
        "--rio-bg",
        "--rio-surface",
        "--rio-surface-2",
        "--rio-surface-3",
        "--rio-surface-chrome",
        "--rio-surface-elevated",
        "--rio-text-strong",
        "--rio-text",
        "--rio-text-muted",
        "--rio-text-subtle",
        "--rio-border-soft",
        "--rio-border",
        "--rio-border-strong",
        "--rio-success",
        "--rio-warning",
        "--rio-danger",
        "--rio-success-bg",
        "--rio-warning-bg",
        "--rio-danger-bg",
        "--rio-info-bg",
        "--rio-s1",
        "--rio-s2",
        "--rio-s3",
        "--rio-s4",
        "--rio-s5",
        "--rio-s6",
        "--rio-s7",
        "--rio-sidebar-w",
        "--rio-topbar-h",
        "--rio-content-max",
        "--rio-z-sidebar",
        "--rio-z-topbar",
        "--rio-z-dropdown",
        "--rio-z-modal",
        "--rio-radius",
        "--rio-radius-sm",
        "--rio-radius-lg",
        "--rio-font-sans",
        "--rio-font-arabic",
        "--rio-font-arabic-body",
        "--rio-font-mono",
        "--rio-font-japanese",
        "--rio-font-korean",
        "--rio-font-chinese",
        "--rio-font-thai",
        "--rio-font-devanagari",
        "--rio-font-size-base",
        "--rio-fs-xs",
        "--rio-fs-sm",
        "--rio-fs-md",
        "--rio-fs-base",
        "--rio-fs-lg",
        "--rio-fs-xl",
        "--rio-fs-h3",
        "--rio-fs-h2",
        "--rio-fs-h1",
        "--rio-fs-display",
        "--rio-lh-tight",
        "--rio-lh-ui",
        "--rio-lh-body",
        "--rio-lh-arabic",
        "--rio-fw-regular",
        "--rio-fw-medium",
        "--rio-fw-semibold",
        "--rio-fw-bold",
    ];
    assert(v@.len() == canonical().len());
    v
}

/// The smaller of two numbers.
pub open spec fn min2(x: nat, y: nat) -> nat {
    if x <= y {
        x
    } else {
        y
    }
}

/// The cost of substituting `y` for `x`.
pub open spec fn subst_cost(x: char, y: char) -> nat {
    if x == y {
        0
    } else {
        1
    }
}

/// The Levenshtein edit distance (insertions, deletions and substitutions,
/// each costing one).
pub open spec fn lev(a: Seq<char>, b: Seq<char>) -> nat
    decreases a.len() + b.len(),
{
    if a.len() == 0 {
        b.len()
    } else if b.len() == 0 {
        a.len()
    } else {
        min2(
            min2(lev(a.drop_last(), b) + 1, lev(a, b.drop_last()) + 1),
            lev(a.drop_last(), b.drop_last()) + subst_cost(a.last(), b.last()),
        )
    }
}

/// The edit distance never exceeds the longer length.
pub proof fn lemma_lev_bound(a: Seq<char>, b: Seq<char>)
    ensures
        lev(a, b) <= if a.len() >= b.len() {
            a.len()
        } else {
            b.len()
        },
    decreases a.len() + b.len(),
{
    if a.len() > 0 && b.len() > 0 {
        lemma_lev_bound(a.drop_last(), b.drop_last());
    }
}

/// Lemma: one step of the edit-distance table.
proof fn lemma_lev_step(a: Seq<char>, b: Seq<char>, i: int, j: int)
    requires
        0 <= i < a.len(),
        0 <= j < b.len(),
    ensures
        lev(a.take(i + 1), b.take(j + 1)) == min2(
            min2(lev(a.take(i), b.take(j + 1)) + 1, lev(a.take(i + 1), b.take(j)) + 1),
            lev(a.take(i), b.take(j)) + subst_cost(a[i], b[j]),
        ),
{
    assert(a.take(i + 1).drop_last() == a.take(i));
    assert(b.take(j + 1).drop_last() == b.take(j));
}

/// Classic Levenshtein edit distance, used for "did you mean" suggestions.
fn levenshtein(a: &[char], b: &[char]) -> (d: usize)
    ensures
        d == lev(a@, b@),
{
    let mut prev: Vec<u128> = Vec::new();
    assert(lev(a@.take(0), b@.take(0)) == 0);
    prev.push(0);
    let mut j: usize = 0;
    while j < b.len()
        invariant
            j <= b.len(),
            prev@.len() == j + 1,
            forall|k: int| 0 <= k <= j ==> prev@[k] == lev(a@.take(0), b@.take(k)),
        decreases b.len() - j,
    {
        assert(lev(a@.take(0), b@.take(j + 1)) == j + 1);
        prev.push((j as u128) + 1);
        j += 1;
    }
    let mut i: usize = 0;
    while i < a.len()
        invariant
            i <= a.len(),
            prev@.len() == b.len() + 1,
            forall|k: int| 0 <= k <= b.len() ==> prev@[k] == lev(a@.take(i as int), b@.take(k)),
        decreases a.len() - i,
    {
        let mut cur: Vec<u128> = Vec::new();
        assert(lev(a@.take(i + 1), b@.take(0)) == i + 1);
        cur.push((i as u128) + 1);
        let mut j: usize = 0;
        while j < b.len()
            invariant
                i < a.len(),
                j <= b.len(),
                prev@.len() == b.len() + 1,
                forall|k: int|
                    0 <= k <= b.len() ==> prev@[k] == lev(a@.take(i as int), b@.take(k)),
                cur@.len() == j + 1,
                forall|k: int| 0 <= k <= j ==> cur@[k] == lev(a@.take(i + 1), b@.take(k)),
            decreases b.len() - j,
        {
            proof {
                lemma_lev_step(a@, b@, i as int, j as int);
                lemma_lev_bound(a@.take(i as int), b@.take(j + 1));
                lemma_lev_bound(a@.take(i + 1), b@.take(j as int));
                lemma_lev_bound(a@.take(i as int), b@.take(j as int));
            }
            let cost: u128 = if a[i] == b[j] {
                0
            } else {
                1
            };
            let del = prev[j + 1] + 1;
            let ins = cur[j] + 1;
            let sub = prev[j] + cost;
            let m1 = if del <= ins {
                del
            } else {
                ins
            };
            let m = if m1 <= sub {
                m1
            } else {
                sub
            };
            cur.push(m);
            j += 1;
        }
        prev = cur;
        i += 1;
    }
    proof {
        lemma_lev_bound(a@, b@);
        assert(a@.take(a.len() as int) == a@);
        assert(b@.take(b.len() as int) == b@);
    }
    prev[b.len()] as usize
}

/// Index of the first candidate among `cands[..n]` closest to `name`.
pub open spec fn best_upto(name: Seq<char>, cands: Seq<Seq<char>>, n: int) -> int
    decreases n,
{
    if n <= 1 {
        0
    } else {
        let b = best_upto(name, cands, n - 1);
        if lev(name, cands[n - 1]) < lev(name, cands[b]) {
            n - 1
        } else {
            b
        }
    }
}

/// Lemma: the running best stays a valid index.
proof fn lemma_best_upto(name: Seq<char>, cands: Seq<Seq<char>>, n: int)
    requires
        1 <= n,
    ensures
        0 <= best_upto(name, cands, n) < n,
    decreases n,
{
    if n > 1 {
        lemma_best_upto(name, cands, n - 1);
    }
}

/// The canonical token closest to `name`, when within edit distance 4 (the
/// earliest one among equally close tokens).
pub open spec fn suggestion(name: Seq<char>) -> Option<Seq<char>> {
    let c = canonical();
    let b = best_upto(name, c, c.len() as int);
    if lev(name, c[b]) <= 4 {
        Some(c[b])
    } else {
        None
    }
}

/// The view of an optional string.
pub open spec fn opt_string(o: Option<String>) -> Option<Seq<char>> {
    match o {
        Some(s) => Some(s@),
        None => None,
    }
}

/// Return the canonical token closest to `name` (Levenshtein ≤ 4), if any.
pub fn suggest(name: &str) -> (r: Option<String>)
    ensures
        opt_string(r) == suggestion(name@),
{
    let toks = canonical_tokens();
    let nm = chars_of(name);
    let first = chars_of(toks[0]);
    let mut best: usize = 0;
    let mut best_d = levenshtein(&nm, &first);
    let mut i: usize = 1;
    while i < toks.len()
        invariant
            1 <= i <= toks@.len(),
            toks@.len() == canonical().len(),
            forall|k: int| 0 <= k < toks@.len() ==> #[trigger] toks@[k]@ == canonical()[k],
            nm@ == name@,
            best == best_upto(name@, canonical(), i as int),
            0 <= best < i,
            best_d == lev(name@, canonical()[best as int]),
        decreases toks@.len() - i,
    {
        let cand = chars_of(toks[i]);
        let d = levenshtein(&nm, &cand);
        if d < best_d {
            best = i;
            best_d = d;
        }
        i += 1;
    }
    if best_d <= 4 {
        Some(String::from_str(toks[best]))
    } else {
        None
    }
}

/// Whether `c` is a canonical token.
fn is_canonical(c: &[char]) -> (r: bool)
    ensures
        r == canonical().contains(c@),
{
    let toks = canonical_tokens();
    let mut i: usize = 0;
    while i < toks.len()
        invariant
            i <= toks@.len(),
            toks@.len() == canonical().len(),
            forall|k: int| 0 <= k < toks@.len() ==> #[trigger] toks@[k]@ == canonical()[k],
            forall|k: int| 0 <= k < i ==> canonical()[k] != c@,
        decreases toks@.len() - i,
    {
        if eq_str(c, toks[i]) {
            assert(canonical()[i as int] == c@);
            return true;
        }
        i += 1;
    }
    false
}

/// The token name a `(section, key)` pair stands for, when the section holds
/// tokens at all.
pub open spec fn candidate(section: Seq<char>, key: Seq<char>) -> Option<Seq<char>> {
    if section == "radius"@ {
        if key == "default"@ {
            Some("--rio-radius"@)
        } else {
            Some("--rio-radius-"@ + key)
        }
    } else if section == "colors"@ || section == "spacing"@ || section == "typography"@ {
        Some("--rio-"@ + key)
    } else {
        None
    }
}

/// The "did you mean" tail of an unknown-token message.
pub open spec fn hint(name: Seq<char>) -> Seq<char> {
    match suggestion(name) {
        Some(s) => " — did you mean `"@ + s + "`?"@,
        None => seq![],
    }
}

/// What `resolve` yields: the canonical token, or why there is none.
pub open spec fn resolution(section: Seq<char>, key: Seq<char>) -> Result<Seq<char>, Seq<char>> {
    match candidate(section, key) {
        None => Err(
            "section ["@ + section
                + "] does not map to design tokens (use colors/spacing/radius/typography)"@,
        ),
        Some(c) => if canonical().contains(c) {
            Ok(c)
        } else {
            Err(
                "unknown token `"@ + key + "` in ["@ + section + "] → `"@ + c
                    + "` is not a rustio-admin token"@ + hint(c),
            )
        },
    }
}

/// The view of a string result.
pub open spec fn result_view(r: Result<String, String>) -> Result<Seq<char>, Seq<char>> {
    match r {
        Ok(s) => Ok(s@),
        Err(e) => Err(e@),
    }
}

/// Resolve a `(section, key)` pair from the spec to a canonical `--rio-*` token.
///
/// Returns `Err` with a human-readable message (including the nearest valid
/// token, when one is close) if the key does not map to a real token.
pub fn resolve(section: &str, key: &str) -> (r: Result<String, String>)
    ensures
        result_view(r) == resolution(section@, key@),
        r matches Ok(t) ==> canonical().contains(t@),
{
    let sec = chars_of(section);
    let k = chars_of(key);
    let mut cand: Vec<char> = Vec::new();
    if eq_str(&sec, "radius") {
        if eq_str(&k, "default") {
            push_str(&mut cand, "--rio-radius");
        } else {
            push_str(&mut cand, "--rio-radius-");
            push_all(&mut cand, &k);
        }
    } else if eq_str(&sec, "colors") || eq_str(&sec, "spacing") || eq_str(&sec, "typography") {
        push_str(&mut cand, "--rio-");
        push_all(&mut cand, &k);
    } else {
        let mut msg: Vec<char> = Vec::new();
        push_str(&mut msg, "section [");
        push_all(&mut msg, &sec);
        push_str(&mut msg, "] does not map to design tokens (use colors/spacing/radius/typography)");
        return Err(string_of(&msg));
    }
    assert(candidate(section@, key@) == Some(cand@));
    if is_canonical(&cand) {
        return Ok(string_of(&cand));
    }
    let cand_str = string_of(&cand);
    let mut msg: Vec<char> = Vec::new();
    push_str(&mut msg, "unknown token `");
    push_all(&mut msg, &k);
    push_str(&mut msg, "` in [");
    push_all(&mut msg, &sec);
    push_str(&mut msg, "] → `");
    push_all(&mut msg, &cand);
    push_str(&mut msg, "` is not a rustio-admin token");
    match suggest(cand_str.as_str()) {
        Some(s) => {
            push_str(&mut msg, " — did you mean `");
            push_str(&mut msg, s.as_str());
            push_str(&mut msg, "`?");
        },
        None => {},
    }
    assert(msg@ == "unknown token `"@ + key@ + "` in ["@ + section@ + "] → `"@ + cand@
        + "` is not a rustio-admin token"@ + hint(cand@));
    Err(string_of(&msg))
}

/// Every token `resolve` accepts is one of the framework's canonical tokens:
/// a spec key can never resolve to an invented name.
pub proof fn law_resolved_tokens_are_canonical(section: Seq<char>, key: Seq<char>)
    ensures
        resolution(section, key) matches Ok(t) ==> canonical().contains(t),
{
}

/// The running best is at least as close as every candidate scanned so far.
proof fn lemma_best_is_closest(name: Seq<char>, cands: Seq<Seq<char>>, n: int)
    requires
        1 <= n <= cands.len(),
    ensures
        0 <= best_upto(name, cands, n) < n,
        forall|k: int|
            0 <= k < n ==> lev(name, cands[best_upto(name, cands, n)]) <= lev(
                name,
                #[trigger] cands[k],
            ),
    decreases n,
{
    if n > 1 {
        lemma_best_is_closest(name, cands, n - 1);
    }
}

/// A suggestion is a canonical token within four edits of the name and at
/// least as close as every other canonical token; there is none exactly when
/// every canonical token is more than four edits away.
pub proof fn law_suggestion_is_nearest(name: Seq<char>)
    ensures
        suggestion(name) matches Some(t) ==> canonical().contains(t) && lev(name, t) <= 4 && (
        forall|c: Seq<char>| #[trigger] canonical().contains(c) ==> lev(name, t) <= lev(name, c)),
        suggestion(name) is None <==> (forall|c: Seq<char>|
            #[trigger] canonical().contains(c) ==> lev(name, c) > 4),
{
    let c = canonical();
    lemma_best_is_closest(name, c, c.len() as int);
    let b = best_upto(name, c, c.len() as int);
    assert(c.contains(c[b]));
    assert forall|x: Seq<char>| #[trigger] c.contains(x) implies lev(name, c[b]) <= lev(name, x) by {
        let k = choose|k: int| 0 <= k < c.len() && c[k] == x;
        assert(lev(name, c[b]) <= lev(name, c[k]));
    }
}

} // verus!
