//! The navigation layer — the first compilation of a WHAT-layer decision into a
//! generated artifact.
//!
//! `rustio-admin`'s `_sidebar.html` renders a flat "Models" list from the
//! framework-provided `entries` (each `{ admin_name, display_name }`). The
//! recompile-free seam is a **template override**: we generate a `_sidebar.html`
//! that buckets the framework's own `entries` into the groups declared in
//! `[navigation]` — reusing the framework's URLs and labels, hiding the buried
//! models, and preserving the Home / Auth / Developer sections verbatim.

use vstd::prelude::*;
use crate::spec::{NavGroupModel, Navigation, NavigationModel};
use crate::text::{
    after_last, before, chars_of, ends_with, eq, find_at, find_char_at, find_from, join,
    lemma_chars_deep, lemma_find_from, lemma_join_push, lemma_push_deep, lemma_rfind_upto,
    lines, lines_of, push_all, push_str, replace, replace_all, rfind, rfind_in, slice_copy,
    string_of, trim, trimmed, drop_chars, drop_chars_of, no_repeats,
    lemma_no_repeats_prefix,
};
use crate::unicode::{alnum, is_alphanumeric, lower_char, to_lowercase_char};

verus! {

broadcast use lemma_chars_deep;

/// The outcome of linting a `[navigation]` block.
pub struct NavLint {
    /// Fatal problems — `build` refuses while any exist.
    pub errors: Vec<String>,
    /// Advisories — surfaced but non-blocking (model coverage is best-effort).
    pub warnings: Vec<String>,
}

// ───────────────────────────── matching keys ─────────────────────────────

/// The alphanumeric characters of `s`, lowercased.
pub open spec fn key_norm(s: Seq<char>) -> Seq<char>
    decreases s.len(),
{
    if s.len() == 0 {
        seq![]
    } else {
        (if alnum(s[0]) {
            lower_char(s[0])
        } else {
            seq![]
        }) + key_norm(s.skip(1))
    }
}

/// A regular plural ending folded: `ies` → `y`, else one trailing `s` dropped.
pub open spec fn fold_plural(n: Seq<char>) -> Seq<char> {
    if ends_with(n, seq!['i', 'e', 's']) {
        n.take(n.len() - 3).push('y')
    } else if ends_with(n, seq!['s']) {
        n.drop_last()
    } else {
        n
    }
}

/// The plural-insensitive match key of a name.
pub open spec fn match_key(s: Seq<char>) -> Seq<char> {
    fold_plural(key_norm(s))
}

/// The number of leading characters `a` and `b` share, counting from `i`.
pub open spec fn prefix_from(a: Seq<char>, b: Seq<char>, i: int) -> nat
    decreases a.len() - i,
{
    if 0 <= i < a.len() && i < b.len() && a[i] == b[i] {
        prefix_from(a, b, i + 1)
    } else if i < 0 {
        0
    } else {
        i as nat
    }
}

/// The length of the longest common prefix of `a` and `b`.
pub open spec fn common_prefix(a: Seq<char>, b: Seq<char>) -> nat {
    prefix_from(a, b, 0)
}

/// Scanning `cands` (name, key) from `i`, the best so far by shared-prefix
/// length with `target` (at least 3; among equals the later one wins).
pub open spec fn closest_from(
    target: Seq<char>,
    cands: Seq<(Seq<char>, Seq<char>)>,
    i: int,
    best: Option<(nat, Seq<char>)>,
) -> Option<(nat, Seq<char>)>
    decreases cands.len() - i,
{
    if i < 0 || i >= cands.len() {
        best
    } else {
        let n = common_prefix(target, cands[i].1);
        let better = n >= 3 && match best {
            Some(b) => n >= b.0,
            None => true,
        };
        closest_from(target, cands, i + 1, if better { Some((n, cands[i].0)) } else { best })
    }
}

/// The candidate name whose key shares the longest prefix (at least 3) with
/// `target`; the last one among equally long matches.
pub open spec fn closest_name(target: Seq<char>, cands: Seq<(Seq<char>, Seq<char>)>) -> Option<
    Seq<char>,
> {
    match closest_from(target, cands, 0, None) {
        Some(b) => Some(b.1),
        None => None,
    }
}

// ───────────────────────────── lint model ─────────────────────────────

/// Where `item` was first recorded, scanning from `i`.
pub open spec fn seen_from(seen: Seq<(Seq<char>, Seq<char>)>, item: Seq<char>, i: int) -> Option<
    Seq<char>,
>
    decreases seen.len() - i,
{
    if i < 0 || i >= seen.len() {
        None
    } else if seen[i].0 == item {
        Some(seen[i].1)
    } else {
        seen_from(seen, item, i + 1)
    }
}

/// The error for an item listed twice.
pub open spec fn dup_msg(item: Seq<char>, prev: Seq<char>, whence: Seq<char>) -> Seq<char> {
    "[navigation] `"@ + item + "` appears in both `"@ + prev + "` and `"@ + whence
        + "` — list it once"@
}

/// The error for a reserved group label.
pub open spec fn label_msg(label: Seq<char>) -> Seq<char> {
    "[navigation] group label `"@ + label + "` may not start with `_` (reserved)"@
}

/// The error for an empty group.
pub open spec fn empty_msg(label: Seq<char>) -> Seq<char> {
    "[navigation] group `"@ + label + "` has no items"@
}

/// Record `items[j..]` under `whence`: an item seen before is an error,
/// otherwise it is remembered.
pub open spec fn record_items(
    seen: Seq<(Seq<char>, Seq<char>)>,
    errs: Seq<Seq<char>>,
    items: Seq<Seq<char>>,
    whence: Seq<char>,
    j: int,
) -> (Seq<(Seq<char>, Seq<char>)>, Seq<Seq<char>>)
    decreases items.len() - j,
{
    if j < 0 || j >= items.len() {
        (seen, errs)
    } else {
        let item = items[j];
        match seen_from(seen, item, 0) {
            Some(prev) => record_items(
                seen,
                errs.push(dup_msg(item, prev, whence)),
                items,
                whence,
                j + 1,
            ),
            None => record_items(seen.push((item, whence)), errs, items, whence, j + 1),
        }
    }
}

/// The structural checks of groups `i..`.
pub open spec fn group_pass(
    groups: Seq<NavGroupModel>,
    i: int,
    seen: Seq<(Seq<char>, Seq<char>)>,
    errs: Seq<Seq<char>>,
) -> (Seq<(Seq<char>, Seq<char>)>, Seq<Seq<char>>)
    decreases groups.len() - i,
{
    if i < 0 || i >= groups.len() {
        (seen, errs)
    } else {
        let g = groups[i];
        let e1 = if g.label.len() > 0 && g.label[0] == '_' {
            errs.push(label_msg(g.label))
        } else {
            errs
        };
        let e2 = if g.items.len() == 0 {
            e1.push(empty_msg(g.label))
        } else {
            e1
        };
        let (s3, e3) = record_items(seen, e2, g.items, g.label, 0);
        group_pass(groups, i + 1, s3, e3)
    }
}

/// The structural pass: every item once across groups and `_hidden`.
pub open spec fn structural(nav: NavigationModel) -> (Seq<(Seq<char>, Seq<char>)>, Seq<Seq<char>>) {
    let (s, e) = group_pass(nav.groups, 0, seq![], seq![]);
    record_items(s, e, nav.hidden, "_hidden"@, 0)
}

/// Whether some candidate key equals `k`.
pub open spec fn has_key(cands: Seq<(Seq<char>, Seq<char>)>, k: Seq<char>) -> bool {
    exists|j: int| 0 <= j < cands.len() && #[trigger] cands[j].1 == k
}

/// The "did you mean" tail for a suggestion.
pub open spec fn hint_msg(s: Option<Seq<char>>) -> Seq<char> {
    match s {
        Some(m) => " — did you mean `"@ + m + "`?"@,
        None => seq![],
    }
}

/// The warning for an item matching no model.
pub open spec fn unmatched_msg(item: Seq<char>, hint: Seq<char>) -> Seq<char> {
    "[navigation] `"@ + item + "` matches no registered model"@ + hint
}

/// The warning for a model neither grouped nor hidden.
pub open spec fn unplaced_msg(model: Seq<char>) -> Seq<char> {
    "[navigation] model `"@ + model
        + "` is neither grouped nor hidden — it will not appear in the sidebar; add it to a group or `_hidden`"@
}

/// The warning when the models could not be read.
pub open spec fn no_models_msg() -> Seq<char> {
    "[navigation] could not read the project's models (src/main.rs) — coverage not verified"@
}

/// Each model with its match key.
pub open spec fn model_keys(ms: Seq<Seq<char>>) -> Seq<(Seq<char>, Seq<char>)> {
    ms.map_values(|m: Seq<char>| (m, match_key(m)))
}

/// Warnings for the recorded items `i..` that match no model.
pub open spec fn unmatched_warnings(
    seen: Seq<(Seq<char>, Seq<char>)>,
    mk: Seq<(Seq<char>, Seq<char>)>,
    i: int,
) -> Seq<Seq<char>>
    decreases seen.len() - i,
{
    if i < 0 || i >= seen.len() {
        seq![]
    } else {
        let item = seen[i].0;
        let k = match_key(item);
        (if has_key(mk, k) {
            seq![]
        } else {
            seq![unmatched_msg(item, hint_msg(closest_name(k, mk)))]
        }) + unmatched_warnings(seen, mk, i + 1)
    }
}

/// Whether some recorded item has the match key `k`.
pub open spec fn seen_has_key(seen: Seq<(Seq<char>, Seq<char>)>, k: Seq<char>) -> bool {
    exists|j: int| 0 <= j < seen.len() && match_key(#[trigger] seen[j].0) == k
}

/// Warnings for the models `i..` that no recorded item covers.
pub open spec fn unplaced_warnings(
    ms: Seq<Seq<char>>,
    seen: Seq<(Seq<char>, Seq<char>)>,
    i: int,
) -> Seq<Seq<char>>
    decreases ms.len() - i,
{
    if i < 0 || i >= ms.len() {
        seq![]
    } else {
        (if seen_has_key(seen, match_key(ms[i])) {
            seq![]
        } else {
            seq![unplaced_msg(ms[i])]
        }) + unplaced_warnings(ms, seen, i + 1)
    }
}

/// What `lint` reports: (errors, warnings).
pub open spec fn nav_lint(nav: NavigationModel, models: Option<Seq<Seq<char>>>) -> (
    Seq<Seq<char>>,
    Seq<Seq<char>>,
) {
    let (seen, errs) = structural(nav);
    let warns = match models {
        Some(ms) => unmatched_warnings(seen, model_keys(ms), 0) + unplaced_warnings(ms, seen, 0),
        None => seq![no_models_msg()],
    };
    (errs, warns)
}

// ───────────────────────────── lint ─────────────────────────────

/// Where `item` was first recorded.
fn seen_where(seen: &Vec<(String, String)>, item: &[char]) -> (r: Option<String>)
    ensures
        crate::allowlist::opt_string(r) == seen_from(seen.deep_view(), item@, 0),
{
    let ghost sv = seen.deep_view();
    let mut i: usize = 0;
    while i < seen.len()
        invariant
            i <= seen.len(),
            sv == seen.deep_view(),
            seen_from(sv, item@, i as int) == seen_from(sv, item@, 0),
        decreases seen.len() - i,
    {
        let k = chars_of(seen[i].0.as_str());
        if eq(&k, item) {
            return Some(seen[i].1.clone());
        }
        i += 1;
    }
    None
}

/// Record every item of `items` under `whence`.
fn record(
    seen: &mut Vec<(String, String)>,
    errors: &mut Vec<String>,
    items: &Vec<String>,
    whence: &str,
)
    ensures
        (final(seen).deep_view(), final(errors).deep_view()) == record_items(
            old(seen).deep_view(),
            old(errors).deep_view(),
            items.deep_view(),
            whence@,
            0,
        ),
{
    let ghost iv = items.deep_view();
    let ghost target = record_items(old(seen).deep_view(), old(errors).deep_view(), iv, whence@, 0);
    let mut j: usize = 0;
    while j < items.len()
        invariant
            j <= items.len(),
            iv == items.deep_view(),
            record_items(seen.deep_view(), errors.deep_view(), iv, whence@, j as int) == target,
        decreases items.len() - j,
    {
        let item = chars_of(items[j].as_str());
        match seen_where(seen, &item) {
            Some(prev) => {
                let mut m: Vec<char> = Vec::new();
                push_str(&mut m, "[navigation] `");
                push_all(&mut m, &item);
                push_str(&mut m, "` appears in both `");
                push_str(&mut m, prev.as_str());
                push_str(&mut m, "` and `");
                push_str(&mut m, whence);
                push_str(&mut m, "` — list it once");
                let ghost before = *errors;
                let s = string_of(&m);
                let ghost sg = s;
                errors.push(s);
                proof {
                    lemma_push_deep(before, *errors, sg);
                }
            },
            None => {
                let ghost before = *seen;
                let e = (items[j].clone(), String::from_str(whence));
                let ghost eg = e;
                seen.push(e);
                proof {
                    lemma_push_deep(before, *seen, eg);
                }
            },
        }
        j += 1;
    }
}

/// Append a message.
fn push_message(v: &mut Vec<String>, m: &Vec<char>)
    ensures
        final(v).deep_view() == old(v).deep_view().push(m@),
{
    let ghost before = *v;
    let s = string_of(m);
    let ghost sg = s;
    v.push(s);
    proof {
        lemma_push_deep(before, *v, sg);
    }
}

/// Lint a navigation block: structural errors, plus best-effort coverage against
/// the project's registered models (when discoverable).
pub fn lint(nav: &Navigation, models: Option<&[String]>) -> (r: NavLint)
    ensures
        (r.errors.deep_view(), r.warnings.deep_view()) == nav_lint(
            nav.deep_view(),
            models.deep_view(),
        ),
{
    let ghost nv = nav.deep_view();
    let mut errors: Vec<String> = Vec::new();
    let mut warnings: Vec<String> = Vec::new();
    let mut seen: Vec<(String, String)> = Vec::new();
    assert(errors.deep_view() =~= Seq::<Seq<char>>::empty());
    assert(warnings.deep_view() =~= Seq::<Seq<char>>::empty());
    assert(seen.deep_view() =~= Seq::<(Seq<char>, Seq<char>)>::empty());

    // --- structural: every item appears exactly once across groups + hidden ---
    let mut i: usize = 0;
    while i < nav.groups.len()
        invariant
            i <= nav.groups.len(),
            nv == nav.deep_view(),
            group_pass(nv.groups, i as int, seen.deep_view(), errors.deep_view()) == group_pass(
                nv.groups,
                0,
                seq![],
                seq![],
            ),
        decreases nav.groups.len() - i,
    {
        let g = &nav.groups[i];
        assert(g.deep_view() == nv.groups[i as int]);
        let label = chars_of(g.label.as_str());
        if label.len() > 0 && label[0] == '_' {
            let mut m: Vec<char> = Vec::new();
            push_str(&mut m, "[navigation] group label `");
            push_all(&mut m, &label);
            push_str(&mut m, "` may not start with `_` (reserved)");
            push_message(&mut errors, &m);
        }
        if g.items.len() == 0 {
            let mut m: Vec<char> = Vec::new();
            push_str(&mut m, "[navigation] group `");
            push_all(&mut m, &label);
            push_str(&mut m, "` has no items");
            push_message(&mut errors, &m);
        }
        record(&mut seen, &mut errors, &g.items, g.label.as_str());
        i += 1;
    }
    record(&mut seen, &mut errors, &nav.hidden, "_hidden");
    assert((seen.deep_view(), errors.deep_view()) == structural(nv));

    // --- best-effort model coverage (warnings only) ---
    match models {
        Some(ms) => {
            let ghost mv = ms.deep_view();
            let mut mk: Vec<(String, Vec<char>)> = Vec::new();
            let mut j: usize = 0;
            while j < ms.len()
                invariant
                    j <= ms.len(),
                    mv == ms.deep_view(),
                    mk.deep_view() == model_keys(mv).take(j as int),
                decreases ms.len() - j,
            {
                let name = chars_of(ms[j].as_str());
                let k = key_of(&name);
                let ghost before = mk;
                let e = (ms[j].clone(), k);
                let ghost eg = e;
                mk.push(e);
                proof {
                    lemma_push_deep(before, mk, eg);
                    assert(model_keys(mv).take(j + 1) == model_keys(mv).take(j as int).push(
                        eg.deep_view(),
                    ));
                }
                j += 1;
            }
            assert(model_keys(mv).take(ms.len() as int) == model_keys(mv));
            let ghost sv = seen.deep_view();
            let ghost mkv = mk.deep_view();
            let mut i: usize = 0;
            while i < seen.len()
                invariant
                    i <= seen.len(),
                    sv == seen.deep_view(),
                    mkv == mk.deep_view(),
                    warnings.deep_view() + unmatched_warnings(sv, mkv, i as int)
                        == unmatched_warnings(sv, mkv, 0),
                decreases seen.len() - i,
            {
                let item = chars_of(seen[i].0.as_str());
                assert(item@ == sv[i as int].0);
                let k = key_of(&item);
                let ghost before_w = warnings.deep_view();
                if !any_key(&mk, &k) {
                    let mut m: Vec<char> = Vec::new();
                    push_str(&mut m, "[navigation] `");
                    push_all(&mut m, &item);
                    push_str(&mut m, "` matches no registered model");
                    match closest(&k, &mk) {
                        Some(c) => {
                            push_str(&mut m, " — did you mean `");
                            push_str(&mut m, c.as_str());
                            push_str(&mut m, "`?");
                        },
                        None => {},
                    }
                    assert(m@ == unmatched_msg(sv[i as int].0, hint_msg(closest_name(k@, mkv))));
                    push_message(&mut warnings, &m);
                }
                assert(unmatched_warnings(sv, mkv, i as int) == (if has_key(mkv, k@) {
                    Seq::<Seq<char>>::empty()
                } else {
                    seq![unmatched_msg(sv[i as int].0, hint_msg(closest_name(k@, mkv)))]
                }) + unmatched_warnings(sv, mkv, i + 1));
                i += 1;
            }
            let ghost mid = warnings.deep_view();
            let mut j: usize = 0;
            while j < ms.len()
                invariant
                    j <= ms.len(),
                    mv == ms.deep_view(),
                    sv == seen.deep_view(),
                    warnings.deep_view() + unplaced_warnings(mv, sv, j as int) == mid
                        + unplaced_warnings(mv, sv, 0),
                decreases ms.len() - j,
            {
                let name = chars_of(ms[j].as_str());
                let k = key_of(&name);
                if !seen_key(&seen, &k) {
                    let mut m: Vec<char> = Vec::new();
                    push_str(&mut m, "[navigation] model `");
                    push_all(&mut m, &name);
                    push_str(
                        &mut m,
                        "` is neither grouped nor hidden — it will not appear in the sidebar; add it to a group or `_hidden`",
                    );
                    push_message(&mut warnings, &m);
                }
                j += 1;
            }
        },
        None => {
            let m = chars_of(
                "[navigation] could not read the project's models (src/main.rs) — coverage not verified",
            );
            push_message(&mut warnings, &m);
        },
    }
    NavLint { errors, warnings }
}

/// Whether some model key equals `k`.
fn any_key(mk: &Vec<(String, Vec<char>)>, k: &[char]) -> (r: bool)
    ensures
        r == has_key(mk.deep_view(), k@),
{
    let ghost mv = mk.deep_view();
    let mut j: usize = 0;
    while j < mk.len()
        invariant
            j <= mk.len(),
            mv == mk.deep_view(),
            forall|x: int| 0 <= x < j ==> mv[x].1 != k@,
        decreases mk.len() - j,
    {
        assert(mv[j as int].1 == mk@[j as int].1@);
        if eq(&mk[j].1, k) {
            return true;
        }
        j += 1;
    }
    false
}

/// Whether some recorded item has the match key `k`.
fn seen_key(seen: &Vec<(String, String)>, k: &[char]) -> (r: bool)
    ensures
        r == seen_has_key(seen.deep_view(), k@),
{
    let ghost sv = seen.deep_view();
    let mut j: usize = 0;
    while j < seen.len()
        invariant
            j <= seen.len(),
            sv == seen.deep_view(),
            forall|x: int| 0 <= x < j ==> match_key(sv[x].0) != k@,
        decreases seen.len() - j,
    {
        let item = chars_of(seen[j].0.as_str());
        assert(item@ == sv[j as int].0);
        let ik = key_of(&item);
        if eq(&ik, k) {
            assert(match_key(sv[j as int].0) == k@);
            return true;
        }
        j += 1;
    }
    false
}

// ───────────────────────────── registrations ─────────────────────────────

/// The `.model::<` marker.
pub open spec fn marker() -> Seq<char> {
    seq!['.', 'm', 'o', 'd', 'e', 'l', ':', ':', '<']
}

/// The path separator `::`.
pub open spec fn path_sep() -> Seq<char> {
    seq![':', ':']
}

/// The line-comment marker `//`.
pub open spec fn comment_marker() -> Seq<char> {
    seq!['/', '/']
}

/// Source text with every line comment removed (lines re-joined with `\n`).
pub open spec fn strip_line_comments(src: Seq<char>) -> Seq<char> {
    join(lines(src).map_values(|l: Seq<char>| before(l, comment_marker())), seq!['\n'])
}

/// A registered type name: non-empty, alphanumerics and `_` only.
pub open spec fn type_name_ok(t: Seq<char>) -> bool {
    t.len() > 0 && forall|k: int| 0 <= k < t.len() ==> alnum(#[trigger] t[k]) || t[k] == '_'
}

/// The registrations in `code` from index `i` on.
pub open spec fn models_from(code: Seq<char>, i: int) -> Seq<Seq<char>>
    decreases code.len() - i,
{
    match find_from(code, marker(), i) {
        None => seq![],
        Some(p) => {
            let s = p + 9;
            match find_from(code, seq!['>'], s) {
                None => seq![],
                Some(e) => if i <= p && s <= e < code.len() {
                    let ty = trim(after_last(trim(code.subrange(s, e)), path_sep()));
                    (if type_name_ok(ty) {
                        seq![ty]
                    } else {
                        seq![]
                    }) + models_from(code, e + 1)
                } else {
                    seq![]
                },
            }
        },
    }
}

/// The `.model::<Type>()` registrations of a project's `main.rs`, in order.
pub open spec fn registered(main_rs: Seq<char>) -> Seq<Seq<char>> {
    models_from(strip_line_comments(main_rs), 0)
}

/// Source text with every line comment removed.
pub(crate) fn strip_comments(src: &[char]) -> (r: Vec<char>)
    ensures
        r@ == strip_line_comments(src@),
{
    let ls = lines_of(src);
    let ghost lv = ls.deep_view();
    let ghost mapped = lv.map_values(|l: Seq<char>| before(l, comment_marker()));
    let cm = vec!['/', '/'];
    assert(cm@ == comment_marker());
    let mut out: Vec<char> = Vec::new();
    let mut i: usize = 0;
    while i < ls.len()
        invariant
            i <= ls.len(),
            lv == ls.deep_view(),
            lv == lines(src@),
            mapped == lv.map_values(|l: Seq<char>| before(l, comment_marker())),
            cm@ == comment_marker(),
            out@ == join(mapped.take(i as int), seq!['\n']),
        decreases ls.len() - i,
    {
        let l = &ls[i];
        let piece = match find_at(l, &cm, 0) {
            Some(k) => {
                proof {
                    lemma_find_from(l@, cm@, 0);
                }
                slice_copy(l, 0, k)
            },
            None => slice_copy(l, 0, l.len()),
        };
        assert(piece@ == mapped[i as int]) by {
            assert(l@ == lv[i as int]);
            if find_from(l@, cm@, 0) is None {
                assert(l@.subrange(0, l@.len() as int) == l@);
            }
        }
        proof {
            lemma_join_push(mapped.take(i as int), seq!['\n'], piece@);
            assert(mapped.take(i + 1) == mapped.take(i as int).push(piece@));
        }
        if i > 0 {
            out.push('\n');
        }
        push_all(&mut out, &piece);
        i += 1;
    }
    assert(mapped.take(ls.len() as int) == mapped);
    out
}

/// Whether every character is alphanumeric or `_`.
pub(crate) fn all_name_chars(t: &[char]) -> (r: bool)
    ensures
        r == (forall|k: int| 0 <= k < t@.len() ==> alnum(#[trigger] t@[k]) || t@[k] == '_'),
{
    let mut i: usize = 0;
    while i < t.len()
        invariant
            i <= t.len(),
            forall|k: int| 0 <= k < i ==> alnum(#[trigger] t@[k]) || t@[k] == '_',
        decreases t.len() - i,
    {
        if !(is_alphanumeric(t[i]) || t[i] == '_') {
            return false;
        }
        i += 1;
    }
    true
}

/// Parse a project `src/main.rs` for `.model::<Type>()` registrations.
///
/// Line comments are stripped first, so commented examples are not mistaken
/// for real registrations.
pub fn registered_models(main_rs: &str) -> (r: Vec<String>)
    ensures
        r.deep_view() == registered(main_rs@),
{
    let src = chars_of(main_rs);
    let code = strip_comments(&src);
    let mk = vec!['.', 'm', 'o', 'd', 'e', 'l', ':', ':', '<'];
    assert(mk@ == marker());
    let sep = vec![':', ':'];
    assert(sep@ == path_sep());
    let mut out: Vec<String> = Vec::new();
    assert(out.deep_view() =~= Seq::<Seq<char>>::empty());
    let mut i: usize = 0;
    loop
        invariant
            i <= code.len(),
            code@ == strip_line_comments(main_rs@),
            mk@ == marker(),
            sep@ == path_sep(),
            out.deep_view() + models_from(code@, i as int) == registered(main_rs@),
        decreases code.len() - i,
    {
        let p = match find_at(&code, &mk, i) {
            Some(p) => p,
            None => {
                assert(out.deep_view() + Seq::<Seq<char>>::empty() == out.deep_view());
                return out;
            },
        };
        proof {
            lemma_find_from(code@, mk@, i as int);
        }
        let s = p + 9;
        let e = match find_char_at(&code, '>', s) {
            Some(e) => e,
            None => {
                assert(out.deep_view() + Seq::<Seq<char>>::empty() == out.deep_view());
                return out;
            },
        };
        proof {
            lemma_find_from(code@, seq!['>'], s as int);
        }
        let inner = slice_copy(&code, s, e);
        let t0 = trimmed(&inner);
        let last = match rfind_in(&t0, &sep) {
            Some(k) => {
                proof {
                    lemma_rfind_upto(t0@, sep@, t0@.len() as int);
                }
                assert(k + sep@.len() <= t0@.len());
                assert(sep@.len() == 2);
                assert(k + 2 <= t0.len());
                let from: usize = k + 2;
                slice_copy(&t0, from, t0.len())
            },
            None => slice_copy(&t0, 0, t0.len()),
        };
        assert(last@ == after_last(t0@, path_sep())) by {
            if rfind(t0@, sep@) is None {
                assert(t0@.subrange(0, t0@.len() as int) == t0@);
            }
        }
        let ty = trimmed(&last);
        if ty.len() > 0 && all_name_chars(&ty) {
            let ghost before = out;
            let st = string_of(&ty);
            let ghost sg = st;
            out.push(st);
            proof {
                lemma_push_deep(before, out, sg);
            }
        }
        i = e + 1;
    }
}

// ───────────────────────────── sidebar ─────────────────────────────

/// Label text made safe for a Jinja string literal / markup: `\`, `"`, `<`
/// and `>` dropped, then every `{{` and then every `{%` removed.
pub open spec fn escaped_label(s: Seq<char>) -> Seq<char> {
    replace(
        replace(drop_chars(s, seq!['\\', '"', '<', '>']), seq!['{', '{'], seq![]),
        seq!['{', '%'],
        seq![],
    )
}

/// The sidebar lines of one group's items.
pub open spec fn items_html(items: Seq<Seq<char>>) -> Seq<char>
    decreases items.len(),
{
    if items.len() == 0 {
        seq![]
    } else {
        items_html(items.drop_last()) + "      {% for entry in entries %}{% if entry.display_name == \""@ + escaped_label(items.last()) + "\" %}<li><a href=\"/admin/{{ entry.admin_name }}\" class=\"rio-sidebar-link\">{{ icon(\"table\", class=\"rio-icon\") }} {{ entry.display_name }}</a></li>{% endif %}{% endfor %}\n"@
    }
}

/// The sidebar lines of groups.
pub open spec fn groups_html(groups: Seq<NavGroupModel>) -> Seq<char>
    decreases groups.len(),
{
    if groups.len() == 0 {
        seq![]
    } else {
        groups_html(groups.drop_last()) + "      <li class=\"rio-sidebar-section\">"@ + escaped_label(groups.last().label) + "</li>\n"@
            + items_html(groups.last().items)
    }
}

/// The generated `_sidebar.html` for `project`.
pub open spec fn sidebar_html(project: Seq<char>, nav: NavigationModel) -> Seq<char> {
    "{# ============================================================\n # GENERATED by rustio-design — DO NOT EDIT THIS FILE.\n #\n #   rustio-admin sidebar (navigation layer)\n #   project: "@ + project + "\n #\n # Source of truth: the [navigation] section of rustio.design.toml,\n # decided in design/DESIGN_ARCHITECTURE.md (see DESIGN_REASONING).\n # Edit the spec, then run `rustio-design build`. Hand edits here are\n # reverted on the next build and flagged by `rustio-design check`.\n # ============================================================ #}\n"@ + "{% block rio_sidebar %}\n<aside class=\"rio-sidebar\" aria-label=\"Admin navigation\">\n  <nav>\n    <ul class=\"rio-sidebar-list\">\n      <li><a href=\"/admin\" class=\"rio-sidebar-link\">{{ icon(\"home\", class=\"rio-icon\") }} Home</a></li>\n      {% if entries %}\n"@ + groups_html(nav.groups) + "      {% endif %}\n      {% if identity and identity.is_admin %}\n      <li class=\"rio-sidebar-section\">Auth</li>\n      <li><a href=\"/admin/users\" class=\"rio-sidebar-link\">{{ icon(\"users\", class=\"rio-icon\") }} Users</a></li>\n      <li><a href=\"/admin/groups\" class=\"rio-sidebar-link\">{{ icon(\"users-2\", class=\"rio-icon\") }} Groups</a></li>\n      <li><a href=\"/admin/history\" class=\"rio-sidebar-link\">{{ icon(\"clock\", class=\"rio-icon\") }} History</a></li>\n      {% endif %}\n      {% if identity and identity.is_developer %}\n      <li class=\"rio-sidebar-section\">Developer</li>\n      <li><a href=\"/admin/db\" class=\"rio-sidebar-link\">{{ icon(\"database\", class=\"rio-icon\") }} Database</a></li>\n      {% endif %}\n    </ul>\n  </nav>\n</aside>\n{% endblock %}\n"@
}

/// Defensive escaping for a label embedded in a Jinja string literal / markup.
fn jinja_escape(s: &str) -> (r: Vec<char>)
    ensures
        r@ == escaped_label(s@),
{
    let c = chars_of(s);
    let set = vec!['\\', '"', '<', '>'];
    let a = drop_chars_of(&c, &set);
    let p1 = vec!['{', '{'];
    let empty: Vec<char> = Vec::new();
    let b = replace_all(&a, &p1, &empty);
    let p2 = vec!['{', '%'];
    replace_all(&b, &p2, &empty)
}

/// Generate the `_sidebar.html` override that groups the framework's `entries`.
///
/// One `{% for entry in entries %}` pass per declared item preserves the declared
/// order and matches on `display_name`, so URLs/labels/icons stay the framework's.
pub fn build_sidebar_html(project: &str, nav: &Navigation) -> (s: String)
    ensures
        s@ == sidebar_html(project@, nav.deep_view()),
{
    let ghost nv = nav.deep_view();
    let mut out: Vec<char> = Vec::new();
    push_str(&mut out, "{# ============================================================\n # GENERATED by rustio-design — DO NOT EDIT THIS FILE.\n #\n #   rustio-admin sidebar (navigation layer)\n #   project: ");
    push_str(&mut out, project);
    push_str(&mut out, "\n #\n # Source of truth: the [navigation] section of rustio.design.toml,\n # decided in design/DESIGN_ARCHITECTURE.md (see DESIGN_REASONING).\n # Edit the spec, then run `rustio-design build`. Hand edits here are\n # reverted on the next build and flagged by `rustio-design check`.\n # ============================================================ #}\n");
    push_str(&mut out, "{% block rio_sidebar %}\n<aside class=\"rio-sidebar\" aria-label=\"Admin navigation\">\n  <nav>\n    <ul class=\"rio-sidebar-list\">\n      <li><a href=\"/admin\" class=\"rio-sidebar-link\">{{ icon(\"home\", class=\"rio-icon\") }} Home</a></li>\n      {% if entries %}\n");
    let ghost pre = out@;
    let mut i: usize = 0;
    while i < nav.groups.len()
        invariant
            i <= nav.groups.len(),
            nv == nav.deep_view(),
            out@ == pre + groups_html(nv.groups.take(i as int)),
        decreases nav.groups.len() - i,
    {
        let g = &nav.groups[i];
        assert(g.deep_view() == nv.groups[i as int]);
        let ghost gstart = out@;
        push_str(&mut out, "      <li class=\"rio-sidebar-section\">");
        let l = jinja_escape(g.label.as_str());
        push_all(&mut out, &l);
        push_str(&mut out, "</li>\n");
        let ghost istart = out@;
        let ghost iv = g.items.deep_view();
        let mut j: usize = 0;
        while j < g.items.len()
            invariant
                j <= g.items.len(),
                iv == g.items.deep_view(),
                out@ == istart + items_html(iv.take(j as int)),
            decreases g.items.len() - j,
        {
            push_str(&mut out, "      {% for entry in entries %}{% if entry.display_name == \"");
            let e = jinja_escape(g.items[j].as_str());
            push_all(&mut out, &e);
            push_str(&mut out, "\" %}<li><a href=\"/admin/{{ entry.admin_name }}\" class=\"rio-sidebar-link\">{{ icon(\"table\", class=\"rio-icon\") }} {{ entry.display_name }}</a></li>{% endif %}{% endfor %}\n");
            assert(iv.take(j + 1).drop_last() == iv.take(j as int));
            j += 1;
        }
        assert(iv.take(g.items.len() as int) == iv);
        assert(nv.groups.take(i + 1).drop_last() == nv.groups.take(i as int));
        i += 1;
    }
    assert(nv.groups.take(nav.groups.len() as int) == nv.groups);
    push_str(&mut out, "      {% endif %}\n      {% if identity and identity.is_admin %}\n      <li class=\"rio-sidebar-section\">Auth</li>\n      <li><a href=\"/admin/users\" class=\"rio-sidebar-link\">{{ icon(\"users\", class=\"rio-icon\") }} Users</a></li>\n      <li><a href=\"/admin/groups\" class=\"rio-sidebar-link\">{{ icon(\"users-2\", class=\"rio-icon\") }} Groups</a></li>\n      <li><a href=\"/admin/history\" class=\"rio-sidebar-link\">{{ icon(\"clock\", class=\"rio-icon\") }} History</a></li>\n      {% endif %}\n      {% if identity and identity.is_developer %}\n      <li class=\"rio-sidebar-section\">Developer</li>\n      <li><a href=\"/admin/db\" class=\"rio-sidebar-link\">{{ icon(\"database\", class=\"rio-icon\") }} Database</a></li>\n      {% endif %}\n    </ul>\n  </nav>\n</aside>\n{% endblock %}\n");
    string_of(&out)
}

// ───────────────────────────── helpers ─────────────────────────────

/// Plural-insensitive match key: lowercase, alphanumerics only, with a regular
/// plural ending folded (`ies`→`y`, trailing `s` dropped).
pub fn key(s: &str) -> (r: String)
    ensures
        r@ == match_key(s@),
{
    let c = chars_of(s);
    let k = key_of(&c);
    string_of(&k)
}

/// The match key of a character buffer.
fn key_of(s: &[char]) -> (r: Vec<char>)
    ensures
        r@ == match_key(s@),
{
    let mut norm: Vec<char> = Vec::new();
    let mut i: usize = 0;
    assert(s@.skip(0) == s@);
    while i < s.len()
        invariant
            i <= s.len(),
            norm@ + key_norm(s@.skip(i as int)) == key_norm(s@),
        decreases s.len() - i,
    {
        assert(s@.skip(i as int)[0] == s@[i as int]);
        assert(s@.skip(i as int).skip(1) == s@.skip(i + 1));
        let c = s[i];
        if is_alphanumeric(c) {
            let l = to_lowercase_char(c);
            push_all(&mut norm, &l);
        }
        i += 1;
    }
    assert(s@.skip(i as int).len() == 0);
    folded(norm)
}

/// A normalized key with its regular plural ending folded (`ies` → `y`, one
/// trailing `s` dropped).
pub fn fold_plural_key(norm: &str) -> (r: String)
    ensures
        r@ == fold_plural(norm@),
{
    let c = chars_of(norm);
    let f = folded(c);
    string_of(&f)
}

/// `norm` with its regular plural ending folded.
fn folded(norm: Vec<char>) -> (r: Vec<char>)
    ensures
        r@ == fold_plural(norm@),
{
    let n = norm.len();
    if n >= 3 && norm[n - 3] == 'i' && norm[n - 2] == 'e' && norm[n - 1] == 's' {
        assert(norm@.skip(n - 3) =~= seq!['i', 'e', 's']);
        let mut stem = slice_copy(&norm, 0, n - 3);
        stem.push('y');
        return stem;
    }
    assert(!ends_with(norm@, seq!['i', 'e', 's'])) by {
        if n >= 3 && norm@.skip(n - 3) == seq!['i', 'e', 's'] {
            assert(norm@.skip(n - 3)[0] == norm@[n - 3]);
            assert(norm@.skip(n - 3)[1] == norm@[n - 2]);
            assert(norm@.skip(n - 3)[2] == norm@[n - 1]);
        }
    }
    if n >= 1 && norm[n - 1] == 's' {
        assert(norm@.skip(n - 1) =~= seq!['s']);
        return slice_copy(&norm, 0, n - 1);
    }
    assert(!ends_with(norm@, seq!['s'])) by {
        if n >= 1 && norm@.skip(n - 1) == seq!['s'] {
            assert(norm@.skip(n - 1)[0] == norm@[n - 1]);
        }
    }
    norm
}

/// Closest registered model to a key, by shared-prefix length.
fn closest(target: &[char], models: &Vec<(String, Vec<char>)>) -> (r: Option<String>)
    ensures
        crate::allowlist::opt_string(r) == closest_name(target@, models.deep_view()),
{
    let ghost mv = models.deep_view();
    let mut best: Option<(usize, usize)> = None;
    let mut i: usize = 0;
    while i < models.len()
        invariant
            i <= models.len(),
            mv == models.deep_view(),
            closest_from(
                target@,
                mv,
                i as int,
                match best {
                    Some(b) => Some((b.0 as nat, mv[b.1 as int].0)),
                    None => None,
                },
            ) == closest_from(target@, mv, 0, None),
            best matches Some(b) ==> b.1 < i,
        decreases models.len() - i,
    {
        assert(mv[i as int].1 == models@[i as int].1@);
        let n = shared_prefix(target, &models[i].1);
        let better = n >= 3 && match best {
            Some(b) => n >= b.0,
            None => true,
        };
        if better {
            best = Some((n, i));
        }
        i += 1;
    }
    match best {
        Some(b) => Some(models[b.1].0.clone()),
        None => None,
    }
}

/// The length of the longest common prefix.
fn shared_prefix(a: &[char], b: &[char]) -> (n: usize)
    ensures
        n == common_prefix(a@, b@),
{
    let mut i: usize = 0;
    while i < a.len() && i < b.len() && a[i] == b[i]
        invariant
            i <= a.len(),
            prefix_from(a@, b@, i as int) == common_prefix(a@, b@),
        decreases a.len() - i,
    {
        i += 1;
    }
    i
}

// ───────────────────────────── laws ─────────────────────────────

/// The item names recorded in `seen`.
pub open spec fn names(seen: Seq<(Seq<char>, Seq<char>)>) -> Seq<Seq<char>> {
    seen.map_values(|p: (Seq<char>, Seq<char>)| p.0)
}

/// Every group from `i` on has a non-reserved label and at least one item.
pub open spec fn groups_ok(groups: Seq<NavGroupModel>, i: int) -> bool {
    forall|k: int|
        i <= k < groups.len() ==> !(#[trigger] groups[k].label.len() > 0 && groups[k].label[0]
            == '_') && groups[k].items.len() > 0
}

/// The items of groups `i..`, in order.
pub open spec fn group_items(groups: Seq<NavGroupModel>, i: int) -> Seq<Seq<char>>
    decreases groups.len() - i,
{
    if i < 0 || i >= groups.len() {
        seq![]
    } else {
        groups[i].items + group_items(groups, i + 1)
    }
}

/// `seen_from` finds an item exactly when it was recorded at or after `i`.
proof fn lemma_seen_from(seen: Seq<(Seq<char>, Seq<char>)>, item: Seq<char>, i: int)
    requires
        0 <= i,
    ensures
        seen_from(seen, item, i) is Some <==> exists|k: int| i <= k < seen.len() && seen[k].0 == item,
    decreases seen.len() - i,
{
    if i < seen.len() && seen[i].0 != item {
        lemma_seen_from(seen, item, i + 1);
        if exists|k: int| i <= k < seen.len() && seen[k].0 == item {
            let k = choose|k: int| i <= k < seen.len() && seen[k].0 == item;
            assert(i + 1 <= k);
        }
    }
}

/// Recording items adds an error exactly when an item repeats one recorded
/// before (or an earlier one of the same list); a clean pass records them all.
proof fn lemma_record_items(
    seen: Seq<(Seq<char>, Seq<char>)>,
    errs: Seq<Seq<char>>,
    items: Seq<Seq<char>>,
    whence: Seq<char>,
    j: int,
)
    requires
        0 <= j <= items.len(),
        no_repeats(names(seen)),
    ensures
        record_items(seen, errs, items, whence, j).1.len() >= errs.len(),
        no_repeats(names(record_items(seen, errs, items, whence, j).0)),
        record_items(seen, errs, items, whence, j).1.len() == errs.len() <==> no_repeats(
            names(seen) + items.skip(j),
        ),
        record_items(seen, errs, items, whence, j).1.len() == errs.len() ==> names(
            record_items(seen, errs, items, whence, j).0,
        ) == names(seen) + items.skip(j),
    decreases items.len() - j,
{
    let ns = names(seen);
    if j == items.len() {
        assert(ns + items.skip(j) =~= ns);
    } else {
        let item = items[j];
        lemma_seen_from(seen, item, 0);
        assert(ns + items.skip(j) =~= ns.push(item) + items.skip(j + 1));
        match seen_from(seen, item, 0) {
            Some(prev) => {
                lemma_record_items(
                    seen,
                    errs.push(dup_msg(item, prev, whence)),
                    items,
                    whence,
                    j + 1,
                );
                let k = choose|k: int| 0 <= k < seen.len() && seen[k].0 == item;
                let all = ns + items.skip(j);
                assert(all[k] == item && all[ns.len() as int] == item);
            },
            None => {
                let s2 = seen.push((item, whence));
                assert(names(s2) =~= ns.push(item));
                assert(no_repeats(names(s2))) by {
                    assert forall|a: int, b: int|
                        0 <= a < b < names(s2).len() implies names(s2)[a] != names(s2)[b] by {
                        if b == ns.len() {
                            assert(seen[a].0 == names(s2)[a]);
                        }
                    }
                }
                lemma_record_items(s2, errs, items, whence, j + 1);
                if no_repeats(ns + items.skip(j)) {
                } else {
                    assert(!no_repeats(names(s2) + items.skip(j + 1)));
                }
            },
        }
    }
}

/// The group pass adds no error exactly when every group is well formed and
/// no item repeats; a clean pass records every item.
proof fn lemma_group_pass(
    groups: Seq<NavGroupModel>,
    i: int,
    seen: Seq<(Seq<char>, Seq<char>)>,
    errs: Seq<Seq<char>>,
)
    requires
        0 <= i <= groups.len(),
        no_repeats(names(seen)),
    ensures
        group_pass(groups, i, seen, errs).1.len() >= errs.len(),
        no_repeats(names(group_pass(groups, i, seen, errs).0)),
        group_pass(groups, i, seen, errs).1.len() == errs.len() <==> (groups_ok(groups, i)
            && no_repeats(names(seen) + group_items(groups, i))),
        group_pass(groups, i, seen, errs).1.len() == errs.len() ==> names(
            group_pass(groups, i, seen, errs).0,
        ) == names(seen) + group_items(groups, i),
    decreases groups.len() - i,
{
    let ns = names(seen);
    if i == groups.len() {
        assert(ns + group_items(groups, i) =~= ns);
    } else {
        let g = groups[i];
        let e1 = if g.label.len() > 0 && g.label[0] == '_' {
            errs.push(label_msg(g.label))
        } else {
            errs
        };
        let e2 = if g.items.len() == 0 {
            e1.push(empty_msg(g.label))
        } else {
            e1
        };
        lemma_record_items(seen, e2, g.items, g.label, 0);
        assert(g.items.skip(0) == g.items);
        let (s3, e3) = record_items(seen, e2, g.items, g.label, 0);
        lemma_group_pass(groups, i + 1, s3, e3);
        let rest = group_items(groups, i + 1);
        assert(ns + group_items(groups, i) =~= (ns + g.items) + rest);
        if group_pass(groups, i, seen, errs).1.len() == errs.len() {
            assert(names(s3) == ns + g.items);
            assert(groups_ok(groups, i)) by {
                assert forall|k: int| i <= k < groups.len() implies !(
                #[trigger] groups[k].label.len() > 0 && groups[k].label[0] == '_')
                    && groups[k].items.len() > 0 by {
                    if k > i {
                        assert(groups_ok(groups, i + 1));
                    }
                }
            }
        }
        if groups_ok(groups, i) && no_repeats(ns + group_items(groups, i)) {
            assert(!(groups[i].label.len() > 0 && groups[i].label[0] == '_'));
            assert(e2 == errs);
            lemma_no_repeats_prefix(ns + g.items, rest);
            assert(names(s3) == ns + g.items);
            assert(groups_ok(groups, i + 1));
        }
    }
}

/// A navigation block lints without errors exactly when every group has a
/// label not starting with `_` and at least one item, and no item is listed
/// twice across the groups and `_hidden`.
pub proof fn law_navigation_errors(nav: NavigationModel, models: Option<Seq<Seq<char>>>)
    ensures
        nav_lint(nav, models).0.len() == 0 <==> (groups_ok(nav.groups, 0) && no_repeats(
            group_items(nav.groups, 0) + nav.hidden,
        )),
{
    let empty: Seq<(Seq<char>, Seq<char>)> = seq![];
    assert(names(empty) =~= Seq::<Seq<char>>::empty());
    lemma_group_pass(nav.groups, 0, empty, seq![]);
    let (s, e) = group_pass(nav.groups, 0, empty, seq![]);
    assert(names(empty) + group_items(nav.groups, 0) =~= group_items(nav.groups, 0));
    lemma_record_items(s, e, nav.hidden, "_hidden"@, 0);
    assert(nav.hidden.skip(0) == nav.hidden);
    if groups_ok(nav.groups, 0) && no_repeats(group_items(nav.groups, 0) + nav.hidden) {
        lemma_no_repeats_prefix(group_items(nav.groups, 0), nav.hidden);
    }
}

/// Every registration found from `i` on is a bare type name.
proof fn lemma_models_are_names(code: Seq<char>, i: int)
    ensures
        forall|k: int|
            0 <= k < models_from(code, i).len() ==> type_name_ok(#[trigger] models_from(code, i)[k]),
    decreases code.len() - i,
{
    match find_from(code, marker(), i) {
        None => {},
        Some(p) => {
            let s = p + 9;
            match find_from(code, seq!['>'], s) {
                None => {},
                Some(e) => if i <= p && s <= e < code.len() {
                    lemma_models_are_names(code, e + 1);
                    let ty = trim(after_last(trim(code.subrange(s, e)), path_sep()));
                    let here: Seq<Seq<char>> = if type_name_ok(ty) {
                        seq![ty]
                    } else {
                        seq![]
                    };
                    let rest = models_from(code, e + 1);
                    assert forall|k: int| 0 <= k < (here + rest).len() implies type_name_ok(
                        #[trigger] (here + rest)[k],
                    ) by {
                        if k >= here.len() {
                            assert((here + rest)[k] == rest[k - here.len()]);
                        }
                    }
                },
            }
        },
    }
}

/// Every registered model `registered_models` reports is a bare type name:
/// non-empty, alphanumerics and `_` only (a path keeps only its last segment).
pub proof fn law_registered_models_are_names(main_rs: Seq<char>)
    ensures
        forall|k: int|
            0 <= k < registered(main_rs).len() ==> type_name_ok(#[trigger] registered(main_rs)[k]),
{
    lemma_models_are_names(strip_line_comments(main_rs), 0);
}

} // verus!

verus! {

/// The characters the entry lines of `items` add to the sidebar: per item, a
/// 229-character entry frame around the item's escaped name.
pub open spec fn entries_weight(items: Seq<Seq<char>>) -> int
    decreases items.len(),
{
    if items.len() == 0 {
        0
    } else {
        entries_weight(items.drop_last()) + 229 + escaped_label(items.last()).len()
    }
}

/// The characters the lines of `groups` add to the sidebar: per group, a
/// 44-character section frame around its escaped label, then the entry lines
/// of its items.
pub open spec fn groups_weight(groups: Seq<NavGroupModel>) -> int
    decreases groups.len(),
{
    if groups.len() == 0 {
        0
    } else {
        groups_weight(groups.drop_last()) + 44 + escaped_label(groups.last().label).len()
            + entries_weight(groups.last().items)
    }
}

/// The test by which the sidebar picks the framework entry named `item`.
pub open spec fn entry_match(item: Seq<char>) -> Seq<char> {
    "{% if entry.display_name == \""@ + escaped_label(item) + "\" %}"@
}

/// How the fixed parts of the group lines split.
proof fn lemma_sidebar_pieces()
    ensures
        "      <li class=\"rio-sidebar-section\">"@.len() + "</li>\n"@.len() == 44,
        "      {% for entry in entries %}{% if entry.display_name == \""@.len()
            + "\" %}<li><a href=\"/admin/{{ entry.admin_name }}\" class=\"rio-sidebar-link\">{{ icon(\"table\", class=\"rio-icon\") }} {{ entry.display_name }}</a></li>{% endif %}{% endfor %}\n"@.len()
            == 229,
        "      {% for entry in entries %}{% if entry.display_name == \""@ == "      {% for entry in entries %}"@
            + "{% if entry.display_name == \""@,
        "\" %}<li><a href=\"/admin/{{ entry.admin_name }}\" class=\"rio-sidebar-link\">{{ icon(\"table\", class=\"rio-icon\") }} {{ entry.display_name }}</a></li>{% endif %}{% endfor %}\n"@
            == "\" %}"@
            + "<li><a href=\"/admin/{{ entry.admin_name }}\" class=\"rio-sidebar-link\">{{ icon(\"table\", class=\"rio-icon\") }} {{ entry.display_name }}</a></li>{% endif %}{% endfor %}\n"@,
{
    reveal_strlit("      <li class=\"rio-sidebar-section\">");
    reveal_strlit("</li>\n");
    reveal_strlit("      {% for entry in entries %}{% if entry.display_name == \"");
    reveal_strlit("\" %}<li><a href=\"/admin/{{ entry.admin_name }}\" class=\"rio-sidebar-link\">{{ icon(\"table\", class=\"rio-icon\") }} {{ entry.display_name }}</a></li>{% endif %}{% endfor %}\n");
    reveal_strlit("      {% for entry in entries %}");
    reveal_strlit("{% if entry.display_name == \"");
    reveal_strlit("\" %}");
    reveal_strlit("<li><a href=\"/admin/{{ entry.admin_name }}\" class=\"rio-sidebar-link\">{{ icon(\"table\", class=\"rio-icon\") }} {{ entry.display_name }}</a></li>{% endif %}{% endfor %}\n");
    assert("      {% for entry in entries %}{% if entry.display_name == \""@ =~= "      {% for entry in entries %}"@
        + "{% if entry.display_name == \""@);
    assert("\" %}<li><a href=\"/admin/{{ entry.admin_name }}\" class=\"rio-sidebar-link\">{{ icon(\"table\", class=\"rio-icon\") }} {{ entry.display_name }}</a></li>{% endif %}{% endfor %}\n"@
        =~= "\" %}"@
        + "<li><a href=\"/admin/{{ entry.admin_name }}\" class=\"rio-sidebar-link\">{{ icon(\"table\", class=\"rio-icon\") }} {{ entry.display_name }}</a></li>{% endif %}{% endfor %}\n"@);
}

/// The entry lines of `items` are as long as their weight.
proof fn lemma_items_len(items: Seq<Seq<char>>)
    ensures
        items_html(items).len() == entries_weight(items),
    decreases items.len(),
{
    lemma_sidebar_pieces();
    if items.len() > 0 {
        lemma_items_len(items.drop_last());
    }
}

/// The group lines of `groups` are as long as their weight.
proof fn lemma_groups_len(groups: Seq<NavGroupModel>)
    ensures
        groups_html(groups).len() == groups_weight(groups),
    decreases groups.len(),
{
    lemma_sidebar_pieces();
    if groups.len() > 0 {
        lemma_groups_len(groups.drop_last());
        lemma_items_len(groups.last().items);
    }
}

/// Item `j`'s match stands in the entry lines of `items`.
proof fn lemma_items_have(items: Seq<Seq<char>>, j: int)
    requires
        0 <= j < items.len(),
    ensures
        exists|a: Seq<char>, b: Seq<char>| items_html(items) == a + entry_match(items[j]) + b,
    decreases items.len(),
{
    lemma_sidebar_pieces();
    let x = items.last();
    let head = "      {% for entry in entries %}"@;
    let m1 = "{% if entry.display_name == \""@;
    let m2 = "\" %}"@;
    let tail = "<li><a href=\"/admin/{{ entry.admin_name }}\" class=\"rio-sidebar-link\">{{ icon(\"table\", class=\"rio-icon\") }} {{ entry.display_name }}</a></li>{% endif %}{% endfor %}\n"@;
    let pre = items_html(items.drop_last());
    assert(items_html(items) == pre + (head + m1) + escaped_label(x) + (m2 + tail));
    if j == items.len() - 1 {
        let a = pre + head;
        assert(items_html(items) =~= a + entry_match(items[j]) + tail);
    } else {
        lemma_items_have(items.drop_last(), j);
        assert(items.drop_last()[j] == items[j]);
        let (a, b) = choose|a: Seq<char>, b: Seq<char>| pre == a + entry_match(items[j]) + b;
        let rest = (head + m1) + escaped_label(x) + (m2 + tail);
        assert(items_html(items) =~= a + entry_match(items[j]) + (b + rest));
    }
}

/// Item `j` of group `i` has its match in the group lines of `groups`.
proof fn lemma_groups_have(groups: Seq<NavGroupModel>, i: int, j: int)
    requires
        0 <= i < groups.len(),
        0 <= j < groups[i].items.len(),
    ensures
        exists|a: Seq<char>, b: Seq<char>| groups_html(groups) == a + entry_match(groups[i].items[j]) + b,
    decreases groups.len(),
{
    let g = groups.last();
    let pre = groups_html(groups.drop_last());
    let sec = "      <li class=\"rio-sidebar-section\">"@ + escaped_label(g.label) + "</li>\n"@;
    assert(groups_html(groups) == pre + sec + items_html(g.items));
    if i == groups.len() - 1 {
        lemma_items_have(g.items, j);
        let (a, b) = choose|a: Seq<char>, b: Seq<char>| items_html(g.items) == a + entry_match(g.items[j]) + b;
        assert(groups_html(groups) =~= (pre + sec + a) + entry_match(groups[i].items[j]) + b);
    } else {
        lemma_groups_have(groups.drop_last(), i, j);
        assert(groups.drop_last()[i] == groups[i]);
        let (a, b) = choose|a: Seq<char>, b: Seq<char>| pre == a + entry_match(groups[i].items[j]) + b;
        assert(groups_html(groups) =~= a + entry_match(groups[i].items[j]) + (b + sec + items_html(g.items)));
    }
}

/// Every declared item of every group gets its entry line, and nothing more:
/// the sidebar holds the match for item `j` of group `i`, and it is exactly as
/// much longer than the sidebar with no groups as one section frame per group
/// (around its label) and one entry frame per item (around its name) make it.
pub proof fn law_sidebar_has_one_entry_per_item(
    project: Seq<char>,
    nav: NavigationModel,
    i: int,
    j: int,
)
    requires
        0 <= i < nav.groups.len(),
        0 <= j < nav.groups[i].items.len(),
    ensures
        exists|a: Seq<char>, b: Seq<char>| sidebar_html(project, nav) == a + entry_match(
            nav.groups[i].items[j],
        ) + b,
        sidebar_html(project, nav).len() == sidebar_html(
            project,
            NavigationModel { groups: seq![], ..nav },
        ).len() + groups_weight(nav.groups),
{
    let empty = NavigationModel { groups: seq![], ..nav };
    lemma_groups_len(nav.groups);
    assert(groups_html(empty.groups) == Seq::<char>::empty());
    lemma_groups_have(nav.groups, i, j);
    let (a, b) = choose|a: Seq<char>, b: Seq<char>| groups_html(nav.groups) == a + entry_match(
        nav.groups[i].items[j],
    ) + b;
    let s = sidebar_html(project, nav);
    let p = "{# ============================================================\n # GENERATED by rustio-design — DO NOT EDIT THIS FILE.\n #\n #   rustio-admin sidebar (navigation layer)\n #   project: "@ + project + "\n #\n # Source of truth: the [navigation] section of rustio.design.toml,\n # decided in design/DESIGN_ARCHITECTURE.md (see DESIGN_REASONING).\n # Edit the spec, then run `rustio-design build`. Hand edits here are\n # reverted on the next build and flagged by `rustio-design check`.\n # ============================================================ #}\n"@ + "{% block rio_sidebar %}\n<aside class=\"rio-sidebar\" aria-label=\"Admin navigation\">\n  <nav>\n    <ul class=\"rio-sidebar-list\">\n      <li><a href=\"/admin\" class=\"rio-sidebar-link\">{{ icon(\"home\", class=\"rio-icon\") }} Home</a></li>\n      {% if entries %}\n"@;
    let q = "      {% endif %}\n      {% if identity and identity.is_admin %}\n      <li class=\"rio-sidebar-section\">Auth</li>\n      <li><a href=\"/admin/users\" class=\"rio-sidebar-link\">{{ icon(\"users\", class=\"rio-icon\") }} Users</a></li>\n      <li><a href=\"/admin/groups\" class=\"rio-sidebar-link\">{{ icon(\"users-2\", class=\"rio-icon\") }} Groups</a></li>\n      <li><a href=\"/admin/history\" class=\"rio-sidebar-link\">{{ icon(\"clock\", class=\"rio-icon\") }} History</a></li>\n      {% endif %}\n      {% if identity and identity.is_developer %}\n      <li class=\"rio-sidebar-section\">Developer</li>\n      <li><a href=\"/admin/db\" class=\"rio-sidebar-link\">{{ icon(\"database\", class=\"rio-icon\") }} Database</a></li>\n      {% endif %}\n    </ul>\n  </nav>\n</aside>\n{% endblock %}\n"@;
    assert(s == p + groups_html(nav.groups) + q);
    assert(sidebar_html(project, empty) == p + groups_html(empty.groups) + q);
    assert(s =~= (p + a) + entry_match(nav.groups[i].items[j]) + (b + q));
}

/// Item `j1`'s match comes before item `j2`'s in the entry lines of `items`.
proof fn lemma_items_in_order(items: Seq<Seq<char>>, j1: int, j2: int)
    requires
        0 <= j1 < j2 < items.len(),
    ensures
        exists|a: Seq<char>, b: Seq<char>, c: Seq<char>|
            items_html(items) == a + entry_match(items[j1]) + b + entry_match(items[j2]) + c,
    decreases items.len(),
{
    lemma_sidebar_pieces();
    let x = items.last();
    let head = "      {% for entry in entries %}"@;
    let m1 = "{% if entry.display_name == \""@;
    let m2 = "\" %}"@;
    let tail = "<li><a href=\"/admin/{{ entry.admin_name }}\" class=\"rio-sidebar-link\">{{ icon(\"table\", class=\"rio-icon\") }} {{ entry.display_name }}</a></li>{% endif %}{% endfor %}\n"@;
    let pre = items_html(items.drop_last());
    assert(items_html(items) == pre + (head + m1) + escaped_label(x) + (m2 + tail));
    assert(items.drop_last()[j1] == items[j1]);
    if j2 == items.len() - 1 {
        lemma_items_have(items.drop_last(), j1);
        let (a, b) = choose|a: Seq<char>, b: Seq<char>| pre == a + entry_match(items[j1]) + b;
        assert(items_html(items) =~= a + entry_match(items[j1]) + (b + head) + entry_match(items[j2])
            + tail);
    } else {
        lemma_items_in_order(items.drop_last(), j1, j2);
        assert(items.drop_last()[j2] == items[j2]);
        let (a, b, c) = choose|a: Seq<char>, b: Seq<char>, c: Seq<char>| pre == a + entry_match(items[j1])
            + b + entry_match(items[j2]) + c;
        let rest = (head + m1) + escaped_label(x) + (m2 + tail);
        assert(items_html(items) =~= a + entry_match(items[j1]) + b + entry_match(items[j2]) + (c
            + rest));
    }
}

/// Item `j1` of group `i1` comes before item `j2` of group `i2` in the group
/// lines when it is declared first.
proof fn lemma_groups_in_order(groups: Seq<NavGroupModel>, i1: int, j1: int, i2: int, j2: int)
    requires
        0 <= i1 <= i2 < groups.len(),
        0 <= j1 < groups[i1].items.len(),
        0 <= j2 < groups[i2].items.len(),
        i1 < i2 || j1 < j2,
    ensures
        exists|a: Seq<char>, b: Seq<char>, c: Seq<char>|
            groups_html(groups) == a + entry_match(groups[i1].items[j1]) + b + entry_match(
                groups[i2].items[j2],
            ) + c,
    decreases groups.len(),
{
    let g = groups.last();
    let pre = groups_html(groups.drop_last());
    let sec = "      <li class=\"rio-sidebar-section\">"@ + escaped_label(g.label) + "</li>\n"@;
    assert(groups_html(groups) == pre + sec + items_html(g.items));
    let e1 = entry_match(groups[i1].items[j1]);
    let e2 = entry_match(groups[i2].items[j2]);
    if i2 == groups.len() - 1 {
        if i1 == i2 {
            lemma_items_in_order(g.items, j1, j2);
            let (a, b, c) = choose|a: Seq<char>, b: Seq<char>, c: Seq<char>| items_html(g.items) == a
                + entry_match(g.items[j1]) + b + entry_match(g.items[j2]) + c;
            assert(groups_html(groups) =~= (pre + sec + a) + e1 + b + e2 + c);
        } else {
            lemma_groups_have(groups.drop_last(), i1, j1);
            assert(groups.drop_last()[i1] == groups[i1]);
            let (a, b) = choose|a: Seq<char>, b: Seq<char>| pre == a + e1 + b;
            lemma_items_have(g.items, j2);
            let (a2, c2) = choose|a2: Seq<char>, c2: Seq<char>| items_html(g.items) == a2 + entry_match(
                g.items[j2],
            ) + c2;
            assert(groups_html(groups) =~= a + e1 + (b + sec + a2) + e2 + c2);
        }
    } else {
        lemma_groups_in_order(groups.drop_last(), i1, j1, i2, j2);
        assert(groups.drop_last()[i1] == groups[i1]);
        assert(groups.drop_last()[i2] == groups[i2]);
        let (a, b, c) = choose|a: Seq<char>, b: Seq<char>, c: Seq<char>| pre == a + e1 + b + e2 + c;
        assert(groups_html(groups) =~= a + e1 + b + e2 + (c + sec + items_html(g.items)));
    }
}

/// The sidebar keeps the declared order: item `j1` of group `i1` comes before
/// item `j2` of group `i2` whenever it is declared before it (an earlier
/// group, or the same group and an earlier item).
pub proof fn law_sidebar_keeps_declared_order(
    project: Seq<char>,
    nav: NavigationModel,
    i1: int,
    j1: int,
    i2: int,
    j2: int,
)
    requires
        0 <= i1 <= i2 < nav.groups.len(),
        0 <= j1 < nav.groups[i1].items.len(),
        0 <= j2 < nav.groups[i2].items.len(),
        i1 < i2 || j1 < j2,
    ensures
        exists|a: Seq<char>, b: Seq<char>, c: Seq<char>|
            sidebar_html(project, nav) == a + entry_match(nav.groups[i1].items[j1]) + b + entry_match(
                nav.groups[i2].items[j2],
            ) + c,
{
    lemma_groups_in_order(nav.groups, i1, j1, i2, j2);
    let e1 = entry_match(nav.groups[i1].items[j1]);
    let e2 = entry_match(nav.groups[i2].items[j2]);
    let (a, b, c) = choose|a: Seq<char>, b: Seq<char>, c: Seq<char>| groups_html(nav.groups) == a + e1
        + b + e2 + c;
    let p = "{# ============================================================\n # GENERATED by rustio-design — DO NOT EDIT THIS FILE.\n #\n #   rustio-admin sidebar (navigation layer)\n #   project: "@ + project + "\n #\n # Source of truth: the [navigation] section of rustio.design.toml,\n # decided in design/DESIGN_ARCHITECTURE.md (see DESIGN_REASONING).\n # Edit the spec, then run `rustio-design build`. Hand edits here are\n # reverted on the next build and flagged by `rustio-design check`.\n # ============================================================ #}\n"@ + "{% block rio_sidebar %}\n<aside class=\"rio-sidebar\" aria-label=\"Admin navigation\">\n  <nav>\n    <ul class=\"rio-sidebar-list\">\n      <li><a href=\"/admin\" class=\"rio-sidebar-link\">{{ icon(\"home\", class=\"rio-icon\") }} Home</a></li>\n      {% if entries %}\n"@;
    let q = "      {% endif %}\n      {% if identity and identity.is_admin %}\n      <li class=\"rio-sidebar-section\">Auth</li>\n      <li><a href=\"/admin/users\" class=\"rio-sidebar-link\">{{ icon(\"users\", class=\"rio-icon\") }} Users</a></li>\n      <li><a href=\"/admin/groups\" class=\"rio-sidebar-link\">{{ icon(\"users-2\", class=\"rio-icon\") }} Groups</a></li>\n      <li><a href=\"/admin/history\" class=\"rio-sidebar-link\">{{ icon(\"clock\", class=\"rio-icon\") }} History</a></li>\n      {% endif %}\n      {% if identity and identity.is_developer %}\n      <li class=\"rio-sidebar-section\">Developer</li>\n      <li><a href=\"/admin/db\" class=\"rio-sidebar-link\">{{ icon(\"database\", class=\"rio-icon\") }} Database</a></li>\n      {% endif %}\n    </ul>\n  </nav>\n</aside>\n{% endblock %}\n"@;
    assert(sidebar_html(project, nav) == p + groups_html(nav.groups) + q);
    assert(sidebar_html(project, nav) =~= (p + a) + e1 + b + e2 + (c + q));
}

} // verus!
