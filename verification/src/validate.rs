//! The doctrine validator — the bridge's safety brain.
//!
//! It refuses to generate anything that would violate rustio-admin's design
//! contract or quietly fail:
//!
//! * **Token allowlist** — typos and invented tokens are rejected (with a "did
//!   you mean" hint) instead of silently doing nothing.
//! * **Contrast** — literal color overrides for text tokens are held to WCAG; a
//!   ratio below 3.0 is an error, 3.0–4.5 a warning. The ratio itself is
//!   floating-point math done by the caller; it arrives here as a grade.
//! * **No build step / no external fetch** — `custom_css` may not `@import`,
//!   pull a remote `url(http…)`, or inject `<script>`.
//! * **No second runtime** — the forbidden Tier-2 symbols rustio-admin's CI
//!   bans must never appear, even in a CSS comment.

use vstd::prelude::*;
use crate::allowlist::{resolution, resolve};
use crate::color::{hex_color, parse_hex};
use crate::spec::{
    custom_css_of, sec_bool, sec_str, token_overrides, RawToken, RawTokenModel, Spec,
};
use crate::text::{
    ascii_lower, ascii_lowered, chars_of, contains, contains_str, lemma_chars_deep,
    lemma_push_deep, push_str, string_of,
};

verus! {

broadcast use lemma_chars_deep;

/// The outcome of validating a spec.
pub struct Report {
    /// Fatal problems — `build` refuses to run while any exist.
    pub errors: Vec<String>,
    /// Advisories — surfaced but non-blocking.
    pub warnings: Vec<String>,
}

impl Report {
    /// True when there are no fatal errors.
    pub fn is_ok(&self) -> (r: bool)
        ensures
            r == (self.errors.len() == 0),
    {
        self.errors.len() == 0
    }
}

/// How a literal text color fares against white under WCAG, as computed by
/// the caller's contrast-ratio math; the failing grades carry the ratio
/// already written with two decimals (e.g. `"2.85"`).
pub enum ContrastGrade {
    /// Ratio of at least 4.5.
    Pass,
    /// Ratio of at least 3.0 but under 4.5.
    Borderline(String),
    /// Ratio under 3.0.
    Fail(String),
}

/// The model of a `ContrastGrade`.
pub enum GradeModel {
    /// Passes.
    Pass,
    /// Borderline, with the ratio text.
    Borderline(Seq<char>),
    /// Fails, with the ratio text.
    Fail(Seq<char>),
}

impl DeepView for ContrastGrade {
    type V = GradeModel;

    open spec fn deep_view(&self) -> GradeModel {
        match self {
            ContrastGrade::Pass => GradeModel::Pass,
            ContrastGrade::Borderline(r) => GradeModel::Borderline(r@),
            ContrastGrade::Fail(r) => GradeModel::Fail(r@),
        }
    }
}

/// The Tier-2 symbols rustio-admin's CI forbids anywhere in the repo.
pub open spec fn forbidden_symbols() -> Seq<Seq<char>> {
    seq![
        "HasSchema"@,
        "ModelSchema"@,
        "SchemaOps"@,
        "from_schema"@,
        "contract_validator"@,
        "contract_doctor"@,
        "RustioModel"@,
    ]
}

/// The error for a brand color that is not a hex color.
pub open spec fn brand_msg(c: Seq<char>) -> Seq<char> {
    "[brand].color `"@ + c + "` is not a valid #rgb / #rrggbb color"@
}

/// The warning for `derive = true` without a rustio-admin checkout.
pub open spec fn derive_msg() -> Seq<char> {
    "[brand].derive = true but no [project].rustio_admin_path is set — the WCAG-safe ramp cannot be generated; the literal brand color will be used instead"@
}

/// The error for an unreadable text color.
pub open spec fn fail_msg(t: RawTokenModel, ratio: Seq<char>) -> Seq<char> {
    "["@ + t.section + "]."@ + t.key + " = "@ + t.value + " fails contrast on white ("@ + ratio
        + ":1, need ≥ 4.5) — unreadable"@
}

/// The warning for a borderline text color.
pub open spec fn borderline_msg(t: RawTokenModel, ratio: Seq<char>) -> Seq<char> {
    "["@ + t.section + "]."@ + t.key + " = "@ + t.value + " is borderline on white ("@ + ratio
        + ":1, WCAG AA wants ≥ 4.5)"@
}

/// The error for a forbidden symbol.
pub open spec fn symbol_msg(sym: Seq<char>) -> Seq<char> {
    "[custom_css] contains forbidden Tier-2 symbol `"@ + sym + "` (rustio-admin CI bans it)"@
}

/// The brand-color errors.
pub open spec fn brand_errors(m: Seq<crate::toml_lite::SectionModel>) -> Seq<Seq<char>> {
    match sec_str(m, "brand"@, "color"@) {
        Some(c) => if hex_color(c) is None {
            seq![brand_msg(c)]
        } else {
            seq![]
        },
        None => seq![],
    }
}

/// The brand-derivation warnings.
pub open spec fn brand_warnings(m: Seq<crate::toml_lite::SectionModel>) -> Seq<Seq<char>> {
    if sec_bool(m, "brand"@, "derive"@) == Some(true) && sec_str(
        m,
        "project"@,
        "rustio_admin_path"@,
    ) is None {
        seq![derive_msg()]
    } else {
        seq![]
    }
}

/// The errors and warnings of the token overrides from `i` on, appended to
/// `errs` / `warns`: an unresolvable key is an error; a resolved text token
/// whose value is a hex color is graded by `grades[i]`.
pub open spec fn token_checks(
    toks: Seq<RawTokenModel>,
    grades: Seq<GradeModel>,
    i: int,
    errs: Seq<Seq<char>>,
    warns: Seq<Seq<char>>,
) -> (Seq<Seq<char>>, Seq<Seq<char>>)
    decreases toks.len() - i,
{
    if i < 0 || i >= toks.len() {
        (errs, warns)
    } else {
        let t = toks[i];
        match resolution(t.section, t.key) {
            Err(e) => token_checks(toks, grades, i + 1, errs.push(e), warns),
            Ok(name) => if hex_color(t.value) is Some && contains(name, "text"@) {
                match grades[i] {
                    GradeModel::Fail(r) => token_checks(
                        toks,
                        grades,
                        i + 1,
                        errs.push(fail_msg(t, r)),
                        warns,
                    ),
                    GradeModel::Borderline(r) => token_checks(
                        toks,
                        grades,
                        i + 1,
                        errs,
                        warns.push(borderline_msg(t, r)),
                    ),
                    GradeModel::Pass => token_checks(toks, grades, i + 1, errs, warns),
                }
            } else {
                token_checks(toks, grades, i + 1, errs, warns)
            },
        }
    }
}

/// The forbidden symbols from `i` on that `css` contains, as errors.
pub open spec fn symbol_errors(css: Seq<char>, i: int) -> Seq<Seq<char>>
    decreases forbidden_symbols().len() - i,
{
    if i < 0 || i >= forbidden_symbols().len() {
        seq![]
    } else if contains(css, forbidden_symbols()[i]) {
        seq![symbol_msg(forbidden_symbols()[i])] + symbol_errors(css, i + 1)
    } else {
        symbol_errors(css, i + 1)
    }
}

/// The errors of the `custom_css` escape hatch.
pub open spec fn css_errors(css: Seq<char>) -> Seq<Seq<char>> {
    let lower = ascii_lower(css);
    (if contains(lower, "@import"@) {
        seq!["[custom_css] contains `@import` — forbidden (no build step / single bundle)"@]
    } else {
        seq![]
    }) + (if contains(lower, "url(http"@) || contains(lower, "url('http"@) || contains(
        lower,
        "url(\"http"@,
    ) {
        seq!["[custom_css] references a remote `url(http…)` — assets must be local/offline"@]
    } else {
        seq![]
    }) + (if contains(lower, "<script"@) {
        seq!["[custom_css] contains `<script` — CSS only, no markup"@]
    } else {
        seq![]
    }) + symbol_errors(css, 0)
}

/// The report for a document, given the contrast grade of each token override.
pub open spec fn report_of(m: Seq<crate::toml_lite::SectionModel>, grades: Seq<GradeModel>) -> (
    Seq<Seq<char>>,
    Seq<Seq<char>>,
) {
    let (errs, warns) = token_checks(
        token_overrides(m),
        grades,
        0,
        brand_errors(m),
        brand_warnings(m),
    );
    let css = match custom_css_of(m) {
        Some(c) => css_errors(c),
        None => seq![],
    };
    (errs + css, warns)
}

/// Append a message.
fn push_msg(v: &mut Vec<String>, msg: &Vec<char>)
    ensures
        final(v).deep_view() == old(v).deep_view().push(msg@),
{
    let ghost before = *v;
    let s = string_of(msg);
    let ghost sg = s;
    v.push(s);
    proof {
        lemma_push_deep(before, *v, sg);
    }
}

/// Append a literal message.
fn push_lit(v: &mut Vec<String>, msg: &str)
    ensures
        final(v).deep_view() == old(v).deep_view().push(msg@),
{
    let m = chars_of(msg);
    push_msg(v, &m);
}

/// `[sec].key = value` followed by `mid`, the ratio and `tail`.
fn graded_msg(t: &RawToken, mid: &str, ratio: &String, tail: &str) -> (r: Vec<char>)
    ensures
        r@ == "["@ + t.section@ + "]."@ + t.key@ + " = "@ + t.value@ + mid@ + ratio@ + tail@,
{
    let mut m: Vec<char> = Vec::new();
    push_str(&mut m, "[");
    push_str(&mut m, t.section.as_str());
    push_str(&mut m, "].");
    push_str(&mut m, t.key.as_str());
    push_str(&mut m, " = ");
    push_str(&mut m, t.value.as_str());
    push_str(&mut m, mid);
    push_str(&mut m, ratio.as_str());
    push_str(&mut m, tail);
    m
}

/// Validate a spec against the rustio-admin design doctrine.
///
/// `contrast[i]` is the WCAG grade, against white, of the color written as
/// the value of the `i`-th token override (`spec.raw_tokens()[i]`); it is
/// consulted only for resolved text tokens whose value is a hex color.
pub fn validate(spec: &Spec, contrast: &Vec<ContrastGrade>) -> (r: Report)
    requires
        contrast.len() == token_overrides(spec@).len(),
    ensures
        (r.errors.deep_view(), r.warnings.deep_view()) == report_of(spec@, contrast.deep_view()),
{
    let mut errors: Vec<String> = Vec::new();
    let mut warnings: Vec<String> = Vec::new();
    assert(errors.deep_view() =~= Seq::<Seq<char>>::empty());
    assert(warnings.deep_view() =~= Seq::<Seq<char>>::empty());

    // --- brand color must be a real hex color ---
    match spec.brand_color() {
        Some(c) => {
            if parse_hex(c).is_none() {
                let mut m: Vec<char> = Vec::new();
                push_str(&mut m, "[brand].color `");
                push_str(&mut m, c);
                push_str(&mut m, "` is not a valid #rgb / #rrggbb color");
                push_msg(&mut errors, &m);
            }
        },
        None => {},
    }
    if spec.brand_derive() && spec.rustio_admin_path().is_none() {
        push_lit(
            &mut warnings,
            "[brand].derive = true but no [project].rustio_admin_path is set — the WCAG-safe ramp cannot be generated; the literal brand color will be used instead",
        );
    }
    assert(errors.deep_view() == brand_errors(spec@));
    assert(warnings.deep_view() == brand_warnings(spec@));

    // --- token overrides: resolve every key, grade literal text colors ---
    let toks = spec.raw_tokens();
    let ghost tv = toks.deep_view();
    let ghost gv = contrast.deep_view();
    let mut i: usize = 0;
    while i < toks.len()
        invariant
            i <= toks.len(),
            tv == toks.deep_view(),
            tv == token_overrides(spec@),
            gv == contrast.deep_view(),
            contrast.len() == tv.len(),
            token_checks(tv, gv, i as int, errors.deep_view(), warnings.deep_view())
                == token_checks(tv, gv, 0, brand_errors(spec@), brand_warnings(spec@)),
        decreases toks.len() - i,
    {
        let t = &toks[i];
        assert(t.deep_view() == tv[i as int]);
        match resolve(t.section.as_str(), t.key.as_str()) {
            Err(e) => {
                let ghost before = errors;
                let ghost eg = e;
                errors.push(e);
                proof {
                    lemma_push_deep(before, errors, eg);
                }
            },
            Ok(token) => {
                let tc = chars_of(token.as_str());
                if parse_hex(t.value.as_str()).is_some() && contains_str(&tc, "text") {
                    match &contrast[i] {
                        ContrastGrade::Fail(ratio) => {
                            let m = graded_msg(
                                t,
                                " fails contrast on white (",
                                ratio,
                                ":1, need ≥ 4.5) — unreadable",
                            );
                            push_msg(&mut errors, &m);
                        },
                        ContrastGrade::Borderline(ratio) => {
                            let m = graded_msg(
                                t,
                                " is borderline on white (",
                                ratio,
                                ":1, WCAG AA wants ≥ 4.5)",
                            );
                            push_msg(&mut warnings, &m);
                        },
                        ContrastGrade::Pass => {},
                    }
                }
            },
        }
        i += 1;
    }

    // --- custom_css escape hatch: keep the framework's hard rules ---
    let ghost before_css = errors.deep_view();
    match spec.custom_css() {
        Some(css) => {
            let cv = chars_of(css);
            let lower = ascii_lowered(&cv);
            if contains_str(&lower, "@import") {
                push_lit(
                    &mut errors,
                    "[custom_css] contains `@import` — forbidden (no build step / single bundle)",
                );
            }
            if contains_str(&lower, "url(http") || contains_str(&lower, "url('http")
                || contains_str(&lower, "url(\"http") {
                push_lit(
                    &mut errors,
                    "[custom_css] references a remote `url(http…)` — assets must be local/offline",
                );
            }
            if contains_str(&lower, "<script") {
                push_lit(&mut errors, "[custom_css] contains `<script` — CSS only, no markup");
            }
            let ghost mid = errors.deep_view();
            assert(mid == before_css + css_errors(cv@).take(
                css_errors(cv@).len() - symbol_errors(cv@, 0).len(),
            )) by {
                let a = css_errors(cv@);
                let n = a.len() - symbol_errors(cv@, 0).len();
                assert(a.take(n) =~= mid.skip(before_css.len() as int));
            }
            let syms = forbidden_list();
            let mut j: usize = 0;
            while j < syms.len()
                invariant
                    j <= syms@.len(),
                    syms@.len() == forbidden_symbols().len(),
                    forall|k: int| 0 <= k < syms@.len() ==> #[trigger] syms@[k]@
                        == forbidden_symbols()[k],
                    errors.deep_view() + symbol_errors(cv@, j as int) == mid + symbol_errors(
                        cv@,
                        0,
                    ),
                decreases syms@.len() - j,
            {
                if contains_str(&cv, syms[j]) {
                    let mut m: Vec<char> = Vec::new();
                    push_str(&mut m, "[custom_css] contains forbidden Tier-2 symbol `");
                    push_str(&mut m, syms[j]);
                    push_str(&mut m, "` (rustio-admin CI bans it)");
                    push_msg(&mut errors, &m);
                }
                j += 1;
            }
            assert(errors.deep_view() == before_css + css_errors(cv@));
        },
        None => {
            assert(errors.deep_view() == before_css + Seq::<Seq<char>>::empty());
        },
    }
    Report { errors, warnings }
}

/// The forbidden symbols.
fn forbidden_list() -> (v: Vec<&'static str>)
    ensures
        v@.len() == forbidden_symbols().len(),
        forall|k: int| 0 <= k < v@.len() ==> #[trigger] v@[k]@ == forbidden_symbols()[k],
{
    vec![
        "HasSchema",
        "ModelSchema",
        "SchemaOps",
        "from_schema",
        "contract_validator",
        "contract_doctor",
        "RustioModel",
    ]
}

// ───────────────────────────── laws ─────────────────────────────

/// The error token override `t`, graded `g`, raises, if any: its resolution
/// error, or the contrast failure of a resolved hex text color.
pub open spec fn token_error(t: RawTokenModel, g: GradeModel) -> Option<Seq<char>> {
    match resolution(t.section, t.key) {
        Err(e) => Some(e),
        Ok(name) => if hex_color(t.value) is Some && contains(name, "text"@) {
            match g {
                GradeModel::Fail(r) => Some(fail_msg(t, r)),
                _ => None,
            }
        } else {
            None
        },
    }
}

/// The token checks only ever append errors.
proof fn lemma_token_checks_extend(
    toks: Seq<RawTokenModel>,
    grades: Seq<GradeModel>,
    i: int,
    errs: Seq<Seq<char>>,
    warns: Seq<Seq<char>>,
)
    ensures
        errs.len() <= token_checks(toks, grades, i, errs, warns).0.len(),
        forall|k: int|
            0 <= k < errs.len() ==> #[trigger] token_checks(toks, grades, i, errs, warns).0[k]
                == errs[k],
    decreases toks.len() - i,
{
    if 0 <= i < toks.len() {
        let t = toks[i];
        match resolution(t.section, t.key) {
            Err(e) => lemma_token_checks_extend(toks, grades, i + 1, errs.push(e), warns),
            Ok(name) => if hex_color(t.value) is Some && contains(name, "text"@) {
                match grades[i] {
                    GradeModel::Fail(r) => lemma_token_checks_extend(
                        toks,
                        grades,
                        i + 1,
                        errs.push(fail_msg(t, r)),
                        warns,
                    ),
                    GradeModel::Borderline(r) => lemma_token_checks_extend(
                        toks,
                        grades,
                        i + 1,
                        errs,
                        warns.push(borderline_msg(t, r)),
                    ),
                    GradeModel::Pass => lemma_token_checks_extend(toks, grades, i + 1, errs, warns),
                }
            } else {
                lemma_token_checks_extend(toks, grades, i + 1, errs, warns);
            },
        }
    }
}

/// The error of token `k` (at or after `i`) is among the checks' errors.
proof fn lemma_token_checks_report(
    toks: Seq<RawTokenModel>,
    grades: Seq<GradeModel>,
    i: int,
    errs: Seq<Seq<char>>,
    warns: Seq<Seq<char>>,
    k: int,
    e: Seq<char>,
)
    requires
        0 <= i <= k < toks.len(),
        token_error(toks[k], grades[k]) == Some(e),
    ensures
        token_checks(toks, grades, i, errs, warns).0.contains(e),
    decreases k - i,
{
    let t = toks[i];
    if i == k {
        let pushed = errs.push(e);
        match resolution(t.section, t.key) {
            Err(_) => lemma_token_checks_extend(toks, grades, i + 1, pushed, warns),
            Ok(name) => lemma_token_checks_extend(toks, grades, i + 1, pushed, warns),
        }
        assert(token_checks(toks, grades, i + 1, pushed, warns).0[errs.len() as int] == e);
    } else {
        match resolution(t.section, t.key) {
            Err(x) => lemma_token_checks_report(toks, grades, i + 1, errs.push(x), warns, k, e),
            Ok(name) => if hex_color(t.value) is Some && contains(name, "text"@) {
                match grades[i] {
                    GradeModel::Fail(r) => lemma_token_checks_report(
                        toks,
                        grades,
                        i + 1,
                        errs.push(fail_msg(t, r)),
                        warns,
                        k,
                        e,
                    ),
                    GradeModel::Borderline(r) => lemma_token_checks_report(
                        toks,
                        grades,
                        i + 1,
                        errs,
                        warns.push(borderline_msg(t, r)),
                        k,
                        e,
                    ),
                    GradeModel::Pass => lemma_token_checks_report(
                        toks,
                        grades,
                        i + 1,
                        errs,
                        warns,
                        k,
                        e,
                    ),
                }
            } else {
                lemma_token_checks_report(toks, grades, i + 1, errs, warns, k, e);
            },
        }
    }
}

/// Typos and unreadable colors cannot slip through: every token override whose
/// key is not a rustio-admin token, and every hex text color graded as failing
/// contrast, is reported as an error (so the spec is not ok).
pub proof fn law_token_errors_are_reported(
    m: Seq<crate::toml_lite::SectionModel>,
    grades: Seq<GradeModel>,
    k: int,
)
    requires
        grades.len() == token_overrides(m).len(),
        0 <= k < token_overrides(m).len(),
    ensures
        token_error(token_overrides(m)[k], grades[k]) matches Some(e) ==> report_of(m, grades).0.contains(
            e,
        ),
{
    if let Some(e) = token_error(token_overrides(m)[k], grades[k]) {
        lemma_token_checks_report(
            token_overrides(m),
            grades,
            0,
            brand_errors(m),
            brand_warnings(m),
            k,
            e,
        );
        let errs = token_checks(token_overrides(m), grades, 0, brand_errors(m), brand_warnings(m)).0;
        let css = match custom_css_of(m) {
            Some(c) => css_errors(c),
            None => seq![],
        };
        let j = choose|j: int| 0 <= j < errs.len() && errs[j] == e;
        assert((errs + css)[j] == e);
    }
}

} // verus!

verus! {

/// The custom-CSS hard rules are enforced: whenever the spec's custom CSS,
/// lowercased, holds `@import`, a remote `url(http…)` (bare, single- or
/// double-quoted) or `<script`, the report's errors hold the matching error,
/// so the spec is not ok and `build` refuses.
pub proof fn law_css_hard_rules_are_enforced(
    m: Seq<crate::toml_lite::SectionModel>,
    grades: Seq<GradeModel>,
    css: Seq<char>,
)
    requires
        custom_css_of(m) == Some(css),
    ensures
        contains(ascii_lower(css), "@import"@) ==> report_of(m, grades).0.contains(
            "[custom_css] contains `@import` — forbidden (no build step / single bundle)"@,
        ),
        contains(ascii_lower(css), "url(http"@) || contains(ascii_lower(css), "url('http"@)
            || contains(ascii_lower(css), "url(\"http"@) ==> report_of(m, grades).0.contains(
            "[custom_css] references a remote `url(http…)` — assets must be local/offline"@,
        ),
        contains(ascii_lower(css), "<script"@) ==> report_of(m, grades).0.contains(
            "[custom_css] contains `<script` — CSS only, no markup"@,
        ),
{
    let lower = ascii_lower(css);
    let errs = token_checks(token_overrides(m), grades, 0, brand_errors(m), brand_warnings(m)).0;
    let imp: Seq<Seq<char>> = if contains(lower, "@import"@) {
        seq!["[custom_css] contains `@import` — forbidden (no build step / single bundle)"@]
    } else {
        seq![]
    };
    let remote: Seq<Seq<char>> = if contains(lower, "url(http"@) || contains(lower, "url('http"@)
        || contains(lower, "url(\"http"@) {
        seq!["[custom_css] references a remote `url(http…)` — assets must be local/offline"@]
    } else {
        seq![]
    };
    let script: Seq<Seq<char>> = if contains(lower, "<script"@) {
        seq!["[custom_css] contains `<script` — CSS only, no markup"@]
    } else {
        seq![]
    };
    let all = errs + (imp + remote + script + symbol_errors(css, 0));
    assert(report_of(m, grades).0 =~= all);
    if contains(lower, "@import"@) {
        assert(all[errs.len() as int] == imp[0]);
    }
    if contains(lower, "url(http"@) || contains(lower, "url('http"@) || contains(lower, "url(\"http"@) {
        assert(all[(errs.len() + imp.len()) as int] == remote[0]);
    }
    if contains(lower, "<script"@) {
        assert(all[(errs.len() + imp.len() + remote.len()) as int] == script[0]);
    }
}

} // verus!
