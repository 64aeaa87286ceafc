//! Assemble the whole design stack into one canonical context stream.
//!
//! `rustio-design context` emits a single document that is read **before**
//! touching the token layer. It stitches the narrative design memory (the WHY
//! and WHAT layers, the reasoning trail, the decision ledger, and the history)
//! together with the current token spec (the HOW), in the canonical order:
//!
//!   WHY  → Reasoning → WHAT → Decisions → History → HOW
//!
//! Missing artifacts render as explicit `(reserved)` placeholders rather than
//! vanishing, which keeps them *active* memory: their absence is always visible.
//! The files themselves are read by the caller and handed in as
//! [`DesignMemory`].

use vstd::prelude::*;
use crate::allowlist::{resolution, resolve};
use crate::spec::{
    custom_css_of, navigation_of, or_default, sec_bool, sec_str, token_overrides, NavGroup,
    NavGroupModel, NavigationModel, RawToken, RawTokenModel, Spec,
};
use crate::text::{
    chars_of, find, find_in, join, lemma_chars_deep, lemma_find_from, lemma_join_push, occurs_at,
    push_all, push_str, slice_copy, starts_with, starts_with_str, string_of, trim, trim_start,
    trim_start_matches, trimmed, trimmed_start, trimmed_start_matches,
};
use crate::unicode::{joined_path, path_join};

verus! {

broadcast use lemma_chars_deep;

/// The contents of the five design-memory files, as read by the caller
/// (`None` for a file that could not be read).
pub struct DesignMemory {
    /// The brief (WHY).
    pub brief: Option<String>,
    /// The reasoning trail.
    pub reasoning: Option<String>,
    /// The architecture (WHAT).
    pub architecture: Option<String>,
    /// The decision ledger.
    pub decisions: Option<String>,
    /// The history.
    pub history: Option<String>,
}

// ───────────────────────────── spec ─────────────────────────────

/// The 78-character rule line.
pub open spec fn rule_line() -> Seq<char> {
    Seq::new(78, |i: int| '=')
}

/// A section banner.
pub open spec fn banner_text(title: Seq<char>) -> Seq<char> {
    "\n"@ + rule_line() + "\n "@ + title + "\n"@ + rule_line() + "\n\n"@
}

/// The document header for `project`.
pub open spec fn header_text(project: Seq<char>) -> Seq<char> {
    "# rustio-design — canonical design context for `"@ + project + "`\n\n"@
        + "This is the single, coherent design narrative for this admin. Read it top\nto bottom BEFORE proposing or making any change to the token layer.\n\nPipeline:  Brief → Reasoning → Architecture → Spec → Generated\nDirection: reason TOP-DOWN (WHY → WHAT → HOW); generate BOTTOM-UP.\n\nRule: the WHY and WHAT layers are design memory, not generated output.\nJustify changes in DESIGN_REASONING.md first (see `/design-reason`).\n"@
}

/// The placeholder for an unauthored artifact at `path`.
pub open spec fn placeholder_text(path: Seq<char>) -> Seq<char> {
    "(reserved — `"@ + path
        + "` is not authored yet. Create it, or run `rustio-design init` to scaffold the design memory, then capture the design intent here.)\n"@
}

/// `body` without a leading `--- … ---` frontmatter block.
pub open spec fn strip_front(body: Seq<char>) -> Seq<char> {
    let t = trim_start(body);
    if starts_with(t, "---"@) {
        let rest = t.skip(3);
        match find(rest, "\n---"@) {
            Some(e) => trim_start_matches(rest.skip(e + 4), "\n"@),
            None => body,
        }
    } else {
        body
    }
}

/// One narrative layer: its banner, then the artifact (or its placeholder).
pub open spec fn layer_text(title: Seq<char>, path: Seq<char>, body: Option<Seq<char>>) -> Seq<
    char,
> {
    banner_text(title) + match body {
        Some(b) => {
            let t = trim(strip_front(b));
            if t.len() == 0 {
                placeholder_text(path)
            } else {
                t.push('\n')
            }
        },
        None => placeholder_text(path),
    }
}

/// The brand line of the token layer.
pub open spec fn brand_line(color: Option<Seq<char>>, derive: bool) -> Seq<char> {
    match color {
        Some(c) => if derive {
            "brand: "@ + c + "  (derive = true → WCAG-safe ramp via rustio-admin rio-theme)\n"@
        } else {
            "brand: "@ + c + "  (literal)\n"@
        },
        None => "brand: (none set)\n"@,
    }
}

/// One token override line.
pub open spec fn token_line(t: RawTokenModel) -> Seq<char> {
    match resolution(t.section, t.key) {
        Ok(name) => "  "@ + name + ": "@ + t.value + "\n"@,
        Err(_) => "  ["@ + t.section + "]."@ + t.key + " = "@ + t.value
            + "  (UNRESOLVED — run `rustio-design check`)\n"@,
    }
}

/// The lines of the first `n` token overrides.
pub open spec fn token_lines(ts: Seq<RawTokenModel>, n: int) -> Seq<char>
    decreases n,
{
    if n <= 0 || n > ts.len() {
        seq![]
    } else {
        token_lines(ts, n - 1) + token_line(ts[n - 1])
    }
}

/// The token-override block.
pub open spec fn tokens_block(ts: Seq<RawTokenModel>) -> Seq<char> {
    if ts.len() == 0 {
        "token overrides: (none)\n"@
    } else {
        "token overrides:\n"@ + token_lines(ts, ts.len() as int)
    }
}

/// The custom-CSS line.
pub open spec fn css_line(css: Option<Seq<char>>) -> Seq<char> {
    match css {
        Some(_) => "custom_css: present (validated escape hatch)\n"@,
        None => "custom_css: none\n"@,
    }
}

/// One navigation group line.
pub open spec fn group_line(g: NavGroupModel) -> Seq<char> {
    "  "@ + g.label + ": "@ + join(g.items, ", "@) + "\n"@
}

/// The lines of the first `n` groups.
pub open spec fn group_lines(gs: Seq<NavGroupModel>, n: int) -> Seq<char>
    decreases n,
{
    if n <= 0 || n > gs.len() {
        seq![]
    } else {
        group_lines(gs, n - 1) + group_line(gs[n - 1])
    }
}

/// The navigation block.
pub open spec fn nav_block(nav: Option<NavigationModel>) -> Seq<char> {
    match nav {
        Some(n) => "\nnavigation (compiled → "@ + n.out + "):\n"@ + group_lines(
            n.groups,
            n.groups.len() as int,
        ) + (if n.hidden.len() == 0 {
            seq![]
        } else {
            "  (hidden: "@ + join(n.hidden, ", "@) + ")\n"@
        }),
        None => "navigation: (none declared — flat model list)\n"@,
    }
}

/// The HOW layer: the current, resolved token specification.
pub open spec fn token_spec_text(m: Seq<crate::toml_lite::SectionModel>) -> Seq<char> {
    banner_text("LAYER 3 · HOW — TOKEN SPECIFICATION (rustio.design.toml)"@) + brand_line(
        sec_str(m, "brand"@, "color"@),
        sec_bool(m, "brand"@, "derive"@) == Some(true),
    ) + tokens_block(token_overrides(m)) + css_line(custom_css_of(m)) + nav_block(
        navigation_of(m),
    )
}

/// The closing banner.
pub open spec fn footer_text() -> Seq<char> {
    "\n"@ + rule_line()
        + "\n end of design context — reason from the above, then justify any token\n change in DESIGN_REASONING.md before editing rustio.design.toml.\n"@
        + rule_line() + "\n"@
}

/// The view of a read file.
pub open spec fn body_view(b: Option<String>) -> Option<Seq<char>> {
    match b {
        Some(s) => Some(s@),
        None => None,
    }
}

/// The whole design context for spec `m`, rooted at `root`, with the memory
/// files as read.
pub open spec fn context_text(
    m: Seq<crate::toml_lite::SectionModel>,
    root: Seq<char>,
    mem: DesignMemory,
) -> Seq<char> {
    let rel = |key: Seq<char>, default: Seq<char>|
        joined_path(root, or_default(sec_str(m, "design"@, key), default));
    header_text(or_default(sec_str(m, "project"@, "name"@), "rustio-admin"@)) + layer_text(
        "LAYER 1 · WHY — DESIGN BRIEF"@,
        rel("brief"@, "design/DESIGN_BRIEF.md"@),
        body_view(mem.brief),
    ) + layer_text(
        "REASONING — DESIGN REASONING (ADR trail)"@,
        rel("reasoning"@, "design/DESIGN_REASONING.md"@),
        body_view(mem.reasoning),
    ) + layer_text(
        "LAYER 2 · WHAT — DESIGN ARCHITECTURE"@,
        rel("architecture"@, "design/DESIGN_ARCHITECTURE.md"@),
        body_view(mem.architecture),
    ) + layer_text(
        "DESIGN DECISIONS (ledger)"@,
        rel("decisions"@, "design/DESIGN_DECISIONS.md"@),
        body_view(mem.decisions),
    ) + layer_text(
        "DESIGN HISTORY (evolution)"@,
        rel("history"@, "design/DESIGN_HISTORY.md"@),
        body_view(mem.history),
    ) + token_spec_text(m) + footer_text()
}

// ───────────────────────────── executable ─────────────────────────────

/// Build the canonical design context for `spec`, whose directory is `root`,
/// from the design-memory files as read from that directory.
pub fn build_context(spec: &Spec, root: &str, memory: &DesignMemory) -> (r: String)
    ensures
        r@ == context_text(spec@, root@, *memory),
{
    let mut out: Vec<char> = Vec::new();
    let h = header(spec);
    push_all(&mut out, &h);
    let p = spec.design_paths();
    let brief = path_join(root, p.brief.as_str());
    let l = layer("LAYER 1 · WHY — DESIGN BRIEF", brief.as_str(), &memory.brief);
    push_str(&mut out, l.as_str());
    let reasoning = path_join(root, p.reasoning.as_str());
    let l = layer(
        "REASONING — DESIGN REASONING (ADR trail)",
        reasoning.as_str(),
        &memory.reasoning,
    );
    push_str(&mut out, l.as_str());
    let architecture = path_join(root, p.architecture.as_str());
    let l = layer(
        "LAYER 2 · WHAT — DESIGN ARCHITECTURE",
        architecture.as_str(),
        &memory.architecture,
    );
    push_str(&mut out, l.as_str());
    let decisions = path_join(root, p.decisions.as_str());
    let l = layer("DESIGN DECISIONS (ledger)", decisions.as_str(), &memory.decisions);
    push_str(&mut out, l.as_str());
    let history = path_join(root, p.history.as_str());
    let l = layer("DESIGN HISTORY (evolution)", history.as_str(), &memory.history);
    push_str(&mut out, l.as_str());
    let t = token_spec(spec);
    push_all(&mut out, &t);
    let f = footer();
    push_all(&mut out, &f);
    string_of(&out)
}

/// The rule line.
fn rule() -> (r: Vec<char>)
    ensures
        r@ == rule_line(),
{
    let mut r: Vec<char> = Vec::new();
    let mut i: usize = 0;
    while i < 78
        invariant
            i <= 78,
            r@ == Seq::new(i as nat, |k: int| '='),
        decreases 78 - i,
    {
        r.push('=');
        i += 1;
        assert(r@ =~= Seq::new(i as nat, |k: int| '='));
    }
    r
}

/// A section banner.
fn banner(title: &str) -> (r: Vec<char>)
    ensures
        r@ == banner_text(title@),
{
    let bar = rule();
    let mut s: Vec<char> = Vec::new();
    push_str(&mut s, "\n");
    push_all(&mut s, &bar);
    push_str(&mut s, "\n ");
    push_str(&mut s, title);
    push_str(&mut s, "\n");
    push_all(&mut s, &bar);
    push_str(&mut s, "\n\n");
    s
}

/// The document header.
fn header(spec: &Spec) -> (r: Vec<char>)
    ensures
        r@ == header_text(or_default(sec_str(spec@, "project"@, "name"@), "rustio-admin"@)),
{
    let mut s: Vec<char> = Vec::new();
    push_str(&mut s, "# rustio-design — canonical design context for `");
    push_str(&mut s, spec.project_name());
    push_str(&mut s, "`\n\n");
    push_str(
        &mut s,
        "This is the single, coherent design narrative for this admin. Read it top\nto bottom BEFORE proposing or making any change to the token layer.\n\nPipeline:  Brief → Reasoning → Architecture → Spec → Generated\nDirection: reason TOP-DOWN (WHY → WHAT → HOW); generate BOTTOM-UP.\n\nRule: the WHY and WHAT layers are design memory, not generated output.\nJustify changes in DESIGN_REASONING.md first (see `/design-reason`).\n",
    );
    s
}

/// Render one narrative layer from its file contents, or a `(reserved)`
/// placeholder naming `path`.
pub fn layer(title: &str, path: &str, body: &Option<String>) -> (r: String)
    ensures
        r@ == layer_text(title@, path@, body_view(*body)),
{
    let mut s = banner(title);
    match body {
        Some(b) => {
            let bc = chars_of(b.as_str());
            let stripped = strip_frontmatter(&bc);
            let t = trimmed(&stripped);
            if t.len() == 0 {
                let ph = placeholder(path);
                push_all(&mut s, &ph);
            } else {
                push_all(&mut s, &t);
                s.push('\n');
            }
        },
        None => {
            let ph = placeholder(path);
            push_all(&mut s, &ph);
        },
    }
    string_of(&s)
}

/// The placeholder for an unauthored artifact.
fn placeholder(path: &str) -> (r: Vec<char>)
    ensures
        r@ == placeholder_text(path@),
{
    let mut s: Vec<char> = Vec::new();
    push_str(&mut s, "(reserved — `");
    push_str(&mut s, path);
    push_str(
        &mut s,
        "` is not authored yet. Create it, or run `rustio-design init` to scaffold the design memory, then capture the design intent here.)\n",
    );
    s
}

/// Strip a leading YAML-style `--- … ---` frontmatter block for the context view
/// (the metadata is for tooling, not for the reasoning narrative).
fn strip_frontmatter(body: &[char]) -> (r: Vec<char>)
    ensures
        r@ == strip_front(body@),
{
    let t = trimmed_start(body);
    if starts_with_str(&t, "---") {
        proof {
            reveal_strlit("---");
        }
        let rest = slice_copy(&t, 3, t.len());
        let close = chars_of("\n---");
        match find_in(&rest, &close) {
            Some(e) => {
                proof {
                    lemma_find_from(rest@, close@, 0);
                    reveal_strlit("\n---");
                }
                assert(occurs_at(rest@, close@, e as int));
                let n = close.len();
                assert(e + n <= rest.len());
                let after = slice_copy(&rest, e + n, rest.len());
                let nl = chars_of("\n");
                proof {
                    reveal_strlit("\n");
                }
                let r = trimmed_start_matches(&after, &nl);
                assert(rest@ == t@.skip(3));
                assert(after@ == rest@.skip(e + 4));
                return r;
            },
            None => {},
        }
    }
    slice_copy(body, 0, body.len())
}

/// `parts` joined with `", "`.
fn join_comma(parts: &Vec<String>) -> (r: Vec<char>)
    ensures
        r@ == join(parts.deep_view(), ", "@),
{
    let ghost pv = parts.deep_view();
    let mut out: Vec<char> = Vec::new();
    let mut i: usize = 0;
    while i < parts.len()
        invariant
            i <= parts.len(),
            pv == parts.deep_view(),
            out@ == join(pv.take(i as int), ", "@),
        decreases parts.len() - i,
    {
        if i > 0 {
            push_str(&mut out, ", ");
        }
        let ghost before = out@;
        push_str(&mut out, parts[i].as_str());
        proof {
            lemma_join_push(pv.take(i as int), ", "@, pv[i as int]);
            assert(pv.take(i + 1) == pv.take(i as int).push(pv[i as int]));
        }
        i += 1;
    }
    assert(pv.take(parts.len() as int) == pv);
    out
}

/// One navigation group line.
fn group_text(g: &NavGroup) -> (r: Vec<char>)
    ensures
        r@ == group_line(g.deep_view()),
{
    let mut s: Vec<char> = Vec::new();
    push_str(&mut s, "  ");
    push_str(&mut s, g.label.as_str());
    push_str(&mut s, ": ");
    let items = join_comma(&g.items);
    push_all(&mut s, &items);
    push_str(&mut s, "\n");
    s
}

/// Render the HOW layer: the current, resolved token specification.
fn token_spec(spec: &Spec) -> (r: Vec<char>)
    ensures
        r@ == token_spec_text(spec@),
{
    let mut s = banner("LAYER 3 · HOW — TOKEN SPECIFICATION (rustio.design.toml)");
    let b = brand_text(spec);
    push_all(&mut s, &b);
    let t = tokens_text(spec);
    push_all(&mut s, &t);
    match spec.custom_css() {
        Some(_) => push_str(&mut s, "custom_css: present (validated escape hatch)\n"),
        None => push_str(&mut s, "custom_css: none\n"),
    }
    // Navigation (WHAT compiled to a sidebar override) — shown here as the
    // concrete projection of the architecture's navigation decision.
    let n = nav_text(spec);
    push_all(&mut s, &n);
    s
}

/// The brand line.
fn brand_text(spec: &Spec) -> (r: Vec<char>)
    ensures
        r@ == brand_line(
            sec_str(spec@, "brand"@, "color"@),
            sec_bool(spec@, "brand"@, "derive"@) == Some(true),
        ),
{
    let mut s: Vec<char> = Vec::new();
    match spec.brand_color() {
        Some(c) => {
            if spec.brand_derive() {
                push_str(&mut s, "brand: ");
                push_str(&mut s, c);
                push_str(
                    &mut s,
                    "  (derive = true → WCAG-safe ramp via rustio-admin rio-theme)\n",
                );
            } else {
                push_str(&mut s, "brand: ");
                push_str(&mut s, c);
                push_str(&mut s, "  (literal)\n");
            }
        },
        None => push_str(&mut s, "brand: (none set)\n"),
    }
    s
}

/// One token override line.
fn token_text(t: &RawToken) -> (r: Vec<char>)
    ensures
        r@ == token_line(t.deep_view()),
{
    let mut s: Vec<char> = Vec::new();
    let res = resolve(t.section.as_str(), t.key.as_str());
    match res {
        Ok(name) => {
            push_str(&mut s, "  ");
            push_str(&mut s, name.as_str());
            push_str(&mut s, ": ");
            push_str(&mut s, t.value.as_str());
            push_str(&mut s, "\n");
        },
        Err(_) => {
            push_str(&mut s, "  [");
            push_str(&mut s, t.section.as_str());
            push_str(&mut s, "].");
            push_str(&mut s, t.key.as_str());
            push_str(&mut s, " = ");
            push_str(&mut s, t.value.as_str());
            push_str(&mut s, "  (UNRESOLVED — run `rustio-design check`)\n");
        },
    }
    s
}

/// The token-override block.
fn tokens_text(spec: &Spec) -> (r: Vec<char>)
    ensures
        r@ == tokens_block(token_overrides(spec@)),
{
    let mut s: Vec<char> = Vec::new();
    let tokens = spec.raw_tokens();
    let ghost tv = tokens.deep_view();
    if tokens.len() == 0 {
        push_str(&mut s, "token overrides: (none)\n");
    } else {
        push_str(&mut s, "token overrides:\n");
        let ghost s2 = s@;
        let mut i: usize = 0;
        while i < tokens.len()
            invariant
                i <= tokens.len(),
                tv == tokens.deep_view(),
                s@ == s2 + token_lines(tv, i as int),
            decreases tokens.len() - i,
        {
            assert(tokens[i as int].deep_view() == tv[i as int]);
            let line = token_text(&tokens[i]);
            push_all(&mut s, &line);
            i += 1;
        }
    }
    s
}

/// The navigation block.
fn nav_text(spec: &Spec) -> (r: Vec<char>)
    ensures
        r@ == nav_block(navigation_of(spec@)),
{
    let mut s: Vec<char> = Vec::new();
    match spec.navigation() {
        Some(nav) => {
            let ghost nv = nav.deep_view();
            push_str(&mut s, "\nnavigation (compiled → ");
            push_str(&mut s, nav.out.as_str());
            push_str(&mut s, "):\n");
            let ghost s5 = s@;
            let mut g: usize = 0;
            while g < nav.groups.len()
                invariant
                    g <= nav.groups.len(),
                    nv == nav.deep_view(),
                    s@ == s5 + group_lines(nv.groups, g as int),
                decreases nav.groups.len() - g,
            {
                assert(nav.groups[g as int].deep_view() == nv.groups[g as int]);
                let line = group_text(&nav.groups[g]);
                push_all(&mut s, &line);
                g += 1;
            }
            if nav.hidden.len() > 0 {
                push_str(&mut s, "  (hidden: ");
                let h = join_comma(&nav.hidden);
                push_all(&mut s, &h);
                push_str(&mut s, ")\n");
            }
        },
        None => push_str(&mut s, "navigation: (none declared — flat model list)\n"),
    }
    s
}

/// The closing banner.
fn footer() -> (r: Vec<char>)
    ensures
        r@ == footer_text(),
{
    let bar = rule();
    let mut s: Vec<char> = Vec::new();
    push_str(&mut s, "\n");
    push_all(&mut s, &bar);
    push_str(
        &mut s,
        "\n end of design context — reason from the above, then justify any token\n change in DESIGN_REASONING.md before editing rustio.design.toml.\n",
    );
    push_all(&mut s, &bar);
    push_str(&mut s, "\n");
    s
}

// ───────────────────────────── laws ─────────────────────────────

/// An artifact that is absent, or holds nothing beyond whitespace and
/// frontmatter, never vanishes from the context: its layer shows the banner
/// and the `(reserved)` placeholder naming its path. An authored one shows its
/// trimmed text instead.
pub proof fn law_absent_memory_stays_visible(
    title: Seq<char>,
    path: Seq<char>,
    body: Option<Seq<char>>,
)
    ensures
        (body is None || trim(strip_front(body->0)).len() == 0) ==> layer_text(title, path, body)
            == banner_text(title) + placeholder_text(path),
        (body is Some && trim(strip_front(body->0)).len() > 0) ==> layer_text(title, path, body)
            == banner_text(title) + trim(strip_front(body->0)).push('\n'),
{
}

} // verus!
