//! A typed, convenient view over the parsed `rustio.design.toml` document.
//!
//! Every accessor here corresponds to something the generator actually emits, so
//! there are no dead settings: if a key exists in the spec, it has an effect.

use vstd::prelude::*;
use crate::text::{
    chars_of, ends_with, eq, eq_str, lemma_chars_deep, lemma_push_deep, lemma_rfind_upto, push_all,
    push_str, rfind, rfind_in, slice_copy, split, split_on, starts_with,
    string_of, trim, trimmed,
};
use crate::toml_lite::{
    find_section, lookup_bool, lookup_str, Document, Section, SectionModel, Value, ValueModel,
    opt_str,
};

verus! {

broadcast use lemma_chars_deep;

/// The design spec — the single source of truth for a rustio-admin look.
pub struct Spec {
    doc: Document,
}

impl View for Spec {
    type V = Seq<SectionModel>;

    closed spec fn view(&self) -> Seq<SectionModel> {
        self.doc@
    }
}

/// Resolved paths to the narrative design-memory artifacts (relative to the
/// directory that holds the spec). Defaults match what `init` scaffolds.
pub struct DesignPaths {
    /// WHY — business context, design intent, visual direction.
    pub brief: String,
    /// The ADR-style reasoning trail authored before any spec change.
    pub reasoning: String,
    /// WHAT — information architecture, navigation, UX hierarchy.
    pub architecture: String,
    /// The durable ledger of accepted decisions.
    pub decisions: String,
    /// The human-readable evolution of the design.
    pub history: String,
}

/// One sidebar group: a label and its ordered member items (by display name).
pub struct NavGroup {
    /// The section label shown in the sidebar (e.g. "Catalogue").
    pub label: String,
    /// Member items, in declared order, matched against `entry.display_name`.
    pub items: Vec<String>,
}

/// The model of a `NavGroup`.
pub struct NavGroupModel {
    /// The label.
    pub label: Seq<char>,
    /// The items.
    pub items: Seq<Seq<char>>,
}

impl DeepView for NavGroup {
    type V = NavGroupModel;

    open spec fn deep_view(&self) -> NavGroupModel {
        NavGroupModel { label: self.label@, items: self.items.deep_view() }
    }
}

/// The navigation layer parsed from `[navigation]`. Reserved keys: `_hidden`
/// (omitted from the sidebar) and `_out` (the generated template's path,
/// relative to the spec root).
pub struct Navigation {
    /// Ordered groups.
    pub groups: Vec<NavGroup>,
    /// Items deliberately kept out of the sidebar (reached via their parent).
    pub hidden: Vec<String>,
    /// Output path for the generated `_sidebar.html`, relative to the spec root.
    pub out: String,
}

/// The model of a `Navigation`.
pub struct NavigationModel {
    /// The groups.
    pub groups: Seq<NavGroupModel>,
    /// The hidden items.
    pub hidden: Seq<Seq<char>>,
    /// The output path.
    pub out: Seq<char>,
}

impl DeepView for Navigation {
    type V = NavigationModel;

    open spec fn deep_view(&self) -> NavigationModel {
        NavigationModel {
            groups: self.groups.deep_view(),
            hidden: self.hidden.deep_view(),
            out: self.out@,
        }
    }
}

/// One cell of a record view: one or more composed members under a lead field,
/// carrying an importance role and a compose style.
pub struct ViewCell {
    /// Member field names; the first is the lead. More than one ⇒ composed.
    pub members: Vec<String>,
    /// Importance role: `primary` | `secondary` | `detail` | `hidden`.
    pub role: String,
    /// Compose style: `stacked` | `inline` | `badge`.
    pub style: String,
}

/// The model of a `ViewCell`.
pub struct ViewCellModel {
    /// The members.
    pub members: Seq<Seq<char>>,
    /// The role.
    pub role: Seq<char>,
    /// The style.
    pub style: Seq<char>,
}

impl DeepView for ViewCell {
    type V = ViewCellModel;

    open spec fn deep_view(&self) -> ViewCellModel {
        ViewCellModel { members: self.members.deep_view(), role: self.role@, style: self.style@ }
    }
}

/// The record-layout for one table, parsed from `[views.<table>]`. Roles are
/// authored as comma-separated cell lists; a cell may compose members with `+`
/// and hint a style in parens, e.g.
/// `secondary = "customer + phone (inline), status (badge)"`.
pub struct TableView {
    /// Table name (the suffix after `views.` in the section header).
    pub table: String,
    /// Default view mode: `list` | `cards` | `gallery`.
    pub mode: String,
    /// Cells in declared order, each tagged with its role.
    pub cells: Vec<ViewCell>,
    /// Optional model type name, used to resolve the table's columns.
    pub model: Option<String>,
    /// Optional source file holding the model struct (defaults to `src/main.rs`).
    pub source: Option<String>,
    /// Output path for the generated `list.html` override (`_out`), relative to
    /// the spec root. Defaults under `generated/`.
    pub out: String,
    /// Unrecognised keys in the section (surfaced as warnings by `views::lint`).
    pub unknown_keys: Vec<String>,
}

/// The model of a `TableView`.
pub struct TableViewModel {
    /// The table.
    pub table: Seq<char>,
    /// The default mode.
    pub mode: Seq<char>,
    /// The cells.
    pub cells: Seq<ViewCellModel>,
    /// The model type name.
    pub model: Option<Seq<char>>,
    /// The model source file.
    pub source: Option<Seq<char>>,
    /// The output path.
    pub out: Seq<char>,
    /// The unrecognised keys.
    pub unknown_keys: Seq<Seq<char>>,
}

impl DeepView for TableView {
    type V = TableViewModel;

    open spec fn deep_view(&self) -> TableViewModel {
        TableViewModel {
            table: self.table@,
            mode: self.mode@,
            cells: self.cells.deep_view(),
            model: self.model.deep_view(),
            source: self.source.deep_view(),
            out: self.out@,
            unknown_keys: self.unknown_keys.deep_view(),
        }
    }
}

/// One token override pulled from the spec, before resolution.
pub struct RawToken {
    /// The originating section (`colors` / `spacing` / `radius` / `typography`).
    pub section: String,
    /// The key as written in the spec.
    pub key: String,
    /// The literal value (e.g. `#2563eb`, `12px`, `'Inter', sans-serif`).
    pub value: String,
}

/// The model of a `RawToken`.
pub struct RawTokenModel {
    /// The section.
    pub section: Seq<char>,
    /// The key.
    pub key: Seq<char>,
    /// The value.
    pub value: Seq<char>,
}

impl DeepView for RawToken {
    type V = RawTokenModel;

    open spec fn deep_view(&self) -> RawTokenModel {
        RawTokenModel { section: self.section@, key: self.key@, value: self.value@ }
    }
}

// ───────────────────────────── spec vocabulary ─────────────────────────────

/// The string under `[sec].key`, if the section and a string entry exist.
pub open spec fn sec_str(m: Seq<SectionModel>, sec: Seq<char>, key: Seq<char>) -> Option<Seq<char>> {
    match find_section(m, sec) {
        Some(s) => lookup_str(s.entries, key),
        None => None,
    }
}

/// The boolean under `[sec].key`, if the section and a boolean entry exist.
pub open spec fn sec_bool(m: Seq<SectionModel>, sec: Seq<char>, key: Seq<char>) -> Option<bool> {
    match find_section(m, sec) {
        Some(s) => lookup_bool(s.entries, key),
        None => None,
    }
}

/// `o`, or `d` when absent.
pub open spec fn or_default(o: Option<Seq<char>>, d: Seq<char>) -> Seq<char> {
    match o {
        Some(v) => v,
        None => d,
    }
}

/// The trimmed, non-empty pieces of `parts`, in order.
pub open spec fn items_of(parts: Seq<Seq<char>>) -> Seq<Seq<char>>
    decreases parts.len(),
{
    if parts.len() == 0 {
        seq![]
    } else {
        let t = trim(parts[0]);
        if t.len() > 0 {
            seq![t] + items_of(parts.skip(1))
        } else {
            items_of(parts.skip(1))
        }
    }
}

/// A comma-separated item list, trimmed, without empties.
pub open spec fn split_items_model(s: Seq<char>) -> Seq<Seq<char>> {
    items_of(split(s, ','))
}

/// A style hint clamped to `inline` / `badge` / `stacked`.
pub open spec fn normalized_style(style: Seq<char>) -> Seq<char> {
    if style == "inline"@ || style == "badge"@ || style == "stacked"@ {
        style
    } else {
        "stacked"@
    }
}

/// One comma-separated piece of a role list as a cell: `a + b (style)`.
pub open spec fn cell_of(raw: Seq<char>) -> Option<(Seq<Seq<char>>, Seq<char>)> {
    let r = trim(raw);
    if r.len() == 0 {
        None
    } else {
        let styled = rfind(r, seq!['(']) is Some && ends_with(r, seq![')']);
        let body = if styled {
            trim(r.take(rfind(r, seq!['('])->0))
        } else {
            r
        };
        let style = if styled {
            r.subrange(rfind(r, seq!['('])->0 + 1, r.len() - 1)
        } else {
            "stacked"@
        };
        let members = items_of(split(body, '+'));
        if members.len() == 0 {
            None
        } else {
            Some((members, normalized_style(trim(style))))
        }
    }
}

/// The cells of the pieces `parts`, in order.
pub open spec fn cells_of(parts: Seq<Seq<char>>) -> Seq<(Seq<Seq<char>>, Seq<char>)>
    decreases parts.len(),
{
    if parts.len() == 0 {
        seq![]
    } else {
        match cell_of(parts[0]) {
            Some(c) => seq![c] + cells_of(parts.skip(1)),
            None => cells_of(parts.skip(1)),
        }
    }
}

/// The cells of a role's value.
pub open spec fn parse_cells_model(value: Seq<char>) -> Seq<(Seq<Seq<char>>, Seq<char>)> {
    cells_of(split(value, ','))
}

/// The string-valued entries of one token section, in source order.
pub open spec fn str_entries(sec: Seq<char>, es: Seq<(Seq<char>, ValueModel)>) -> Seq<RawTokenModel>
    decreases es.len(),
{
    if es.len() == 0 {
        seq![]
    } else {
        match es[0].1 {
            ValueModel::Str(v) => seq![RawTokenModel { section: sec, key: es[0].0, value: v }]
                + str_entries(sec, es.skip(1)),
            ValueModel::Bool(_) => str_entries(sec, es.skip(1)),
        }
    }
}

/// The token overrides of every section named `sec` among the first `n`
/// sections, in source order.
pub open spec fn tokens_upto(m: Seq<SectionModel>, sec: Seq<char>, n: int) -> Seq<RawTokenModel>
    decreases n,
{
    if n <= 0 || n > m.len() {
        seq![]
    } else {
        tokens_upto(m, sec, n - 1) + (if m[n - 1].name == sec {
            str_entries(sec, m[n - 1].entries)
        } else {
            seq![]
        })
    }
}

/// The token overrides of every section named `sec` (a repeated section adds
/// its entries after those of the earlier ones).
pub open spec fn section_tokens(m: Seq<SectionModel>, sec: Seq<char>) -> Seq<RawTokenModel> {
    tokens_upto(m, sec, m.len() as int)
}

/// The token overrides of the four token sections, in this section order and
/// in source order within each.
pub open spec fn token_overrides(m: Seq<SectionModel>) -> Seq<RawTokenModel> {
    section_tokens(m, "colors"@) + section_tokens(m, "spacing"@) + section_tokens(m, "radius"@)
        + section_tokens(m, "typography"@)
}

/// The default sidebar output path.
pub open spec fn default_nav_out() -> Seq<char> {
    "generated/templates/admin/_sidebar.html"@
}

/// The navigation entries from `i` on, folded into (groups, hidden, out): a
/// later `_hidden` or `_out` replaces an earlier one; every other string
/// entry is a group.
pub open spec fn nav_fold(
    es: Seq<(Seq<char>, ValueModel)>,
    i: int,
    groups: Seq<NavGroupModel>,
    hidden: Seq<Seq<char>>,
    out: Seq<char>,
) -> (Seq<NavGroupModel>, Seq<Seq<char>>, Seq<char>)
    decreases es.len() - i,
{
    if i < 0 || i >= es.len() {
        (groups, hidden, out)
    } else {
        match es[i].1 {
            ValueModel::Bool(_) => nav_fold(es, i + 1, groups, hidden, out),
            ValueModel::Str(v) => if es[i].0 == "_hidden"@ {
                nav_fold(es, i + 1, groups, split_items_model(v), out)
            } else if es[i].0 == "_out"@ {
                nav_fold(es, i + 1, groups, hidden, v)
            } else {
                nav_fold(
                    es,
                    i + 1,
                    groups.push(NavGroupModel { label: es[i].0, items: split_items_model(v) }),
                    hidden,
                    out,
                )
            },
        }
    }
}

/// The navigation layer of a document: `None` when `[navigation]` is absent
/// or declares no group.
pub open spec fn navigation_of(m: Seq<SectionModel>) -> Option<NavigationModel> {
    match find_section(m, "navigation"@) {
        None => None,
        Some(s) => {
            let (g, h, o) = nav_fold(s.entries, 0, seq![], seq![], default_nav_out());
            if g.len() == 0 {
                None
            } else {
                Some(NavigationModel { groups: g, hidden: h, out: o })
            }
        },
    }
}

/// The prefix of a view section's name.
pub open spec fn views_prefix() -> Seq<char> {
    seq!['v', 'i', 'e', 'w', 's', '.']
}

/// The four role keys.
pub open spec fn is_role(k: Seq<char>) -> bool {
    k == "primary"@ || k == "secondary"@ || k == "detail"@ || k == "hidden"@
}

/// The cells of one role, each tagged with the role.
pub open spec fn role_cells(parts: Seq<(Seq<Seq<char>>, Seq<char>)>, role: Seq<char>) -> Seq<
    ViewCellModel,
> {
    parts.map_values(
        |c: (Seq<Seq<char>>, Seq<char>)| ViewCellModel { members: c.0, role: role, style: c.1 },
    )
}

/// The state of a view section being read.
pub struct ViewAcc {
    /// The mode.
    pub mode: Seq<char>,
    /// The cells so far.
    pub cells: Seq<ViewCellModel>,
    /// The model type name.
    pub model: Option<Seq<char>>,
    /// The source file.
    pub source: Option<Seq<char>>,
    /// The output path.
    pub out: Seq<char>,
    /// The unknown keys so far.
    pub unknown: Seq<Seq<char>>,
}

/// One string entry of a view section applied to the state.
pub open spec fn view_step(acc: ViewAcc, k: Seq<char>, v: Seq<char>) -> ViewAcc {
    if k == "mode"@ {
        ViewAcc { mode: trim(v), ..acc }
    } else if k == "model"@ {
        ViewAcc { model: Some(trim(v)), ..acc }
    } else if k == "source"@ {
        ViewAcc { source: Some(trim(v)), ..acc }
    } else if k == "_out"@ {
        ViewAcc { out: trim(v), ..acc }
    } else if is_role(k) {
        ViewAcc { cells: acc.cells + role_cells(parse_cells_model(v), k), ..acc }
    } else {
        ViewAcc { unknown: acc.unknown.push(k), ..acc }
    }
}

/// The view section's entries from `i` on applied to the state.
pub open spec fn view_fold(es: Seq<(Seq<char>, ValueModel)>, i: int, acc: ViewAcc) -> ViewAcc
    decreases es.len() - i,
{
    if i < 0 || i >= es.len() {
        acc
    } else {
        match es[i].1 {
            ValueModel::Bool(_) => view_fold(es, i + 1, acc),
            ValueModel::Str(v) => view_fold(es, i + 1, view_step(acc, es[i].0, v)),
        }
    }
}

/// The initial state for the view of `table`.
pub open spec fn view_init(table: Seq<char>) -> ViewAcc {
    ViewAcc {
        mode: "list"@,
        cells: seq![],
        model: None,
        source: None,
        out: "generated/templates/admin/"@ + table + "/list.html"@,
        unknown: seq![],
    }
}

/// The view a section declares: a `views.<table>` section with a non-empty
/// table name and at least one placed field.
pub open spec fn view_of_section(s: SectionModel) -> Option<TableViewModel> {
    if starts_with(s.name, views_prefix()) && s.name.len() > 6 {
        let table = s.name.skip(6);
        let acc = view_fold(s.entries, 0, view_init(table));
        if acc.cells.len() == 0 {
            None
        } else {
            Some(
                TableViewModel {
                    table: table,
                    mode: acc.mode,
                    cells: acc.cells,
                    model: acc.model,
                    source: acc.source,
                    out: acc.out,
                    unknown_keys: acc.unknown,
                },
            )
        }
    } else {
        None
    }
}

/// The views of the sections from `i` on, in document order.
pub open spec fn views_from(m: Seq<SectionModel>, i: int) -> Seq<TableViewModel>
    decreases m.len() - i,
{
    if i < 0 || i >= m.len() {
        seq![]
    } else {
        match view_of_section(m[i]) {
            Some(v) => seq![v] + views_from(m, i + 1),
            None => views_from(m, i + 1),
        }
    }
}

/// The record-view layer of a document.
pub open spec fn views_of(m: Seq<SectionModel>) -> Seq<TableViewModel> {
    views_from(m, 0)
}

/// The raw `[custom_css].rules`, trimmed, when non-empty.
pub open spec fn custom_css_of(m: Seq<SectionModel>) -> Option<Seq<char>> {
    match sec_str(m, "custom_css"@, "rules"@) {
        Some(r) => if trim(r).len() > 0 {
            Some(trim(r))
        } else {
            None
        },
        None => None,
    }
}

// ───────────────────────────── executable ─────────────────────────────

/// `[sec].key` as a string slice.
fn section_str<'a>(doc: &'a Document, sec: &str, key: &str) -> (r: Option<&'a str>)
    ensures
        opt_str(r) == sec_str(doc@, sec@, key@),
{
    match doc.section(sec) {
        Some(s) => s.str(key),
        None => None,
    }
}

/// Append the string entries of section `s`, as tokens of section `name`.
fn push_entries(name: &str, s: &Section, out: &mut Vec<RawToken>)
    ensures
        final(out).deep_view() == old(out).deep_view() + str_entries(name@, s@.entries),
{
    let ghost es = s@.entries;
    assert(es.skip(0) == es);
    let mut i: usize = 0;
    while i < s.entries.len()
        invariant
            i <= s.entries.len(),
            es == s@.entries,
            es.len() == s.entries.len(),
            out.deep_view() + str_entries(name@, es.skip(i as int)) == old(out).deep_view()
                + str_entries(name@, es),
        decreases s.entries.len() - i,
    {
        let ghost before = *out;
        assert(es.skip(i as int)[0] == es[i as int]);
        assert(es.skip(i as int).skip(1) == es.skip(i + 1));
        let e = &s.entries[i];
        match &e.1 {
            Value::Str(v) => {
                let t = RawToken { section: String::from_str(name), key: e.0.clone(), value: v.clone() };
                let ghost tg = t;
                out.push(t);
                proof {
                    lemma_push_deep(before, *out, tg);
                }
                assert(out.deep_view() == before.deep_view() + seq![tg.deep_view()]);
            },
            Value::Bool(_) => {},
        }
        i += 1;
    }
    assert(es.skip(i as int).len() == 0);
}

impl Spec {
    /// Wrap a parsed document.
    pub fn new(doc: Document) -> (s: Self)
        ensures
            s@ == doc@,
    {
        Spec { doc }
    }

    /// Human-facing project name, used in banners. Defaults to `rustio-admin`.
    pub fn project_name(&self) -> (r: &str)
        ensures
            r@ == or_default(sec_str(self@, "project"@, "name"@), "rustio-admin"@),
    {
        match section_str(&self.doc, "project", "name") {
            Some(n) => n,
            None => "rustio-admin",
        }
    }

    /// Output directory for generated artifacts. Defaults to `generated`.
    pub fn out_dir(&self) -> (r: &str)
        ensures
            r@ == or_default(sec_str(self@, "project"@, "out_dir"@), "generated"@),
    {
        match section_str(&self.doc, "project", "out_dir") {
            Some(n) => n,
            None => "generated",
        }
    }

    /// Optional path to a rustio-admin checkout (enables brand-ramp derivation).
    pub fn rustio_admin_path(&self) -> (r: Option<&str>)
        ensures
            opt_str(r) == sec_str(self@, "project"@, "rustio_admin_path"@),
    {
        section_str(&self.doc, "project", "rustio_admin_path")
    }

    /// The brand color, if set.
    pub fn brand_color(&self) -> (r: Option<&str>)
        ensures
            opt_str(r) == sec_str(self@, "brand"@, "color"@),
    {
        section_str(&self.doc, "brand", "color")
    }

    /// Whether to derive a WCAG-safe ramp via `rustio-admin theme generate`.
    pub fn brand_derive(&self) -> (r: bool)
        ensures
            r == (sec_bool(self@, "brand"@, "derive"@) == Some(true)),
    {
        match self.doc.section("brand") {
            Some(s) => match s.boolean("derive") {
                Some(b) => b,
                None => false,
            },
            None => false,
        }
    }

    /// Append the string entries of every section named `name`.
    fn push_section_tokens(&self, name: &str, out: &mut Vec<RawToken>)
        ensures
            final(out).deep_view() == old(out).deep_view() + section_tokens(self@, name@),
    {
        let ghost m = self@;
        let ghost start = out.deep_view();
        let nm = chars_of(name);
        let mut k: usize = 0;
        while k < self.doc.sections.len()
            invariant
                k <= self.doc.sections.len(),
                m == self@,
                m == self.doc.sections.deep_view(),
                nm@ == name@,
                out.deep_view() == start + tokens_upto(m, name@, k as int),
            decreases self.doc.sections.len() - k,
        {
            let sec = &self.doc.sections[k];
            assert(sec@ == m[k as int]);
            let sn = chars_of(sec.name.as_str());
            if eq(&sn, &nm) {
                push_entries(name, sec, out);
            } else {
                assert(tokens_upto(m, name@, k + 1) =~= tokens_upto(m, name@, k as int));
            }
            k += 1;
        }
    }

    /// Raw token overrides from the four token sections, in source order.
    pub fn raw_tokens(&self) -> (r: Vec<RawToken>)
        ensures
            r.deep_view() == token_overrides(self@),
    {
        let mut out: Vec<RawToken> = Vec::new();
        assert(out.deep_view() =~= Seq::<RawTokenModel>::empty());
        self.push_section_tokens("colors", &mut out);
        self.push_section_tokens("spacing", &mut out);
        self.push_section_tokens("radius", &mut out);
        self.push_section_tokens("typography", &mut out);
        out
    }

    /// `[design].key` as an owned path, or the default.
    fn design_path(&self, key: &str, default: &str) -> (r: String)
        ensures
            r@ == or_default(sec_str(self@, "design"@, key@), default@),
    {
        match section_str(&self.doc, "design", key) {
            Some(v) => String::from_str(v),
            None => String::from_str(default),
        }
    }

    /// Paths to the higher design-memory layers, from the `[design]` section
    /// (with conventional defaults when a key, or the section, is absent).
    pub fn design_paths(&self) -> (p: DesignPaths)
        ensures
            p.brief@ == or_default(
                sec_str(self@, "design"@, "brief"@),
                "design/DESIGN_BRIEF.md"@,
            ),
            p.reasoning@ == or_default(
                sec_str(self@, "design"@, "reasoning"@),
                "design/DESIGN_REASONING.md"@,
            ),
            p.architecture@ == or_default(
                sec_str(self@, "design"@, "architecture"@),
                "design/DESIGN_ARCHITECTURE.md"@,
            ),
            p.decisions@ == or_default(
                sec_str(self@, "design"@, "decisions"@),
                "design/DESIGN_DECISIONS.md"@,
            ),
            p.history@ == or_default(
                sec_str(self@, "design"@, "history"@),
                "design/DESIGN_HISTORY.md"@,
            ),
    {
        DesignPaths {
            brief: self.design_path("brief", "design/DESIGN_BRIEF.md"),
            reasoning: self.design_path("reasoning", "design/DESIGN_REASONING.md"),
            architecture: self.design_path("architecture", "design/DESIGN_ARCHITECTURE.md"),
            decisions: self.design_path("decisions", "design/DESIGN_DECISIONS.md"),
            history: self.design_path("history", "design/DESIGN_HISTORY.md"),
        }
    }

    /// The navigation layer from `[navigation]`, if declared (and non-empty).
    ///
    /// `Group = "Item, Item"` (ordered); reserved `_hidden = "Item, Item"` and
    /// `_out = "path"`. Returns `None` when the section is absent or has no groups.
    pub fn navigation(&self) -> (r: Option<Navigation>)
        ensures
            r.deep_view() == navigation_of(self@),
    {
        let s = match self.doc.section("navigation") {
            Some(s) => s,
            None => return None,
        };
        let ghost es = s@.entries;
        let mut groups: Vec<NavGroup> = Vec::new();
        let mut hidden: Vec<String> = Vec::new();
        let mut out = String::from_str("generated/templates/admin/_sidebar.html");
        assert(groups.deep_view() =~= Seq::<NavGroupModel>::empty());
        assert(hidden.deep_view() =~= Seq::<Seq<char>>::empty());
        let mut i: usize = 0;
        while i < s.entries.len()
            invariant
                i <= s.entries.len(),
                es == s@.entries,
                es.len() == s.entries.len(),
                find_section(self@, "navigation"@) == Some(s@),
                nav_fold(es, i as int, groups.deep_view(), hidden.deep_view(), out@) == nav_fold(
                    es,
                    0,
                    seq![],
                    seq![],
                    default_nav_out(),
                ),
            decreases s.entries.len() - i,
        {
            let e = &s.entries[i];
            match &e.1 {
                Value::Str(v) => {
                    let k = chars_of(e.0.as_str());
                    if eq_str(&k, "_hidden") {
                        hidden = split_items(v.as_str());
                    } else if eq_str(&k, "_out") {
                        out = v.clone();
                    } else {
                        let g = NavGroup { label: e.0.clone(), items: split_items(v.as_str()) };
                        let ghost before = groups;
                        let ghost gg = g;
                        groups.push(g);
                        proof {
                            lemma_push_deep(before, groups, gg);
                        }
                    }
                },
                Value::Bool(_) => {},
            }
            i += 1;
        }
        if groups.len() == 0 {
            return None;
        }
        Some(Navigation { groups, hidden, out })
    }

    /// Read one `views.<table>` section.
    fn view_of(s: &Section) -> (r: Option<TableView>)
        ensures
            r.deep_view() == view_of_section(s@),
    {
        let name = chars_of(s.name.as_str());
        let prefix = vec!['v', 'i', 'e', 'w', 's', '.'];
        if name.len() <= 6 || !crate::text::occurs(&name, &prefix, 0) {
            assert(!(starts_with(name@, views_prefix()) && name@.len() > 6)) by {
                if name@.len() > 6 {
                    assert(name@.subrange(0, 6) == name@.take(6));
                }
            }
            return None;
        }
        assert(name@.subrange(0, 6) == name@.take(6));
        let table = slice_copy(&name, 6, name.len());
        let ghost es = s@.entries;
        let mut mode = String::from_str("list");
        let mut cells: Vec<ViewCell> = Vec::new();
        let mut model: Option<String> = None;
        let mut source: Option<String> = None;
        let mut outv: Vec<char> = Vec::new();
        push_str(&mut outv, "generated/templates/admin/");
        push_all(&mut outv, &table);
        push_str(&mut outv, "/list.html");
        let mut out = string_of(&outv);
        let mut unknown: Vec<String> = Vec::new();
        assert(cells.deep_view() =~= Seq::<ViewCellModel>::empty());
        assert(unknown.deep_view() =~= Seq::<Seq<char>>::empty());
        let mut i: usize = 0;
        while i < s.entries.len()
            invariant
                i <= s.entries.len(),
                es == s@.entries,
                es.len() == s.entries.len(),
                table@ == name@.skip(6),
                name@ == s@.name,
                view_fold(
                    es,
                    i as int,
                    ViewAcc {
                        mode: mode@,
                        cells: cells.deep_view(),
                        model: model.deep_view(),
                        source: source.deep_view(),
                        out: out@,
                        unknown: unknown.deep_view(),
                    },
                ) == view_fold(es, 0, view_init(table@)),
            decreases s.entries.len() - i,
        {
            let e = &s.entries[i];
            match &e.1 {
                Value::Str(v) => {
                    let k = chars_of(e.0.as_str());
                    let vt = String::from_str(crate::text::trim_slice(v.as_str()));
                    if eq_str(&k, "mode") {
                        mode = vt;
                    } else if eq_str(&k, "model") {
                        model = Some(vt);
                    } else if eq_str(&k, "source") {
                        source = Some(vt);
                    } else if eq_str(&k, "_out") {
                        out = vt;
                    } else if eq_str(&k, "primary") || eq_str(&k, "secondary") || eq_str(
                        &k,
                        "detail",
                    ) || eq_str(&k, "hidden") {
                        let parsed = parse_cells(v.as_str());
                        let ghost before = cells.deep_view();
                        let mut j: usize = 0;
                        while j < parsed.len()
                            invariant
                                j <= parsed.len(),
                                k@ == e.0@,
                                cells.deep_view() == before + role_cells(
                                    parsed.deep_view(),
                                    k@,
                                ).take(j as int),
                            decreases parsed.len() - j,
                        {
                            let c = ViewCell {
                                members: clone_strings(&parsed[j].0),
                                role: e.0.clone(),
                                style: parsed[j].1.clone(),
                            };
                            let ghost cv = cells;
                            let ghost cg = c;
                            cells.push(c);
                            proof {
                                lemma_push_deep(cv, cells, cg);
                                assert(role_cells(parsed.deep_view(), k@).take(j + 1)
                                    == role_cells(parsed.deep_view(), k@).take(j as int).push(
                                    cg.deep_view(),
                                ));
                            }
                            j += 1;
                        }
                        assert(role_cells(parsed.deep_view(), k@).take(parsed.len() as int)
                            == role_cells(parsed.deep_view(), k@));
                    } else {
                        let ghost before = unknown;
                        let u = e.0.clone();
                        let ghost ug = u;
                        unknown.push(u);
                        proof {
                            lemma_push_deep(before, unknown, ug);
                        }
                    }
                },
                Value::Bool(_) => {},
            }
            i += 1;
        }
        if cells.len() == 0 {
            return None;
        }
        Some(
            TableView {
                table: string_of(&table),
                mode,
                cells,
                model,
                source,
                out,
                unknown_keys: unknown,
            },
        )
    }

    /// The record-view layer: every `[views.<table>]` section with at least one
    /// placed field, in document order.
    pub fn views(&self) -> (r: Vec<TableView>)
        ensures
            r.deep_view() == views_of(self@),
    {
        let mut out: Vec<TableView> = Vec::new();
        let ghost m = self@;
        assert(out.deep_view() =~= Seq::<TableViewModel>::empty());
        let mut i: usize = 0;
        while i < self.doc.sections.len()
            invariant
                i <= self.doc.sections.len(),
                m == self@,
                m == self.doc.sections.deep_view(),
                out.deep_view() + views_from(m, i as int) == views_of(m),
            decreases self.doc.sections.len() - i,
        {
            let ghost before = out;
            match Self::view_of(&self.doc.sections[i]) {
                Some(v) => {
                    let ghost vg = v;
                    out.push(v);
                    proof {
                        lemma_push_deep(before, out, vg);
                    }
                },
                None => {},
            }
            i += 1;
        }
        out
    }

    /// Raw CSS from the `[custom_css].rules` escape hatch, if any.
    pub fn custom_css(&self) -> (r: Option<&str>)
        ensures
            opt_str(r) == custom_css_of(self@),
    {
        match section_str(&self.doc, "custom_css", "rules") {
            Some(rules) => {
                let t = crate::text::trim_slice(rules);
                if t.unicode_len() > 0 {
                    Some(t)
                } else {
                    None
                }
            },
            None => None,
        }
    }
}

/// Copy a list of strings.
fn clone_strings(v: &Vec<String>) -> (r: Vec<String>)
    ensures
        r.deep_view() == v.deep_view(),
{
    let mut out: Vec<String> = Vec::new();
    let mut i: usize = 0;
    while i < v.len()
        invariant
            i <= v.len(),
            out.deep_view() == v.deep_view().take(i as int),
        decreases v.len() - i,
    {
        let ghost before = out;
        let c = v[i].clone();
        let ghost cg = c;
        out.push(c);
        proof {
            lemma_push_deep(before, out, cg);
            assert(v.deep_view().take(i + 1) == v.deep_view().take(i as int).push(cg@));
        }
        i += 1;
    }
    assert(v.deep_view().take(v.len() as int) == v.deep_view());
    out
}

/// The trimmed non-empty pieces, as strings.
fn items(parts: &Vec<Vec<char>>) -> (r: Vec<String>)
    ensures
        r.deep_view() == items_of(parts.deep_view()),
{
    let ghost ps = parts.deep_view();
    let mut out: Vec<String> = Vec::new();
    assert(ps.skip(0) == ps);
    assert(out.deep_view() =~= Seq::<Seq<char>>::empty());
    let mut i: usize = 0;
    while i < parts.len()
        invariant
            i <= parts.len(),
            ps == parts.deep_view(),
            ps.len() == parts.len(),
            out.deep_view() + items_of(ps.skip(i as int)) == items_of(ps),
        decreases parts.len() - i,
    {
        assert(ps.skip(i as int)[0] == ps[i as int]);
        assert(ps.skip(i as int).skip(1) == ps.skip(i + 1));
        let t = trimmed(&parts[i]);
        if t.len() > 0 {
            let ghost before = out;
            let st = string_of(&t);
            let ghost sg = st;
            out.push(st);
            proof {
                lemma_push_deep(before, out, sg);
            }
        }
        i += 1;
    }
    assert(ps.skip(i as int).len() == 0);
    out
}

/// Split a comma-separated item list, trimming and dropping empties.
pub fn split_items(s: &str) -> (r: Vec<String>)
    ensures
        r.deep_view() == split_items_model(s@),
{
    let c = chars_of(s);
    let parts = split_on(&c, ',');
    items(&parts)
}

/// Clamp a style hint to the supported set, defaulting to `stacked`.
pub fn normalize_style(style: &str) -> (r: String)
    ensures
        r@ == normalized_style(style@),
{
    let c = chars_of(style);
    if eq_str(&c, "inline") || eq_str(&c, "badge") || eq_str(&c, "stacked") {
        String::from_str(style)
    } else {
        String::from_str("stacked")
    }
}

/// One piece of a role list as a cell.
fn cell(raw: &[char]) -> (r: Option<(Vec<String>, String)>)
    ensures
        r.deep_view() == cell_of(raw@),
{
    let r = trimmed(raw);
    if r.len() == 0 {
        return None;
    }
    let open = vec!['('];
    assert(open@ == seq!['(']);
    let found = rfind_in(&r, &open);
    let closes = r[r.len() - 1] == ')';
    assert(closes == ends_with(r@, seq![')'])) by {
        let n = r.len() - 1;
        if closes {
            assert(r@.skip(n) =~= seq![')']);
        } else {
            assert(r@.skip(n)[0] == r@[n as int]);
        }
    }
    let (body, style): (Vec<char>, Vec<char>) = match found {
        Some(i) if closes => {
            proof {
                lemma_rfind_upto(r@, seq!['('], r.len() as int);
                assert(r@.subrange(i as int, i + 1) == seq!['(']);
                assert(r@.subrange(i as int, i + 1)[0] == r@[i as int]);
            }
            assert(r@[i as int] == '(');
            let head = slice_copy(&r, 0, i);
            (trimmed(&head), slice_copy(&r, i + 1, r.len() - 1))
        },
        _ => {
            let mut st: Vec<char> = Vec::new();
            push_str(&mut st, "stacked");
            (r, st)
        },
    };
    let pieces = split_on(&body, '+');
    let members = items(&pieces);
    if members.len() == 0 {
        return None;
    }
    let st = trimmed(&style);
    let sts = string_of(&st);
    Some((members, normalize_style(sts.as_str())))
}

/// Parse a role's value into `(members, style)` cells.
///
/// `"customer + phone (inline), status (badge), notes"` ⇒
/// `[(["customer","phone"], "inline"), (["status"], "badge"), (["notes"], "stacked")]`.
/// An unrecognised style falls back to `stacked`.
pub fn parse_cells(value: &str) -> (r: Vec<(Vec<String>, String)>)
    ensures
        r.deep_view() == parse_cells_model(value@),
{
    let c = chars_of(value);
    let parts = split_on(&c, ',');
    let ghost ps = parts.deep_view();
    let mut out: Vec<(Vec<String>, String)> = Vec::new();
    assert(ps.skip(0) == ps);
    assert(out.deep_view() =~= Seq::<(Seq<Seq<char>>, Seq<char>)>::empty());
    let mut i: usize = 0;
    while i < parts.len()
        invariant
            i <= parts.len(),
            ps == parts.deep_view(),
            ps.len() == parts.len(),
            ps == split(value@, ','),
            out.deep_view() + cells_of(ps.skip(i as int)) == parse_cells_model(value@),
        decreases parts.len() - i,
    {
        assert(ps.skip(i as int)[0] == ps[i as int]);
        assert(ps.skip(i as int).skip(1) == ps.skip(i + 1));
        match cell(&parts[i]) {
            Some(cl) => {
                let ghost before = out;
                let ghost cg = cl;
                out.push(cl);
                proof {
                    lemma_push_deep(before, out, cg);
                }
            },
            None => {},
        }
        i += 1;
    }
    assert(ps.skip(i as int).len() == 0);
    out
}

} // verus!

verus! {

/// Whether `sec` names one of the four token sections.
pub open spec fn is_token_section(sec: Seq<char>) -> bool {
    sec == "colors"@ || sec == "spacing"@ || sec == "radius"@ || sec == "typography"@
}

/// The `j`-th entry of a token section, when it is a string, is among that
/// section's string entries.
proof fn lemma_str_entries_has(sec: Seq<char>, es: Seq<(Seq<char>, ValueModel)>, j: int, v: Seq<char>)
    requires
        0 <= j < es.len(),
        es[j].1 == ValueModel::Str(v),
    ensures
        str_entries(sec, es).contains(RawTokenModel { section: sec, key: es[j].0, value: v }),
    decreases j,
{
    let t = RawTokenModel { section: sec, key: es[j].0, value: v };
    if j == 0 {
        assert(str_entries(sec, es)[0] == t);
    } else {
        lemma_str_entries_has(sec, es.skip(1), j - 1, v);
        assert(es.skip(1)[j - 1] == es[j]);
        let rest = str_entries(sec, es.skip(1));
        let k = choose|k: int| 0 <= k < rest.len() && rest[k] == t;
        match es[0].1 {
            ValueModel::Str(w) => {
                let head = seq![RawTokenModel { section: sec, key: es[0].0, value: w }];
                assert((head + rest)[k + 1] == t);
            },
            ValueModel::Bool(_) => {},
        }
    }
}

/// The string entries of section `i`, when it is named `sec` and `i < n`,
/// are among the tokens of `sec` gathered from the first `n` sections.
proof fn lemma_tokens_upto_has(m: Seq<SectionModel>, sec: Seq<char>, n: int, i: int, t: RawTokenModel)
    requires
        0 <= i < n <= m.len(),
        m[i].name == sec,
        str_entries(sec, m[i].entries).contains(t),
    ensures
        tokens_upto(m, sec, n).contains(t),
    decreases n,
{
    let last = if m[n - 1].name == sec {
        str_entries(sec, m[n - 1].entries)
    } else {
        seq![]
    };
    if i == n - 1 {
        let k = choose|k: int| 0 <= k < last.len() && last[k] == t;
        assert((tokens_upto(m, sec, n - 1) + last)[tokens_upto(m, sec, n - 1).len() + k] == t);
    } else {
        lemma_tokens_upto_has(m, sec, n - 1, i, t);
        let pre = tokens_upto(m, sec, n - 1);
        let k = choose|k: int| 0 <= k < pre.len() && pre[k] == t;
        assert((pre + last)[k] == t);
    }
}

/// No token override is dropped: every string entry of every section named
/// `colors`, `spacing`, `radius` or `typography` — repeated sections
/// included — is among the raw token overrides, with that section's name,
/// its key and its value.
pub proof fn law_every_token_entry_is_an_override(m: Seq<SectionModel>, i: int, j: int, v: Seq<char>)
    requires
        0 <= i < m.len(),
        is_token_section(m[i].name),
        0 <= j < m[i].entries.len(),
        m[i].entries[j].1 == ValueModel::Str(v),
    ensures
        token_overrides(m).contains(
            RawTokenModel { section: m[i].name, key: m[i].entries[j].0, value: v },
        ),
{
    let sec = m[i].name;
    let t = RawTokenModel { section: sec, key: m[i].entries[j].0, value: v };
    lemma_str_entries_has(sec, m[i].entries, j, v);
    lemma_tokens_upto_has(m, sec, m.len() as int, i, t);
    let c = section_tokens(m, "colors"@);
    let s = section_tokens(m, "spacing"@);
    let r = section_tokens(m, "radius"@);
    let y = section_tokens(m, "typography"@);
    assert(token_overrides(m) == c + s + r + y);
    if sec == "colors"@ {
        let k = choose|k: int| 0 <= k < c.len() && c[k] == t;
        assert((c + s + r + y)[k] == t);
    } else if sec == "spacing"@ {
        let k = choose|k: int| 0 <= k < s.len() && s[k] == t;
        assert((c + s + r + y)[c.len() + k] == t);
    } else if sec == "radius"@ {
        let k = choose|k: int| 0 <= k < r.len() && r[k] == t;
        assert((c + s + r + y)[c.len() + s.len() + k] == t);
    } else {
        let k = choose|k: int| 0 <= k < y.len() && y[k] == t;
        assert((c + s + r + y)[c.len() + s.len() + r.len() + k] == t);
    }
}


/// Each string entry gathered from a token section comes from that section.
proof fn lemma_str_entries_from(sec: Seq<char>, es: Seq<(Seq<char>, ValueModel)>, k: int)
    requires
        0 <= k < str_entries(sec, es).len(),
    ensures
        str_entries(sec, es)[k].section == sec,
        exists|j: int|
            0 <= j < es.len() && #[trigger] es[j] == (
                str_entries(sec, es)[k].key,
                ValueModel::Str(str_entries(sec, es)[k].value),
            ),
    decreases es.len(),
{
    let t = str_entries(sec, es)[k];
    let rest = str_entries(sec, es.skip(1));
    match es[0].1 {
        ValueModel::Str(w) => {
            let head = seq![RawTokenModel { section: sec, key: es[0].0, value: w }];
            assert(str_entries(sec, es) == head + rest);
            if k == 0 {
                assert(es[0] == (t.key, ValueModel::Str(t.value)));
            } else {
                assert(rest[k - 1] == t);
                lemma_str_entries_from(sec, es.skip(1), k - 1);
                let j = choose|j: int| 0 <= j < es.skip(1).len() && #[trigger] es.skip(1)[j] == (
                    rest[k - 1].key,
                    ValueModel::Str(rest[k - 1].value),
                );
                assert(es[j + 1] == es.skip(1)[j]);
            }
        },
        ValueModel::Bool(_) => {
            assert(str_entries(sec, es) == rest);
            lemma_str_entries_from(sec, es.skip(1), k);
            let j = choose|j: int| 0 <= j < es.skip(1).len() && #[trigger] es.skip(1)[j] == (
                rest[k].key,
                ValueModel::Str(rest[k].value),
            );
            assert(es[j + 1] == es.skip(1)[j]);
        },
    }
}

/// Each token gathered for `sec` from the first `n` sections comes from a
/// string entry of a section named `sec`.
proof fn lemma_tokens_upto_from(m: Seq<SectionModel>, sec: Seq<char>, n: int, k: int)
    requires
        0 <= k < tokens_upto(m, sec, n).len(),
    ensures
        tokens_upto(m, sec, n)[k].section == sec,
        exists|i: int, j: int|
            0 <= i < m.len() && m[i].name == sec && 0 <= j < m[i].entries.len() && #[trigger] m[i].entries[j]
                == (tokens_upto(m, sec, n)[k].key, ValueModel::Str(tokens_upto(m, sec, n)[k].value)),
    decreases n,
{
    let t = tokens_upto(m, sec, n)[k];
    let pre = tokens_upto(m, sec, n - 1);
    let last = if m[n - 1].name == sec {
        str_entries(sec, m[n - 1].entries)
    } else {
        seq![]
    };
    assert(tokens_upto(m, sec, n) == pre + last);
    if k < pre.len() {
        assert(pre[k] == t);
        lemma_tokens_upto_from(m, sec, n - 1, k);
    } else {
        assert(last[k - pre.len()] == t);
        lemma_str_entries_from(sec, m[n - 1].entries, k - pre.len());
        let j = choose|j: int| 0 <= j < m[n - 1].entries.len() && #[trigger] m[n - 1].entries[j] == (
            t.key,
            ValueModel::Str(t.value),
        );
        assert(m[n - 1].entries[j] == (t.key, ValueModel::Str(t.value)));
    }
}

/// Nothing but token entries becomes an override: each raw token override
/// names one of the four token sections, and a section of that name holds an
/// entry with the override's key whose value is the override's string.
pub proof fn law_overrides_come_from_token_entries(m: Seq<SectionModel>, k: int)
    requires
        0 <= k < token_overrides(m).len(),
    ensures
        is_token_section(token_overrides(m)[k].section),
        exists|i: int, j: int|
            0 <= i < m.len() && m[i].name == token_overrides(m)[k].section && 0 <= j
                < m[i].entries.len() && #[trigger] m[i].entries[j] == (
                token_overrides(m)[k].key,
                ValueModel::Str(token_overrides(m)[k].value),
            ),
{
    let c = section_tokens(m, "colors"@);
    let s = section_tokens(m, "spacing"@);
    let r = section_tokens(m, "radius"@);
    let y = section_tokens(m, "typography"@);
    let all = c + s + r + y;
    assert(token_overrides(m) == all);
    let t = all[k];
    if k < c.len() {
        assert(c[k] == t);
        lemma_tokens_upto_from(m, "colors"@, m.len() as int, k);
    } else if k < c.len() + s.len() {
        assert(s[k - c.len()] == t);
        lemma_tokens_upto_from(m, "spacing"@, m.len() as int, k - c.len());
    } else if k < c.len() + s.len() + r.len() {
        assert(r[k - c.len() - s.len()] == t);
        lemma_tokens_upto_from(m, "radius"@, m.len() as int, k - c.len() - s.len());
    } else {
        assert(y[k - c.len() - s.len() - r.len()] == t);
        lemma_tokens_upto_from(m, "typography"@, m.len() as int, k - c.len() - s.len() - r.len());
    }
}

} // verus!
