//! The decisions behind the command-line tool: argument lookup, where the spec
//! lives, what `schema --all` writes, what `check` reports, and the text of the
//! generated guard-rail files. The tool itself reads and writes the files; each
//! function here takes what was read and returns what to write or print.

use vstd::prelude::*;
use crate::allowlist::opt_string;
use crate::manifest::{hash_of, law_get_after_set, set_entry, Manifest};
use crate::nav::{registered, registered_models};
use crate::schema::{columns_json, columns_of, model_columns, schema_json, ColumnModel};
use crate::text::{
    chars_of, decimal, decimal_of, eq, eq_str, lemma_chars_deep, lemma_push_deep, lemma_rfind_upto,
    push_all, push_str, rfind, rfind_in, slice_copy, string_of,
};
use crate::unicode::{lower_str, parent_path, path_parent, to_lowercase_str};
use crate::nav::{build_sidebar_html, lint as nav_lint_of, nav_lint, sidebar_html};
use crate::spec::{navigation_of, or_default, sec_str, token_overrides, views_of, Spec, TableViewModel};
use crate::toml_lite::SectionModel;
use crate::validate::{report_of, validate, ContrastGrade, GradeModel};
use crate::views::{build_view_json, lint as view_lint_of, view_json, view_lint};

verus! {

broadcast use lemma_chars_deep;

// ───────────────────────────── arguments and paths ─────────────────────────────

/// Index of the first argument equal to `flag`.
pub open spec fn flag_index(args: Seq<Seq<char>>, flag: Seq<char>, i: int) -> Option<int>
    decreases args.len() - i,
{
    if i < 0 || i >= args.len() {
        None
    } else if args[i] == flag {
        Some(i)
    } else {
        flag_index(args, flag, i + 1)
    }
}

/// The argument after the first `flag`, if both are present.
pub open spec fn flag_after(args: Seq<Seq<char>>, flag: Seq<char>) -> Option<Seq<char>> {
    match flag_index(args, flag, 0) {
        Some(p) => if p + 1 < args.len() {
            Some(args[p + 1])
        } else {
            None
        },
        None => None,
    }
}

/// Read the value following a `--flag` in the argument list, if present.
pub fn flag_value(args: &[String], flag: &str) -> (r: Option<String>)
    ensures
        opt_string(r) == flag_after(args.deep_view(), flag@),
{
    let ghost av = args.deep_view();
    let f = chars_of(flag);
    let mut i: usize = 0;
    while i < args.len()
        invariant
            i <= args.len(),
            av == args.deep_view(),
            f@ == flag@,
            flag_index(av, flag@, i as int) == flag_index(av, flag@, 0),
        decreases args.len() - i,
    {
        let a = chars_of(args[i].as_str());
        if eq(&a, &f) {
            assert(av[i as int] == flag@);
            if i + 1 < args.len() {
                let v = args[i + 1].clone();
                assert(v@ == av[i + 1]);
                return Some(v);
            }
            return None;
        }
        i += 1;
    }
    None
}

/// The spec root given the spec path's parent: the parent, or `.` when there
/// is none or it is empty.
pub open spec fn root_given(parent: Option<Seq<char>>) -> Seq<char> {
    match parent {
        Some(p) => if p.len() > 0 {
            p
        } else {
            "."@
        },
        None => "."@,
    }
}

/// The directory that holds the spec: its parent, or `.` when that is empty.
pub open spec fn root_of(spec_path: Seq<char>) -> Seq<char> {
    root_given(parent_path(spec_path))
}

/// The spec root given the spec path's parent (as `Path::parent` reports
/// it): the parent, or `.` when there is none or it is empty.
pub fn root_from_parent(parent: Option<String>) -> (r: String)
    ensures
        r@ == root_given(opt_string(parent)),
{
    match parent {
        Some(p) => {
            if p.unicode_len() > 0 {
                p
            } else {
                String::from_str(".")
            }
        },
        None => String::from_str("."),
    }
}

/// The directory that holds the spec — the root the design-memory artifact
/// paths are resolved against. Empty/no parent resolves to the current dir.
pub fn spec_root(spec_path: &str) -> (r: String)
    ensures
        r@ == root_of(spec_path@),
{
    root_from_parent(path_parent(spec_path))
}

/// Default table identifier for a model: lowercase + a naive plural `s`.
pub open spec fn table_for(model: Seq<char>) -> Seq<char> {
    lower_str(model).push('s')
}

/// Default table identifier for a model: lowercase + a naive plural `s`.
/// Override with `--table`; it just needs to match the `[views.<table>]` key.
pub fn default_table(model: &str) -> (r: String)
    ensures
        r@ == table_for(model@),
{
    let mut t = to_lowercase_str(model);
    t.push('s');
    t
}

// ───────────────────────────── generated files ─────────────────────────────

/// The README dropped into the output directory as a guard rail.
pub open spec fn readme_text(project: Seq<char>) -> Seq<char> {
    "# generated/ — DO NOT EDIT\n\nEvery file in this directory is generated by **rustio-design** for\nproject **"@
        + project
        + "** from `../rustio.design.toml`.\n\nEditing files here is pointless and unsafe:\n\n* the next `rustio-design build` overwrites them, and\n* `rustio-design check` flags the change as *drift* and fails CI.\n\nTo change the design, edit `rustio.design.toml` and run\n`rustio-design build`.\n\nTo serve `tokens.css` without recompiling rustio-admin:\n\n```sh\nsource generated/wire.env && cargo run\n```\n"@
}

/// The README dropped into the output directory as a guard rail.
pub fn generated_readme(project: &str) -> (r: String)
    ensures
        r@ == readme_text(project@),
{
    let mut s: Vec<char> = Vec::new();
    push_str(
        &mut s,
        "# generated/ — DO NOT EDIT\n\nEvery file in this directory is generated by **rustio-design** for\nproject **",
    );
    push_str(&mut s, project);
    push_str(
        &mut s,
        "** from `../rustio.design.toml`.\n\nEditing files here is pointless and unsafe:\n\n* the next `rustio-design build` overwrites them, and\n* `rustio-design check` flags the change as *drift* and fails CI.\n\nTo change the design, edit `rustio.design.toml` and run\n`rustio-design build`.\n\nTo serve `tokens.css` without recompiling rustio-admin:\n\n```sh\nsource generated/wire.env && cargo run\n```\n",
    );
    string_of(&s)
}

/// The directory part of `path` (before its last `/`), or `.`.
pub open spec fn dir_of(path: Seq<char>) -> Seq<char> {
    match rfind(path, "/"@) {
        Some(k) => path.take(k),
        None => "."@,
    }
}

/// The `wire.env` contents for a tokens file at `tokens_path` whose absolute
/// form is `abs`.
pub open spec fn wire_text(tokens_path: Seq<char>, abs: Seq<char>) -> Seq<char> {
    "# Generated by rustio-design — source this to serve the design without\n# recompiling rustio-admin. Re-run `rustio-design build` to refresh.\n#\n#   source "@
        + dir_of(tokens_path) + "/wire.env && cargo run\n#\nexport RUSTIO_TOKENS_CSS=\""@ + abs
        + "\"\n"@
}

/// Build the `wire.env` contents (an absolute `RUSTIO_TOKENS_CSS` export) for
/// the tokens file at `tokens_path`, already resolved to `abs`.
pub fn wire_env_text(tokens_path: &str, abs: &str) -> (r: String)
    ensures
        r@ == wire_text(tokens_path@, abs@),
{
    let p = chars_of(tokens_path);
    let slash = chars_of("/");
    let dir = match rfind_in(&p, &slash) {
        Some(k) => {
            proof {
                lemma_rfind_upto(p@, slash@, p@.len() as int);
            }
            let n = slash.len();
            assert(k + n <= p.len());
            slice_copy(&p, 0, k)
        },
        None => chars_of("."),
    };
    let mut s: Vec<char> = Vec::new();
    push_str(
        &mut s,
        "# Generated by rustio-design — source this to serve the design without\n# recompiling rustio-admin. Re-run `rustio-design build` to refresh.\n#\n#   source ",
    );
    push_all(&mut s, &dir);
    push_str(&mut s, "/wire.env && cargo run\n#\nexport RUSTIO_TOKENS_CSS=\"");
    push_str(&mut s, abs);
    push_str(&mut s, "\"\n");
    assert(dir@ == dir_of(tokens_path@));
    string_of(&s)
}

// ───────────────────────────── schema ─────────────────────────────

/// The field names of `cols`.
pub open spec fn column_names(cols: Seq<ColumnModel>) -> Seq<Seq<char>> {
    cols.map_values(|c: ColumnModel| c.name)
}

/// The columns a table view is checked against: the fields of its model
/// struct in `src`, or `None` when none can be found.
pub open spec fn view_columns_of(src: Seq<char>, model: Seq<char>) -> Option<Seq<Seq<char>>> {
    let cols = columns_of(src, model);
    if cols.len() == 0 {
        None
    } else {
        Some(column_names(cols))
    }
}

/// Best-effort resolution of a table view's columns from its model struct in
/// the source text `src`, for schema-aware validation. `None` when the struct
/// can't be parsed (in which case `views::lint` warns that coverage is
/// unverified).
pub fn view_columns(src: &str, model: &str) -> (r: Option<Vec<String>>)
    ensures
        r.deep_view() == view_columns_of(src@, model@),
{
    let cols = model_columns(src, model);
    let ghost cv = cols.deep_view();
    if cols.len() == 0 {
        return None;
    }
    let mut names: Vec<String> = Vec::new();
    let mut i: usize = 0;
    while i < cols.len()
        invariant
            i <= cols.len(),
            cv == cols.deep_view(),
            names.deep_view() == column_names(cv.take(i as int)),
        decreases cols.len() - i,
    {
        let ghost before = names;
        let n = cols[i].name.clone();
        let ghost ng = n;
        names.push(n);
        proof {
            lemma_push_deep(before, names, ng);
            assert(cols[i as int].deep_view() == cv[i as int]);
            assert(column_names(cv.take(i + 1)) =~= column_names(cv.take(i as int)).push(ng@));
        }
        i += 1;
    }
    assert(cv.take(cols.len() as int) == cv);
    Some(names)
}

/// One schema file `schema --all` produces.
pub struct SchemaFile {
    /// The model struct.
    pub model: String,
    /// The table identifier (the file is `<table>.json`).
    pub table: String,
    /// The file contents.
    pub json: String,
    /// How many columns it lists.
    pub columns: usize,
}

/// The model of a `SchemaFile`.
pub struct SchemaFileModel {
    /// The model struct.
    pub model: Seq<char>,
    /// The table identifier.
    pub table: Seq<char>,
    /// The file contents.
    pub json: Seq<char>,
    /// How many columns it lists.
    pub columns: nat,
}

impl DeepView for SchemaFile {
    type V = SchemaFileModel;

    open spec fn deep_view(&self) -> SchemaFileModel {
        SchemaFileModel {
            model: self.model@,
            table: self.table@,
            json: self.json@,
            columns: self.columns as nat,
        }
    }
}

/// What `schema --all` produces: a file per model found, in registration
/// order, and the registered models whose struct is not in the source.
pub struct SchemaPlan {
    /// The schema files.
    pub files: Vec<SchemaFile>,
    /// Registered models with no struct in the source.
    pub missing: Vec<String>,
}

/// The plan for the first `n` of `models`: (files, missing).
pub open spec fn plan_from(project: Seq<char>, src: Seq<char>, models: Seq<Seq<char>>, n: int) -> (
    Seq<SchemaFileModel>,
    Seq<Seq<char>>,
)
    decreases n,
{
    if n <= 0 || n > models.len() {
        (seq![], seq![])
    } else {
        let (files, missing) = plan_from(project, src, models, n - 1);
        let m = models[n - 1];
        let cols = columns_of(src, m);
        if cols.len() == 0 {
            (files, missing.push(m))
        } else {
            let t = table_for(m);
            (
                files.push(
                    SchemaFileModel {
                        model: m,
                        table: t,
                        json: schema_json(project, t, cols),
                        columns: cols.len(),
                    },
                ),
                missing,
            )
        }
    }
}

/// The error when `source` registers no models.
pub open spec fn no_models_error(source: Seq<char>) -> Seq<char> {
    "no `.model::<…>()` registrations found in "@ + source + " — pass --source <path>"@
}

/// Plan a schema for every `.model::<T>()` registered in `src` (the text of
/// `source`) — one command for the whole app. Structs not found in the source
/// are reported so they can be pointed at with a single-model run.
pub fn plan_schemas(project: &str, source: &str, src: &str) -> (r: Result<SchemaPlan, String>)
    ensures
        r is Err <==> registered(src@).len() == 0,
        r matches Err(e) ==> e@ == no_models_error(source@),
        r matches Ok(p) ==> (p.files.deep_view(), p.missing.deep_view()) == plan_from(
            project@,
            src@,
            registered(src@),
            registered(src@).len() as int,
        ),
{
    let models = registered_models(src);
    let ghost mv = models.deep_view();
    if models.len() == 0 {
        let mut e: Vec<char> = Vec::new();
        push_str(&mut e, "no `.model::<…>()` registrations found in ");
        push_str(&mut e, source);
        push_str(&mut e, " — pass --source <path>");
        return Err(string_of(&e));
    }
    let mut files: Vec<SchemaFile> = Vec::new();
    let mut missing: Vec<String> = Vec::new();
    assert(files.deep_view() =~= Seq::<SchemaFileModel>::empty());
    assert(missing.deep_view() =~= Seq::<Seq<char>>::empty());
    let mut i: usize = 0;
    while i < models.len()
        invariant
            i <= models.len(),
            mv == models.deep_view(),
            mv == registered(src@),
            (files.deep_view(), missing.deep_view()) == plan_from(project@, src@, mv, i as int),
        decreases models.len() - i,
    {
        let model = models[i].as_str();
        assert(model@ == mv[i as int]);
        let cols = model_columns(src, model);
        if cols.len() == 0 {
            let ghost before = missing;
            let m = models[i].clone();
            let ghost mg = m;
            missing.push(m);
            proof {
                lemma_push_deep(before, missing, mg);
            }
        } else {
            let table = default_table(model);
            let json = columns_json(project, table.as_str(), cols.as_slice());
            let f = SchemaFile { model: models[i].clone(), table, json, columns: cols.len() };
            let ghost before = files;
            let ghost fg = f;
            files.push(f);
            proof {
                lemma_push_deep(before, files, fg);
            }
        }
        i += 1;
    }
    Ok(SchemaPlan { files, missing })
}

// ───────────────────────────── check ─────────────────────────────

/// What `check` found on disk for one manifest entry.
pub struct Observed {
    /// The entry's path resolved against the spec root, as displayed.
    pub path: String,
    /// The fingerprint of the file's current bytes; `None` when it can't be read.
    pub hash: Option<String>,
}

/// The model of an `Observed`.
pub struct ObservedModel {
    /// The displayed path.
    pub path: Seq<char>,
    /// The current fingerprint, if readable.
    pub hash: Option<Seq<char>>,
}

impl DeepView for Observed {
    type V = ObservedModel;

    open spec fn deep_view(&self) -> ObservedModel {
        ObservedModel { path: self.path@, hash: opt_string(self.hash) }
    }
}

/// One report line per error.
pub open spec fn error_lines(es: Seq<Seq<char>>) -> Seq<Seq<char>> {
    es.map_values(|e: Seq<char>| "  error:   "@ + e)
}

/// The staleness line, when the recorded spec fingerprint is not `spec_hash`.
pub open spec fn stale_lines(
    m: Seq<(Seq<char>, Seq<char>)>,
    spec_path: Seq<char>,
    spec_hash: Seq<char>,
) -> Seq<Seq<char>> {
    if hash_of(m, spec_path) == Some(spec_hash) {
        seq![]
    } else {
        seq![
            "  stale:   "@ + spec_path
                + " changed since last build — run `rustio-design build`"@,
        ]
    }
}

/// The drift line for manifest entry `e`, given what is on disk.
pub open spec fn drift_line(e: (Seq<char>, Seq<char>), spec_path: Seq<char>, o: ObservedModel) -> Seq<
    Seq<char>,
> {
    if e.0 == spec_path {
        seq![]
    } else {
        match o.hash {
            Some(h) => if h == e.1 {
                seq![]
            } else {
                seq!["  drift:   "@ + o.path + " was hand-edited — edit the spec and run `build`"@]
            },
            None => seq!["  missing: "@ + o.path + " — run `rustio-design build`"@],
        }
    }
}

/// The drift lines of the first `n` manifest entries.
pub open spec fn drift_lines(
    m: Seq<(Seq<char>, Seq<char>)>,
    spec_path: Seq<char>,
    obs: Seq<ObservedModel>,
    n: int,
) -> Seq<Seq<char>>
    decreases n,
{
    if n <= 0 || n > m.len() {
        seq![]
    } else {
        drift_lines(m, spec_path, obs, n - 1) + drift_line(m[n - 1], spec_path, obs[n - 1])
    }
}

/// Everything `check` reports, in order.
pub open spec fn findings(
    report_errors: Seq<Seq<char>>,
    nav_errors: Seq<Seq<char>>,
    view_errors: Seq<Seq<char>>,
    m: Seq<(Seq<char>, Seq<char>)>,
    spec_path: Seq<char>,
    spec_hash: Seq<char>,
    obs: Seq<ObservedModel>,
) -> Seq<Seq<char>> {
    error_lines(report_errors) + error_lines(nav_errors) + error_lines(view_errors) + stale_lines(
        m,
        spec_path,
        spec_hash,
    ) + drift_lines(m, spec_path, obs, m.len() as int)
}

/// Append one report line per error.
fn push_errors(out: &mut Vec<String>, es: &Vec<String>)
    ensures
        final(out).deep_view() == old(out).deep_view() + error_lines(es.deep_view()),
{
    let ghost ev = es.deep_view();
    let ghost start = out.deep_view();
    let mut i: usize = 0;
    while i < es.len()
        invariant
            i <= es.len(),
            ev == es.deep_view(),
            out.deep_view() == start + error_lines(ev.take(i as int)),
        decreases es.len() - i,
    {
        let mut l: Vec<char> = Vec::new();
        push_str(&mut l, "  error:   ");
        push_str(&mut l, es[i].as_str());
        let s = string_of(&l);
        let ghost before = *out;
        let ghost sg = s;
        out.push(s);
        proof {
            lemma_push_deep(before, *out, sg);
            assert(error_lines(ev.take(i + 1)) =~= error_lines(ev.take(i as int)).push(sg@));
        }
        i += 1;
    }
    assert(ev.take(es.len() as int) == ev);
}

/// The problems `check` reports: the doctrine, navigation and view errors;
/// staleness of the spec (its fingerprint `spec_hash` differs from the
/// recorded one); and drift or absence of every other generated file, given
/// what was found on disk for each manifest entry (`observed`, entry by entry).
pub fn check_findings(
    report_errors: &Vec<String>,
    nav_errors: &Vec<String>,
    view_errors: &Vec<String>,
    m: &Manifest,
    spec_path: &str,
    spec_hash: &str,
    observed: &Vec<Observed>,
) -> (r: Vec<String>)
    requires
        observed.len() == m@.len(),
    ensures
        r.deep_view() == findings(
            report_errors.deep_view(),
            nav_errors.deep_view(),
            view_errors.deep_view(),
            m@,
            spec_path@,
            spec_hash@,
            observed.deep_view(),
        ),
{
    let mut out: Vec<String> = Vec::new();
    assert(out.deep_view() =~= Seq::<Seq<char>>::empty());
    push_errors(&mut out, report_errors);
    push_errors(&mut out, nav_errors);
    push_errors(&mut out, view_errors);

    // staleness: spec changed since last build?
    let fresh = match m.get(spec_path) {
        Some(h) => {
            let hc = chars_of(h);
            eq_str(&hc, spec_hash)
        },
        None => false,
    };
    if !fresh {
        let mut l: Vec<char> = Vec::new();
        push_str(&mut l, "  stale:   ");
        push_str(&mut l, spec_path);
        push_str(&mut l, " changed since last build — run `rustio-design build`");
        let s = string_of(&l);
        let ghost before = out;
        let ghost sg = s;
        out.push(s);
        proof {
            lemma_push_deep(before, out, sg);
        }
    }

    // drift: a generated file edited by hand?
    let ghost es = m@;
    let ghost ov = observed.deep_view();
    let ghost start = out.deep_view();
    let sp = chars_of(spec_path);
    let mut i: usize = 0;
    while i < m.entries.len()
        invariant
            i <= m.entries.len(),
            es == m@,
            es.len() == m.entries.len(),
            observed.len() == es.len(),
            ov == observed.deep_view(),
            sp@ == spec_path@,
            out.deep_view() == start + drift_lines(es, spec_path@, ov, i as int),
        decreases m.entries.len() - i,
    {
        let (path, hash) = &m.entries[i];
        assert(es[i as int] == (path@, hash@));
        let o = &observed[i];
        assert(o.deep_view() == ov[i as int]);
        let pc = chars_of(path.as_str());
        let ghost before = out;
        if !eq(&pc, &sp) {
            let line = match &o.hash {
                Some(h) => {
                    let hc = chars_of(h.as_str());
                    if eq_str(&hc, hash.as_str()) {
                        None
                    } else {
                        let mut l: Vec<char> = Vec::new();
                        push_str(&mut l, "  drift:   ");
                        push_str(&mut l, o.path.as_str());
                        push_str(&mut l, " was hand-edited — edit the spec and run `build`");
                        Some(string_of(&l))
                    }
                },
                None => {
                    let mut l: Vec<char> = Vec::new();
                    push_str(&mut l, "  missing: ");
                    push_str(&mut l, o.path.as_str());
                    push_str(&mut l, " — run `rustio-design build`");
                    Some(string_of(&l))
                },
            };
            match line {
                Some(s) => {
                    let ghost sg = s;
                    out.push(s);
                    proof {
                        lemma_push_deep(before, out, sg);
                    }
                    assert(drift_line(es[i as int], spec_path@, ov[i as int]) == seq![sg@]);
                },
                None => {
                    assert(drift_line(es[i as int], spec_path@, ov[i as int]) =~= Seq::<
                        Seq<char>,
                    >::empty());
                },
            }
        } else {
            assert(drift_line(es[i as int], spec_path@, ov[i as int]) =~= Seq::<
                Seq<char>,
            >::empty());
        }
        i += 1;
    }
    out
}

// ───────────────────────────── build ─────────────────────────────

/// Why `build` refused: the warnings surfaced so far, the errors of the layer
/// that refused, and the one-line reason.
pub struct Refusal {
    /// Warnings surfaced before the refusal.
    pub warnings: Vec<String>,
    /// The errors that stopped the build.
    pub errors: Vec<String>,
    /// The reason, e.g. `2 doctrine error(s) — nothing was generated`.
    pub message: String,
}

/// What `build` writes besides the token stylesheet and `wire.env`: the
/// surfaced warnings and each output as `(path relative to the spec root,
/// contents)` — the guard-rail README, the sidebar override, and for each
/// table view its frozen JSON at `<out_dir>/views/<table>.view.json` and at the
/// view's `_out` path, in that order.
pub struct BuildPlan {
    /// Warnings surfaced while validating.
    pub warnings: Vec<String>,
    /// The outputs, in the order they are recorded in the manifest.
    pub outputs: Vec<(String, String)>,
}

/// The reason line for `n` errors of one layer.
pub open spec fn refusal_line(n: nat, layer: Seq<char>) -> Seq<char> {
    decimal(n) + " "@ + layer + " error(s) — nothing was generated"@
}

/// The view of a refusal: (warnings, errors, reason).
pub open spec fn refusal_view(r: Refusal) -> (Seq<Seq<char>>, Seq<Seq<char>>, Seq<char>) {
    (r.warnings.deep_view(), r.errors.deep_view(), r.message@)
}

/// The view of a plan: (warnings, outputs).
pub open spec fn plan_view(p: BuildPlan) -> (Seq<Seq<char>>, Seq<(Seq<char>, Seq<char>)>) {
    (p.warnings.deep_view(), p.outputs.deep_view())
}

/// The view of `plan_build`'s result.
pub open spec fn outcome_view(r: Result<BuildPlan, Refusal>) -> Result<
    (Seq<Seq<char>>, Seq<(Seq<char>, Seq<char>)>),
    (Seq<Seq<char>>, Seq<Seq<char>>, Seq<char>),
> {
    match r {
        Ok(p) => Ok(plan_view(p)),
        Err(f) => Err(refusal_view(f)),
    }
}

/// Linting views `i..` after `warns`: the warnings so far, or the refusal of
/// the first view with errors.
pub open spec fn view_stage(
    vs: Seq<TableViewModel>,
    cols: Seq<Option<Seq<Seq<char>>>>,
    i: int,
    warns: Seq<Seq<char>>,
) -> Result<Seq<Seq<char>>, (Seq<Seq<char>>, Seq<Seq<char>>, Seq<char>)>
    decreases vs.len() - i,
{
    if i < 0 || i >= vs.len() {
        Ok(warns)
    } else {
        let (e, w) = view_lint(vs[i], cols[i]);
        if e.len() > 0 {
            Err((warns + w, e, refusal_line(e.len(), "view"@)))
        } else {
            view_stage(vs, cols, i + 1, warns + w)
        }
    }
}

/// Where the frozen file of table `table` goes: `<out_dir>/views/<table>.view.json`.
pub open spec fn view_file(out_dir: Seq<char>, table: Seq<char>) -> Seq<char> {
    out_dir + "/views/"@ + table + ".view.json"@
}

/// The frozen files of views `vs`: for each view in order, its JSON at
/// `<out_dir>/views/<table>.view.json` and again at the view's `_out` path.
pub open spec fn view_outputs(project: Seq<char>, out_dir: Seq<char>, vs: Seq<TableViewModel>) -> Seq<
    (Seq<char>, Seq<char>),
>
    decreases vs.len(),
{
    if vs.len() == 0 {
        seq![]
    } else {
        let v = vs.last();
        view_outputs(project, out_dir, vs.drop_last()) + seq![
            (view_file(out_dir, v.table), view_json(project, v)),
            (v.out, view_json(project, v)),
        ]
    }
}

/// The outputs of a build of spec `m`.
pub open spec fn build_outputs(m: Seq<SectionModel>) -> Seq<(Seq<char>, Seq<char>)> {
    let project = or_default(sec_str(m, "project"@, "name"@), "rustio-admin"@);
    let out_dir = or_default(sec_str(m, "project"@, "out_dir"@), "generated"@);
    seq![(out_dir + "/README.md"@, readme_text(project))] + match navigation_of(m) {
        Some(nav) => seq![(nav.out, sidebar_html(project, nav))],
        None => seq![],
    } + view_outputs(project, out_dir, views_of(m))
}

/// What `build` decides for spec `m`, given the contrast grade of each token
/// override, the project's registered models (if readable) and each view's
/// columns (if resolvable): refuse at the first layer with errors (doctrine,
/// then navigation, then each view in order), or write the outputs.
pub open spec fn build_plan_of(
    m: Seq<SectionModel>,
    grades: Seq<GradeModel>,
    models: Option<Seq<Seq<char>>>,
    cols: Seq<Option<Seq<Seq<char>>>>,
) -> Result<
    (Seq<Seq<char>>, Seq<(Seq<char>, Seq<char>)>),
    (Seq<Seq<char>>, Seq<Seq<char>>, Seq<char>),
> {
    let (re, rw) = report_of(m, grades);
    if re.len() > 0 {
        Err((rw, re, refusal_line(re.len(), "doctrine"@)))
    } else {
        let (ne, nw) = match navigation_of(m) {
            Some(nav) => nav_lint(nav, models),
            None => (seq![], seq![]),
        };
        if ne.len() > 0 {
            Err((rw + nw, ne, refusal_line(ne.len(), "navigation"@)))
        } else {
            match view_stage(views_of(m), cols, 0, rw + nw) {
                Err(f) => Err(f),
                Ok(w) => Ok((w, build_outputs(m))),
            }
        }
    }
}

/// Append every message of `w`.
fn extend_messages(out: &mut Vec<String>, w: Vec<String>)
    ensures
        final(out).deep_view() == old(out).deep_view() + w.deep_view(),
{
    let ghost wv = w.deep_view();
    let ghost start = out.deep_view();
    let mut i: usize = 0;
    while i < w.len()
        invariant
            i <= w.len(),
            wv == w.deep_view(),
            out.deep_view() == start + wv.take(i as int),
        decreases w.len() - i,
    {
        let ghost before = *out;
        let x = w[i].clone();
        let ghost xg = x;
        out.push(x);
        proof {
            lemma_push_deep(before, *out, xg);
            assert(wv.take(i + 1) == wv.take(i as int).push(xg@));
        }
        i += 1;
    }
    assert(wv.take(w.len() as int) == wv);
}

/// The refusal reason for `n` errors of `layer`.
fn refusal_text(n: usize, layer: &str) -> (r: String)
    ensures
        r@ == refusal_line(n as nat, layer@),
{
    let mut s = decimal_of(n);
    push_str(&mut s, " ");
    push_str(&mut s, layer);
    push_str(&mut s, " error(s) — nothing was generated");
    string_of(&s)
}

/// Decide a build of `spec`: validate it (with `grades[i]` the contrast grade
/// of the `i`-th token override), lint its navigation against the project's
/// `models` and each view `i` against `columns[i]`, and either refuse at the
/// first layer with errors or list the outputs to write.
pub fn plan_build(
    spec: &Spec,
    grades: &Vec<ContrastGrade>,
    models: Option<&[String]>,
    columns: &Vec<Option<Vec<String>>>,
) -> (r: Result<BuildPlan, Refusal>)
    requires
        grades.len() == token_overrides(spec@).len(),
        columns.len() == views_of(spec@).len(),
    ensures
        outcome_view(r) == build_plan_of(
            spec@,
            grades.deep_view(),
            models.deep_view(),
            columns.deep_view(),
        ),
{
    let report = validate(spec, grades);
    if report.errors.len() > 0 {
        let message = refusal_text(report.errors.len(), "doctrine");
        return Err(Refusal { warnings: report.warnings, errors: report.errors, message });
    }
    let mut warnings = report.warnings;
    let navigation = spec.navigation();
    match &navigation {
        Some(nav) => {
            let l = nav_lint_of(nav, models);
            extend_messages(&mut warnings, l.warnings);
            if l.errors.len() > 0 {
                let message = refusal_text(l.errors.len(), "navigation");
                return Err(Refusal { warnings, errors: l.errors, message });
            }
        },
        None => {
            assert(warnings.deep_view() + Seq::<Seq<char>>::empty() =~= warnings.deep_view());
        },
    }

    let table_views = spec.views();
    let ghost vs = table_views.deep_view();
    let ghost cv = columns.deep_view();
    let ghost plan = build_plan_of(spec@, grades.deep_view(), models.deep_view(), cv);
    assert(plan == match view_stage(
        vs,
        cv,
        0,
        build_plan_of_warnings(spec@, grades.deep_view(), models.deep_view()),
    ) {
        Err(f) => Err(f),
        Ok(w) => Ok((w, build_outputs(spec@))),
    });
    let mut i: usize = 0;
    while i < table_views.len()
        invariant
            i <= table_views.len(),
            vs == table_views.deep_view(),
            vs == views_of(spec@),
            cv == columns.deep_view(),
            columns.len() == table_views.len(),
            plan == build_plan_of(spec@, grades.deep_view(), models.deep_view(), cv),
            plan == match view_stage(
                vs,
                cv,
                0,
                build_plan_of_warnings(spec@, grades.deep_view(), models.deep_view()),
            ) {
                Err(f) => Err(f),
                Ok(w) => Ok((w, build_outputs(spec@))),
            },
            view_stage(vs, cv, i as int, warnings.deep_view()) == view_stage(
                vs,
                cv,
                0,
                build_plan_of_warnings(spec@, grades.deep_view(), models.deep_view()),
            ),
        decreases table_views.len() - i,
    {
        let view = &table_views[i];
        assert(view.deep_view() == vs[i as int]);
        let l = match &columns[i] {
            Some(c) => {
                let cs = c.as_slice();
                assert(cs.deep_view() == c.deep_view());
                view_lint_of(view, Some(cs))
            },
            None => view_lint_of(view, None),
        };
        assert(columns[i as int].deep_view() == cv[i as int]);
        assert((l.errors.deep_view(), l.warnings.deep_view()) == view_lint(
            vs[i as int],
            cv[i as int],
        ));
        let ghost wb = warnings.deep_view();
        extend_messages(&mut warnings, l.warnings);
        if l.errors.len() > 0 {
            assert(view_stage(vs, cv, i as int, wb) == Err::<Seq<Seq<char>>, _>(
                (warnings.deep_view(), l.errors.deep_view(), refusal_line(l.errors.len() as nat, "view"@)),
            ));
            let message = refusal_text(l.errors.len(), "view");
            return Err(Refusal { warnings, errors: l.errors, message });
        }
        i += 1;
    }

    let project = spec.project_name();
    let out_dir = spec.out_dir();
    let mut outputs: Vec<(String, String)> = Vec::new();
    let mut readme_path: Vec<char> = Vec::new();
    push_str(&mut readme_path, out_dir);
    push_str(&mut readme_path, "/README.md");
    let readme = (string_of(&readme_path), generated_readme(project));
    let ghost rg = readme;
    outputs.push(readme);
    assert(outputs.deep_view() =~= seq![rg.deep_view()]);
    match &navigation {
        Some(nav) => {
            let ghost before = outputs;
            let e = (nav.out.clone(), build_sidebar_html(project, nav));
            let ghost eg = e;
            outputs.push(e);
            proof {
                lemma_push_deep(before, outputs, eg);
            }
        },
        None => {},
    }
    let ghost pre = outputs.deep_view();
    let mut j: usize = 0;
    while j < table_views.len()
        invariant
            j <= table_views.len(),
            vs == table_views.deep_view(),
            outputs.deep_view() == pre + view_outputs(project@, out_dir@, vs.take(j as int)),
        decreases table_views.len() - j,
    {
        let view = &table_views[j];
        assert(view.deep_view() == vs[j as int]);
        let ghost before = outputs;
        let mut file: Vec<char> = Vec::new();
        push_str(&mut file, out_dir);
        push_str(&mut file, "/views/");
        push_str(&mut file, view.table.as_str());
        push_str(&mut file, ".view.json");
        let json = build_view_json(project, view);
        let e = (string_of(&file), json.clone());
        let ghost eg = e;
        outputs.push(e);
        let ghost mid = outputs;
        let o = (view.out.clone(), json);
        let ghost og = o;
        outputs.push(o);
        proof {
            lemma_push_deep(before, mid, eg);
            lemma_push_deep(mid, outputs, og);
            assert(vs.take(j + 1).drop_last() =~= vs.take(j as int));
            assert(vs.take(j + 1).last() == vs[j as int]);
            assert(view_outputs(project@, out_dir@, vs.take(j + 1)) =~= view_outputs(
                project@,
                out_dir@,
                vs.take(j as int),
            ).push(eg.deep_view()).push(og.deep_view()));
        }
        j += 1;
    }
    assert(vs.take(table_views.len() as int) == vs);
    assert(outputs.deep_view() == build_outputs(spec@));
    Ok(BuildPlan { warnings, outputs })
}

/// What a build of spec `m` read from `spec_path` fingerprints, in the order
/// the manifest records it: the spec source, the token stylesheet, `wire.env`,
/// then the plan's outputs.
pub open spec fn recorded_files_of(
    spec_path: Seq<char>,
    src: Seq<char>,
    m: Seq<SectionModel>,
    css: Seq<char>,
    wire: Seq<char>,
    outputs: Seq<(Seq<char>, Seq<char>)>,
) -> Seq<(Seq<char>, Seq<char>)> {
    let out_dir = or_default(sec_str(m, "project"@, "out_dir"@), "generated"@);
    seq![
        (spec_path, src),
        (out_dir + "/tokens.css"@, css),
        (out_dir + "/wire.env"@, wire),
    ] + outputs
}

/// The `(path, contents)` pairs a build records in the manifest, in order:
/// the spec at `spec_path` with its source `src`, the stylesheet `css`, the
/// `wire` environment file, then each output of `plan`.
pub fn recorded_files(
    spec_path: &str,
    src: &str,
    spec: &Spec,
    css: &str,
    wire: &str,
    plan: &BuildPlan,
) -> (r: Vec<(String, String)>)
    ensures
        r.deep_view() == recorded_files_of(
            spec_path@,
            src@,
            spec@,
            css@,
            wire@,
            plan.outputs.deep_view(),
        ),
{
    let out_dir = spec.out_dir();
    let mut tokens_path: Vec<char> = Vec::new();
    push_str(&mut tokens_path, out_dir);
    push_str(&mut tokens_path, "/tokens.css");
    let mut wire_path: Vec<char> = Vec::new();
    push_str(&mut wire_path, out_dir);
    push_str(&mut wire_path, "/wire.env");
    let mut r: Vec<(String, String)> = Vec::new();
    r.push((String::from_str(spec_path), String::from_str(src)));
    r.push((string_of(&tokens_path), String::from_str(css)));
    r.push((string_of(&wire_path), String::from_str(wire)));
    let ghost head = r.deep_view();
    assert(head =~= seq![
        (spec_path@, src@),
        (out_dir@ + "/tokens.css"@, css@),
        (out_dir@ + "/wire.env"@, wire@),
    ]);
    let ghost outs = plan.outputs.deep_view();
    let mut i: usize = 0;
    while i < plan.outputs.len()
        invariant
            i <= plan.outputs.len(),
            outs == plan.outputs.deep_view(),
            r.deep_view() == head + outs.take(i as int),
        decreases plan.outputs.len() - i,
    {
        let ghost before = r;
        let e = (plan.outputs[i].0.clone(), plan.outputs[i].1.clone());
        let ghost eg = e;
        assert(eg.deep_view() == outs[i as int]);
        r.push(e);
        proof {
            lemma_push_deep(before, r, eg);
            assert(outs.take(i + 1) =~= outs.take(i as int).push(outs[i as int]));
        }
        i += 1;
    }
    assert(outs.take(plan.outputs.len() as int) =~= outs);
    r
}

/// The warnings surfaced before the views are linted, when nothing before
/// them refused.
spec fn build_plan_of_warnings(
    m: Seq<SectionModel>,
    grades: Seq<GradeModel>,
    models: Option<Seq<Seq<char>>>,
) -> Seq<Seq<char>> {
    report_of(m, grades).1 + match navigation_of(m) {
        Some(nav) => nav_lint(nav, models).1,
        None => seq![],
    }
}

// ───────────────────────────── laws ─────────────────────────────

/// Every entry's drift line appears among the drift lines.
proof fn lemma_drift_lines_has(
    m: Seq<(Seq<char>, Seq<char>)>,
    spec_path: Seq<char>,
    obs: Seq<ObservedModel>,
    n: int,
    i: int,
    l: Seq<char>,
)
    requires
        0 <= i < n <= m.len(),
        drift_line(m[i], spec_path, obs[i]) == seq![l],
    ensures
        drift_lines(m, spec_path, obs, n).contains(l),
    decreases n,
{
    let prev = drift_lines(m, spec_path, obs, n - 1);
    let here = drift_line(m[n - 1], spec_path, obs[n - 1]);
    if i == n - 1 {
        assert((prev + here)[prev.len() as int] == l);
    } else {
        lemma_drift_lines_has(m, spec_path, obs, n - 1, i, l);
        let k = choose|k: int| 0 <= k < prev.len() && prev[k] == l;
        assert((prev + here)[k] == l);
    }
}

/// With every file matching its recorded fingerprint there are no drift lines.
proof fn lemma_drift_lines_clean(
    m: Seq<(Seq<char>, Seq<char>)>,
    spec_path: Seq<char>,
    obs: Seq<ObservedModel>,
    n: int,
)
    requires
        0 <= n <= m.len(),
        obs.len() == m.len(),
        forall|i: int| 0 <= i < m.len() ==> #[trigger] obs[i].hash == Some(m[i].1),
    ensures
        drift_lines(m, spec_path, obs, n) == Seq::<Seq<char>>::empty(),
    decreases n,
{
    if n > 0 {
        lemma_drift_lines_clean(m, spec_path, obs, n - 1);
        assert(obs[n - 1].hash == Some(m[n - 1].1));
        assert(drift_lines(m, spec_path, obs, n) =~= Seq::<Seq<char>>::empty());
    }
}

/// When the spec and every generated file still have the fingerprints the
/// manifest recorded, `check` reports nothing but the lint errors.
pub proof fn law_in_sync_reports_only_errors(
    report_errors: Seq<Seq<char>>,
    nav_errors: Seq<Seq<char>>,
    view_errors: Seq<Seq<char>>,
    m: Seq<(Seq<char>, Seq<char>)>,
    spec_path: Seq<char>,
    spec_hash: Seq<char>,
    obs: Seq<ObservedModel>,
)
    requires
        hash_of(m, spec_path) == Some(spec_hash),
        obs.len() == m.len(),
        forall|i: int| 0 <= i < m.len() ==> #[trigger] obs[i].hash == Some(m[i].1),
    ensures
        findings(report_errors, nav_errors, view_errors, m, spec_path, spec_hash, obs)
            == error_lines(report_errors) + error_lines(nav_errors) + error_lines(view_errors),
{
    lemma_drift_lines_clean(m, spec_path, obs, m.len() as int);
    let errs = error_lines(report_errors) + error_lines(nav_errors) + error_lines(view_errors);
    assert(errs + Seq::<Seq<char>>::empty() + Seq::<Seq<char>>::empty() =~= errs);
}

/// A generated file whose bytes no longer match its recorded fingerprint is
/// reported as drift; one that cannot be read is reported as missing.
pub proof fn law_tampering_is_reported(
    report_errors: Seq<Seq<char>>,
    nav_errors: Seq<Seq<char>>,
    view_errors: Seq<Seq<char>>,
    m: Seq<(Seq<char>, Seq<char>)>,
    spec_path: Seq<char>,
    spec_hash: Seq<char>,
    obs: Seq<ObservedModel>,
    i: int,
)
    requires
        0 <= i < m.len(),
        obs.len() == m.len(),
        m[i].0 != spec_path,
        obs[i].hash != Some(m[i].1),
    ensures
        obs[i].hash is Some ==> findings(
            report_errors,
            nav_errors,
            view_errors,
            m,
            spec_path,
            spec_hash,
            obs,
        ).contains(
            "  drift:   "@ + obs[i].path + " was hand-edited — edit the spec and run `build`"@,
        ),
        obs[i].hash is None ==> findings(
            report_errors,
            nav_errors,
            view_errors,
            m,
            spec_path,
            spec_hash,
            obs,
        ).contains("  missing: "@ + obs[i].path + " — run `rustio-design build`"@),
{
    let l = if obs[i].hash is Some {
        "  drift:   "@ + obs[i].path + " was hand-edited — edit the spec and run `build`"@
    } else {
        "  missing: "@ + obs[i].path + " — run `rustio-design build`"@
    };
    assert(drift_line(m[i], spec_path, obs[i]) == seq![l]);
    lemma_drift_lines_has(m, spec_path, obs, m.len() as int, i, l);
    let d = drift_lines(m, spec_path, obs, m.len() as int);
    let pre = error_lines(report_errors) + error_lines(nav_errors) + error_lines(view_errors)
        + stale_lines(m, spec_path, spec_hash);
    let k = choose|k: int| 0 <= k < d.len() && d[k] == l;
    assert((pre + d)[pre.len() + k] == l);
}

/// A spec whose fingerprint differs from the recorded one is reported stale;
/// right after its fingerprint is recorded, it is not.
pub proof fn law_staleness(
    m: Seq<(Seq<char>, Seq<char>)>,
    spec_path: Seq<char>,
    spec_hash: Seq<char>,
)
    ensures
        hash_of(m, spec_path) != Some(spec_hash) ==> stale_lines(m, spec_path, spec_hash)
            == seq![
            "  stale:   "@ + spec_path
                + " changed since last build — run `rustio-design build`"@,
        ],
        stale_lines(set_entry(m, spec_path, spec_hash), spec_path, spec_hash)
            == Seq::<Seq<char>>::empty(),
{
    law_get_after_set(m, spec_path, spec_hash);
}

/// Linting views from `i` on passes exactly when every one of them lints
/// without errors.
proof fn lemma_view_stage(
    vs: Seq<TableViewModel>,
    cols: Seq<Option<Seq<Seq<char>>>>,
    i: int,
    warns: Seq<Seq<char>>,
)
    requires
        0 <= i <= vs.len(),
    ensures
        view_stage(vs, cols, i, warns) is Ok <==> forall|k: int|
            i <= k < vs.len() ==> (#[trigger] view_lint(vs[k], cols[k])).0.len() == 0,
    decreases vs.len() - i,
{
    if i < vs.len() {
        let (e, w) = view_lint(vs[i], cols[i]);
        lemma_view_stage(vs, cols, i + 1, warns + w);
    }
}

/// `build` writes its outputs exactly when the spec passes the doctrine, its
/// navigation (if any) lints without errors, and every table view lints
/// without errors; otherwise it refuses and writes nothing.
pub proof fn law_build_needs_every_layer_clean(
    m: Seq<SectionModel>,
    grades: Seq<GradeModel>,
    models: Option<Seq<Seq<char>>>,
    cols: Seq<Option<Seq<Seq<char>>>>,
)
    ensures
        build_plan_of(m, grades, models, cols) is Ok <==> {
            &&& report_of(m, grades).0.len() == 0
            &&& (navigation_of(m) matches Some(nav) ==> nav_lint(nav, models).0.len() == 0)
            &&& forall|k: int|
                0 <= k < views_of(m).len() ==> (#[trigger] view_lint(views_of(m)[k], cols[k])).0.len()
                    == 0
        },
        build_plan_of(m, grades, models, cols) matches Ok(p) ==> p.1 == build_outputs(m),
{
    let (ne, nw) = match navigation_of(m) {
        Some(nav) => nav_lint(nav, models),
        None => (seq![], seq![]),
    };
    lemma_view_stage(views_of(m), cols, 0, report_of(m, grades).1 + nw);
}

} // verus!
