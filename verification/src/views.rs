//! The record-view layer — the second WHAT-layer slice compiled to output.
//! A `[views.<table>]` block declares how that table's records are laid out:
//! which fields lead (`primary`), support (`secondary`), fold to the detail
//! screen (`detail`), or never show (`hidden`), plus how composed fields render
//! and the default view mode.
//!
//! `build` validates the block against the table's columns (best-effort) and
//! freezes it to a deterministic `*.view.json` the runtime renderer reads.

use vstd::prelude::*;
use crate::nav::{closest_name, common_prefix, closest_from, prefix_from};
use crate::spec::{TableView, TableViewModel, ViewCell, ViewCellModel};
use crate::json::{
    all_ws, arr_text, decodes_to, lemma_array, lemma_object,
    lemma_string_parses, members_of, obj_text, parse_value, parses_as, plain, skip_jws,
    starts_value, is_json_ws, Json,
};
use crate::text::{
    chars_of, eq, eq_str, join, lemma_chars_deep, lemma_join_push, lemma_push_deep, push_all,
    push_str, string_of, no_repeats,
};

verus! {

broadcast use lemma_chars_deep;

/// The outcome of linting a `[views.<table>]` block.
pub struct ViewLint {
    /// Fatal problems — `build` refuses while any exist.
    pub errors: Vec<String>,
    /// Advisories — surfaced but non-blocking (column coverage is best-effort).
    pub warnings: Vec<String>,
}

/// The supported view modes.
pub open spec fn is_mode(m: Seq<char>) -> bool {
    m == "list"@ || m == "cards"@ || m == "gallery"@
}

/// `[views.<table>] ` — the prefix of every message about a table.
pub open spec fn tag(table: Seq<char>) -> Seq<char> {
    "[views."@ + table + "] "@
}

/// The fields of cells `c..` placed so far, with the duplicate errors.
pub open spec fn place_fields(
    cells: Seq<ViewCellModel>,
    c: int,
    m: int,
    table: Seq<char>,
    seen: Seq<Seq<char>>,
    errs: Seq<Seq<char>>,
) -> (Seq<Seq<char>>, Seq<Seq<char>>)
    decreases cells.len() - c, (if 0 <= c < cells.len() {
        cells[c].members.len() - m
    } else {
        0
    }),
{
    if c < 0 || c >= cells.len() {
        (seen, errs)
    } else if m < 0 || m >= cells[c].members.len() {
        place_fields(cells, c + 1, 0, table, seen, errs)
    } else {
        let f = cells[c].members[m];
        if seen.contains(f) {
            place_fields(
                cells,
                c,
                m + 1,
                table,
                seen,
                errs.push(
                    tag(table) + "field `"@ + f + "` is placed more than once — list it in one role"@,
                ),
            )
        } else {
            place_fields(cells, c, m + 1, table, seen.push(f), errs)
        }
    }
}

/// The unknown-key warnings.
pub open spec fn unknown_warnings(table: Seq<char>, keys: Seq<Seq<char>>) -> Seq<Seq<char>> {
    keys.map_values(
        |k: Seq<char>|
            tag(table) + "unknown key `"@ + k
                + "` — expected mode / primary / secondary / detail / hidden / model / source / _out"@,
    )
}

/// Each column paired with itself, as (name, key) candidates.
pub open spec fn self_pairs(cols: Seq<Seq<char>>) -> Seq<(Seq<char>, Seq<char>)> {
    cols.map_values(|c: Seq<char>| (c, c))
}

/// The coverage warnings for the placed fields `i..` that match no column.
pub open spec fn unmatched_fields(
    table: Seq<char>,
    seen: Seq<Seq<char>>,
    cols: Seq<Seq<char>>,
    i: int,
) -> Seq<Seq<char>>
    decreases seen.len() - i,
{
    if i < 0 || i >= seen.len() {
        seq![]
    } else {
        let f = seen[i];
        (if cols.contains(f) {
            seq![]
        } else {
            seq![
                tag(table) + "`"@ + f + "` matches no column on the model"@ + match closest_name(
                    f,
                    self_pairs(cols),
                ) {
                    Some(c) => " — did you mean `"@ + c + "`?"@,
                    None => seq![],
                },
            ]
        }) + unmatched_fields(table, seen, cols, i + 1)
    }
}

/// The coverage warnings for columns `j..` no cell places.
pub open spec fn unplaced_columns(
    table: Seq<char>,
    seen: Seq<Seq<char>>,
    cols: Seq<Seq<char>>,
    j: int,
) -> Seq<Seq<char>>
    decreases cols.len() - j,
{
    if j < 0 || j >= cols.len() {
        seq![]
    } else {
        (if seen.contains(cols[j]) {
            seq![]
        } else {
            seq![
                tag(table) + "column `"@ + cols[j]
                    + "` is unplaced — it will be hidden; add it to a role to show it, or to `hidden` to silence this"@,
            ]
        }) + unplaced_columns(table, seen, cols, j + 1)
    }
}

/// What `lint` reports for a view: (errors, warnings).
pub open spec fn view_lint(v: TableViewModel, columns: Option<Seq<Seq<char>>>) -> (
    Seq<Seq<char>>,
    Seq<Seq<char>>,
) {
    let t = v.table;
    let e0 = if is_mode(v.mode) {
        seq![]
    } else {
        seq![
            tag(t) + "mode `"@ + v.mode
                + "` is not one of [\"list\", \"cards\", \"gallery\"]"@,
        ]
    };
    let (seen, errs) = place_fields(v.cells, 0, 0, t, seq![], e0);
    let w1 = unknown_warnings(t, v.unknown_keys);
    let w2 = if exists|k: int| 0 <= k < v.cells.len() && #[trigger] v.cells[k].role == "primary"@ {
        w1
    } else {
        w1.push(tag(t) + "no `primary` field — the record has nothing to lead with"@)
    };
    let w3 = match columns {
        Some(cols) => w2 + unmatched_fields(t, seen, cols, 0) + unplaced_columns(t, seen, cols, 0),
        None => w2.push(
            tag(t)
                + "could not read the table's columns — set `model` (and `source`) to validate field names; coverage not verified"@,
        ),
    };
    (errs, w3)
}

/// Append a message.
fn push_message(v: &mut Vec<String>, m: &Vec<char>)
    ensures
        final(v).deep_view() == old(v).deep_view().push(m@),
{
    let ghost before = *v;
    let s = string_of(m);
    let ghost sg = s;
    v.push(s);
    proof {
        lemma_push_deep(before, *v, sg);
    }
}

/// Whether `v` holds `x`.
fn holds(v: &Vec<String>, x: &[char]) -> (r: bool)
    ensures
        r == v.deep_view().contains(x@),
{
    let ghost vv = v.deep_view();
    let mut i: usize = 0;
    while i < v.len()
        invariant
            i <= v.len(),
            vv == v.deep_view(),
            forall|k: int| 0 <= k < i ==> vv[k] != x@,
        decreases v.len() - i,
    {
        let c = chars_of(v[i].as_str());
        if eq(&c, x) {
            assert(vv[i as int] == x@);
            return true;
        }
        i += 1;
    }
    false
}

/// Lint one table view: structural errors, plus best-effort coverage against the
/// table's columns (when discoverable from its model).
pub fn lint(view: &TableView, columns: Option<&[String]>) -> (r: ViewLint)
    ensures
        (r.errors.deep_view(), r.warnings.deep_view()) == view_lint(
            view.deep_view(),
            columns.deep_view(),
        ),
{
    let ghost vv = view.deep_view();
    let table = chars_of(view.table.as_str());
    let mut errors: Vec<String> = Vec::new();
    let mut warnings: Vec<String> = Vec::new();
    assert(errors.deep_view() =~= Seq::<Seq<char>>::empty());
    assert(warnings.deep_view() =~= Seq::<Seq<char>>::empty());

    // --- mode must be a real view mode ---
    let mode = chars_of(view.mode.as_str());
    if !(eq_str(&mode, "list") || eq_str(&mode, "cards") || eq_str(&mode, "gallery")) {
        let mut m: Vec<char> = Vec::new();
        push_str(&mut m, "[views.");
        push_all(&mut m, &table);
        push_str(&mut m, "] ");
        push_str(&mut m, "mode `");
        push_all(&mut m, &mode);
        push_str(&mut m, "` is not one of [\"list\", \"cards\", \"gallery\"]");
        push_message(&mut errors, &m);
    }

    // --- unrecognised keys (typo guard) ---
    let mut i: usize = 0;
    while i < view.unknown_keys.len()
        invariant
            i <= view.unknown_keys.len(),
            vv == view.deep_view(),
            table@ == vv.table,
            warnings.deep_view() == unknown_warnings(vv.table, vv.unknown_keys.take(i as int)),
        decreases view.unknown_keys.len() - i,
    {
        let mut m: Vec<char> = Vec::new();
        push_str(&mut m, "[views.");
        push_all(&mut m, &table);
        push_str(&mut m, "] ");
        push_str(&mut m, "unknown key `");
        push_str(&mut m, view.unknown_keys[i].as_str());
        push_str(
            &mut m,
            "` — expected mode / primary / secondary / detail / hidden / model / source / _out",
        );
        push_message(&mut warnings, &m);
        assert(vv.unknown_keys.take(i + 1) == vv.unknown_keys.take(i as int).push(
            vv.unknown_keys[i as int],
        ));
        i += 1;
    }
    assert(vv.unknown_keys.take(view.unknown_keys.len() as int) == vv.unknown_keys);

    // --- every field is placed in exactly one cell ---
    let mut seen: Vec<String> = Vec::new();
    assert(seen.deep_view() =~= Seq::<Seq<char>>::empty());
    let ghost e0 = errors.deep_view();
    let mut c: usize = 0;
    while c < view.cells.len()
        invariant
            c <= view.cells.len(),
            vv == view.deep_view(),
            table@ == vv.table,
            place_fields(vv.cells, c as int, 0, vv.table, seen.deep_view(), errors.deep_view())
                == place_fields(vv.cells, 0, 0, vv.table, seq![], e0),
        decreases view.cells.len() - c,
    {
        let cell = &view.cells[c];
        assert(cell.deep_view() == vv.cells[c as int]);
        let mut m: usize = 0;
        while m < cell.members.len()
            invariant
                m <= cell.members.len(),
                c < view.cells.len(),
                vv == view.deep_view(),
                table@ == vv.table,
                cell.deep_view() == vv.cells[c as int],
                place_fields(vv.cells, c as int, m as int, vv.table, seen.deep_view(), errors.deep_view())
                    == place_fields(vv.cells, 0, 0, vv.table, seq![], e0),
            decreases cell.members.len() - m,
        {
            let f = chars_of(cell.members[m].as_str());
            assert(f@ == vv.cells[c as int].members[m as int]);
            if holds(&seen, &f) {
                let mut msg: Vec<char> = Vec::new();
                push_str(&mut msg, "[views.");
                push_all(&mut msg, &table);
                push_str(&mut msg, "] ");
                push_str(&mut msg, "field `");
                push_all(&mut msg, &f);
                push_str(&mut msg, "` is placed more than once — list it in one role");
                push_message(&mut errors, &msg);
            } else {
                let ghost before = seen;
                let s = cell.members[m].clone();
                let ghost sg = s;
                seen.push(s);
                proof {
                    lemma_push_deep(before, seen, sg);
                }
            }
            m += 1;
        }
        c += 1;
    }
    assert((seen.deep_view(), errors.deep_view()) == place_fields(
        vv.cells,
        0,
        0,
        vv.table,
        seq![],
        e0,
    ));

    // --- at least one primary field leads the record ---
    let mut has_primary = false;
    let mut k: usize = 0;
    while k < view.cells.len()
        invariant
            k <= view.cells.len(),
            vv == view.deep_view(),
            has_primary == exists|x: int| 0 <= x < k && #[trigger] vv.cells[x].role == "primary"@,
        decreases view.cells.len() - k,
    {
        assert(view.cells[k as int].deep_view() == vv.cells[k as int]);
        let role = chars_of(view.cells[k].role.as_str());
        assert(role@ == vv.cells[k as int].role);
        if eq_str(&role, "primary") {
            assert(vv.cells[k as int].role == "primary"@);
            has_primary = true;
        } else {
            assert(vv.cells[k as int].role != "primary"@);
        }
        k += 1;
    }
    if !has_primary {
        let mut msg: Vec<char> = Vec::new();
        push_str(&mut msg, "[views.");
        push_all(&mut msg, &table);
        push_str(&mut msg, "] ");
        push_str(&mut msg, "no `primary` field — the record has nothing to lead with");
        push_message(&mut warnings, &msg);
    }

    // --- best-effort column coverage (warnings only) ---
    let ghost w2 = warnings.deep_view();
    let ghost sv = seen.deep_view();
    match columns {
        Some(cols) => {
            let ghost cv = cols.deep_view();
            let ghost pairs = self_pairs(cv);
            let mut i: usize = 0;
            while i < seen.len()
                invariant
                    i <= seen.len(),
                    sv == seen.deep_view(),
                    cv == cols.deep_view(),
                    pairs == self_pairs(cv),
                    table@ == vv.table,
                    warnings.deep_view() + unmatched_fields(vv.table, sv, cv, i as int) == w2
                        + unmatched_fields(vv.table, sv, cv, 0),
                decreases seen.len() - i,
            {
                let f = chars_of(seen[i].as_str());
                assert(f@ == sv[i as int]);
                let ghost wb = warnings.deep_view();
                let ghost tail = unmatched_fields(vv.table, sv, cv, i + 1);
                let ghost here: Seq<Seq<char>> = if cv.contains(sv[i as int]) {
                    seq![]
                } else {
                    seq![
                        tag(vv.table) + "`"@ + sv[i as int] + "` matches no column on the model"@
                            + match closest_name(sv[i as int], self_pairs(cv)) {
                            Some(c) => " — did you mean `"@ + c + "`?"@,
                            None => seq![],
                        },
                    ]
                };
                assert(unmatched_fields(vv.table, sv, cv, i as int) == here + tail);
                if !holds_slice(cols, &f) {
                    let mut msg: Vec<char> = Vec::new();
                    push_str(&mut msg, "[views.");
                    push_all(&mut msg, &table);
                    push_str(&mut msg, "] ");
                    push_str(&mut msg, "`");
                    push_all(&mut msg, &f);
                    push_str(&mut msg, "` matches no column on the model");
                    let hint = closest(&f, cols);
                    match hint {
                        Some(c) => {
                            push_str(&mut msg, " — did you mean `");
                            push_str(&mut msg, c.as_str());
                            push_str(&mut msg, "`?");
                        },
                        None => {},
                    }
                    assert(msg@ == here[0]);
                    push_message(&mut warnings, &msg);
                    assert(warnings.deep_view() == wb + here);
                } else {
                    assert(here =~= Seq::<Seq<char>>::empty());
                    assert(warnings.deep_view() == wb + here);
                }
                i += 1;
            }
            let ghost w3 = warnings.deep_view();
            let mut j: usize = 0;
            while j < cols.len()
                invariant
                    j <= cols.len(),
                    sv == seen.deep_view(),
                    cv == cols.deep_view(),
                    table@ == vv.table,
                    warnings.deep_view() + unplaced_columns(vv.table, sv, cv, j as int) == w3
                        + unplaced_columns(vv.table, sv, cv, 0),
                decreases cols.len() - j,
            {
                let col = chars_of(cols[j].as_str());
                assert(col@ == cv[j as int]);
                if !holds(&seen, &col) {
                    let mut msg: Vec<char> = Vec::new();
                    push_str(&mut msg, "[views.");
                    push_all(&mut msg, &table);
                    push_str(&mut msg, "] ");
                    push_str(&mut msg, "column `");
                    push_all(&mut msg, &col);
                    push_str(
                        &mut msg,
                        "` is unplaced — it will be hidden; add it to a role to show it, or to `hidden` to silence this",
                    );
                    push_message(&mut warnings, &msg);
                }
                j += 1;
            }
        },
        None => {
            let mut msg: Vec<char> = Vec::new();
            push_str(&mut msg, "[views.");
            push_all(&mut msg, &table);
            push_str(&mut msg, "] ");
            push_str(
                &mut msg,
                "could not read the table's columns — set `model` (and `source`) to validate field names; coverage not verified",
            );
            push_message(&mut warnings, &msg);
        },
    }
    ViewLint { errors, warnings }
}

/// Whether `v` holds `x`.
fn holds_slice(v: &[String], x: &[char]) -> (r: bool)
    ensures
        r == v.deep_view().contains(x@),
{
    let ghost vv = v.deep_view();
    let mut i: usize = 0;
    while i < v.len()
        invariant
            i <= v.len(),
            vv == v.deep_view(),
            forall|k: int| 0 <= k < i ==> vv[k] != x@,
        decreases v.len() - i,
    {
        let c = chars_of(v[i].as_str());
        if eq(&c, x) {
            assert(vv[i as int] == x@);
            return true;
        }
        i += 1;
    }
    false
}

// ───────────────────────────── JSON ─────────────────────────────

/// The JSON escape of one character.
pub open spec fn json_char(c: char) -> Seq<char> {
    if c == '"' {
        seq!['\\', '"']
    } else if c == '\\' {
        seq!['\\', '\\']
    } else if c == '\n' {
        seq!['\\', 'n']
    } else if c == '\t' {
        seq!['\\', 't']
    } else if c == '\r' {
        seq!['\\', 'r']
    } else if (c as u32) < 0x20 {
        seq!['\\', 'u', '0', '0', hex_digit((c as u32) / 16), hex_digit((c as u32) % 16)]
    } else {
        seq![c]
    }
}

/// The lowercase hexadecimal digit of `d < 16`.
pub open spec fn hex_digit(d: u32) -> char {
    "0123456789abcdef"@[d as int]
}

/// The escaped characters of `s`.
pub open spec fn json_chars(s: Seq<char>) -> Seq<char>
    decreases s.len(),
{
    if s.len() == 0 {
        seq![]
    } else {
        json_chars(s.drop_last()) + json_char(s.last())
    }
}

/// `s` as a JSON string literal.
pub open spec fn json_string(s: Seq<char>) -> Seq<char> {
    seq!['"'] + json_chars(s) + seq!['"']
}

/// Each of `ms` as a JSON string literal.
pub open spec fn quoted_all(ms: Seq<Seq<char>>) -> Seq<Seq<char>> {
    ms.map_values(|m: Seq<char>| json_string(m))
}

/// One cell as a JSON line; `more` adds the separating comma.
pub open spec fn cell_json(c: ViewCellModel, more: bool) -> Seq<char> {
    "    { \"members\": ["@ + join(quoted_all(c.members), ", "@)
        + "], \"role\": "@ + json_string(c.role) + ", \"style\": "@ + json_string(c.style)
        + " }"@ + (if more {
        seq![',']
    } else {
        seq![]
    }) + seq!['\n']
}

/// The JSON lines of the first `n` of `cells`.
pub open spec fn cells_json(cells: Seq<ViewCellModel>, n: int) -> Seq<char>
    decreases n,
{
    if n <= 0 || n > cells.len() {
        seq![]
    } else {
        cells_json(cells, n - 1) + cell_json(cells[n - 1], n < cells.len())
    }
}

/// The frozen view file for `view` of `project`.
pub open spec fn view_json(project: Seq<char>, v: TableViewModel) -> Seq<char> {
    "{\n"@ + "  \"_generated_by\": \"rustio-design\",\n"@ + "  \"project\": "@ + json_string(project)
        + ",\n"@ + "  \"table\": "@ + json_string(v.table) + ",\n"@ + "  \"default_mode\": "@
        + json_string(v.mode) + ",\n"@ + "  \"modes\": [\"list\", \"cards\", \"gallery\"],\n"@
        + "  \"cells\": [\n"@ + cells_json(v.cells, v.cells.len() as int) + "  ]\n"@ + "}\n"@
}

/// A JSON string literal: quotes, with `"`, `\\` and every control character
/// escaped.
pub(crate) fn json_str(s: &str) -> (r: Vec<char>)
    ensures
        r@ == json_string(s@),
{
    let c = chars_of(s);
    let mut out: Vec<char> = Vec::new();
    out.push('"');
    let mut i: usize = 0;
    while i < c.len()
        invariant
            i <= c.len(),
            out@ == seq!['"'] + json_chars(c@.take(i as int)),
        decreases c.len() - i,
    {
        let x = c[i];
        if x == '"' {
            out.push('\\');
            out.push('"');
        } else if x == '\\' {
            out.push('\\');
            out.push('\\');
        } else if x == '\n' {
            out.push('\\');
            out.push('n');
        } else if x == '\t' {
            out.push('\\');
            out.push('t');
        } else if x == '\r' {
            out.push('\\');
            out.push('r');
        } else if (x as u32) < 0x20 {
            let v = x as u32;
            let digits = "0123456789abcdef";
            proof {
                reveal_strlit("0123456789abcdef");
            }
            out.push('\\');
            out.push('u');
            out.push('0');
            out.push('0');
            out.push(digits.get_char((v / 16) as usize));
            out.push(digits.get_char((v % 16) as usize));
        } else {
            out.push(x);
        }
        assert(c@.take(i + 1).drop_last() == c@.take(i as int));
        i += 1;
    }
    assert(c@.take(c.len() as int) == c@);
    out.push('"');
    out
}

/// One cell rendered as its JSON line.
fn cell_line(cell: &ViewCell, more: bool) -> (out: Vec<char>)
    ensures
        out@ == cell_json(cell.deep_view(), more),
{
    let mut out: Vec<char> = Vec::new();
    push_str(&mut out, "    { \"members\": [");
    let ghost mv = cell.members.deep_view();
    let ghost js = quoted_all(mv);
    let ghost mstart = out@;
    let mut j: usize = 0;
    while j < cell.members.len()
        invariant
            j <= cell.members.len(),
            mv == cell.members.deep_view(),
            js == quoted_all(mv),
            out@ == mstart + join(js.take(j as int), ", "@),
        decreases cell.members.len() - j,
    {
        if j > 0 {
            push_str(&mut out, ", ");
        }
        let e = json_str(cell.members[j].as_str());
        push_all(&mut out, &e);
        proof {
            lemma_join_push(js.take(j as int), ", "@, e@);
            assert(js.take(j + 1) == js.take(j as int).push(e@));
        }
        j += 1;
    }
    assert(js.take(cell.members.len() as int) == js);
    push_str(&mut out, "], \"role\": ");
    let r = json_str(cell.role.as_str());
    push_all(&mut out, &r);
    push_str(&mut out, ", \"style\": ");
    let st = json_str(cell.style.as_str());
    push_all(&mut out, &st);
    push_str(&mut out, " }");
    if more {
        out.push(',');
    }
    out.push('\n');
    out
}

/// Render the frozen view spec as deterministic JSON — the artifact the runtime
/// renderer reads. Field order is fixed so the output is reproducible.
pub fn build_view_json(project: &str, view: &TableView) -> (s: String)
    ensures
        s@ == view_json(project@, view.deep_view()),
{
    let ghost vv = view.deep_view();
    let mut out: Vec<char> = Vec::new();
    push_str(&mut out, "{\n");
    push_str(&mut out, "  \"_generated_by\": \"rustio-design\",\n");
    push_str(&mut out, "  \"project\": ");
    let p = json_str(project);
    push_all(&mut out, &p);
    push_str(&mut out, ",\n");
    push_str(&mut out, "  \"table\": ");
    let t = json_str(view.table.as_str());
    push_all(&mut out, &t);
    push_str(&mut out, ",\n");
    push_str(&mut out, "  \"default_mode\": ");
    let m = json_str(view.mode.as_str());
    push_all(&mut out, &m);
    push_str(&mut out, ",\n");
    push_str(&mut out, "  \"modes\": [\"list\", \"cards\", \"gallery\"],\n");
    push_str(&mut out, "  \"cells\": [\n");
    let ghost pre = out@;
    let n = view.cells.len();
    let mut i: usize = 0;
    while i < n
        invariant
            i <= n,
            n == view.cells.len(),
            vv == view.deep_view(),
            out@ == pre + cells_json(vv.cells, i as int),
        decreases n - i,
    {
        let cell = &view.cells[i];
        assert(cell.deep_view() == vv.cells[i as int]);
        let line = cell_line(cell, i + 1 < n);
        push_all(&mut out, &line);
        i += 1;
    }
    push_str(&mut out, "  ]\n");
    push_str(&mut out, "}\n");
    string_of(&out)
}

// ───────────────────────────── helpers ─────────────────────────────

/// Closest column to a field by shared-prefix length (cheap "did you mean").
fn closest(target: &[char], columns: &[String]) -> (r: Option<String>)
    ensures
        crate::allowlist::opt_string(r) == closest_name(
            target@,
            self_pairs(columns.deep_view()),
        ),
{
    let ghost cv = columns.deep_view();
    let ghost pairs = self_pairs(cv);
    let mut best: Option<(usize, usize)> = None;
    let mut i: usize = 0;
    while i < columns.len()
        invariant
            i <= columns.len(),
            cv == columns.deep_view(),
            pairs == self_pairs(cv),
            closest_from(
                target@,
                pairs,
                i as int,
                match best {
                    Some(b) => Some((b.0 as nat, pairs[b.1 as int].0)),
                    None => None,
                },
            ) == closest_from(target@, pairs, 0, None),
            best matches Some(b) ==> b.1 < i,
        decreases columns.len() - i,
    {
        let c = chars_of(columns[i].as_str());
        assert(c@ == pairs[i as int].1);
        let n = shared_prefix(target, &c);
        let better = n >= 3 && match best {
            Some(b) => n >= b.0,
            None => true,
        };
        if better {
            best = Some((n, i));
        }
        i += 1;
    }
    match best {
        Some(b) => Some(columns[b.1].clone()),
        None => None,
    }
}

/// The length of the longest common prefix.
fn shared_prefix(a: &[char], b: &[char]) -> (n: usize)
    ensures
        n == common_prefix(a@, b@),
{
    let mut i: usize = 0;
    while i < a.len() && i < b.len() && a[i] == b[i]
        invariant
            i <= a.len(),
            prefix_from(a@, b@, i as int) == common_prefix(a@, b@),
        decreases a.len() - i,
    {
        i += 1;
    }
    i
}

// ───────────────────────────── laws ─────────────────────────────

/// The fields cells place, from member `m` of cell `c` on, in order.
pub open spec fn members_from(cells: Seq<ViewCellModel>, c: int, m: int) -> Seq<Seq<char>>
    decreases cells.len() - c, (if 0 <= c < cells.len() {
        cells[c].members.len() - m
    } else {
        0
    }),
{
    if c < 0 || c >= cells.len() {
        seq![]
    } else if m < 0 || m >= cells[c].members.len() {
        members_from(cells, c + 1, 0)
    } else {
        seq![cells[c].members[m]] + members_from(cells, c, m + 1)
    }
}

/// Placing fields adds an error exactly when a field repeats one placed
/// before; a clean pass places them all.
proof fn lemma_place_fields(
    cells: Seq<ViewCellModel>,
    c: int,
    m: int,
    table: Seq<char>,
    seen: Seq<Seq<char>>,
    errs: Seq<Seq<char>>,
)
    requires
        no_repeats(seen),
        0 <= m,
    ensures
        place_fields(cells, c, m, table, seen, errs).1.len() >= errs.len(),
        place_fields(cells, c, m, table, seen, errs).1.len() == errs.len() <==> no_repeats(
            seen + members_from(cells, c, m),
        ),
    decreases cells.len() - c, (if 0 <= c < cells.len() {
        cells[c].members.len() - m
    } else {
        0
    }),
{
    if c < 0 || c >= cells.len() {
        assert(seen + members_from(cells, c, m) =~= seen);
    } else if m >= cells[c].members.len() {
        lemma_place_fields(cells, c + 1, 0, table, seen, errs);
    } else {
        let f = cells[c].members[m];
        let rest = members_from(cells, c, m + 1);
        assert(seen + members_from(cells, c, m) =~= seen.push(f) + rest);
        if seen.contains(f) {
            lemma_place_fields(
                cells,
                c,
                m + 1,
                table,
                seen,
                errs.push(
                    tag(table) + "field `"@ + f + "` is placed more than once — list it in one role"@,
                ),
            );
            let k = choose|k: int| 0 <= k < seen.len() && seen[k] == f;
            let all = seen.push(f) + rest;
            assert(all[k] == f && all[seen.len() as int] == f);
        } else {
            assert(no_repeats(seen.push(f))) by {
                assert forall|a: int, b: int|
                    0 <= a < b < seen.push(f).len() implies seen.push(f)[a] != seen.push(f)[b] by {
                    if b == seen.len() {
                        assert(seen[a] == seen.push(f)[a]);
                    }
                }
            }
            lemma_place_fields(cells, c, m + 1, table, seen.push(f), errs);
        }
    }
}

/// A view lints without errors exactly when its mode is one of the supported
/// modes and no field is placed in more than one cell.
pub proof fn law_view_errors(v: TableViewModel, columns: Option<Seq<Seq<char>>>)
    ensures
        view_lint(v, columns).0.len() == 0 <==> (is_mode(v.mode) && no_repeats(
            members_from(v.cells, 0, 0),
        )),
{
    let t = v.table;
    let e0: Seq<Seq<char>> = if is_mode(v.mode) {
        seq![]
    } else {
        seq![tag(t) + "mode `"@ + v.mode + "` is not one of [\"list\", \"cards\", \"gallery\"]"@]
    };
    let empty: Seq<Seq<char>> = seq![];
    lemma_place_fields(v.cells, 0, 0, t, empty, e0);
    assert(empty + members_from(v.cells, 0, 0) =~= members_from(v.cells, 0, 0));
}

// ───────────────────────────── the frozen file as JSON ─────────────────────────────

/// The strings `ms` as JSON values.
pub open spec fn str_values(ms: Seq<Seq<char>>) -> Seq<Json> {
    ms.map_values(|m: Seq<char>| Json::Str(m))
}

/// The members of a cell's object, as (key, value text).
pub open spec fn cell_members(c: ViewCellModel) -> Seq<(Seq<char>, Seq<char>)> {
    seq![
        ("members"@, arr_text(quoted_all(c.members), seq![], seq![' '], seq![])),
        ("role"@, json_string(c.role)),
        ("style"@, json_string(c.style)),
    ]
}

/// A cell's object, as written on its line.
pub open spec fn cell_obj(c: ViewCellModel) -> Seq<char> {
    obj_text(cell_members(c), seq![' '], seq![' '], seq![' '])
}

/// What a cell reads back as.
pub open spec fn cell_value(c: ViewCellModel) -> Json {
    Json::Obj(
        seq![
            ("members"@, Json::Arr(str_values(c.members))),
            ("role"@, Json::Str(c.role)),
            ("style"@, Json::Str(c.style)),
        ],
    )
}

/// A cell holds no control character other than newline, tab and carriage
/// return.
pub open spec fn cell_plain(c: ViewCellModel) -> bool {
    &&& plain(c.role)
    &&& plain(c.style)
    &&& forall|i: int| 0 <= i < c.members.len() ==> plain(#[trigger] c.members[i])
}

/// The key words of the cells' objects are written without escapes.
proof fn lemma_cell_keys()
    ensures
        json_string("members"@) == "\"members\""@,
        json_string("role"@) == "\"role\""@,
        json_string("style"@) == "\"style\""@,
        plain("members"@),
        plain("role"@),
        plain("style"@),
{
    reveal_strlit("members");
    reveal_strlit("role");
    reveal_strlit("style");
    reveal_strlit("\"members\"");
    reveal_strlit("\"role\"");
    reveal_strlit("\"style\"");
    reveal_with_fuel(json_chars, 8);
    assert(json_chars("members"@) =~= "members"@);
    assert(json_chars("role"@) =~= "role"@);
    assert(json_chars("style"@) =~= "style"@);
    assert(json_string("members"@) =~= "\"members\""@);
    assert(json_string("role"@) =~= "\"role\""@);
    assert(json_string("style"@) =~= "\"style\""@);
}

/// `join` of three parts.
proof fn lemma_join3(a: Seq<char>, b: Seq<char>, c: Seq<char>, sep: Seq<char>)
    ensures
        join(seq![a, b, c], sep) == a + sep + b + sep + c,
{
    let p = seq![a, b, c];
    assert(p.drop_last() =~= seq![a, b]);
    assert(seq![a, b].drop_last() =~= seq![a]);
    assert(join(seq![a], sep) == a);
    assert(join(seq![a, b], sep) == a + sep + b);
}

/// A cell's line is its object, indented, with the separating comma.
#[verifier::rlimit(40)]
proof fn lemma_cell_line(c: ViewCellModel, more: bool)
    ensures
        cell_json(c, more) == seq![' ', ' ', ' ', ' '] + cell_obj(c) + (if more {
            seq![',']
        } else {
            seq![]
        }) + seq!['\n'],
{
    lemma_cell_keys();
    reveal_strlit("    { \"members\": [");
    reveal_strlit("], \"role\": ");
    reveal_strlit(", \"style\": ");
    reveal_strlit(" }");
    reveal_strlit(", ");
    reveal_strlit("\"members\"");
    reveal_strlit("\"role\"");
    reveal_strlit("\"style\"");
    let sep = seq![','] + seq![' '];
    let q = join(quoted_all(c.members), ", "@);
    assert(", "@ =~= sep);
    let arr = arr_text(quoted_all(c.members), seq![], seq![' '], seq![]);
    assert(arr =~= seq!['['] + q + seq![']']);
    let t0 = json_string("members"@) + seq![':', ' '] + arr;
    let t1 = json_string("role"@) + seq![':', ' '] + json_string(c.role);
    let t2 = json_string("style"@) + seq![':', ' '] + json_string(c.style);
    let ms = cell_members(c);
    assert(crate::json::member_texts(ms) =~= seq![t0, t1, t2]);
    lemma_join3(t0, t1, t2, sep);
    let body = t0 + sep + t1 + sep + t2;
    assert(cell_obj(c) =~= seq!['{', ' '] + body + seq![' ', '}']);
    let tail = if more {
        seq![',']
    } else {
        seq![]
    };
    assert("    { \"members\": ["@ =~= seq![' ', ' ', ' ', ' ', '{', ' '] + "\"members\""@ + seq![
        ':',
        ' ',
        '[',
    ]);
    assert("], \"role\": "@ =~= seq![']'] + sep + "\"role\""@ + seq![':', ' ']);
    assert(", \"style\": "@ =~= sep + "\"style\""@ + seq![':', ' ']);
    assert(" }"@ =~= seq![' ', '}']);
    assert(cell_json(c, more) == "    { \"members\": ["@ + q + "], \"role\": "@ + json_string(c.role)
        + ", \"style\": "@ + json_string(c.style) + " }"@ + tail + seq!['\n']);
    assert(cell_json(c, more) =~= seq![' ', ' ', ' ', ' '] + cell_obj(c) + tail + seq!['\n']);
}

/// A plain cell's object reads back as the cell.
proof fn lemma_cell_parses(c: ViewCellModel)
    requires
        cell_plain(c),
    ensures
        parses_as(cell_obj(c), cell_value(c)),
        starts_value(cell_obj(c)),
{
    lemma_cell_keys();
    let items = quoted_all(c.members);
    let vals = str_values(c.members);
    assert forall|i: int| 0 <= i < items.len() implies parses_as(#[trigger] items[i], vals[i]) by {
        lemma_string_parses(c.members[i]);
    }
    assert forall|i: int| 0 <= i < items.len() implies starts_value(#[trigger] items[i]) by {
        assert(items[i] == json_string(c.members[i]));
    }
    assert(all_ws(seq![' ']));
    assert(all_ws(Seq::<char>::empty()));
    lemma_array(items, vals, seq![], seq![' '], seq![]);
    lemma_string_parses(c.role);
    lemma_string_parses(c.style);
    let ms = cell_members(c);
    let mv = seq![Json::Arr(vals), Json::Str(c.role), Json::Str(c.style)];
    assert forall|i: int| 0 <= i < ms.len() implies plain(#[trigger] ms[i].0) by {}
    assert forall|i: int| 0 <= i < ms.len() implies parses_as(#[trigger] ms[i].1, mv[i]) by {}
    lemma_object(ms, mv, seq![' '], seq![' '], seq![' ']);
    assert(members_of(ms, mv) =~= seq![
        ("members"@, Json::Arr(str_values(c.members))),
        ("role"@, Json::Str(c.role)),
        ("style"@, Json::Str(c.style)),
    ]);
}

/// Each cell's object.
pub open spec fn cell_objs(cells: Seq<ViewCellModel>) -> Seq<Seq<char>> {
    cells.map_values(|c: ViewCellModel| cell_obj(c))
}

/// What each cell reads back as.
pub open spec fn cell_values(cells: Seq<ViewCellModel>) -> Seq<Json> {
    cells.map_values(|c: ViewCellModel| cell_value(c))
}

/// A line break and a four-space indent.
pub open spec fn indent4() -> Seq<char> {
    seq!['\n', ' ', ' ', ' ', ' ']
}

/// The `cells` array, as written.
pub open spec fn cells_text(cells: Seq<ViewCellModel>) -> Seq<char> {
    if cells.len() == 0 {
        arr_text(seq![], seq!['\n'], indent4(), seq![' ', ' '])
    } else {
        arr_text(cell_objs(cells), indent4(), indent4(), seq!['\n', ' ', ' '])
    }
}

/// The first `n` cell lines: the objects joined by `,` and a new indented
/// line, with the comma of a line that is not the last.
proof fn lemma_cells_prefix(cells: Seq<ViewCellModel>, n: int)
    requires
        1 <= n <= cells.len(),
    ensures
        cells_json(cells, n) == seq![' ', ' ', ' ', ' '] + join(
            cell_objs(cells).take(n),
            seq![','] + indent4(),
        ) + (if n < cells.len() {
            seq![',', '\n']
        } else {
            seq!['\n']
        }),
    decreases n,
{
    let objs = cell_objs(cells);
    let sep = seq![','] + indent4();
    lemma_cell_line(cells[n - 1], n < cells.len());
    assert(objs[n - 1] == cell_obj(cells[n - 1]));
    assert(objs.take(n) =~= objs.take(n - 1).push(objs[n - 1]));
    crate::text::lemma_join_push(objs.take(n - 1), sep, objs[n - 1]);
    let tail = if n < cells.len() {
        seq![',']
    } else {
        seq![]
    };
    if n == 1 {
        assert(cells_json(cells, 0) == Seq::<char>::empty());
        assert(cells_json(cells, 1) =~= seq![' ', ' ', ' ', ' '] + cell_obj(cells[0]) + tail
            + seq!['\n']);
    } else {
        lemma_cells_prefix(cells, n - 1);
        assert(cells_json(cells, n) =~= seq![' ', ' ', ' ', ' '] + join(objs.take(n), sep) + tail
            + seq!['\n']);
    }
}

/// The written `cells` array is `cells_text`.
proof fn lemma_cells_text(cells: Seq<ViewCellModel>)
    ensures
        seq!['[', '\n'] + cells_json(cells, cells.len() as int) + seq![' ', ' ', ']'] == cells_text(
            cells,
        ),
{
    if cells.len() == 0 {
        assert(join(Seq::<Seq<char>>::empty(), indent4()) == Seq::<char>::empty());
        assert(seq!['[', '\n'] + cells_json(cells, 0) + seq![' ', ' ', ']'] =~= cells_text(cells));
    } else {
        lemma_cells_prefix(cells, cells.len() as int);
        assert(cell_objs(cells).take(cells.len() as int) =~= cell_objs(cells));
        assert(seq!['[', '\n'] + cells_json(cells, cells.len() as int) + seq![' ', ' ', ']']
            =~= cells_text(cells));
    }
}

/// Plain cells, written as the `cells` array, read back as their values.
proof fn lemma_cells_parse(cells: Seq<ViewCellModel>)
    requires
        forall|i: int| 0 <= i < cells.len() ==> cell_plain(#[trigger] cells[i]),
    ensures
        parses_as(cells_text(cells), Json::Arr(cell_values(cells))),
{
    let objs = cell_objs(cells);
    let vals = cell_values(cells);
    assert forall|i: int| 0 <= i < objs.len() implies parses_as(#[trigger] objs[i], vals[i])
        && starts_value(objs[i]) by {
        lemma_cell_parses(cells[i]);
    }
    assert(all_ws(indent4()));
    assert(all_ws(seq!['\n']));
    assert(all_ws(seq![' ', ' ']));
    assert(all_ws(seq!['\n', ' ', ' ']));
    if cells.len() == 0 {
        lemma_array(seq![], seq![], seq!['\n'], indent4(), seq![' ', ' ']);
        assert(vals =~= Seq::<Json>::empty());
    } else {
        lemma_array(objs, vals, indent4(), indent4(), seq!['\n', ' ', ' ']);
    }
}

/// The view modes, as listed in the file.
pub open spec fn mode_names() -> Seq<Seq<char>> {
    seq!["list"@, "cards"@, "gallery"@]
}

/// A line break and a two-space indent.
pub open spec fn indent2() -> Seq<char> {
    seq!['\n', ' ', ' ']
}

/// The members of the file's object, as (key, value text).
pub open spec fn view_members(project: Seq<char>, v: TableViewModel) -> Seq<(Seq<char>, Seq<char>)> {
    seq![
        ("_generated_by"@, json_string("rustio-design"@)),
        ("project"@, json_string(project)),
        ("table"@, json_string(v.table)),
        ("default_mode"@, json_string(v.mode)),
        ("modes"@, arr_text(quoted_all(mode_names()), seq![], seq![' '], seq![])),
        ("cells"@, cells_text(v.cells)),
    ]
}

/// What the frozen file of view `v` of `project` reads back as: one object
/// with, in order, `_generated_by`, `project`, `table`, `default_mode`,
/// `modes` and `cells` (one `{ members, role, style }` object per cell).
pub open spec fn view_value(project: Seq<char>, v: TableViewModel) -> Json {
    Json::Obj(
        seq![
            ("_generated_by"@, Json::Str("rustio-design"@)),
            ("project"@, Json::Str(project)),
            ("table"@, Json::Str(v.table)),
            ("default_mode"@, Json::Str(v.mode)),
            ("modes"@, Json::Arr(str_values(mode_names()))),
            ("cells"@, Json::Arr(cell_values(v.cells))),
        ],
    )
}

/// The key words and fixed strings of the file are written without escapes.
proof fn lemma_view_words()
    ensures
        json_string("_generated_by"@) == "\"_generated_by\""@,
        json_string("project"@) == "\"project\""@,
        json_string("table"@) == "\"table\""@,
        json_string("default_mode"@) == "\"default_mode\""@,
        json_string("modes"@) == "\"modes\""@,
        json_string("cells"@) == "\"cells\""@,
        json_string("rustio-design"@) == "\"rustio-design\""@,
        json_string("list"@) == "\"list\""@,
        json_string("cards"@) == "\"cards\""@,
        json_string("gallery"@) == "\"gallery\""@,
        plain("_generated_by"@),
        plain("project"@),
        plain("table"@),
        plain("default_mode"@),
        plain("modes"@),
        plain("cells"@),
        plain("rustio-design"@),
        plain("list"@),
        plain("cards"@),
        plain("gallery"@),
{
    reveal_strlit("_generated_by");
    reveal_strlit("project");
    reveal_strlit("table");
    reveal_strlit("default_mode");
    reveal_strlit("modes");
    reveal_strlit("cells");
    reveal_strlit("rustio-design");
    reveal_strlit("list");
    reveal_strlit("cards");
    reveal_strlit("gallery");
    reveal_strlit("\"_generated_by\"");
    reveal_strlit("\"project\"");
    reveal_strlit("\"table\"");
    reveal_strlit("\"default_mode\"");
    reveal_strlit("\"modes\"");
    reveal_strlit("\"cells\"");
    reveal_strlit("\"rustio-design\"");
    reveal_strlit("\"list\"");
    reveal_strlit("\"cards\"");
    reveal_strlit("\"gallery\"");
    reveal_with_fuel(json_chars, 14);
    assert(json_chars("_generated_by"@) =~= "_generated_by"@);
    assert(json_chars("project"@) =~= "project"@);
    assert(json_chars("table"@) =~= "table"@);
    assert(json_chars("default_mode"@) =~= "default_mode"@);
    assert(json_chars("modes"@) =~= "modes"@);
    assert(json_chars("cells"@) =~= "cells"@);
    assert(json_chars("rustio-design"@) =~= "rustio-design"@);
    assert(json_chars("list"@) =~= "list"@);
    assert(json_chars("cards"@) =~= "cards"@);
    assert(json_chars("gallery"@) =~= "gallery"@);
    assert(json_string("_generated_by"@) =~= "\"_generated_by\""@);
    assert(json_string("project"@) =~= "\"project\""@);
    assert(json_string("table"@) =~= "\"table\""@);
    assert(json_string("default_mode"@) =~= "\"default_mode\""@);
    assert(json_string("modes"@) =~= "\"modes\""@);
    assert(json_string("cells"@) =~= "\"cells\""@);
    assert(json_string("rustio-design"@) =~= "\"rustio-design\""@);
    assert(json_string("list"@) =~= "\"list\""@);
    assert(json_string("cards"@) =~= "\"cards\""@);
    assert(json_string("gallery"@) =~= "\"gallery\""@);
}

/// `join` of six parts.
proof fn lemma_join6(p: Seq<Seq<char>>, sep: Seq<char>)
    requires
        p.len() == 6,
    ensures
        join(p, sep) == p[0] + sep + p[1] + sep + p[2] + sep + p[3] + sep + p[4] + sep + p[5],
{
    reveal_with_fuel(join, 7);
    assert(p.drop_last().drop_last().drop_last().drop_last().drop_last() =~= seq![p[0]]);
    assert(join(p, sep) =~= p[0] + sep + p[1] + sep + p[2] + sep + p[3] + sep + p[4] + sep + p[5]);
}

/// The keys of the frozen object, written, with their `: ` and the separator.
proof fn lemma_view_keys()
    ensures
        ",\n  "@ == seq![','] + indent2(),
        "\"_generated_by\": \"rustio-design\""@ == "\"_generated_by\""@ + seq![':', ' ']
            + "\"rustio-design\""@,
        "\"project\": "@ == "\"project\""@ + seq![':', ' '],
        "\"table\": "@ == "\"table\""@ + seq![':', ' '],
        "\"default_mode\": "@ == "\"default_mode\""@ + seq![':', ' '],
        "\"modes\": [\"list\", \"cards\", \"gallery\"]"@ == "\"modes\""@ + seq![':', ' '] + (seq!['[']
            + "\"list\""@ + seq![',', ' '] + "\"cards\""@ + seq![',', ' '] + "\"gallery\""@ + seq![']']),
        "\"cells\": "@ == "\"cells\""@ + seq![':', ' '],
{
    assert(",\n  "@ =~= seq![','] + indent2()) by {
        reveal_strlit(",\n  ");
    }
    assert("\"_generated_by\": \"rustio-design\""@ =~= "\"_generated_by\""@ + seq![':', ' ']
        + "\"rustio-design\""@) by {
        reveal_strlit("\"_generated_by\": \"rustio-design\"");
        reveal_strlit("\"_generated_by\"");
        reveal_strlit("\"rustio-design\"");
    }
    assert("\"project\": "@ =~= "\"project\""@ + seq![':', ' ']) by {
        reveal_strlit("\"project\": ");
        reveal_strlit("\"project\"");
    }
    assert("\"table\": "@ =~= "\"table\""@ + seq![':', ' ']) by {
        reveal_strlit("\"table\": ");
        reveal_strlit("\"table\"");
    }
    assert("\"default_mode\": "@ =~= "\"default_mode\""@ + seq![':', ' ']) by {
        reveal_strlit("\"default_mode\": ");
        reveal_strlit("\"default_mode\"");
    }
    assert("\"modes\": [\"list\", \"cards\", \"gallery\"]"@ =~= "\"modes\""@ + seq![':', ' '] + (seq![
        '[',
    ] + "\"list\""@ + seq![',', ' '] + "\"cards\""@ + seq![',', ' '] + "\"gallery\""@ + seq![']']))
        by {
        reveal_strlit("\"modes\": [\"list\", \"cards\", \"gallery\"]");
        reveal_strlit("\"modes\"");
        reveal_strlit("\"list\"");
        reveal_strlit("\"cards\"");
        reveal_strlit("\"gallery\"");
    }
    assert("\"cells\": "@ =~= "\"cells\""@ + seq![':', ' ']) by {
        reveal_strlit("\"cells\": ");
        reveal_strlit("\"cells\"");
    }
}

/// Six members, each a key and a value, flattened.
proof fn lemma_flatten6(
    t0: Seq<char>,
    k1: Seq<char>,
    v1: Seq<char>,
    k2: Seq<char>,
    v2: Seq<char>,
    k3: Seq<char>,
    v3: Seq<char>,
    t4: Seq<char>,
    k5: Seq<char>,
    v5: Seq<char>,
    sep: Seq<char>,
)
    ensures
        t0 + sep + (k1 + v1) + sep + (k2 + v2) + sep + (k3 + v3) + sep + t4 + sep + (k5 + v5) == t0
            + sep + k1 + v1 + sep + k2 + v2 + sep + k3 + v3 + sep + t4 + sep + k5 + v5,
{
    assert(t0 + sep + (k1 + v1) + sep + (k2 + v2) + sep + (k3 + v3) + sep + t4 + sep + (k5 + v5)
        =~= t0 + sep + k1 + v1 + sep + k2 + v2 + sep + k3 + v3 + sep + t4 + sep + k5 + v5);
}

/// The member lines of the frozen object, joined by `,` and a line break.
proof fn lemma_view_join(project: Seq<char>, v: TableViewModel)
    ensures
        join(crate::json::member_texts(view_members(project, v)), seq![','] + indent2())
            == "\"_generated_by\": \"rustio-design\""@ + ",\n  "@ + "\"project\": "@
            + json_string(project) + ",\n  "@ + "\"table\": "@ + json_string(v.table) + ",\n  "@
            + "\"default_mode\": "@ + json_string(v.mode) + ",\n  "@
            + "\"modes\": [\"list\", \"cards\", \"gallery\"]"@ + ",\n  "@ + "\"cells\": "@
            + cells_text(v.cells),
{
    lemma_view_words();
    lemma_view_keys();
    let sep = seq![','] + indent2();
    let modes = arr_text(quoted_all(mode_names()), seq![], seq![' '], seq![]);
    lemma_join3(json_string("list"@), json_string("cards"@), json_string("gallery"@), seq![','] + seq![' ']);
    assert(quoted_all(mode_names()) =~= seq![json_string("list"@), json_string("cards"@), json_string("gallery"@)]);
    assert(modes =~= seq!['['] + "\"list\""@ + seq![',', ' '] + "\"cards\""@ + seq![',', ' ']
        + "\"gallery\""@ + seq![']']);
    let t0 = "\"_generated_by\": \"rustio-design\""@;
    let t1 = "\"project\": "@ + json_string(project);
    let t2 = "\"table\": "@ + json_string(v.table);
    let t3 = "\"default_mode\": "@ + json_string(v.mode);
    let t4 = "\"modes\": [\"list\", \"cards\", \"gallery\"]"@;
    let t5 = "\"cells\": "@ + cells_text(v.cells);
    let texts = crate::json::member_texts(view_members(project, v));
    assert(texts =~= seq![t0, t1, t2, t3, t4, t5]);
    lemma_join6(texts, sep);
    assert(texts[0] == t0 && texts[5] == t5);
    lemma_flatten6(
        t0,
        "\"project\": "@,
        json_string(project),
        "\"table\": "@,
        json_string(v.table),
        "\"default_mode\": "@,
        json_string(v.mode),
        t4,
        "\"cells\": "@,
        cells_text(v.cells),
        sep,
    );
}

/// How the fixed lines of the frozen file split into their parts.
proof fn lemma_view_pieces()
    ensures
        "  \"_generated_by\": \"rustio-design\",\n"@ == seq![' ', ' ']
            + "\"_generated_by\": \"rustio-design\""@ + seq![',', '\n'],
        "{\n"@ + seq![' ', ' '] == seq!['{', '\n', ' ', ' '],
        seq![',', '\n'] + "  \"project\": "@ == ",\n  "@ + "\"project\": "@,
        ",\n"@ + "  \"table\": "@ == ",\n  "@ + "\"table\": "@,
        ",\n"@ + "  \"default_mode\": "@ == ",\n  "@ + "\"default_mode\": "@,
        "  \"modes\": [\"list\", \"cards\", \"gallery\"],\n"@ == seq![' ', ' ']
            + "\"modes\": [\"list\", \"cards\", \"gallery\"]"@ + seq![',', '\n'],
        "  \"cells\": [\n"@ == seq![' ', ' '] + "\"cells\": "@ + seq!['[', '\n'],
        ",\n"@ + seq![' ', ' '] == ",\n  "@,
        seq![',', '\n'] + seq![' ', ' '] == ",\n  "@,
        "  ]\n"@ + "}\n"@ == seq![' ', ' ', ']', '\n', '}', '\n'],
{
    assert("  \"_generated_by\": \"rustio-design\",\n"@ =~= seq![' ', ' ']
        + "\"_generated_by\": \"rustio-design\""@ + seq![',', '\n']) by {
        reveal_strlit("  \"_generated_by\": \"rustio-design\",\n");
        reveal_strlit("\"_generated_by\": \"rustio-design\"");
    }
    assert("{\n"@ + seq![' ', ' '] =~= seq!['{', '\n', ' ', ' ']) by {
        reveal_strlit("{\n");
    }
    assert(seq![',', '\n'] + "  \"project\": "@ =~= ",\n  "@ + "\"project\": "@) by {
        reveal_strlit("  \"project\": ");
        reveal_strlit(",\n  ");
        reveal_strlit("\"project\": ");
    }
    assert(",\n"@ + "  \"table\": "@ =~= ",\n  "@ + "\"table\": "@) by {
        reveal_strlit(",\n");
        reveal_strlit("  \"table\": ");
        reveal_strlit(",\n  ");
        reveal_strlit("\"table\": ");
    }
    assert(",\n"@ + "  \"default_mode\": "@ =~= ",\n  "@ + "\"default_mode\": "@) by {
        reveal_strlit(",\n");
        reveal_strlit("  \"default_mode\": ");
        reveal_strlit(",\n  ");
        reveal_strlit("\"default_mode\": ");
    }
    assert("  \"modes\": [\"list\", \"cards\", \"gallery\"],\n"@ =~= seq![' ', ' ']
        + "\"modes\": [\"list\", \"cards\", \"gallery\"]"@ + seq![',', '\n']) by {
        reveal_strlit("  \"modes\": [\"list\", \"cards\", \"gallery\"],\n");
        reveal_strlit("\"modes\": [\"list\", \"cards\", \"gallery\"]");
    }
    assert("  \"cells\": [\n"@ =~= seq![' ', ' '] + "\"cells\": "@ + seq!['[', '\n']) by {
        reveal_strlit("  \"cells\": [\n");
        reveal_strlit("\"cells\": ");
    }
    assert(",\n"@ + seq![' ', ' '] =~= ",\n  "@ && seq![',', '\n'] + seq![' ', ' '] =~= ",\n  "@)
        by {
        reveal_strlit(",\n");
        reveal_strlit(",\n  ");
    }
    assert("  ]\n"@ + "}\n"@ =~= seq![' ', ' ', ']', '\n', '}', '\n']) by {
        reveal_strlit("  ]\n");
        reveal_strlit("}\n");
    }
}

/// The frozen file is the object of `view_members`, then a line break.
#[verifier::rlimit(40)]
proof fn lemma_view_text(project: Seq<char>, v: TableViewModel)
    ensures
        view_json(project, v) == obj_text(view_members(project, v), indent2(), indent2(), seq!['\n'])
            + seq!['\n'],
{
    lemma_view_join(project, v);
    lemma_cells_text(v.cells);
    lemma_view_pieces();
    let jp = json_string(project);
    let jt = json_string(v.table);
    let jm = json_string(v.mode);
    let ck = cells_json(v.cells, v.cells.len() as int);
    let h = seq!['{', '\n', ' ', ' '];
    let sep = ",\n  "@;
    let g = "\"_generated_by\": \"rustio-design\""@;
    let md = "\"modes\": [\"list\", \"cards\", \"gallery\"]"@;
    let b1 = g + sep + "\"project\": "@ + jp;
    let b2 = b1 + sep + "\"table\": "@ + jt;
    let b3 = b2 + sep + "\"default_mode\": "@ + jm;
    let b4 = b3 + sep + md + sep + "\"cells\": "@ + cells_text(v.cells);
    let s1 = "{\n"@ + "  \"_generated_by\": \"rustio-design\",\n"@ + "  \"project\": "@ + jp;
    let s2 = s1 + ",\n"@ + "  \"table\": "@ + jt;
    let s3 = s2 + ",\n"@ + "  \"default_mode\": "@ + jm;
    let s4 = s3 + ",\n"@ + "  \"modes\": [\"list\", \"cards\", \"gallery\"],\n"@ + "  \"cells\": [\n"@
        + ck;
    lemma_regroup_head(
        "{\n"@,
        seq![' ', ' '],
        g,
        seq![',', '\n'],
        "  \"project\": "@,
        h,
        sep,
        "\"project\": "@,
    );
    lemma_regroup_front(h, g, sep, "\"project\": "@, jp);
    assert(s1 == h + b1);
    lemma_regroup(h, b1, ",\n"@, "  \"table\": "@, sep, "\"table\": "@, jt);
    assert(s2 == h + b2);
    lemma_regroup(h, b2, ",\n"@, "  \"default_mode\": "@, sep, "\"default_mode\": "@, jm);
    assert(s3 == h + b3);
    lemma_regroup_mid(",\n"@, seq![' ', ' '], md, seq![',', '\n'], "\"cells\": "@, seq!['[', '\n'], sep);
    lemma_regroup_last(
        h,
        b3,
        ",\n"@,
        "  \"modes\": [\"list\", \"cards\", \"gallery\"],\n"@,
        "  \"cells\": [\n"@,
        ck,
        sep + md + sep + "\"cells\": "@,
    );
    assert(s4 + seq![' ', ' ', ']'] == h + b4);
    lemma_close(s4, h + b4, "  ]\n"@, "}\n"@);
    assert(view_json(project, v) == s4 + "  ]\n"@ + "}\n"@);
    assert(h =~= seq!['{'] + indent2());
}

/// Regrouping the opening of the file: `a + sp` is `h`, `cn + p` is `sep + pq`.
proof fn lemma_regroup_head(
    a: Seq<char>,
    sp: Seq<char>,
    g: Seq<char>,
    cn: Seq<char>,
    p: Seq<char>,
    h: Seq<char>,
    sep: Seq<char>,
    pq: Seq<char>,
)
    requires
        a + sp == h,
        cn + p == sep + pq,
    ensures
        a + (sp + g + cn) + p == h + g + sep + pq,
{
    assert(a + (sp + g + cn) + p =~= (a + sp) + g + (cn + p));
    assert(h + g + (sep + pq) =~= h + g + sep + pq);
}

/// Regrouping the `modes` line and the head of the `cells` line.
proof fn lemma_regroup_mid(
    c: Seq<char>,
    sp: Seq<char>,
    md: Seq<char>,
    cn: Seq<char>,
    cq: Seq<char>,
    lb: Seq<char>,
    sep: Seq<char>,
)
    requires
        c + sp == sep,
        cn + sp == sep,
    ensures
        c + (sp + md + cn) + (sp + cq + lb) == sep + md + sep + cq + lb,
{
    assert(c + (sp + md + cn) + (sp + cq + lb) =~= (c + sp) + md + (cn + sp) + cq + lb);
}

/// Regrouping the front of a written line: `h` then three parts and `j`.
proof fn lemma_regroup_front(h: Seq<char>, a: Seq<char>, b: Seq<char>, c: Seq<char>, j: Seq<char>)
    ensures
        h + a + b + c + j == h + (a + b + c + j),
{
    assert(h + a + b + c + j =~= h + (a + b + c + j));
}

/// Regrouping one more member: `c + t`, written as `u + v`, then `j`.
proof fn lemma_regroup(
    h: Seq<char>,
    b: Seq<char>,
    c: Seq<char>,
    t: Seq<char>,
    u: Seq<char>,
    v: Seq<char>,
    j: Seq<char>,
)
    requires
        c + t == u + v,
    ensures
        h + b + c + t + j == h + (b + u + v + j),
{
    assert(h + b + c + t =~= h + b + (c + t));
    assert(h + b + c + t + j =~= h + (b + u + v + j));
}

/// Regrouping the last members, up to the closing `]` of the cells array.
proof fn lemma_regroup_last(
    h: Seq<char>,
    b: Seq<char>,
    c: Seq<char>,
    m: Seq<char>,
    l: Seq<char>,
    k: Seq<char>,
    w: Seq<char>,
)
    requires
        c + m + l == w + seq!['[', '\n'],
    ensures
        h + b + c + m + l + k + seq![' ', ' ', ']'] == h + (b + w + (seq!['[', '\n'] + k + seq![
            ' ',
            ' ',
            ']',
        ])),
{
    assert(h + b + c + m + l =~= h + b + (c + m + l));
    assert(h + b + c + m + l + k + seq![' ', ' ', ']'] =~= h + (b + w + (seq!['[', '\n'] + k
        + seq![' ', ' ', ']'])));
}

/// The closing lines of the file.
proof fn lemma_close(x: Seq<char>, y: Seq<char>, q: Seq<char>, z: Seq<char>)
    requires
        x + seq![' ', ' ', ']'] == y,
        q + z == seq![' ', ' ', ']', '\n', '}', '\n'],
    ensures
        x + q + z == y + seq!['\n'] + seq!['}'] + seq!['\n'],
{
    assert(x + q + z =~= x + (q + z));
    assert(x + q + z =~= y + seq!['\n'] + seq!['}'] + seq!['\n']);
}

/// The `modes` array reads back as the three mode names.
proof fn lemma_modes_parse()
    ensures
        parses_as(
            arr_text(quoted_all(mode_names()), seq![], seq![' '], seq![]),
            Json::Arr(str_values(mode_names())),
        ),
{
    lemma_view_words();
    let names = mode_names();
    let items = quoted_all(names);
    let nv = str_values(names);
    assert forall|i: int| 0 <= i < items.len() implies parses_as(#[trigger] items[i], nv[i])
        && starts_value(items[i]) by {
        lemma_string_parses(names[i]);
    }
    assert(all_ws(seq![' ']));
    assert(all_ws(Seq::<char>::empty()));
    lemma_array(items, nv, seq![], seq![' '], seq![]);
}

/// The file's object reads back as `view_value`.
proof fn lemma_view_object(project: Seq<char>, v: TableViewModel)
    requires
        plain(project),
        plain(v.table),
        plain(v.mode),
        forall|i: int| 0 <= i < v.cells.len() ==> cell_plain(#[trigger] v.cells[i]),
    ensures
        parses_as(
            obj_text(view_members(project, v), indent2(), indent2(), seq!['\n']),
            view_value(project, v),
        ),
{
    lemma_view_words();
    lemma_cells_parse(v.cells);
    lemma_modes_parse();
    lemma_string_parses("rustio-design"@);
    lemma_string_parses(project);
    lemma_string_parses(v.table);
    lemma_string_parses(v.mode);
    assert(all_ws(indent2()));
    assert(all_ws(seq!['\n']));
    let ms = view_members(project, v);
    let vals = seq![
        Json::Str("rustio-design"@),
        Json::Str(project),
        Json::Str(v.table),
        Json::Str(v.mode),
        Json::Arr(str_values(mode_names())),
        Json::Arr(cell_values(v.cells)),
    ];
    assert forall|i: int| 0 <= i < ms.len() implies plain(#[trigger] ms[i].0) by {}
    assert forall|i: int| 0 <= i < ms.len() implies parses_as(#[trigger] ms[i].1, vals[i]) by {}
    lemma_object(ms, vals, indent2(), indent2(), seq!['\n']);
    assert(members_of(ms, vals) =~= seq![
        ("_generated_by"@, Json::Str("rustio-design"@)),
        ("project"@, Json::Str(project)),
        ("table"@, Json::Str(v.table)),
        ("default_mode"@, Json::Str(v.mode)),
        ("modes"@, Json::Arr(str_values(mode_names()))),
        ("cells"@, Json::Arr(cell_values(v.cells))),
    ]);
}

/// The file's object followed by a line break decodes to `view_value`.
proof fn lemma_view_decodes(project: Seq<char>, v: TableViewModel)
    requires
        plain(project),
        plain(v.table),
        plain(v.mode),
        forall|i: int| 0 <= i < v.cells.len() ==> cell_plain(#[trigger] v.cells[i]),
    ensures
        decodes_to(
            obj_text(view_members(project, v), indent2(), indent2(), seq!['\n']) + seq!['\n'],
            view_value(project, v),
        ),
{
    lemma_view_object(project, v);
    let text = obj_text(view_members(project, v), indent2(), indent2(), seq!['\n']);
    assert(parse_value(text + seq!['\n']) == Some((view_value(project, v), seq!['\n'])));
    assert(skip_jws(seq!['\n']) =~= Seq::<char>::empty()) by {
        assert(seq!['\n'].skip(1) =~= Seq::<char>::empty());
        assert(is_json_ws(seq!['\n'][0]));
        assert(skip_jws(Seq::<char>::empty()) == Seq::<char>::empty());
    }
}

/// The frozen view file is valid JSON: when the project name and the view's
/// table, mode, members, roles and styles hold no control character other
/// than newline, tab and carriage return, `view_json(project, v)` is one JSON
/// object whose members are, in order, `_generated_by` ("rustio-design"),
/// `project`, `table`, `default_mode`, `modes` (["list", "cards", "gallery"])
/// and `cells`, one `{ members, role, style }` object per cell.
pub proof fn law_view_json_decodes(project: Seq<char>, v: TableViewModel)
    requires
        plain(project),
        plain(v.table),
        plain(v.mode),
        forall|i: int| 0 <= i < v.cells.len() ==> cell_plain(#[trigger] v.cells[i]),
    ensures
        decodes_to(view_json(project, v), view_value(project, v)),
{
    lemma_view_text(project, v);
    lemma_view_decodes(project, v);
}

} // verus!
