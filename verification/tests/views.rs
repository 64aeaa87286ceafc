use rustio_design::spec::{Spec, TableView};
use rustio_design::toml_lite::Document;
use rustio_design::views::{build_view_json, lint};

fn view(toml: &str) -> TableView {
    Spec::new(Document::parse(toml).unwrap())
        .views()
        .pop()
        .expect("one view")
}

#[test]
fn flags_duplicate_field_and_bad_mode() {
    let v = view("[views.bookings]\nmode = \"grid\"\nprimary = \"a\"\nsecondary = \"a\"\n");
    let l = lint(&v, None);
    assert!(l.errors.iter().any(|e| e.contains("placed more than once")));
    assert!(l.errors.iter().any(|e| e.contains("not one of")));
}

#[test]
fn warns_on_unknown_column_with_hint() {
    let v = view("[views.bookings]\nprimary = \"custmer\"\n");
    let cols = vec!["customer".to_string(), "status".to_string()];
    let l = lint(&v, Some(&cols));
    assert!(l.errors.is_empty());
    assert!(l
        .warnings
        .iter()
        .any(|w| w.contains("did you mean `customer`")));
}

#[test]
fn json_is_deterministic_and_composed() {
    let v = view(
        "[views.bookings]\nmode = \"list\"\nprimary = \"booked_at\"\n\
         secondary = \"customer + phone (inline), status (badge)\"\nhidden = \"id\"\n",
    );
    let j = build_view_json("salon", &v);
    assert!(j.contains("\"default_mode\": \"list\""));
    assert!(j.contains(
        "\"members\": [\"customer\", \"phone\"], \"role\": \"secondary\", \"style\": \"inline\""
    ));
    assert!(
        j.contains("\"members\": [\"status\"], \"role\": \"secondary\", \"style\": \"badge\"")
    );
    assert_eq!(build_view_json("salon", &v), j); // reproducible
}

#[test]
fn lint_messages_are_exact() {
    let v = view("[views.bookings]\nmode = \"grid\"\nsecondary = \"a, a\"\nwat = \"x\"\n");
    let l = lint(&v, None);
    assert_eq!(
        l.errors,
        vec![
            "[views.bookings] mode `grid` is not one of [\"list\", \"cards\", \"gallery\"]".to_string(),
            "[views.bookings] field `a` is placed more than once — list it in one role".to_string(),
        ]
    );
    assert_eq!(
        l.warnings,
        vec![
            "[views.bookings] unknown key `wat` — expected mode / primary / secondary / detail / hidden / model / source / _out".to_string(),
            "[views.bookings] no `primary` field — the record has nothing to lead with".to_string(),
            "[views.bookings] could not read the table's columns — set `model` (and `source`) to validate field names; coverage not verified".to_string(),
        ]
    );
}

#[test]
fn clean_view_has_no_errors_and_reports_coverage() {
    let v = view("[views.t]\nmode = \"cards\"\nprimary = \"a\"\ndetail = \"b\"\n");
    let cols = vec!["a".to_string(), "b".to_string(), "c".to_string()];
    let l = lint(&v, Some(&cols));
    assert!(l.errors.is_empty());
    assert_eq!(
        l.warnings,
        vec!["[views.t] column `c` is unplaced — it will be hidden; add it to a role to show it, or to `hidden` to silence this".to_string()]
    );
}

#[test]
fn unknown_field_without_close_column_gets_no_hint() {
    let v = view("[views.t]\nprimary = \"zz\"\n");
    let cols = vec!["zz_top".to_string(), "ab".to_string()];
    let l = lint(&v, Some(&cols));
    assert!(l
        .warnings
        .contains(&"[views.t] `zz` matches no column on the model".to_string()));
}

#[test]
fn view_json_exact_text_with_escapes() {
    let v = view("[views.t]\nmode = \"gallery\"\nprimary = \"a\"\n");
    assert_eq!(
        build_view_json("my \"app\"", &v),
        "{\n  \"_generated_by\": \"rustio-design\",\n  \"project\": \"my \\\"app\\\"\",\n  \"table\": \"t\",\n  \"default_mode\": \"gallery\",\n  \"modes\": [\"list\", \"cards\", \"gallery\"],\n  \"cells\": [\n    { \"members\": [\"a\"], \"role\": \"primary\", \"style\": \"stacked\" }\n  ]\n}\n"
    );
}

#[test]
fn view_json_escapes_control_characters() {
    let v = view("[views.t]\nprimary = \"a\"\n");
    let j = build_view_json("x\u{1f}y\tz", &v);
    assert!(j.contains("\"project\": \"x\\u001fy\\tz\",\n"));
}
