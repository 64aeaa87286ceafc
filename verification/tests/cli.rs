use rustio_design::cli::{
    check_findings, default_table, flag_value, generated_readme, plan_build, plan_schemas,
    recorded_files, root_from_parent, spec_root, view_columns, wire_env_text, Observed,
};
use rustio_design::manifest::Manifest;
use rustio_design::spec::Spec;
use rustio_design::toml_lite::Document;
use rustio_design::validate::ContrastGrade;
use rustio_design::views::build_view_json;

fn args(a: &[&str]) -> Vec<String> {
    a.iter().map(|s| s.to_string()).collect()
}

#[test]
fn flag_value_reads_the_next_argument() {
    let a = args(&["rustio-design", "build", "--spec", "x.toml", "--spec", "y.toml"]);
    assert_eq!(flag_value(&a, "--spec"), Some("x.toml".to_string()));
    assert_eq!(flag_value(&a, "--out"), None);
    assert_eq!(flag_value(&args(&["schema", "--model"]), "--model"), None);
}

#[test]
fn spec_root_is_the_parent_or_dot() {
    assert_eq!(spec_root("rustio.design.toml"), ".");
    assert_eq!(spec_root("site/rustio.design.toml"), "site");
    assert_eq!(spec_root("/abs/dir/spec.toml"), "/abs/dir");
    assert_eq!(spec_root(""), ".");
}

#[test]
fn root_from_parent_falls_back_to_dot() {
    assert_eq!(root_from_parent(Some("site".to_string())), "site");
    assert_eq!(root_from_parent(Some(String::new())), ".");
    assert_eq!(root_from_parent(None), ".");
}

#[test]
fn default_table_lowercases_and_pluralises() {
    assert_eq!(default_table("Booking"), "bookings");
    assert_eq!(default_table("OrderItem"), "orderitems");
    assert_eq!(default_table("ΣΟΦΙΑ"), "σοφιαs");
}

#[test]
fn readme_and_wire_env_texts() {
    let r = generated_readme("Salon");
    assert!(r.starts_with("# generated/ — DO NOT EDIT\n\nEvery file in this directory is generated by **rustio-design** for\nproject **Salon** from `../rustio.design.toml`.\n"));
    assert!(r.ends_with("```sh\nsource generated/wire.env && cargo run\n```\n"));
    assert_eq!(
        wire_env_text("site/generated/tokens.css", "/abs/site/generated/tokens.css"),
        "# Generated by rustio-design — source this to serve the design without\n# recompiling rustio-admin. Re-run `rustio-design build` to refresh.\n#\n#   source site/generated/wire.env && cargo run\n#\nexport RUSTIO_TOKENS_CSS=\"/abs/site/generated/tokens.css\"\n"
    );
    assert!(wire_env_text("tokens.css", "/t").contains("#   source ./wire.env && cargo run\n"));
}

#[test]
fn view_columns_come_from_the_model_struct() {
    let src = "pub struct Booking { pub id: Uuid, pub customer: String }";
    assert_eq!(
        view_columns(src, "Booking"),
        Some(vec!["id".to_string(), "customer".to_string()])
    );
    assert_eq!(view_columns(src, "Invoice"), None);
}

#[test]
fn schema_all_extracts_every_registered_model() {
    let src = "pub struct Booking { pub id: Uuid, pub customer: String }\n\
               pub struct Invoice { pub total: i64 }\n\
               fn main() { App::new().model::<Booking>().model::<Invoice>().run(); }\n";
    let plan = plan_schemas("T", "src/main.rs", src).unwrap();
    let bookings = plan
        .files
        .iter()
        .find(|f| f.table == "bookings")
        .expect("bookings.json");
    assert!(bookings.json.contains("\"name\": \"customer\""));
    assert!(bookings.json.contains("\"type\": \"uuid\""));
    assert!(plan.files.iter().any(|f| f.table == "invoices"));
    assert!(plan.missing.is_empty());
}

#[test]
fn schema_all_reports_models_without_a_struct() {
    let src = "pub struct Booking { pub id: Uuid, pub customer: String }\n\
               pub struct Invoice { pub total: i64 }\n\
               fn main() { App::new().model::<Booking>().model::<Invoice>().model::<Ghost>().run(); }\n";
    let plan = plan_schemas("T", "src/main.rs", src).unwrap();
    let files: Vec<(&str, &str, usize)> = plan
        .files
        .iter()
        .map(|f| (f.model.as_str(), f.table.as_str(), f.columns))
        .collect();
    assert_eq!(files, vec![("Booking", "bookings", 2), ("Invoice", "invoices", 1)]);
    assert_eq!(plan.missing, vec!["Ghost"]);
    assert_eq!(
        plan_schemas("T", "src/lib.rs", "fn main() {}").err(),
        Some("no `.model::<…>()` registrations found in src/lib.rs — pass --source <path>".to_string())
    );
}

fn built() -> Manifest {
    let mut m = Manifest::new();
    m.set("rustio.design.toml", "S");
    m.set("generated/tokens.css", "T");
    m.set("generated/wire.env", "W");
    m
}

fn seen(path: &str, hash: Option<&str>) -> Observed {
    Observed {
        path: path.to_string(),
        hash: hash.map(|h| h.to_string()),
    }
}

#[test]
fn in_sync_output_reports_only_lint_errors() {
    let m = built();
    let obs = vec![
        seen("./rustio.design.toml", Some("S")),
        seen("./generated/tokens.css", Some("T")),
        seen("./generated/wire.env", Some("W")),
    ];
    let none: Vec<String> = Vec::new();
    assert!(check_findings(&none, &none, &none, &m, "rustio.design.toml", "S", &obs).is_empty());
    let errs = vec!["bad".to_string()];
    assert_eq!(
        check_findings(&errs, &none, &errs, &m, "rustio.design.toml", "S", &obs),
        vec!["  error:   bad".to_string(), "  error:   bad".to_string()]
    );
}

#[test]
fn stale_drift_and_missing_are_reported() {
    let m = built();
    let obs = vec![
        seen("./rustio.design.toml", None),
        seen("./generated/tokens.css", Some("edited")),
        seen("./generated/wire.env", None),
    ];
    let none: Vec<String> = Vec::new();
    assert_eq!(
        check_findings(&none, &none, &none, &m, "rustio.design.toml", "S2", &obs),
        vec![
            "  stale:   rustio.design.toml changed since last build — run `rustio-design build`".to_string(),
            "  drift:   ./generated/tokens.css was hand-edited — edit the spec and run `build`".to_string(),
            "  missing: ./generated/wire.env — run `rustio-design build`".to_string(),
        ]
    );
}

fn spec(toml: &str) -> Spec {
    Spec::new(Document::parse(toml).unwrap())
}

fn all_pass(s: &Spec) -> Vec<ContrastGrade> {
    s.raw_tokens().iter().map(|_| ContrastGrade::Pass).collect()
}

#[test]
fn build_refuses_on_doctrine_errors() {
    let s = spec("[brand]\ncolor = \"nope\"\nderive = true\n");
    let r = plan_build(&s, &all_pass(&s), None, &Vec::new());
    let f = r.err().expect("refused");
    assert_eq!(f.message, "1 doctrine error(s) — nothing was generated");
    assert_eq!(f.errors, vec!["[brand].color `nope` is not a valid #rgb / #rrggbb color".to_string()]);
    assert_eq!(f.warnings.len(), 1);
}

#[test]
fn build_refuses_on_navigation_then_view_errors() {
    let s = spec("[navigation]\nA = \"X\"\nB = \"X\"\n");
    let f = plan_build(&s, &all_pass(&s), None, &Vec::new()).err().expect("refused");
    assert_eq!(f.message, "1 navigation error(s) — nothing was generated");
    assert_eq!(
        f.warnings,
        vec!["[navigation] could not read the project's models (src/main.rs) — coverage not verified".to_string()]
    );

    let s = spec("[views.a]\nprimary = \"x\"\n[views.b]\nmode = \"grid\"\nprimary = \"y, y\"\n");
    let cols = vec![Some(vec!["x".to_string()]), None];
    let f = plan_build(&s, &all_pass(&s), None, &cols).err().expect("refused");
    assert_eq!(f.message, "2 view error(s) — nothing was generated");
    assert_eq!(f.errors.len(), 2);
    assert_eq!(
        f.warnings,
        vec!["[views.b] could not read the table's columns — set `model` (and `source`) to validate field names; coverage not verified".to_string()]
    );
}

#[test]
fn build_lists_readme_sidebar_and_views_in_order() {
    let s = spec("[project]\nname = \"Salon\"\nout_dir = \"gen\"\n[navigation]\nBookings = \"Bookings\"\n[views.bookings]\nprimary = \"id\"\n");
    let models = vec!["Booking".to_string()];
    let cols = vec![Some(vec!["id".to_string()])];
    let plan = plan_build(&s, &all_pass(&s), Some(&models), &cols).ok().expect("built");
    assert!(plan.warnings.is_empty(), "{:?}", plan.warnings);
    let paths: Vec<&str> = plan.outputs.iter().map(|(p, _)| p.as_str()).collect();
    assert_eq!(
        paths,
        vec![
            "gen/README.md",
            "generated/templates/admin/_sidebar.html",
            "gen/views/bookings.view.json",
            "generated/templates/admin/bookings/list.html",
        ]
    );
    assert_eq!(plan.outputs[0].1, generated_readme("Salon"));
    let view = s.views().pop().unwrap();
    assert_eq!(plan.outputs[2].1, build_view_json("Salon", &view));
}

#[test]
fn build_freezes_each_view_under_the_output_dir() {
    let s = spec("[project]\nname = \"T\"\n\n[views.bookings]\nmodel = \"Booking\"\nprimary = \"id\"\n");
    let cols = vec![view_columns("pub struct Booking { pub id: Uuid }\nfn main() {}\n", "Booking")];
    let plan = plan_build(&s, &all_pass(&s), None, &cols).ok().expect("built");
    let view = s.views().pop().unwrap();
    assert_eq!(
        plan.outputs,
        vec![
            ("generated/README.md".to_string(), generated_readme("T")),
            ("generated/views/bookings.view.json".to_string(), build_view_json("T", &view)),
            (
                "generated/templates/admin/bookings/list.html".to_string(),
                build_view_json("T", &view),
            ),
        ]
    );
}

#[test]
fn build_writes_each_view_at_its_out_path_too() {
    let s = spec("[views.products]\nprimary = \"name\"\n_out = \"templates/admin/products/list.html\"\n");
    let cols = vec![Some(vec!["name".to_string()])];
    let plan = plan_build(&s, &all_pass(&s), None, &cols).ok().expect("built");
    let view = s.views().pop().unwrap();
    let json = build_view_json("rustio-admin", &view);
    assert_eq!(
        plan.outputs[1..].to_vec(),
        vec![
            ("generated/views/products.view.json".to_string(), json.clone()),
            ("templates/admin/products/list.html".to_string(), json),
        ]
    );
}

#[test]
fn manifest_records_spec_tokens_wire_then_outputs() {
    let s = spec("[project]\nout_dir = \"gen\"\n");
    let plan = plan_build(&s, &all_pass(&s), None, &vec![]).ok().expect("built");
    let files = recorded_files("design.toml", "SRC", &s, "CSS", "WIRE", &plan);
    assert_eq!(
        files,
        vec![
            ("design.toml".to_string(), "SRC".to_string()),
            ("gen/tokens.css".to_string(), "CSS".to_string()),
            ("gen/wire.env".to_string(), "WIRE".to_string()),
            ("gen/README.md".to_string(), generated_readme("rustio-admin")),
        ]
    );
}
