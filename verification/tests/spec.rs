use rustio_design::spec::{normalize_style, parse_cells, split_items, Spec};
use rustio_design::toml_lite::Document;

fn spec(toml: &str) -> Spec {
    Spec::new(Document::parse(toml).unwrap())
}

#[test]
fn design_paths_default_when_absent() {
    let spec = Spec::new(Document::parse("[project]\nname = \"X\"\n").unwrap());
    let p = spec.design_paths();
    assert_eq!(p.brief, "design/DESIGN_BRIEF.md");
    assert_eq!(p.reasoning, "design/DESIGN_REASONING.md");
    assert_eq!(p.history, "design/DESIGN_HISTORY.md");
}

#[test]
fn design_paths_honor_overrides() {
    let spec = Spec::new(Document::parse("[design]\nbrief = \"docs/brief.md\"\n").unwrap());
    assert_eq!(spec.design_paths().brief, "docs/brief.md");
    // unspecified keys still fall back to defaults
    assert_eq!(spec.design_paths().decisions, "design/DESIGN_DECISIONS.md");
}

#[test]
fn project_settings_and_defaults() {
    let s = spec("[project]\nname = \"Shop\"\nout_dir = \"out\"\nrustio_admin_path = \"../ra\"\n[brand]\ncolor = \"#123\"\nderive = true\n");
    assert_eq!(s.project_name(), "Shop");
    assert_eq!(s.out_dir(), "out");
    assert_eq!(s.rustio_admin_path(), Some("../ra"));
    assert_eq!(s.brand_color(), Some("#123"));
    assert!(s.brand_derive());
    let d = spec("");
    assert_eq!(d.project_name(), "rustio-admin");
    assert_eq!(d.out_dir(), "generated");
    assert_eq!(d.rustio_admin_path(), None);
    assert_eq!(d.brand_color(), None);
    assert!(!d.brand_derive());
}

#[test]
fn raw_tokens_come_from_the_four_sections_in_order() {
    let s = spec("[typography]\nfs-h1 = \"2rem\"\n[colors]\naccent = \"#f00\"\nflag = true\n[radius]\nsm = \"4px\"\n");
    let t: Vec<(String, String, String)> = s
        .raw_tokens()
        .into_iter()
        .map(|t| (t.section, t.key, t.value))
        .collect();
    assert_eq!(
        t,
        vec![
            ("colors".to_string(), "accent".to_string(), "#f00".to_string()),
            ("radius".to_string(), "sm".to_string(), "4px".to_string()),
            ("typography".to_string(), "fs-h1".to_string(), "2rem".to_string()),
        ]
    );
}

#[test]
fn custom_css_is_trimmed_and_blank_is_none() {
    assert_eq!(
        spec("[custom_css]\nrules = \"  a { } \"\n").custom_css(),
        Some("a { }")
    );
    assert_eq!(spec("[custom_css]\nrules = \"   \"\n").custom_css(), None);
    assert_eq!(spec("").custom_css(), None);
}

#[test]
fn navigation_groups_hidden_and_out() {
    let nav = spec("[navigation]\nCatalogue = \"Products, Categories\"\n_hidden = \"Order items\"\n_out = \"x/side.html\"\n")
        .navigation()
        .unwrap();
    assert_eq!(nav.groups.len(), 1);
    assert_eq!(nav.groups[0].label, "Catalogue");
    assert_eq!(nav.groups[0].items, vec!["Products", "Categories"]);
    assert_eq!(nav.hidden, vec!["Order items"]);
    assert_eq!(nav.out, "x/side.html");
    assert!(spec("[navigation]\n_hidden = \"A\"\n").navigation().is_none());
    assert!(spec("").navigation().is_none());
}

#[test]
fn views_collect_cells_in_role_order() {
    let views = spec("[views.bookings]\nmodel = \"Booking\"\nprimary = \"booked_at\"\nsecondary = \"customer + phone (inline), status (badge)\"\nhidden = \"id\"\ncolour = \"x\"\n").views();
    assert_eq!(views.len(), 1);
    let v = &views[0];
    assert_eq!(v.table, "bookings");
    assert_eq!(v.mode, "list");
    assert_eq!(v.model.as_deref(), Some("Booking"));
    assert_eq!(v.source, None);
    assert_eq!(v.out, "generated/templates/admin/bookings/list.html");
    assert_eq!(v.unknown_keys, vec!["colour"]);
    let cells: Vec<(Vec<String>, String, String)> = v
        .cells
        .iter()
        .map(|c| (c.members.clone(), c.role.clone(), c.style.clone()))
        .collect();
    assert_eq!(
        cells,
        vec![
            (vec!["booked_at".to_string()], "primary".to_string(), "stacked".to_string()),
            (vec!["customer".to_string(), "phone".to_string()], "secondary".to_string(), "inline".to_string()),
            (vec!["status".to_string()], "secondary".to_string(), "badge".to_string()),
            (vec!["id".to_string()], "hidden".to_string(), "stacked".to_string()),
        ]
    );
    assert!(spec("[views.empty]\nmode = \"cards\"\n").views().is_empty());
}

#[test]
fn list_helpers_split_and_normalize() {
    assert_eq!(split_items(" a, ,b ,c"), vec!["a", "b", "c"]);
    assert!(split_items("").is_empty());
    assert_eq!(normalize_style("inline"), "inline");
    assert_eq!(normalize_style("badge"), "badge");
    assert_eq!(normalize_style(" inline "), "stacked");
    assert_eq!(normalize_style("BADGE"), "stacked");
    assert_eq!(normalize_style("weird"), "stacked");
    assert_eq!(
        parse_cells("a + b ( inline ), c, (badge), d (x"),
        vec![
            (vec!["a".to_string(), "b".to_string()], "inline".to_string()),
            (vec!["c".to_string()], "stacked".to_string()),
            (vec!["d (x".to_string()], "stacked".to_string()),
        ]
    );
}

#[test]
fn repeated_token_sections_all_take_effect() {
    let s = spec("[radius]\ndefault = \"8px\"\n[colors]\naccent = \"#fff\"\nbg = \"#000\"\n[colors]\ntext = \"#111\"\n");
    let t: Vec<(String, String, String)> = s
        .raw_tokens()
        .into_iter()
        .map(|t| (t.section, t.key, t.value))
        .collect();
    assert_eq!(
        t,
        vec![
            ("colors".to_string(), "accent".to_string(), "#fff".to_string()),
            ("colors".to_string(), "bg".to_string(), "#000".to_string()),
            ("colors".to_string(), "text".to_string(), "#111".to_string()),
            ("radius".to_string(), "default".to_string(), "8px".to_string()),
        ]
    );
}
