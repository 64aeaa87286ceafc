use rustio_design::spec::Spec;
use rustio_design::toml_lite::Document;
use rustio_design::validate::{validate, ContrastGrade};

fn spec(toml: &str) -> Spec {
    Spec::new(Document::parse(toml).unwrap())
}

fn passes(s: &Spec) -> Vec<ContrastGrade> {
    s.raw_tokens().iter().map(|_| ContrastGrade::Pass).collect()
}

#[test]
fn clean_spec_is_ok() {
    let s = spec("[brand]\ncolor = \"#2563eb\"\n[colors]\naccent = \"#f00\"\n[radius]\ndefault = \"8px\"\n");
    let r = validate(&s, &passes(&s));
    assert!(r.is_ok());
    assert!(r.errors.is_empty() && r.warnings.is_empty());
}

#[test]
fn bad_brand_and_unknown_token_are_errors() {
    let s = spec("[brand]\ncolor = \"blue\"\nderive = true\n[colors]\nacccent = \"#f00\"\n");
    let r = validate(&s, &passes(&s));
    assert!(!r.is_ok());
    assert_eq!(
        r.errors,
        vec![
            "[brand].color `blue` is not a valid #rgb / #rrggbb color".to_string(),
            "unknown token `acccent` in [colors] → `--rio-acccent` is not a rustio-admin token — did you mean `--rio-accent`?".to_string(),
        ]
    );
    assert_eq!(
        r.warnings,
        vec!["[brand].derive = true but no [project].rustio_admin_path is set — the WCAG-safe ramp cannot be generated; the literal brand color will be used instead".to_string()]
    );
}

#[test]
fn text_colors_are_graded_by_contrast() {
    let s = spec("[colors]\ntext = \"#aaa\"\ntext-muted = \"#888\"\naccent = \"#eee\"\ntext-strong = \"#000\"\n");
    let grades = vec![
        ContrastGrade::Fail("2.32".to_string()),
        ContrastGrade::Borderline("3.54".to_string()),
        ContrastGrade::Fail("1.16".to_string()),
        ContrastGrade::Pass,
    ];
    let r = validate(&s, &grades);
    assert_eq!(
        r.errors,
        vec!["[colors].text = #aaa fails contrast on white (2.32:1, need ≥ 4.5) — unreadable".to_string()]
    );
    assert_eq!(
        r.warnings,
        vec!["[colors].text-muted = #888 is borderline on white (3.54:1, WCAG AA wants ≥ 4.5)".to_string()]
    );
}

#[test]
fn custom_css_hard_rules() {
    let s = spec("[custom_css]\nrules = \"@IMPORT x; a { background: URL(http://x) } <script> HasSchema\"\n");
    let r = validate(&s, &passes(&s));
    assert_eq!(
        r.errors,
        vec![
            "[custom_css] contains `@import` — forbidden (no build step / single bundle)".to_string(),
            "[custom_css] references a remote `url(http…)` — assets must be local/offline".to_string(),
            "[custom_css] contains `<script` — CSS only, no markup".to_string(),
            "[custom_css] contains forbidden Tier-2 symbol `HasSchema` (rustio-admin CI bans it)".to_string(),
        ]
    );
}
