use rustio_design::allowlist::{canonical_tokens, resolve, suggest};

#[test]
fn resolves_known_keys() {
    assert_eq!(resolve("colors", "accent").unwrap(), "--rio-accent");
    assert_eq!(resolve("radius", "default").unwrap(), "--rio-radius");
    assert_eq!(resolve("radius", "sm").unwrap(), "--rio-radius-sm");
    assert_eq!(resolve("spacing", "sidebar-w").unwrap(), "--rio-sidebar-w");
}

#[test]
fn typo_is_rejected_with_suggestion() {
    let err = resolve("colors", "acccent").unwrap_err();
    assert!(err.contains("--rio-accent"), "got: {err}");
}

#[test]
fn typo_error_is_spelled_out_exactly() {
    assert_eq!(
        resolve("colors", "acccent").unwrap_err(),
        "unknown token `acccent` in [colors] → `--rio-acccent` is not a rustio-admin token — did you mean `--rio-accent`?"
    );
}

#[test]
fn unknown_section_is_rejected() {
    assert_eq!(
        resolve("shadows", "deep").unwrap_err(),
        "section [shadows] does not map to design tokens (use colors/spacing/radius/typography)"
    );
}

#[test]
fn far_off_key_gets_no_hint() {
    let err = resolve("typography", "completely-unrelated-name").unwrap_err();
    assert!(!err.contains("did you mean"), "got: {err}");
    assert!(err.ends_with("is not a rustio-admin token"));
}

#[test]
fn suggest_picks_nearest_within_four_edits() {
    assert_eq!(suggest("--rio-radius-sn"), Some("--rio-radius-sm".to_string()));
    assert_eq!(suggest("--rio-radius"), Some("--rio-radius".to_string()));
    assert_eq!(suggest("zzzzzzzzzzzzzzzzzzzzzzzz"), None);
}

#[test]
fn every_resolved_token_is_canonical() {
    let canon = canonical_tokens();
    for (section, key) in [
        ("colors", "accent"),
        ("radius", "lg"),
        ("spacing", "s3"),
        ("typography", "fs-h1"),
        ("radius", "default"),
    ] {
        let t = resolve(section, key).unwrap();
        assert!(canon.contains(&t.as_str()), "{t}");
    }
}
