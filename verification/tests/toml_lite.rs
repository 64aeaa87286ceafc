use rustio_design::toml_lite::{Document, Value};

#[test]
fn parses_sections_and_values() {
    let doc = Document::parse(
        r##"
# a comment
[project]
name = "Acme"
[brand]
color = "#2563eb"
derive = true
[custom_css]
rules = """
.x { color: red; }
"""
"##,
    )
    .unwrap();
    assert_eq!(doc.section("project").unwrap().str("name"), Some("Acme"));
    assert_eq!(doc.section("brand").unwrap().str("color"), Some("#2563eb"));
    assert_eq!(doc.section("brand").unwrap().boolean("derive"), Some(true));
    assert!(doc
        .section("custom_css")
        .unwrap()
        .str("rules")
        .unwrap()
        .contains("color: red"));
}

#[test]
fn rejects_unquoted_string() {
    assert!(Document::parse("[a]\nk = bare").is_err());
}

#[test]
fn every_parse_error_names_its_line() {
    assert_eq!(
        Document::parse("[a]\nk = bare").unwrap_err(),
        "line 2: unsupported value `bare` — strings must be quoted"
    );
    assert_eq!(
        Document::parse("[open").unwrap_err(),
        "line 1: missing `]` in section header"
    );
    assert_eq!(
        Document::parse("[a]\njust words").unwrap_err(),
        "line 2: expected `key = value`"
    );
    assert_eq!(Document::parse(" = \"x\"").unwrap_err(), "line 1: empty key");
    assert_eq!(
        Document::parse("k = \"open").unwrap_err(),
        "line 1: unterminated string"
    );
    assert_eq!(
        Document::parse("k = \"\"\"\nnever closed\n").unwrap_err(),
        "line 2: unterminated `\"\"\"` string"
    );
}

#[test]
fn top_level_section_and_booleans_with_comments() {
    let doc = Document::parse("top = \"t\"\n[s]\nflag = false # off\nother = true\n").unwrap();
    assert_eq!(doc.sections.len(), 2);
    assert_eq!(doc.sections[0].name, "");
    assert_eq!(doc.section("").unwrap().str("top"), Some("t"));
    assert_eq!(doc.section("s").unwrap().boolean("flag"), Some(false));
    assert_eq!(doc.section("s").unwrap().boolean("other"), Some(true));
    assert_eq!(doc.section("s").unwrap().str("flag"), None);
    assert!(doc.section("missing").is_none());
}

#[test]
fn escapes_and_single_line_triple_quotes() {
    let doc = Document::parse("[s]\na = \"x\\\\y\\tz\\q\"\nb = \"\"\"inline\"\"\"\n").unwrap();
    let s = doc.section("s").unwrap();
    assert_eq!(s.str("a"), Some("x\\y\tz\\q"));
    assert_eq!(s.str("b"), Some("inline"));
    match s.get("b") {
        Some(Value::Str(v)) => assert_eq!(v, "inline"),
        _ => panic!("expected a string"),
    }
    assert_eq!(s.get("b").unwrap().as_bool(), None);
}

#[test]
fn multi_line_string_keeps_inner_lines() {
    let doc = Document::parse("[c]\nrules = \"\"\"\nline one\nline two\n\"\"\"\n").unwrap();
    assert_eq!(
        doc.section("c").unwrap().str("rules"),
        Some("line one\nline two\n")
    );
}

#[test]
fn first_of_repeated_keys_and_sections_wins() {
    let doc = Document::parse("[s]\nk = \"1\"\nk = \"2\"\n[s]\nk = \"3\"\n").unwrap();
    assert_eq!(doc.section("s").unwrap().str("k"), Some("1"));
    assert_eq!(doc.sections.len(), 3);
}

#[test]
fn escaped_quote_stays_inside_the_string() {
    let doc = Document::parse("[a]\nk = \"x\\\"y\"\nm = \"ends with \\\\\"\n").unwrap();
    let a = doc.section("a").unwrap();
    assert_eq!(a.str("k"), Some("x\"y"));
    assert_eq!(a.str("m"), Some("ends with \\"));
    assert_eq!(
        Document::parse("k = \"open \\\"").unwrap_err(),
        "line 1: unterminated string"
    );
}
