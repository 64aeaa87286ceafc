use rustio_design::manifest::Manifest;

#[test]
fn get_after_set_and_replace_keeps_order() {
    let mut m = Manifest::new();
    m.set("a.css", "111");
    m.set("b.css", "222");
    assert_eq!(m.get("a.css"), Some("111"));
    m.set("a.css", "333");
    assert_eq!(m.get("a.css"), Some("333"));
    assert_eq!(m.get("b.css"), Some("222"));
    assert_eq!(m.get("c.css"), None);
    assert_eq!(
        m.entries,
        vec![
            ("a.css".to_string(), "333".to_string()),
            ("b.css".to_string(), "222".to_string())
        ]
    );
}

#[test]
fn text_format_and_round_trip() {
    let mut m = Manifest::default();
    m.set("rustio.design.toml", "abc");
    m.set("generated/tokens.css", "def");
    let text = m.to_text();
    assert_eq!(
        text,
        "# rustio-design manifest — generated, do not edit\nabc  rustio.design.toml\ndef  generated/tokens.css\n"
    );
    let back = Manifest::parse(&text);
    assert_eq!(back.entries, m.entries);
}

#[test]
fn parse_skips_comments_blank_and_malformed_lines() {
    let m = Manifest::parse("# header\n\n  h1  p1  \nnot-a-pair\nh2  p2\r\n");
    assert_eq!(
        m.entries,
        vec![
            ("p1".to_string(), "h1".to_string()),
            ("p2".to_string(), "h2".to_string())
        ]
    );
}
