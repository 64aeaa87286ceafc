use rustio_design::color::{parse_hex, Rgb};

#[test]
fn parses_both_forms() {
    assert_eq!(
        parse_hex("#fff"),
        Some(Rgb {
            r: 255,
            g: 255,
            b: 255
        })
    );
    assert_eq!(parse_hex("#000000"), Some(Rgb { r: 0, g: 0, b: 0 }));
    assert_eq!(parse_hex("nope"), None);
}

#[test]
fn short_form_doubles_each_nibble() {
    assert_eq!(parse_hex("#1aF"), Some(Rgb { r: 0x11, g: 0xaa, b: 0xff }));
    assert_eq!(parse_hex("#2563eb"), Some(Rgb { r: 0x25, g: 0x63, b: 0xeb }));
    assert_eq!(parse_hex(" #2563eb"), None);
}

#[test]
fn rejects_bad_lengths_and_digits() {
    assert_eq!(parse_hex("#12345"), None);
    assert_eq!(parse_hex("#ggg"), None);
    assert_eq!(parse_hex("123456"), None);
    assert_eq!(parse_hex("#"), None);
}
