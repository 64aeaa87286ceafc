use rustio_design::schema::{columns_json, map_rust_type, model_columns, Column};

const SRC: &str = r#"
        #[derive(Model)]
        pub struct Booking {
            pub id: Uuid,
            pub booked_at: DateTime<Utc>,
            pub customer: String,
            pub fill_pct: i32,
            pub active: bool,
            pub email: Option<String>,
        }
    "#;

#[test]
fn extracts_fields_with_types() {
    let cols = model_columns(SRC, "Booking");
    let pairs: Vec<(&str, &str)> = cols
        .iter()
        .map(|c| (c.name.as_str(), c.ty.as_str()))
        .collect();
    assert_eq!(
        pairs,
        vec![
            ("id", "uuid"),
            ("booked_at", "timestamp"),
            ("customer", "text"),
            ("fill_pct", "number"),
            ("active", "boolean"),
            ("email", "text"),
        ]
    );
}

#[test]
fn unknown_struct_yields_nothing() {
    assert!(model_columns(SRC, "Missing").is_empty());
}

#[test]
fn handles_attribute_with_inner_commas() {
    // A `choices` attribute carries commas that must not split the field.
    let src = "pub struct Order {\n\
               pub id: i64,\n\
               pub total: Decimal,\n\
               #[rustio(choices = [\"pending\", \"paid\", \"shipped\"])]\n\
               pub status: String,\n\
               }";
    let cols = model_columns(src, "Order");
    let names: Vec<&str> = cols.iter().map(|c| c.name.as_str()).collect();
    assert_eq!(names, vec!["id", "total", "status"]);
}

#[test]
fn maps_common_types() {
    assert_eq!(map_rust_type("Option<chrono::NaiveDateTime>"), "timestamp");
    assert_eq!(map_rust_type("uuid::Uuid"), "uuid");
    assert_eq!(map_rust_type("f64"), "number");
    assert_eq!(map_rust_type("String"), "text");
}

#[test]
fn maps_the_rest_of_the_vocabulary() {
    assert_eq!(map_rust_type("bool"), "boolean");
    assert_eq!(map_rust_type("Vec<u8>"), "number");
    assert_eq!(map_rust_type("&str"), "text");
    assert_eq!(map_rust_type("EmailAddress"), "email");
    assert_eq!(map_rust_type("PhoneNumber"), "phone");
    assert_eq!(map_rust_type("Date"), "timestamp");
    assert_eq!(map_rust_type("  Option< i64 >  "), "number");
    assert_eq!(map_rust_type("Option<bool>"), map_rust_type("bool"));
}

#[test]
fn commented_fields_and_unclosed_structs_are_ignored() {
    let src = "struct A {\n  // pub ghost: i32,\n  pub real: u8, // trailing\n}";
    let cols = model_columns(src, "A");
    let names: Vec<&str> = cols.iter().map(|c| c.name.as_str()).collect();
    assert_eq!(names, vec!["real"]);
    assert!(model_columns("struct B { pub x: i32,", "B").is_empty());
    assert!(model_columns("struct C;", "C").is_empty());
}

#[test]
fn nested_attribute_brackets_are_skipped_whole() {
    let src = "struct D { #[a(b = [[1, 2], [3]])] pub x: bool, #[c] pub y: String }";
    let cols = model_columns(src, "D");
    let pairs: Vec<(&str, &str)> = cols
        .iter()
        .map(|c| (c.name.as_str(), c.ty.as_str()))
        .collect();
    assert_eq!(pairs, vec![("x", "boolean"), ("y", "text")]);
}

#[test]
fn columns_render_as_schema_json() {
    let cols = vec![
        Column { name: "id".to_string(), ty: "uuid".to_string() },
        Column { name: "say \"hi\"".to_string(), ty: "text".to_string() },
    ];
    assert_eq!(
        columns_json("salon", "bookings", &cols),
        "{\n  \"project\": \"salon\",\n  \"table\": \"bookings\",\n  \"columns\": [\n    { \"name\": \"id\", \"type\": \"uuid\" },\n    { \"name\": \"say \\\"hi\\\"\", \"type\": \"text\" }\n  ],\n  \"sample\": []\n}\n"
    );
    assert_eq!(
        columns_json("p", "t", &[]),
        "{\n  \"project\": \"p\",\n  \"table\": \"t\",\n  \"columns\": [\n  ],\n  \"sample\": []\n}\n"
    );
}

#[test]
fn struct_name_must_match_whole() {
    let src = "pub struct OrderItem { pub qty: i32 }\npub struct Order { pub id: i64 }";
    let cols = model_columns(src, "Order");
    let pairs: Vec<(&str, &str)> = cols.iter().map(|c| (c.name.as_str(), c.ty.as_str())).collect();
    assert_eq!(pairs, vec![("id", "number")]);
    assert!(model_columns("struct OrderItem { pub qty: i32 }", "Order").is_empty());
}

#[test]
fn only_a_leading_visibility_is_stripped() {
    let cols = model_columns("struct P { public_id: i32, pub(crate) n: u8, pub(super) s: bool }", "P");
    let pairs: Vec<(&str, &str)> = cols.iter().map(|c| (c.name.as_str(), c.ty.as_str())).collect();
    assert_eq!(pairs, vec![("public_id", "number"), ("n", "number"), ("s", "boolean")]);
}

#[test]
fn references_are_looked_through() {
    assert_eq!(map_rust_type("&i32"), "number");
    assert_eq!(map_rust_type("&bool"), "boolean");
    assert_eq!(map_rust_type("&Vec<u64>"), "number");
    assert_eq!(map_rust_type("&'a str"), "text");
}

#[test]
fn schema_json_escapes_control_characters() {
    assert_eq!(
        columns_json("a\nb", "t\u{1}", &[]),
        "{\n  \"project\": \"a\\nb\",\n  \"table\": \"t\\u0001\",\n  \"columns\": [\n  ],\n  \"sample\": []\n}\n"
    );
}
