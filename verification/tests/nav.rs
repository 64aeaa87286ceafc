use rustio_design::nav::{build_sidebar_html, fold_plural_key, key, lint, registered_models};
use rustio_design::spec::Spec;
use rustio_design::toml_lite::Document;

fn navigation(toml: &str) -> rustio_design::spec::Navigation {
    Spec::new(Document::parse(toml).unwrap())
        .navigation()
        .expect("a navigation block")
}

#[test]
fn parses_registered_models() {
    let src = "    .model::<Product>()\n.model::<crate::Category>()\n.model::<Order>();";
    assert_eq!(registered_models(src), vec!["Product", "Category", "Order"]);
}

#[test]
fn ignores_commented_model_calls() {
    let src = "// insertion point for .model::<YourModel>() calls\n.model::<Product>()";
    assert_eq!(registered_models(src), vec!["Product"]);
}

#[test]
fn key_folds_regular_plurals() {
    assert_eq!(key("Products"), key("Product"));
    assert_eq!(key("Categories"), key("Category"));
    assert_eq!(key("Order items"), key("OrderItem"));
    assert_eq!(key("Address"), key("Address"));
}

#[test]
fn key_is_lowercase_alphanumeric() {
    assert_eq!(key("Order items"), "orderitem");
    assert_eq!(key("Categories"), "category");
    assert_eq!(key("Ünïts"), "ünït");
}

#[test]
fn plural_folding_rules() {
    assert_eq!(fold_plural_key("categories"), "category");
    assert_eq!(fold_plural_key("orders"), "order");
    assert_eq!(fold_plural_key("address"), "addres");
    assert_eq!(fold_plural_key("ies"), "y");
    assert_eq!(fold_plural_key("s"), "");
    assert_eq!(fold_plural_key("item"), "item");
}

#[test]
fn registration_with_non_name_characters_is_skipped() {
    let src = ".model::<Vec<u8>>()\n.model::<Good_One>()\n.model::<Bad Name>()";
    assert_eq!(registered_models(src), vec!["Good_One"]);
}

#[test]
fn clean_navigation_has_no_errors() {
    let nav = navigation(
        "[navigation]\nCatalogue = \"Products, Categories\"\nSales = \"Orders\"\n_hidden = \"Order items\"\n",
    );
    let models = vec![
        "Product".to_string(),
        "Category".to_string(),
        "Order".to_string(),
        "OrderItem".to_string(),
    ];
    let l = lint(&nav, Some(&models));
    assert!(l.errors.is_empty(), "{:?}", l.errors);
    assert!(l.warnings.is_empty(), "{:?}", l.warnings);
}

#[test]
fn duplicate_item_is_an_error() {
    let nav = navigation("[navigation]\nA = \"Products\"\nB = \"Products\"\n");
    let l = lint(&nav, None);
    assert_eq!(
        l.errors,
        vec!["[navigation] `Products` appears in both `A` and `B` — list it once".to_string()]
    );
    assert_eq!(
        l.warnings,
        vec!["[navigation] could not read the project's models (src/main.rs) — coverage not verified".to_string()]
    );
}

#[test]
fn reserved_label_and_empty_group_are_errors() {
    let nav = navigation("[navigation]\n_Weird = \"X\"\nEmpty = \"\"\n");
    let l = lint(&nav, None);
    assert_eq!(
        l.errors,
        vec![
            "[navigation] group label `_Weird` may not start with `_` (reserved)".to_string(),
            "[navigation] group `Empty` has no items".to_string(),
        ]
    );
}

#[test]
fn unmatched_item_and_unplaced_model_are_warned() {
    let nav = navigation("[navigation]\nCatalogue = \"Prodcts\"\n");
    let models = vec!["Product".to_string(), "Invoice".to_string()];
    let l = lint(&nav, Some(&models));
    assert!(l.errors.is_empty());
    assert_eq!(
        l.warnings,
        vec![
            "[navigation] `Prodcts` matches no registered model — did you mean `Product`?".to_string(),
            "[navigation] model `Product` is neither grouped nor hidden — it will not appear in the sidebar; add it to a group or `_hidden`".to_string(),
            "[navigation] model `Invoice` is neither grouped nor hidden — it will not appear in the sidebar; add it to a group or `_hidden`".to_string(),
        ]
    );
}

#[test]
fn sidebar_buckets_groups_and_is_reproducible() {
    let nav = navigation("[navigation]\nCatalogue = \"Products, Categories\"\n_hidden = \"Order items\"\n");
    let html = build_sidebar_html("Shop", &nav);
    assert!(html.contains("Catalogue"));
    assert!(html.contains("Products"));
    assert_eq!(build_sidebar_html("Shop", &nav), html);
}
