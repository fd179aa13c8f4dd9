use mssql_crud::decimal::Decimal;
use mssql_crud::models::Product;
use mssql_crud::search::{filter_products, text_contains};

#[test]
fn contains_finds_middle() {
    assert!(text_contains("widget deluxe", "get"));
}

#[test]
fn contains_finds_ends() {
    assert!(text_contains("widget", "wid"));
    assert!(text_contains("widget", "get"));
    assert!(text_contains("widget", "widget"));
}

#[test]
fn contains_empty_needle_always_holds() {
    assert!(text_contains("widget", ""));
    assert!(text_contains("", ""));
}

#[test]
fn contains_misses() {
    assert!(!text_contains("widget", "gadget"));
    assert!(!text_contains("", "a"));
    assert!(!text_contains("wid", "widget"));
    assert!(!text_contains("widget", "Wid"));
}

#[test]
fn contains_handles_repeated_prefixes() {
    assert!(text_contains("aaab", "aab"));
    assert!(!text_contains("aabaa", "aba_"));
}

fn sample_rows() -> Vec<Product> {
    vec![
        Product::new(1, "red widget".to_string(), Decimal::new(100, 2)),
        Product::new(2, "gadget".to_string(), Decimal::new(200, 2)),
        Product::new(3, "blue widget".to_string(), Decimal::new(300, 2)),
    ]
}

#[test]
fn filter_keeps_matching_rows_in_order() {
    let rows = sample_rows();
    let shown = filter_products(&rows, "widget");
    assert_eq!(shown.len(), 2);
    assert_eq!(shown[0].id, 1);
    assert_eq!(shown[1].id, 3);
}

#[test]
fn filter_with_empty_query_keeps_all() {
    let rows = sample_rows();
    let shown = filter_products(&rows, "");
    assert_eq!(shown.len(), 3);
}

#[test]
fn filter_without_match_keeps_none() {
    let rows = sample_rows();
    let shown = filter_products(&rows, "sprocket");
    assert!(shown.is_empty());
}
