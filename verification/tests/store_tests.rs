use mssql_crud::decimal::Decimal;
use mssql_crud::models::{DbConfig, Product, User};
use mssql_crud::store::Database;

fn test_config() -> DbConfig {
    DbConfig::new(
        "localhost".to_string(),
        "SampleDB".to_string(),
        "sa".to_string(),
        "admin123".to_string(),
    )
}

#[test]
fn new_database_is_empty() {
    let db = Database::new(test_config());
    assert!(db.get_all_users().is_empty());
    assert!(db.get_all_products().is_empty());
}

#[test]
fn config_is_kept() {
    let c = test_config();
    let db = Database::new(c);
    assert_eq!(db.config.server, "localhost");
    assert_eq!(db.config.database, "SampleDB");
    assert_eq!(db.config.username, "sa");
    assert_eq!(db.config.password, "admin123");
}

#[test]
fn created_users_are_listed_in_id_order() {
    let mut db = Database::new(test_config());
    db.create_user("alice", "pw1");
    db.create_user("bob", "pw2");
    let users = db.get_all_users();
    assert_eq!(users.len(), 2);
    assert_eq!(users[0].id, 1);
    assert_eq!(users[0].username, "alice");
    assert_eq!(users[1].id, 2);
    assert_eq!(users[1].username, "bob");
}

#[test]
fn authenticate_needs_exact_match() {
    let mut db = Database::new(test_config());
    db.create_user("alice", "secret");
    let hit = db.authenticate_user("alice", "secret").unwrap();
    assert_eq!(hit.username, "alice");
    assert_eq!(hit.password, "secret");
    assert_eq!(hit.id, 1);
}

#[test]
fn authenticate_mismatch_is_not_found_not_error() {
    let mut db = Database::new(test_config());
    db.create_user("alice", "secret");
    assert!(db.authenticate_user("alice", "wrong").is_none());
    assert!(db.authenticate_user("bob", "secret").is_none());
    assert!(db.authenticate_user("Alice", "secret").is_none());
    assert!(db.authenticate_user("alice", "Secret").is_none());
    assert!(db.authenticate_user("", "").is_none());
}

#[test]
fn authenticate_returns_first_match() {
    let mut db = Database::new(test_config());
    db.create_user("alice", "secret");
    db.create_user("alice", "secret");
    let hit = db.authenticate_user("alice", "secret").unwrap();
    assert_eq!(hit.id, 1);
}

#[test]
fn update_user_changes_only_target() {
    let mut db = Database::new(test_config());
    db.create_user("alice", "pw1");
    db.create_user("bob", "pw2");
    db.create_user("carol", "pw3");
    db.update_user(2, "bobby", "pw2b");
    let users = db.get_all_users();
    assert_eq!(users[0].username, "alice");
    assert_eq!(users[0].password, "pw1");
    assert_eq!(users[1].id, 2);
    assert_eq!(users[1].username, "bobby");
    assert_eq!(users[1].password, "pw2b");
    assert_eq!(users[2].username, "carol");
    assert_eq!(users[2].password, "pw3");
}

#[test]
fn update_absent_user_changes_nothing() {
    let mut db = Database::new(test_config());
    db.create_user("alice", "pw1");
    db.update_user(99, "x", "y");
    let users = db.get_all_users();
    assert_eq!(users.len(), 1);
    assert_eq!(users[0].username, "alice");
}

#[test]
fn delete_user_removes_only_target() {
    let mut db = Database::new(test_config());
    db.create_user("alice", "pw1");
    db.create_user("bob", "pw2");
    db.delete_user(1);
    let users = db.get_all_users();
    assert_eq!(users.len(), 1);
    assert_eq!(users[0].id, 2);
    assert_eq!(users[0].username, "bob");
}

#[test]
fn deleted_id_is_not_reused() {
    let mut db = Database::new(test_config());
    db.create_user("alice", "pw1");
    db.delete_user(1);
    db.create_user("bob", "pw2");
    let users = db.get_all_users();
    assert_eq!(users[0].id, 2);
}

#[test]
fn delete_absent_user_id_leaves_list_unchanged() {
    let mut db = Database::new(test_config());
    db.create_user("alice", "pw1");
    db.create_user("bob", "pw2");
    db.delete_user(42);
    let users = db.get_all_users();
    assert_eq!(users.len(), 2);
    assert_eq!(users[0].username, "alice");
    assert_eq!(users[1].username, "bob");
}

#[test]
fn create_then_list_product_keeps_name_and_price() {
    let mut db = Database::new(test_config());
    db.create_product("widget", Decimal::new(12345, 2));
    let products = db.get_all_products();
    assert_eq!(products.len(), 1);
    assert_eq!(products[0].id, 1);
    assert_eq!(products[0].name, "widget");
    assert_eq!(products[0].price, Decimal::new(12345, 2));
    assert_eq!(products[0].price.to_text(), "123.45");
}

#[test]
fn update_product_changes_only_target() {
    let mut db = Database::new(test_config());
    db.create_product("widget", Decimal::new(100, 2));
    db.create_product("gadget", Decimal::new(200, 2));
    db.update_product(1, "widget pro", Decimal::new(150, 2));
    let products = db.get_all_products();
    assert_eq!(products[0].name, "widget pro");
    assert_eq!(products[0].price, Decimal::new(150, 2));
    assert_eq!(products[1].name, "gadget");
    assert_eq!(products[1].price, Decimal::new(200, 2));
}

#[test]
fn delete_absent_product_id_leaves_list_unchanged() {
    let mut db = Database::new(test_config());
    db.create_product("widget", Decimal::new(100, 2));
    db.delete_product(7);
    let products = db.get_all_products();
    assert_eq!(products.len(), 1);
    assert_eq!(products[0].name, "widget");
}

#[test]
fn delete_product_removes_row() {
    let mut db = Database::new(test_config());
    db.create_product("widget", Decimal::new(100, 2));
    db.create_product("gadget", Decimal::new(200, 2));
    db.delete_product(2);
    let products = db.get_all_products();
    assert_eq!(products.len(), 1);
    assert_eq!(products[0].name, "widget");
}

#[test]
fn user_constructors() {
    let u = User::new(3, "alice".to_string(), "pw".to_string());
    assert_eq!(u.id, 3);
    assert_eq!(u.username, "alice");
    assert_eq!(u.password, "pw");
    let e = User::empty();
    assert_eq!(e.id, 0);
    assert!(e.username.is_empty());
    assert!(e.password.is_empty());
}

#[test]
fn product_constructors() {
    let p = Product::new(4, "widget".to_string(), Decimal::new(995, 2));
    assert_eq!(p.id, 4);
    assert_eq!(p.name, "widget");
    assert_eq!(p.price.to_text(), "9.95");
    let e = Product::empty();
    assert_eq!(e.id, 0);
    assert!(e.name.is_empty());
    assert_eq!(e.price, Decimal::zero());
}
