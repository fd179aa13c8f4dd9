use mssql_crud::decimal::Decimal;
use mssql_crud::models::{Product, User};
use mssql_crud::session::{
    read_product_form, user_form_error, Action, AuthOutcome, ProductsTab, Screen, Session,
    UsersTab,
};

#[test]
fn fresh_session_shows_login() {
    let s = Session::new();
    assert_eq!(s.screen, Screen::Login);
    assert!(s.current_user.is_none());
    assert!(s.login_error.is_empty());
}

#[test]
fn matched_login_enters_main_screen() {
    let mut s = Session::new();
    let u = User::new(1, "alice".to_string(), "secret".to_string());
    s.apply_login(AuthOutcome::Matched(u));
    assert_eq!(s.screen, Screen::Main);
    assert_eq!(s.current_user.as_ref().unwrap().username, "alice");
    assert!(s.login_error.is_empty());
}

#[test]
fn mismatch_login_shows_fixed_message() {
    let mut s = Session::new();
    s.apply_login(AuthOutcome::NoMatch);
    assert_eq!(s.screen, Screen::Login);
    assert!(s.current_user.is_none());
    assert_eq!(s.login_error, "Invalid username or password");
}

#[test]
fn failed_login_shows_storage_error() {
    let mut s = Session::new();
    s.apply_login(AuthOutcome::Failed("connection refused".to_string()));
    assert_eq!(s.screen, Screen::Login);
    assert_eq!(s.login_error, "Database error: connection refused");
}

#[test]
fn logout_returns_to_login_screen() {
    let mut s = Session::new();
    let u = User::new(1, "alice".to_string(), "secret".to_string());
    s.apply_login(AuthOutcome::Matched(u));
    s.logout();
    assert_eq!(s.screen, Screen::Login);
    assert!(s.current_user.is_none());
}

#[test]
fn user_form_requires_both_fields() {
    assert_eq!(
        user_form_error("", "pw").unwrap(),
        "Username and password are required"
    );
    assert_eq!(
        user_form_error("alice", "").unwrap(),
        "Username and password are required"
    );
    assert_eq!(
        user_form_error("", "").unwrap(),
        "Username and password are required"
    );
    assert!(user_form_error("alice", "pw").is_none());
}

#[test]
fn product_form_requires_both_fields() {
    assert_eq!(
        read_product_form("", "1.50").unwrap_err(),
        "Name and price are required"
    );
    assert_eq!(
        read_product_form("widget", "").unwrap_err(),
        "Name and price are required"
    );
}

#[test]
fn product_form_rejects_malformed_price() {
    assert_eq!(
        read_product_form("widget", "abc").unwrap_err(),
        "Invalid price format"
    );
    assert_eq!(
        read_product_form("widget", "1.2.3").unwrap_err(),
        "Invalid price format"
    );
}

#[test]
fn product_form_reads_price_exactly() {
    let d = read_product_form("widget", "123.45").unwrap();
    assert_eq!(d, Decimal::new(12345, 2));
}

#[test]
fn users_tab_load_replaces_rows_and_clears_error() {
    let mut t = UsersTab::new();
    t.apply_load(Err("down".to_string()));
    assert_eq!(t.error, "Error loading users: down");
    assert!(t.rows.is_empty());
    let rows = vec![User::new(1, "alice".to_string(), "pw".to_string())];
    t.apply_load(Ok(rows));
    assert_eq!(t.rows.len(), 1);
    assert_eq!(t.rows[0].username, "alice");
    assert!(t.error.is_empty());
}

#[test]
fn users_tab_failed_load_keeps_rows() {
    let mut t = UsersTab::new();
    let rows = vec![User::new(1, "alice".to_string(), "pw".to_string())];
    t.apply_load(Ok(rows));
    t.apply_load(Err("down".to_string()));
    assert_eq!(t.rows.len(), 1);
    assert_eq!(t.error, "Error loading users: down");
}

#[test]
fn users_tab_create_success_clears_form() {
    let mut t = UsersTab::new();
    t.form_username = "alice".to_string();
    t.form_password = "pw".to_string();
    t.apply_action(Action::Create, Ok(()));
    assert!(t.form_username.is_empty());
    assert!(t.form_password.is_empty());
    assert!(t.error.is_empty());
}

#[test]
fn users_tab_update_success_clears_selection() {
    let mut t = UsersTab::new();
    t.form_username = "alice".to_string();
    t.form_password = "pw".to_string();
    t.selected_id = Some(2);
    t.apply_action(Action::Update, Ok(()));
    assert!(t.form_username.is_empty());
    assert!(t.selected_id.is_none());
}

#[test]
fn users_tab_delete_success_keeps_form() {
    let mut t = UsersTab::new();
    t.form_username = "alice".to_string();
    t.apply_action(Action::Delete, Ok(()));
    assert_eq!(t.form_username, "alice");
    assert!(t.error.is_empty());
}

#[test]
fn users_tab_failures_keep_state_and_record_message() {
    let mut t = UsersTab::new();
    t.form_username = "alice".to_string();
    t.form_password = "pw".to_string();
    t.selected_id = Some(2);
    t.apply_action(Action::Create, Err("boom".to_string()));
    assert_eq!(t.error, "Error creating user: boom");
    t.apply_action(Action::Update, Err("boom".to_string()));
    assert_eq!(t.error, "Error updating user: boom");
    t.apply_action(Action::Delete, Err("boom".to_string()));
    assert_eq!(t.error, "Error deleting user: boom");
    assert_eq!(t.form_username, "alice");
    assert_eq!(t.form_password, "pw");
    assert_eq!(t.selected_id, Some(2));
}

#[test]
fn products_tab_load_and_failures() {
    let mut t = ProductsTab::new();
    t.apply_load(Err("down".to_string()));
    assert_eq!(t.error, "Error loading products: down");
    let rows = vec![Product::new(1, "widget".to_string(), Decimal::new(100, 2))];
    t.apply_load(Ok(rows));
    assert_eq!(t.rows.len(), 1);
    assert!(t.error.is_empty());
    t.apply_action(Action::Create, Err("boom".to_string()));
    assert_eq!(t.error, "Error creating product: boom");
    t.apply_action(Action::Update, Err("boom".to_string()));
    assert_eq!(t.error, "Error updating product: boom");
    t.apply_action(Action::Delete, Err("boom".to_string()));
    assert_eq!(t.error, "Error deleting product: boom");
    assert_eq!(t.rows.len(), 1);
}

#[test]
fn products_tab_success_paths() {
    let mut t = ProductsTab::new();
    t.form_name = "widget".to_string();
    t.form_price = "1.50".to_string();
    t.selected_id = Some(1);
    t.apply_action(Action::Create, Ok(()));
    assert!(t.form_name.is_empty());
    assert!(t.form_price.is_empty());
    assert_eq!(t.selected_id, Some(1));
    t.form_name = "gadget".to_string();
    t.apply_action(Action::Update, Ok(()));
    assert!(t.form_name.is_empty());
    assert!(t.selected_id.is_none());
}
