//! The login gate and form checks of the window layer.
//!
//! The window loop itself only renders and forwards events; which screen
//! is shown, when a submitted form is refused, and what message is
//! displayed are decisions, and they are made here.

use vstd::prelude::*;
use crate::decimal::{
    parse_price, price_text_ok, spec_scale_of, spec_unscaled_of, Decimal,
};
use crate::models::{Product, User};

verus! {

/// Which screen the window shows.
#[derive(Debug, Clone, Copy, PartialEq, Eq, Structural)]
pub enum Screen {
    Login,
    Main,
}

/// What the storage layer answered to a login attempt: a matching row, no
/// matching row, or a failure to reach the server at all.
pub enum AuthOutcome {
    Matched(User),
    NoMatch,
    Failed(String),
}

/// The login gate: screen, signed-in row, and the message shown under the
/// form.
pub struct Session {
    pub screen: Screen,
    pub current_user: Option<User>,
    pub login_error: String,
}

impl Session {
    /// A fresh session starts at the login screen, signed out, with no
    /// message.
    pub fn new() -> (s: Session)
        ensures
            s.screen == Screen::Login,
            s.current_user is None,
            s.login_error@ == Seq::<char>::empty(),
    {
        Session { screen: Screen::Login, current_user: None, login_error: String::new() }
    }

    /// Applies the outcome of the authentication query: a match signs the
    /// user in and moves to the main screen; no match stays on the login
    /// screen with the fixed refusal text; a storage failure stays too and
    /// shows the failure.
    pub fn apply_login(&mut self, outcome: AuthOutcome)
        ensures
            match outcome {
                AuthOutcome::Matched(u) => final(self).screen == Screen::Main
                    && final(self).current_user == Some(u)
                    && final(self).login_error@ == Seq::<char>::empty(),
                AuthOutcome::NoMatch => final(self).screen == old(self).screen
                    && final(self).current_user == old(self).current_user
                    && final(self).login_error@ == "Invalid username or password"@,
                AuthOutcome::Failed(e) => final(self).screen == old(self).screen
                    && final(self).current_user == old(self).current_user
                    && final(self).login_error@ == "Database error: "@ + e@,
            },
    {
        match outcome {
            AuthOutcome::Matched(u) => {
                self.screen = Screen::Main;
                self.current_user = Some(u);
                self.login_error = String::new();
            },
            AuthOutcome::NoMatch => {
                self.login_error = "Invalid username or password".to_owned();
            },
            AuthOutcome::Failed(e) => {
                let mut msg: String = "Database error: ".to_owned();
                msg.append(e.as_str());
                self.login_error = msg;
            },
        }
    }

    /// Signing out returns to the login screen and forgets the user.
    pub fn logout(&mut self)
        ensures
            final(self).screen == Screen::Login,
            final(self).current_user is None,
            final(self).login_error == old(self).login_error,
    {
        self.screen = Screen::Login;
        self.current_user = None;
    }
}

/// The user form is submitted only when both fields are filled; otherwise
/// the fixed message is shown and no statement is issued.
pub fn user_form_error(username: &str, password: &str) -> (r: Option<String>)
    ensures
        r is Some <==> (username@.len() == 0 || password@.len() == 0),
        match r {
            Some(msg) => msg@ == "Username and password are required"@,
            None => true,
        },
{
    if username.unicode_len() == 0 || password.unicode_len() == 0 {
        Some("Username and password are required".to_owned())
    } else {
        None
    }
}

/// The product form is submitted only when both fields are filled and the
/// price text is a well-formed decimal; otherwise the matching fixed
/// message is shown and no statement is issued.
pub fn read_product_form(name: &str, price_text: &str) -> (r: Result<Decimal, String>)
    ensures
        r is Ok <==> (name@.len() > 0 && price_text@.len() > 0 && price_text_ok(price_text@)),
        match r {
            Ok(d) => d.wf() && d.unscaled == spec_unscaled_of(price_text@) && d.scale
                == spec_scale_of(price_text@),
            Err(msg) => if name@.len() == 0 || price_text@.len() == 0 {
                msg@ == "Name and price are required"@
            } else {
                msg@ == "Invalid price format"@
            },
        },
{
    if name.unicode_len() == 0 || price_text.unicode_len() == 0 {
        return Err("Name and price are required".to_owned());
    }
    match parse_price(price_text) {
        Some(d) => Ok(d),
        None => Err("Invalid price format".to_owned()),
    }
}

/// Which statement a tab just ran, deciding the message shown on failure.
#[derive(Debug, Clone, Copy, PartialEq, Eq, Structural)]
pub enum Action {
    Create,
    Update,
    Delete,
}

/// The state behind the Users tab: the rows on show, the edit form, and
/// the message line.
pub struct UsersTab {
    pub rows: Vec<User>,
    pub error: String,
    pub form_username: String,
    pub form_password: String,
    pub selected_id: Option<i32>,
}

/// The message prefix the Users tab puts before a storage failure.
pub open spec fn user_error_prefix(action: Action) -> Seq<char> {
    match action {
        Action::Create => "Error creating user: "@,
        Action::Update => "Error updating user: "@,
        Action::Delete => "Error deleting user: "@,
    }
}

impl UsersTab {
    /// A fresh tab: nothing loaded, nothing typed, nothing to report.
    pub fn new() -> (t: UsersTab)
        ensures
            t.rows@ == Seq::<User>::empty(),
            t.error@ == Seq::<char>::empty(),
            t.form_username@ == Seq::<char>::empty(),
            t.form_password@ == Seq::<char>::empty(),
            t.selected_id is None,
    {
        UsersTab {
            rows: Vec::new(),
            error: String::new(),
            form_username: String::new(),
            form_password: String::new(),
            selected_id: None,
        }
    }

    /// Applies what a reload of the list returned: fresh rows replace the
    /// old ones and clear the message; a failure leaves the rows as they
    /// were and records the message. The form is untouched either way.
    pub fn apply_load(&mut self, outcome: Result<Vec<User>, String>)
        ensures
            match outcome {
                Ok(rows) => final(self).rows == rows && final(self).error@ == Seq::<char>::empty(),
                Err(e) => final(self).rows == old(self).rows && final(self).error@
                    == "Error loading users: "@ + e@,
            },
            final(self).form_username == old(self).form_username,
            final(self).form_password == old(self).form_password,
            final(self).selected_id == old(self).selected_id,
    {
        match outcome {
            Ok(rows) => {
                self.rows = rows;
                self.error = String::new();
            },
            Err(e) => {
                let mut msg: String = "Error loading users: ".to_owned();
                msg.append(e.as_str());
                self.error = msg;
            },
        }
    }

    /// Applies what a mutation statement returned. Success clears the
    /// message and resets what the action consumed: a create clears the
    /// form, an update clears the form and the selection, a delete touches
    /// neither. Failure leaves everything as it was and records the
    /// message. The rows change only at the reload that follows success.
    pub fn apply_action(&mut self, action: Action, outcome: Result<(), String>)
        ensures
            final(self).rows == old(self).rows,
            match outcome {
                Ok(_) => {
                    &&& final(self).error@ == Seq::<char>::empty()
                    &&& final(self).form_username@ == (if action is Delete {
                        old(self).form_username@
                    } else {
                        Seq::<char>::empty()
                    })
                    &&& final(self).form_password@ == (if action is Delete {
                        old(self).form_password@
                    } else {
                        Seq::<char>::empty()
                    })
                    &&& final(self).selected_id == (if action is Update {
                        None::<i32>
                    } else {
                        old(self).selected_id
                    })
                },
                Err(e) => {
                    &&& final(self).error@ == user_error_prefix(action) + e@
                    &&& final(self).form_username == old(self).form_username
                    &&& final(self).form_password == old(self).form_password
                    &&& final(self).selected_id == old(self).selected_id
                },
            },
    {
        match outcome {
            Ok(_) => {
                match action {
                    Action::Create => {
                        self.form_username = String::new();
                        self.form_password = String::new();
                    },
                    Action::Update => {
                        self.form_username = String::new();
                        self.form_password = String::new();
                        self.selected_id = None;
                    },
                    Action::Delete => {},
                }
                self.error = String::new();
            },
            Err(e) => {
                let mut msg: String = (match action {
                    Action::Create => "Error creating user: ".to_owned(),
                    Action::Update => "Error updating user: ".to_owned(),
                    Action::Delete => "Error deleting user: ".to_owned(),
                });
                msg.append(e.as_str());
                self.error = msg;
            },
        }
    }
}

/// The state behind the Products tab.
pub struct ProductsTab {
    pub rows: Vec<Product>,
    pub error: String,
    pub form_name: String,
    pub form_price: String,
    pub selected_id: Option<i32>,
}

/// The message prefix the Products tab puts before a storage failure.
pub open spec fn product_error_prefix(action: Action) -> Seq<char> {
    match action {
        Action::Create => "Error creating product: "@,
        Action::Update => "Error updating product: "@,
        Action::Delete => "Error deleting product: "@,
    }
}

impl ProductsTab {
    /// A fresh tab: nothing loaded, nothing typed, nothing to report.
    pub fn new() -> (t: ProductsTab)
        ensures
            t.rows@ == Seq::<Product>::empty(),
            t.error@ == Seq::<char>::empty(),
            t.form_name@ == Seq::<char>::empty(),
            t.form_price@ == Seq::<char>::empty(),
            t.selected_id is None,
    {
        ProductsTab {
            rows: Vec::new(),
            error: String::new(),
            form_name: String::new(),
            form_price: String::new(),
            selected_id: None,
        }
    }

    /// Applies what a reload of the list returned; see `UsersTab::apply_load`.
    pub fn apply_load(&mut self, outcome: Result<Vec<Product>, String>)
        ensures
            match outcome {
                Ok(rows) => final(self).rows == rows && final(self).error@ == Seq::<char>::empty(),
                Err(e) => final(self).rows == old(self).rows && final(self).error@
                    == "Error loading products: "@ + e@,
            },
            final(self).form_name == old(self).form_name,
            final(self).form_price == old(self).form_price,
            final(self).selected_id == old(self).selected_id,
    {
        match outcome {
            Ok(rows) => {
                self.rows = rows;
                self.error = String::new();
            },
            Err(e) => {
                let mut msg: String = "Error loading products: ".to_owned();
                msg.append(e.as_str());
                self.error = msg;
            },
        }
    }

    /// Applies what a mutation statement returned; see
    /// `UsersTab::apply_action`.
    pub fn apply_action(&mut self, action: Action, outcome: Result<(), String>)
        ensures
            final(self).rows == old(self).rows,
            match outcome {
                Ok(_) => {
                    &&& final(self).error@ == Seq::<char>::empty()
                    &&& final(self).form_name@ == (if action is Delete {
                        old(self).form_name@
                    } else {
                        Seq::<char>::empty()
                    })
                    &&& final(self).form_price@ == (if action is Delete {
                        old(self).form_price@
                    } else {
                        Seq::<char>::empty()
                    })
                    &&& final(self).selected_id == (if action is Update {
                        None::<i32>
                    } else {
                        old(self).selected_id
                    })
                },
                Err(e) => {
                    &&& final(self).error@ == product_error_prefix(action) + e@
                    &&& final(self).form_name == old(self).form_name
                    &&& final(self).form_price == old(self).form_price
                    &&& final(self).selected_id == old(self).selected_id
                },
            },
    {
        match outcome {
            Ok(_) => {
                match action {
                    Action::Create => {
                        self.form_name = String::new();
                        self.form_price = String::new();
                    },
                    Action::Update => {
                        self.form_name = String::new();
                        self.form_price = String::new();
                        self.selected_id = None;
                    },
                    Action::Delete => {},
                }
                self.error = String::new();
            },
            Err(e) => {
                let mut msg: String = (match action {
                    Action::Create => "Error creating product: ".to_owned(),
                    Action::Update => "Error updating product: ".to_owned(),
                    Action::Delete => "Error deleting product: ".to_owned(),
                });
                msg.append(e.as_str());
                self.error = msg;
            },
        }
    }
}

} // verus!
