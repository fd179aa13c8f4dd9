//! The two row types the front-end works with.

use vstd::prelude::*;
use crate::decimal::Decimal;

verus! {

/// A row of the Users table: a storage-generated identifier and plaintext
/// credentials (the schema keeps the password unhashed).
#[derive(Debug)]
pub struct User {
    pub id: i32,
    pub username: String,
    pub password: String,
}

impl User {
    pub fn new(id: i32, username: String, password: String) -> (u: User)
        ensures
            u.id == id,
            u.username == username,
            u.password == password,
    {
        User { id, username, password }
    }

    /// The blank row the edit form starts from.
    pub fn empty() -> (u: User)
        ensures
            u.id == 0,
            u.username@ == Seq::<char>::empty(),
            u.password@ == Seq::<char>::empty(),
    {
        User { id: 0, username: String::new(), password: String::new() }
    }
}

/// A row of the Products table. The price is kept as the exact fixed-point
/// value the column stores; display layers may round it as they please.
#[derive(Debug)]
pub struct Product {
    pub id: i32,
    pub name: String,
    pub price: Decimal,
}

impl Product {
    pub fn new(id: i32, name: String, price: Decimal) -> (p: Product)
        ensures
            p.id == id,
            p.name == name,
            p.price == price,
    {
        Product { id, name, price }
    }

    /// The blank row the edit form starts from.
    pub fn empty() -> (p: Product)
        ensures
            p.id == 0,
            p.name@ == Seq::<char>::empty(),
            p.price.unscaled == 0,
            p.price.scale == 0,
    {
        Product { id: 0, name: String::new(), price: Decimal::zero() }
    }
}

/// Deep copy of a user row. The verifier reads nothing from a derived
/// clone of a `String` field, so the copies are written out and stated
/// equal.
impl Clone for User {
    fn clone(&self) -> (r: Self)
        ensures
            r == *self,
    {
        User { id: self.id, username: self.username.clone(), password: self.password.clone() }
    }
}

/// Deep copy of a product row.
impl Clone for Product {
    fn clone(&self) -> (r: Self)
        ensures
            r == *self,
    {
        Product { id: self.id, name: self.name.clone(), price: self.price }
    }
}

/// How to reach the database server: address, database name, credentials.
#[derive(Debug)]
pub struct DbConfig {
    pub server: String,
    pub database: String,
    pub username: String,
    pub password: String,
}

/// Deep copy of the connection settings.
impl Clone for DbConfig {
    fn clone(&self) -> (r: Self)
        ensures
            r == *self,
    {
        DbConfig {
            server: self.server.clone(),
            database: self.database.clone(),
            username: self.username.clone(),
            password: self.password.clone(),
        }
    }
}

impl DbConfig {
    pub fn new(server: String, database: String, username: String, password: String) -> (c:
        DbConfig)
        ensures
            c.server == server,
            c.database == database,
            c.username == username,
            c.password == password,
    {
        DbConfig { server, database, username, password }
    }
}

} // verus!
