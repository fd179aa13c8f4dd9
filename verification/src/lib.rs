//! Verified core of a small CRUD front-end over two database tables
//! (Users and Products) behind a plaintext login gate.
//!
//! The storage semantics the front-end relies on — row identity,
//! select-all in id order, insert/update/delete by id, and the exact-match
//! authentication query — are modelled and proved here. The network
//! client, the blocking bridge and the window loop live outside the
//! library and hand it plain values.

pub mod decimal;
pub mod models;
pub mod search;
pub mod store;
pub mod session;
