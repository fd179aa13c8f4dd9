[package]
name = "mssql_crud"
version = "0.1.0"
edition = "2021"
publish = false

[dependencies]
tiberius = { version = "0.12", default-features = false, features = ["tds73"] }
tokio = { version = "1", features = ["rt-multi-thread", "net", "sync"] }
tokio-util = { version = "0.7", features = ["compat"] }
futures = { version = "0.3", default-features = false, features = ["executor"] }
dotenv = "0.15"
serde = { version = "1", features = ["derive"] }
