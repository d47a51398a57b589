[package]
name = "zarrs_sqlite"
version = "0.1.0"
edition = "2021"
publish = false

[dependencies]
async-trait = "0.1"
futures = "0.3"
jiff = "0.2"
log = "0.4"
r2d2 = "0.8"
r2d2_sqlite = { version = "*", features = ["bundled"] }
rusqlite = { version = "*", features = ["bundled"] }
thiserror = "2"
turso = "*"
zarrs_storage = { version = "*", features = ["async"] }
