[package]
name = "datagrid-core"
version = "0.1.0"
edition = "2021"
publish = false

[dependencies]
chrono = { version = "=0.4.45", default-features = false, features = ["alloc"] }
serde = { version = "1", features = ["derive"] }
