[package]
name = "statistik_import"
version = "0.1.0"
edition = "2021"
publish = false

[dependencies]
rustc-serialize = "0.3"
xml-rs = "0.8"
clap = { version = "3.2", features = ["derive"] }
rusqlite = "0.29"
zip = { version = "0.6", default-features = false, features = ["deflate"] }
