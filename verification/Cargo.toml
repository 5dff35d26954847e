[package]
name = "progenitor_impl"
version = "0.8.0"
edition = "2021"
publish = false

[dependencies]
openapiv3 = "2.0"
proc-macro2 = "1.0"
quote = "1.0"
regex = "1"
schemars = "0.8"
serde = { version = "1.0", features = ["derive"] }
serde_json = "1.0"
thiserror = "1.0"
typify = "0.2"
