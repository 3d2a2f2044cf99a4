[package]
name = "rust_graphql_resolver"
version = "0.1.0"
edition = "2021"
publish = false

[dependencies]
gurkle-parser = "=0.3.0"
chrono = { version = "=0.4.45", features = ["serde"] }
serde = "=1.0.229"
thiserror = "=1.0.69"
maplit = "=1.0.2"
proc-macro2 = "=1.0.107"
quote = "=1.0.47"
syn = "=2.0.119"
