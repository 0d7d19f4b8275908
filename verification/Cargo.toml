[package]
name = "odata_core"
version = "0.1.0"
edition = "2021"
publish = false

[dependencies]
url = "*"
percent-encoding = "*"
rust_decimal = "*"
heck = "*"
serde = { version = "*", features = ["derive"] }
serde_json = "*"
sea-orm = "*"
axum = "*"
http = "*"
tokio = { version = "*", features = ["macros", "rt-multi-thread"] }
reqwest = { version = "*", default-features = false, features = ["json"] }
thiserror = "*"
