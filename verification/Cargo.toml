[package]
name = "meel"
version = "0.1.0"
edition = "2021"
publish = false

[dependencies]
ammonia = "*"
minify-html = "*"
chrono = "*"
serde = { version = "*", features = ["derive"] }
serde_json = "*"
lettre = { version = "*", default-features = false, features = ["smtp-transport", "builder"] }
axum = "*"
tokio = { version = "*", features = ["rt-multi-thread", "macros", "net", "time"] }
glob = "*"
