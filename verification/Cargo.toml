[package]
name = "microblog"
version = "0.1.0"
edition = "2021"
publish = false

[dependencies]
nanoid = "*"
chrono = "*"
gsv-culture-ships = "*"
axum = "*"
tokio = { version = "*", features = ["rt-multi-thread", "net", "macros"] }
serde = { version = "*", features = ["derive"] }
