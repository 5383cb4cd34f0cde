[package]
name = "aries_askar"
version = "0.1.0"
edition = "2021"
publish = false

[dependencies]
serde_json = "1"
zeroize = "1"
sqlx = { version = "*", default-features = false, features = ["postgres", "runtime-tokio", "chrono"] }
async-stream = "*"
futures-lite = "*"
