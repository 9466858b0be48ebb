[package]
name = "identity_core"
version = "0.1.0"
edition = "2021"
publish = false

[dependencies]
ring = "=0.17.14"
data-encoding = "=2.11.1"
chrono = { version = "=0.4.45", features = ["serde"] }
serde = { version = "*", features = ["derive"] }
sqlx = { version = "=0.9.0", default-features = false, features = ["postgres", "runtime-tokio", "chrono", "derive"] }
tokio = { version = "*", features = ["rt"] }
futures-util = "*"
log = "*"
