[package]
name = "axum-streams"
version = "0.1.0"
edition = "2021"
publish = false

[dependencies]
arrow = { version = "*", default-features = false, features = ["ipc"] }
axum = "*"
bytes = "*"
csv = "*"
futures = "*"
http = "*"
http-body = "*"
prost = { version = "*", default-features = false, features = ["std"] }
serde = "*"
serde_json = "*"
