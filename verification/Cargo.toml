[package]
name = "basalt"
version = "0.1.0"
edition = "2021"
publish = false

[dependencies]
tokio = { version = "*", features = ["rt-multi-thread", "macros", "net", "io-util"] }
serde = { version = "*", features = ["derive"] }
serde_json = "*"
toml = "*"
log = "*"
fern = "*"
chrono = "*"
