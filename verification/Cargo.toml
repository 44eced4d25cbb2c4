[package]
name = "raven"
version = "0.1.0"
edition = "2021"
publish = false

[dependencies]
anyhow = "=1.0.104"
async-trait = "=0.1.92"
clap = { version = "=4.6.7", features = ["derive"] }
colored = "=2.2.0"
humantime = "=2.4.0"
lazy_static = "=1.5.1"
mlua = { version = "=0.9.9", features = ["lua54", "vendored", "send"] }
serde = { version = "=1.0.229", features = ["derive"] }
tokio = { version = "=1.54.1", features = ["full"] }
toml = "=0.8.23"
