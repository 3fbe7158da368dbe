[package]
name = "quokka"
version = "0.1.0"
edition = "2021"
publish = false

[dependencies]
anyhow = "=1.0.104"
clap = { version = "=4.6.7", features = ["derive"] }
futures = "=0.3.34"
hyper-util = { version = "=0.1.21", features = ["tokio"] }
prost = "=0.14.4"
prost-types = "=0.14.4"
rustc-hash = "=2.1.3"
serde = { version = "=1.0.229", features = ["derive"] }
serde_json = { version = "=1.0.154", features = ["raw_value"] }
tokio = { version = "=1.54.1", features = ["full"] }
toml = "=1.1.8"
tonic = "=0.14.9"
tower = { version = "=0.5.3", features = ["util"] }
