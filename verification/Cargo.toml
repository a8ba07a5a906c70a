[package]
name = "mincraft_server"
version = "0.1.0"
edition = "2021"
publish = false

[dependencies]
bytes = "=1.12.1"
zlib-rs = "=0.6.8"
rand = "=0.10.3"
noise = "=0.9.0"
serde = { version = "=1.0.229", features = ["derive"] }
toml = "=1.1.8"
tokio = { version = "=1.54.1", features = ["full"] }
tracing = "=0.1.44"
tracing-subscriber = { version = "=0.3.23", features = ["env-filter", "fmt"] }
thiserror = "=2.0.21"
hex = "=0.4.3"
