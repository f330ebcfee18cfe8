[package]
name = "rusty_fume"
version = "0.1.0"
edition = "2021"
publish = false

[dependencies]
clap = { version = "4", features = ["derive"] }
color-eyre = "0.6"
console-subscriber = "0.2"
futures = "0.3"
hex = "0.4"
rand = "0.8"
rand_xoshiro = "0.6"
serde = { version = "1", features = ["derive"] }
serde_with = "3"
tokio = { version = "1", features = ["full"] }
toml = "0.8"
tracing = "0.1"

[dev-dependencies]
mqtt-protocol = { version = "*", default-features = false }
