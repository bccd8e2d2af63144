[package]
name = "smkb"
version = "0.1.0"
edition = "2021"
publish = false

[dependencies]
anyhow = "1"
async-trait = "0.1"
chacha20poly1305 = "0.10"
evdev = { version = "0.13", features = ["tokio"] }
mdns-sd = "*"
postcard = { version = "1", features = ["alloc"] }
rand = "0.9"
serde = { version = "1", features = ["derive"] }
serde_json = "1"
serde_yaml_ng = "0.10"
snow = { version = "*", features = ["risky-raw-split"] }
thiserror = "2"
tokio = { version = "1", features = ["net", "time", "macros", "rt", "signal", "sync", "io-util"] }
tracing = "0.1"
tracing-subscriber = { version = "0.3", features = ["env-filter"] }
