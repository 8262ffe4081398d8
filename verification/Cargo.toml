[package]
name = "alog_sink"
version = "0.1.0"
edition = "2021"
publish = false

[dependencies]
bb8 = "=0.9.1"
dotenvy = "*"
envy = "*"
eyre = "*"
klickhouse = { version = "=0.15.3", features = ["bb8"] }
secrecy = "=0.10.3"
serde = { version = "*", features = ["derive"] }
tokio = { version = "*", features = ["full"] }
tracing = "*"
tracing-subscriber = { version = "*", features = ["env-filter"] }
tracing-tree = "*"
uuid = { version = "=1.27.0", features = ["v7"] }
xxhash-rust = { version = "=0.8.19", features = ["xxh32"] }

[dev-dependencies]
serde_json = "*"
