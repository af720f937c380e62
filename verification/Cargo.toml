[package]
name = "specdrs"
version = "0.1.0"
edition = "2021"
publish = false

[dependencies]
proc-macro2 = { version = "=1.0.107", features = ["span-locations"] }
quote = "=1.0.47"
syn = { version = "=2.0.119", features = ["full", "extra-traits"] }
serde = { version = "=1.0.229", features = ["derive"] }
serde_json = "=1.0.154"
toml = "=1.1.8"
tokio = { version = "=1.54.1", features = ["rt-multi-thread", "macros", "sync", "time"] }
schemars = "=1.2.3"
rig-core = "=0.40.0"
