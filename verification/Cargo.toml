[package]
name = "cloudgrepper"
version = "0.1.0"
edition = "2021"
publish = false

[dependencies]
regex = "=1.13.1"
serde_json = { version = "=1.0.154", features = ["preserve_order"] }
csv = "=1.4.0"
flate2 = "=1.1.10"
zip = "=9.2.2"
chrono = "=0.4.45"
yara-x = { version = "=1.22.1", default-features = false, features = ["constant-folding", "default-modules", "exact-atoms", "fast-regexp"] }
clap = { version = "=4.6.7", features = ["derive"] }
tokio = { version = "=1.54.1", features = ["rt-multi-thread", "macros"] }
futures = "=0.3.34"
tracing = "=0.1.44"
tracing-subscriber = { version = "=0.3.23", features = ["env-filter"] }
anyhow = "=1.0.104"
async-trait = "=0.1.92"
bytes = "=1.12.1"
time = "=0.3.55"
