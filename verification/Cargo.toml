[package]
name = "hyperlight-unikraft"
version = "0.14.1"
edition = "2021"
publish = false

[dependencies]
sha2 = "*"
tar = "*"
flate2 = "*"
serde = { version = "*", features = ["derive"] }
serde_json = "*"
toml = "*"
ureq = "*"
clap = { version = "*", features = ["derive"] }
tracing = "*"
tracing-subscriber = { version = "*", features = ["env-filter"] }
thiserror = "*"
cap-std = "*"
rustix = { version = "*", features = ["net", "event", "fs"] }
hyperlight-host = "*"
hyperlight-common = "*"
