[package]
name = "lusid"
version = "0.1.0"
edition = "2021"
publish = false

[dependencies]
cuid2 = "=0.1.6"
shell-words = "=1.1.1"
indexmap = "=2.14.2"
tokio = { version = "=1.54.1", features = ["full"] }
serde = { version = "=1.0.229", features = ["derive"] }
serde_json = "=1.0.154"
clap = { version = "=4.6.7", features = ["derive"] }
thiserror = "=2.0.21"
tracing = "=0.1.44"
tracing-subscriber = { version = "=0.3.23", features = ["env-filter"] }
rimu = "=0.2.0"
rimu-eval = "=0.2.0"
nix = { version = "=0.31.3", features = ["user", "fs"] }
filetime = "=0.2.29"
