[package]
name = "lefthk_core"
version = "0.1.0"
edition = "2021"
publish = false

[dependencies]
tokio = { version = "*", default-features = false, features = ["fs", "io-util", "sync", "rt", "macros"] }
nix = { version = "*", default-features = false, features = ["fs"] }
tracing = { version = "*", default-features = false, features = ["std"] }
xdg = "*"
