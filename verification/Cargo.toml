[package]
name = "kepler-daemon"
version = "0.1.0"
edition = "2021"
publish = false

[dependencies]
sha2 = "0.10"
hex = "0.4"
shellexpand = "3"
dotenvy = "0.15"
dashmap = "6"
serde = { version = "1", features = ["derive"] }
serde_yaml = "0.9"
serde_path_to_error = "0.1"
chrono = "0.4"
tokio = { version = "1", features = ["full"] }
tracing = "0.1"
futures = "0.3"
thiserror = "2"
nix = { version = "0.30", features = ["user", "signal", "process", "fs"] }
libc = "0.2"
rusqlite = { version = "*", features = ["bundled"] }
mlua = { version = "*", features = ["luau", "vendored"] }
tikv-jemalloc-ctl = "0.6"
tikv-jemalloc-sys = "0.6"
