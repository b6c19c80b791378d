[package]
name = "systemg"
version = "0.1.0"
edition = "2021"
publish = false

[dependencies]
chrono = { version = "=0.4.45", features = ["serde"] }
fs2 = "=0.4.3"
libc = "=0.2.191"
nix = { version = "=0.30.1", features = ["fs", "poll", "process", "signal", "user"] }
quick-xml = { version = "=0.42.0", features = ["serialize"] }
regex = "=1.13.1"
reqwest = { version = "=0.12.28", default-features = false, features = ["blocking"] }
serde = { version = "=1.0.229", features = ["derive"] }
serde_json = "=1.0.154"
serde_yaml = "=0.9.34"
sysinfo = "=0.40.1"
terminal_size = "=0.4.4"
thiserror = "=2.0.21"
tracing = "=0.1.44"
tracing-subscriber = "=0.3.23"

[dev-dependencies]
tempfile = "=3.27.0"
