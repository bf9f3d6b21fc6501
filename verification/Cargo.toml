[package]
name = "sn0int"
version = "0.1.0"
edition = "2021"
publish = false

[dependencies]
semver = "=1.0.28"
serde = { version = "=1.0.229", features = ["derive"] }
serde_json = "=1.0.154"
rocket = { version = "=0.5.2", features = ["json"] }
diesel = { version = "=2.3.14", features = ["sqlite"] }
libsqlite3-sys = { version = "=0.38.2", features = ["bundled"] }
hlua-badtouch = "=0.4.2"
lua52-sys = "=0.1.2"
