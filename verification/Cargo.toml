[package]
name = "mac_dash"
version = "0.1.0"
edition = "2021"
publish = false

[dependencies]
chrono = "0.4"
dirs = "6"
libc = "0.2"
plist = "1"
serde = { version = "1", features = ["derive"] }
serde_json = "1"
sysinfo = "0.33"
tokio = { version = "1", features = ["process", "io-util", "rt-multi-thread", "macros"] }
