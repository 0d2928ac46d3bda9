[package]
name = "dungeonrs"
version = "0.1.0"
edition = "2021"
publish = false

[dependencies]
blake3 = "=1.8.7"
semver = "=1.0.28"
serde = { version = "=1.0.229", features = ["derive"] }
toml = "=0.8.23"
thiserror = "=2.0.21"
sysinfo = "=0.40.1"
rfd = { version = "=0.17.2", default-features = false, features = ["xdg-portal"] }
bevy = { version = "=0.16.1", default-features = false, features = ["std", "bevy_log"] }
