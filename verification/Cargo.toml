[package]
name = "traffic_forward"
version = "0.1.0"
edition = "2021"
publish = false

[dependencies]
nix = { version = "*", features = ["user"] }
rusqlite = { version = "*", features = ["bundled"] }
serde = { version = "1", features = ["derive"] }
actix-web = { version = "4", default-features = false, features = ["macros"] }
clap = { version = "4", features = ["derive"] }
env_logger = "*"
log = "0.4"
