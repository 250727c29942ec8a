[package]
name = "nefor_mag"
version = "0.1.0"
edition = "2021"
publish = false

[dependencies]
sha2 = "=0.10.9"
serde = { version = "=1.0.229", features = ["derive"] }
serde_json = { version = "=1.0.154", features = ["preserve_order"] }
clap = { version = "=4.6.7", features = ["derive"] }
thiserror = "=1.0.69"
mlua = { version = "=0.10.5", features = ["lua54", "vendored", "serialize"] }
