[package]
name = "amf_packet"
version = "0.1.0"
edition = "2021"
publish = false

[dependencies]
amf = "*"
clap = { version = "*", features = ["derive"] }
once_cell = "*"
rand = "*"
reqwest = { version = "*", default-features = false }
serde = { version = "*", features = ["derive"] }
tokio = { version = "*", features = ["rt", "macros", "time", "fs"] }
toml = "*"
