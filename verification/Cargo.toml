[package]
name = "blockchain_tree"
version = "0.1.0"
edition = "2021"
publish = false

[dependencies]
serde = { version = "1", features = ["derive"] }
eyre = "0.6"
thiserror = "1"
tui = "0.19"
tokio = { version = "1", features = ["fs", "io-util", "rt"] }
