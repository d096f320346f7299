[package]
name = "oar_p2p"
version = "0.1.0"
edition = "2021"
publish = false

[dependencies]
serde_json = "*"
serde = { version = "*", features = ["derive"] }
clap = { version = "*", features = ["derive", "env"] }
tokio = { version = "*", features = ["macros", "rt-multi-thread", "process", "fs", "io-util", "io-std", "sync"] }
futures = "*"
eyre = "*"
color-eyre = "*"
tracing = "*"
tracing-subscriber = { version = "*", features = ["env-filter"] }
