[package]
name = "aggregator"
version = "0.1.0"
edition = "2021"
publish = false

[dependencies]
fast-float = "*"
futures = "*"
serde = { version = "*", features = ["derive"] }
serde_json = "*"
thiserror = "*"
tokio = { version = "*", features = ["macros", "net", "rt-multi-thread"] }
tokio-tungstenite = { version = "*", features = ["native-tls"] }
