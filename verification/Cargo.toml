[package]
name = "httpress"
version = "0.6.0"
edition = "2021"
publish = false

[dependencies]
bytes = "=1.12.1"
clap = { version = "=4.6.7", features = ["derive"] }
clap_complete = "=4.6.11"
http-body-util = "=0.1.5"
hyper = { version = "=1.12.0", features = ["client", "http1"] }
hyper-tls = "=0.6.0"
hyper-util = { version = "=0.1.21", features = ["client-legacy", "http1", "tokio"] }
indicatif = "=0.17.11"
native-tls = "=0.2.18"
serde = { version = "=1.0.229", features = ["derive"] }
serde_json = "=1.0.154"
thiserror = "=2.0.21"
tokio = { version = "=1.54.1", features = ["full"] }
tokio-native-tls = "=0.3.1"
