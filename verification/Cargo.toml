[package]
name = "orcavoice"
version = "0.2.3"
edition = "2021"
publish = false

[dependencies]
hound = "3.5"
serde = { version = "1", features = ["derive"] }
serde_json = "1"
chrono = "0.4"
uuid = { version = "1", features = ["v4", "serde"] }
thiserror = "2"
reqwest = { version = "0.12", default-features = false, features = ["json", "multipart", "rustls-tls"] }
tokio = { version = "1", features = ["time"] }
keyring = "3"
cpal = "*"
enigo = "*"
