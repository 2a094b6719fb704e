[package]
name = "hayfrp_client"
version = "0.1.0"
edition = "2021"
publish = false

[dependencies]
base64 = "=0.22.1"
sha2 = "=0.10.9"
machineid-rs = "=1.2.4"
command-group = { version = "=5.0.1", features = ["with-tokio"] }
tokio = { version = "1", features = ["process", "io-util", "macros", "rt", "rt-multi-thread"] }
