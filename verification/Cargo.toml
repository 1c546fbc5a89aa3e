[package]
name = "mydia_p2p"
version = "0.1.0"
edition = "2021"
publish = false

[dependencies]
iroh = "*"
tokio = { version = "*", features = ["full"] }
uuid = { version = "*", features = ["v4"] }
rand = "*"
blake3 = "*"
tracing = "*"
tracing-subscriber = { version = "*", features = ["env-filter"] }
