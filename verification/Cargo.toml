[package]
name = "controll"
version = "0.1.0"
edition = "2021"
publish = false

[dependencies]
anyhow = "*"
enigo = "*"
futures = "*"
hostname = "*"
libc = "*"
rdev = "*"
socket2 = "*"
tokio = { version = "*", features = ["rt-multi-thread", "macros", "net", "sync", "time"] }
tokio-tungstenite = "*"
uuid = { version = "*", features = ["v4"] }

[dev-dependencies]
serde_json = "*"
