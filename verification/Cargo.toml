[package]
name = "sakipet"
version = "0.1.0"
edition = "2021"
publish = false

[dependencies]
base64 = "0.22"
image = { version = "0.25", default-features = false, features = ["jpeg", "png", "webp"] }
zip = { version = "2", default-features = false, features = ["deflate"] }
rand = "0.9"
reqwest = { version = "0.12", default-features = false, features = ["json", "stream"] }
keyring = { version = "3", default-features = false }
serde = { version = "1", features = ["derive"] }
serde_json = "1"
tokio = { version = "1", features = ["rt", "time", "macros", "sync"] }
futures-util = "0.3"
