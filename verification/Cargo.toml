[package]
name = "autopulse"
version = "0.1.0"
edition = "2021"
publish = false

[dependencies]
chrono = "=0.4.45"
anyhow = "=1.0.104"
serde = { version = "=1.0.229", features = ["derive"] }
serde_json = "=1.0.151"
config = { version = "=0.15.27", default-features = false, features = ["toml"] }
tokio = { version = "=1.53.2", features = ["rt-multi-thread", "macros", "time"] }
actix-web = { version = "=4.15.0", default-features = false, features = ["macros"] }
reqwest = { version = "=0.13.5", default-features = false, features = ["json"] }
url = "=2.5.8"
tracing = "=0.1.44"
tracing-subscriber = "=0.3.23"
sha2 = "*"
