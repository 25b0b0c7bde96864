[package]
name = "id_limiter"
version = "0.1.0"
edition = "2021"
publish = false

[dependencies]
rand = "0.8"
warp = "0.3"
tokio = { version = "1", features = ["macros", "rt-multi-thread"] }
serde = { version = "1", features = ["derive"] }
http = "0.2"
