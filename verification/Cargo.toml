[package]
name = "neuronav"
version = "0.1.0"
edition = "2021"
publish = false

[dependencies]
actix-web = { version = "4", default-features = false, features = ["macros"] }
anyhow = "1"
flate2 = "1"
fs_extra = "1"
itertools = "0.11"
log = "0.4"
postcard = { version = "1", features = ["alloc"] }
reqwest = "0.11"
serde = { version = "1", features = ["derive"] }
serde_json = "1"
tokio = { version = "1", features = ["rt-multi-thread", "sync", "macros"] }
