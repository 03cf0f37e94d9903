[package]
name = "exdsdevs"
version = "0.1.0"
edition = "2021"
publish = false

[dependencies]
dyn-clone = "1"
rand = { version = "0.8", default-features = false, features = ["std_rng"] }
serde = { version = "1", features = ["derive"] }
serde_json = "1"
