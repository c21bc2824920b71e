[package]
name = "pub_sub_learning"
version = "0.1.0"
edition = "2021"
publish = false

[dependencies]
chrono = "0.4"
hex = "0.4"
md-5 = "0.10"
nix = { version = "0.29", features = ["fs"] }
rand = "0.9"
serde = { version = "1", features = ["derive"] }
serde_json = "1"
