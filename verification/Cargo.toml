[package]
name = "netsync"
version = "0.1.0"
edition = "2021"
publish = false

[dependencies]
amethyst = { version = "=0.15.3", default-features = false, features = ["renderer", "tiles", "empty"] }
bincode = "1.3"
log = "0.4"
rand = "0.8"
rand_pcg = "0.3"
serde = { version = "1", features = ["derive"] }
