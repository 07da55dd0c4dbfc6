[package]
name = "samurai_warriors_derusted"
version = "0.1.0"
edition = "2021"
publish = false

[dependencies]
bevy = { version = "0.12", default-features = false, features = ["bevy_asset"] }
bevy_common_assets = { version = "0.9", features = ["json"] }
bevy_prng = { version = "0.2", features = ["rand_chacha"] }
bevy_rand = "0.4"
rand_core = "0.6"
serde = { version = "1", features = ["derive"] }
